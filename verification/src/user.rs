//! Identities: local accounts carry a salted password digest; federated
//! accounts carry neither hash nor salt. The store enforces unique
//! usernames and never discloses, on a failed login, whether the
//! username or the password was wrong.

use vstd::prelude::*;
use vstd::string::StrSliceExecFns;
use vstd::utf8::is_ascii_chars;

use crate::crypto::{generate_salt, hash_password, password_hash_of, ct_str_eq};
use crate::text::is_space_ch;

verus! {

/// An account. Either both `phash` and `psalt` are present (local
/// credentials) or both are empty (federated-only account).
#[derive(Debug)]
pub struct User {
    /// Assigned by the store on first insert; 0 until then.
    pub id: i32,
    pub username: String,
    /// Lowercase hex of the salted SHA-512 password digest, or empty.
    pub phash: String,
    /// Per-account random salt, or empty.
    pub psalt: Vec<u8>,
    /// The user must rotate the password before further use.
    pub must_change_password: bool,
}

/// The credential invariant: both hash and salt, or neither.
pub open spec fn credentials_consistent(u: User) -> bool {
    (u.phash@.len() == 128 && u.psalt@.len() == 64) || (u.phash@.len() == 0 && u.psalt@.len() == 0)
}

pub open spec fn is_upper_ch(c: char) -> bool {
    65 <= c as u32 && c as u32 <= 90
}

pub open spec fn is_lower_ch(c: char) -> bool {
    97 <= c as u32 && c as u32 <= 122
}

pub open spec fn is_digit_ch(c: char) -> bool {
    48 <= c as u32 && c as u32 <= 57
}

/// The credential rule for local accounts: at least 8 characters, one
/// uppercase letter, one lowercase letter, one digit, no whitespace,
/// ASCII only.
pub open spec fn valid_password(s: Seq<char>) -> bool {
    &&& s.len() >= 8
    &&& is_ascii_chars(s)
    &&& exists|i: int| 0 <= i < s.len() && is_upper_ch(#[trigger] s[i])
    &&& exists|i: int| 0 <= i < s.len() && is_lower_ch(#[trigger] s[i])
    &&& exists|i: int| 0 <= i < s.len() && is_digit_ch(#[trigger] s[i])
    &&& forall|i: int| 0 <= i < s.len() ==> !is_space_ch(#[trigger] s[i])
}

impl User {
    /// Does a candidate password meet the complexity rule?
    pub fn validate_password(password: &str) -> (r: bool)
        ensures
            r == valid_password(password@),
    {
        let n = password.unicode_len();
        if n < 8 {
            return false;
        }
        if !password.is_ascii() {
            return false;
        }
        let mut has_upper = false;
        let mut has_lower = false;
        let mut has_digit = false;
        let mut i: usize = 0;
        while i < n
            invariant
                n == password@.len(),
                0 <= i <= n,
                has_upper == exists|j: int| 0 <= j < i && is_upper_ch(#[trigger] password@[j]),
                has_lower == exists|j: int| 0 <= j < i && is_lower_ch(#[trigger] password@[j]),
                has_digit == exists|j: int| 0 <= j < i && is_digit_ch(#[trigger] password@[j]),
                forall|j: int| 0 <= j < i ==> !is_space_ch(#[trigger] password@[j]),
            decreases n - i,
        {
            let c = password.get_char(i);
            let v = c as u32;
            if v == 32 || (9 <= v && v <= 13) {
                return false;
            }
            if 65 <= v && v <= 90 {
                has_upper = true;
            }
            if 97 <= v && v <= 122 {
                has_lower = true;
            }
            if 48 <= v && v <= 57 {
                has_digit = true;
            }
            i = i + 1;
        }
        has_upper && has_lower && has_digit
    }

    /// A fresh local account: a new random salt, the password digested
    /// under it, and the id left for the store to assign.
    pub fn new_from_password(username: String, password: String, must_change_password: bool) -> (r: User)
        ensures
            r.id == 0,
            r.username == username,
            r.psalt@.len() == 64,
            r.phash@ == password_hash_of(r.psalt@, password@),
            r.must_change_password == must_change_password,
            credentials_consistent(r),
    {
        let psalt = generate_salt();
        let phash = hash_password(password.as_str(), psalt.as_slice());
        User { id: 0, username, phash, psalt, must_change_password }
    }

    /// Rotate the credential: a new salt, the new password digested
    /// under it, everything else untouched.
    pub fn update_password(&mut self, new_password: String, must_change_password: bool)
        ensures
            final(self).id == old(self).id,
            final(self).username == old(self).username,
            final(self).psalt@.len() == 64,
            final(self).phash@ == password_hash_of(final(self).psalt@, new_password@),
            final(self).must_change_password == must_change_password,
            credentials_consistent(*final(self)),
    {
        let psalt = generate_salt();
        let phash = hash_password(new_password.as_str(), psalt.as_slice());
        self.phash = phash;
        self.psalt = psalt;
        self.must_change_password = must_change_password;
    }
}

/// Does some account carry this username?
pub open spec fn contains_username(s: Seq<User>, name: Seq<char>) -> bool {
    exists|i: int| 0 <= i < s.len() && (#[trigger] s[i]).username@ == name
}

/// Index of the account with this username; meaningful only under
/// `contains_username`, unique once the store is well formed.
pub open spec fn index_of_username(s: Seq<User>, name: Seq<char>) -> int {
    choose|i: int| 0 <= i < s.len() && (#[trigger] s[i]).username@ == name
}

/// The account with this username; meaningful only under
/// `contains_username`.
pub open spec fn user_for(s: Seq<User>, name: Seq<char>) -> User {
    s[index_of_username(s, name)]
}

/// Does some account carry this id?
pub open spec fn contains_user_id(s: Seq<User>, id: i32) -> bool {
    exists|i: int| 0 <= i < s.len() && (#[trigger] s[i]).id == id
}

/// Index of the account with this id; meaningful only under
/// `contains_user_id`, unique once the store is well formed.
pub open spec fn spec_index_of_user_id(s: Seq<User>, id: i32) -> int {
    choose|i: int| 0 <= i < s.len() && (#[trigger] s[i]).id == id
}

/// The username of the account carrying `id`; meaningful only under
/// `contains_user_id`.
pub open spec fn spec_username_of(s: Seq<User>, id: i32) -> Seq<char> {
    s[spec_index_of_user_id(s, id)].username@
}

/// In a store with unique ids, an account carrying `id` at position `k`
/// is the account `spec_index_of_user_id` names.
pub proof fn lemma_unique_user_id_index(s: Seq<User>, id: i32, k: int)
    requires
        forall|i: int, j: int| 0 <= i < j < s.len() ==> (#[trigger] s[i]).id != (#[trigger] s[j]).id,
        0 <= k < s.len(),
        s[k].id == id,
    ensures
        contains_user_id(s, id),
        spec_index_of_user_id(s, id) == k,
{
    assert(contains_user_id(s, id));
}

/// The identity store, keyed by unique username.
pub struct UserStore {
    users: Vec<User>,
    next_id: i32,
}

impl UserStore {
    pub closed spec fn view(&self) -> Seq<User> {
        self.users@
    }

    pub closed spec fn spec_next_id(&self) -> i32 {
        self.next_id
    }

    /// Unique usernames, unique positive ids below the id counter.
    pub open spec fn wf(&self) -> bool {
        &&& forall|i: int, j: int|
            0 <= i < j < self@.len() ==> (#[trigger] self@[i]).username@ != (#[trigger] self@[j]).username@
        &&& forall|i: int, j: int| 0 <= i < j < self@.len() ==> (#[trigger] self@[i]).id != (#[trigger] self@[j]).id
        &&& forall|i: int| 0 <= i < self@.len() ==> 0 < (#[trigger] self@[i]).id < self.spec_next_id()
        &&& self.spec_next_id() >= 1
    }

    pub fn new() -> (r: UserStore)
        ensures
            r.wf(),
            r@ == Seq::<User>::empty(),
            r.spec_next_id() == 1,
    {
        UserStore { users: Vec::new(), next_id: 1 }
    }

    /// Does an account with this username exist?
    pub fn check_username_exists(&self, username: &str) -> (r: bool)
        ensures
            r == contains_username(self@, username@),
    {
        let n = self.users.len();
        let mut k: usize = 0;
        while k < n
            invariant
                n == self@.len(),
                0 <= k <= n,
                forall|i: int| 0 <= i < k ==> (#[trigger] self@[i]).username@ != username@,
            decreases n - k,
        {
            if ct_str_eq(self.users[k].username.as_str(), username) {
                return true;
            }
            k = k + 1;
        }
        false
    }

    /// Upsert by username: a new username gets a fresh id; an existing
    /// one keeps its id and has its credential material replaced.
    /// Returns the id the account now has.
    pub fn insert_or_update(&mut self, user: User) -> (r: i32)
        requires
            old(self).wf(),
            old(self).spec_next_id() < i32::MAX,
        ensures
            final(self).wf(),
            contains_username(final(self)@, user.username@),
            user_for(final(self)@, user.username@).id == r,
            user_for(final(self)@, user.username@).phash == user.phash,
            user_for(final(self)@, user.username@).psalt == user.psalt,
            user_for(final(self)@, user.username@).must_change_password == user.must_change_password,
            if contains_username(old(self)@, user.username@) {
                let i = index_of_username(old(self)@, user.username@);
                &&& r == old(self)@[i].id
                &&& final(self)@ == old(self)@.update(
                    i,
                    User {
                        id: old(self)@[i].id,
                        username: user.username,
                        phash: user.phash,
                        psalt: user.psalt,
                        must_change_password: user.must_change_password,
                    },
                )
                &&& final(self).spec_next_id() == old(self).spec_next_id()
            } else {
                &&& r == old(self).spec_next_id()
                &&& final(self)@ == old(self)@.push(
                    User {
                        id: old(self).spec_next_id(),
                        username: user.username,
                        phash: user.phash,
                        psalt: user.psalt,
                        must_change_password: user.must_change_password,
                    },
                )
                &&& final(self).spec_next_id() == old(self).spec_next_id() + 1
            },
    {
        let n = self.users.len();
        let mut k: usize = 0;
        while k < n
            invariant
                n == self@.len(),
                0 <= k <= n,
                *self == *old(self),
                self.wf(),
                old(self).spec_next_id() < i32::MAX,
                forall|i: int| 0 <= i < k ==> (#[trigger] self@[i]).username@ != user.username@,
            decreases n - k,
        {
            if ct_str_eq(self.users[k].username.as_str(), user.username.as_str()) {
                proof {
                    lemma_unique_username_index(self@, user.username@, k as int);
                }
                let e0 = self.users.remove(k);
                let id = e0.id;
                self.users.insert(
                    k,
                    User {
                        id,
                        username: user.username,
                        phash: user.phash,
                        psalt: user.psalt,
                        must_change_password: user.must_change_password,
                    },
                );
                proof {
                    let s0 = old(self)@;
                    let s1 = self@;
                    assert(s1 =~= s0.update(k as int, s1[k as int]));
                    assert forall|i: int, j: int|
                        0 <= i < j < s1.len() implies (#[trigger] s1[i]).username@
                        != (#[trigger] s1[j]).username@ by {
                        assert(s0[i].username@ != s0[j].username@);
                    };
                    assert forall|i: int, j: int| 0 <= i < j < s1.len() implies (#[trigger] s1[i]).id
                        != (#[trigger] s1[j]).id by {
                        assert(s0[i].id != s0[j].id);
                    };
                    lemma_unique_username_index(s1, user.username@, k as int);
                }
                return id;
            }
            k = k + 1;
        }
        let id = self.next_id;
        self.users.push(
            User {
                id,
                username: user.username,
                phash: user.phash,
                psalt: user.psalt,
                must_change_password: user.must_change_password,
            },
        );
        self.next_id = self.next_id + 1;
        proof {
            lemma_unique_username_index(self@, user.username@, old(self)@.len() as int);
        }
        id
    }

    /// Retrieve an account by username. Private on purpose: every
    /// caller outside the store must go through
    /// `get_by_username_password`, which checks the credential.
    fn get_by_username(&self, username: &str) -> (r: Option<&User>)
        requires
            self.wf(),
        ensures
            match r {
                Some(u) => contains_username(self@, username@) && *u == user_for(self@, username@),
                None => !contains_username(self@, username@),
            },
    {
        let n = self.users.len();
        let mut k: usize = 0;
        while k < n
            invariant
                n == self@.len(),
                0 <= k <= n,
                self.wf(),
                forall|i: int| 0 <= i < k ==> (#[trigger] self@[i]).username@ != username@,
            decreases n - k,
        {
            if ct_str_eq(self.users[k].username.as_str(), username) {
                proof {
                    lemma_unique_username_index(self@, username@, k as int);
                }
                return Some(&self.users[k]);
            }
            k = k + 1;
        }
        None
    }

    /// Retrieve an account by username and password. `None` for an
    /// unknown username and for a wrong password alike; the comparison
    /// of the digests runs in constant time.
    pub fn get_by_username_password(&self, username: &str, password: &str) -> (r: Option<&User>)
        requires
            self.wf(),
        ensures
            match r {
                Some(u) => {
                    &&& contains_username(self@, username@)
                    &&& *u == user_for(self@, username@)
                    &&& u.phash@ == password_hash_of(u.psalt@, password@)
                },
                None => !contains_username(self@, username@) || user_for(self@, username@).phash@
                    != password_hash_of(user_for(self@, username@).psalt@, password@),
            },
    {
        match self.get_by_username(username) {
            Some(user) => {
                let computed = hash_password(password, user.psalt.as_slice());
                if ct_str_eq(computed.as_str(), user.phash.as_str()) {
                    Some(user)
                } else {
                    None
                }
            },
            None => None,
        }
    }

    /// The id of the account with this username, if any.
    pub fn get_id_from_username(&self, username: &str) -> (r: Option<i32>)
        requires
            self.wf(),
        ensures
            match r {
                Some(id) => contains_username(self@, username@) && id == user_for(
                    self@,
                    username@,
                ).id,
                None => !contains_username(self@, username@),
            },
    {
        match self.get_by_username(username) {
            Some(u) => Some(u.id),
            None => None,
        }
    }

    /// Retrieve an account by id.
    pub fn get_by_user_id(&self, id: i32) -> (r: Option<&User>)
        requires
            self.wf(),
        ensures
            match r {
                Some(u) => contains_user_id(self@, id) && u.id == id && *u == self@[spec_index_of_user_id(self@, id)],
                None => !contains_user_id(self@, id),
            },
    {
        let n = self.users.len();
        let mut k: usize = 0;
        while k < n
            invariant
                n == self@.len(),
                0 <= k <= n,
                self.wf(),
                forall|i: int| 0 <= i < k ==> (#[trigger] self@[i]).id != id,
            decreases n - k,
        {
            if self.users[k].id == id {
                proof {
                    lemma_unique_user_id_index(self@, id, k as int);
                }
                return Some(&self.users[k]);
            }
            k = k + 1;
        }
        None
    }
}

/// In a store with unique usernames, an account matching the username
/// at position `k` is the account `index_of_username` names.
pub proof fn lemma_unique_username_index(s: Seq<User>, name: Seq<char>, k: int)
    requires
        forall|i: int, j: int|
            0 <= i < j < s.len() ==> (#[trigger] s[i]).username@ != (#[trigger] s[j]).username@,
        0 <= k < s.len(),
        s[k].username@ == name,
    ensures
        contains_username(s, name),
        index_of_username(s, name) == k,
{
    assert(contains_username(s, name));
}

} // verus!
