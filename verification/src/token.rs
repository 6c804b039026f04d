//! Session tokens: opaque bearer capabilities, at most one live token
//! per identity. Issuing a new token atomically replaces any existing
//! one, so every previously issued token for that identity is
//! immediately and permanently invalid.

use vstd::prelude::*;
use vstd::seq_lib::group_seq_properties;

use crate::crypto::{ct_str_eq, generate_base64_authentication_token};

verus! {

/// One live session: an identity and the opaque token that names it.
#[derive(Debug)]
pub struct UserToken {
    pub user_id: i32,
    pub token: String,
}

impl UserToken {
    pub fn new(user_id: i32, token: String) -> (r: UserToken)
        ensures
            r.user_id == user_id,
            r.token == token,
    {
        UserToken { user_id, token }
    }
}

impl Clone for UserToken {
    fn clone(&self) -> (r: Self)
        ensures
            r == *self,
    {
        UserToken { user_id: self.user_id, token: self.token.clone() }
    }
}

/// Does some row map `token` to `user_id`?
pub open spec fn token_maps_to(s: Seq<UserToken>, token: Seq<char>, user_id: i32) -> bool {
    exists|i: int|
        0 <= i < s.len() && (#[trigger] s[i]).token@ == token && s[i].user_id == user_id
}

/// Does some row carry `token` at all?
pub open spec fn contains_token(s: Seq<UserToken>, token: Seq<char>) -> bool {
    exists|i: int| 0 <= i < s.len() && (#[trigger] s[i]).token@ == token
}

/// Does some row belong to `user_id`?
pub open spec fn contains_user(s: Seq<UserToken>, user_id: i32) -> bool {
    exists|i: int| 0 <= i < s.len() && (#[trigger] s[i]).user_id == user_id
}

/// The session table. The at-most-one-token-per-identity invariant
/// lives here, in the store itself.
pub struct TokenStore {
    tokens: Vec<UserToken>,
}

impl TokenStore {
    pub closed spec fn view(&self) -> Seq<UserToken> {
        self.tokens@
    }

    /// At most one live token per identity.
    pub open spec fn wf(&self) -> bool {
        forall|i: int, j: int|
            0 <= i < j < self@.len() ==> (#[trigger] self@[i]).user_id != (#[trigger] self@[j]).user_id
    }

    pub fn new() -> (r: TokenStore)
        ensures
            r.wf(),
            r@ == Seq::<UserToken>::empty(),
    {
        TokenStore { tokens: Vec::new() }
    }

    /// Register a session for an identity that has none. (Callers that
    /// may be re-issuing go through `issue`, which revokes first.)
    pub fn insert(&mut self, entry: UserToken)
        requires
            old(self).wf(),
            !contains_user(old(self)@, entry.user_id),
        ensures
            final(self).wf(),
            final(self)@ == old(self)@.push(entry),
    {
        self.tokens.push(entry);
        proof {
            assert forall|i: int, j: int|
                0 <= i < j < self@.len() implies (#[trigger] self@[i]).user_id
                != (#[trigger] self@[j]).user_id by {
                if j < self@.len() - 1 {
                    assert(old(self)@[i].user_id != old(self)@[j].user_id);
                } else {
                    assert(old(self)@[i].user_id != entry.user_id);
                }
            };
        }
    }

    /// Drop every session of this identity: explicit invalidation, used
    /// on logout, credential rotation, and before re-issuing.
    pub fn remove_all(&mut self, user_id: i32)
        ensures
            final(self)@ == old(self)@.filter(|e: UserToken| e.user_id != user_id),
            old(self).wf() ==> final(self).wf(),
    {
        let ghost pred = |e: UserToken| e.user_id != user_id;
        let n = self.tokens.len();
        let mut kept: Vec<UserToken> = Vec::new();
        let mut k: usize = 0;
        proof {
            assert(old(self)@.subrange(0, 0) =~= Seq::<UserToken>::empty());
            reveal(Seq::filter);
        }
        while k < n
            invariant
                n == old(self)@.len(),
                0 <= k <= n,
                self@ == old(self)@,
                kept@ == old(self)@.subrange(0, k as int).filter(pred),
                pred == (|e: UserToken| e.user_id != user_id),
            decreases n - k,
        {
            proof {
                assert(old(self)@.subrange(0, k + 1 as int) =~= old(self)@.subrange(
                    0,
                    k as int,
                ).push(old(self)@[k as int]));
                lemma_token_filter_push(old(self)@.subrange(0, k as int), pred, old(self)@[k as int]);
            }
            let e = self.tokens[k].clone();
            if e.user_id != user_id {
                kept.push(e);
            }
            k = k + 1;
        }
        proof {
            assert(old(self)@.subrange(0, n as int) =~= old(self)@);
        }
        self.tokens = kept;
        proof {
            if old(self).wf() {
                broadcast use group_seq_properties;

                assert forall|i: int, j: int|
                    0 <= i < j < self@.len() implies (#[trigger] self@[i]).user_id
                    != (#[trigger] self@[j]).user_id by {
                    lemma_filter_from_distinct(old(self)@, pred, i, j);
                };
            }
        }
    }

    /// Issue a fresh high-entropy token for this identity, atomically
    /// replacing any existing session. Afterwards exactly one token —
    /// the returned one — verifies as this identity.
    pub fn issue(&mut self, user_id: i32) -> (r: String)
        requires
            old(self).wf(),
        ensures
            final(self).wf(),
            r@.len() == 88,
            final(self)@ == old(self)@.filter(|e: UserToken| e.user_id != user_id).push(
                UserToken { user_id, token: r },
            ),
    {
        let token = generate_base64_authentication_token();
        self.remove_all(user_id);
        proof {
            let pred = |e: UserToken| e.user_id != user_id;
            if contains_user(self@, user_id) {
                let i = choose|i: int| 0 <= i < self@.len() && (#[trigger] self@[i]).user_id == user_id;
                old(self)@.lemma_filter_pred(pred, i);
            }
        }
        self.insert(UserToken { user_id, token: token.clone() });
        token
    }

    /// Look a bearer token up; absence means unauthenticated. Each
    /// comparison runs in constant time with respect to the token
    /// contents.
    pub fn verify(&self, token: &str) -> (r: Option<i32>)
        ensures
            match r {
                Some(u) => token_maps_to(self@, token@, u),
                None => !contains_token(self@, token@),
            },
    {
        let n = self.tokens.len();
        let mut k: usize = 0;
        while k < n
            invariant
                n == self@.len(),
                0 <= k <= n,
                forall|i: int| 0 <= i < k ==> (#[trigger] self@[i]).token@ != token@,
            decreases n - k,
        {
            if ct_str_eq(self.tokens[k].token.as_str(), token) {
                return Some(self.tokens[k].user_id);
            }
            k = k + 1;
        }
        None
    }
}

/// Filtering a sequence extended by one element keeps the element
/// exactly when the predicate accepts it.
proof fn lemma_token_filter_push(s: Seq<UserToken>, pred: spec_fn(UserToken) -> bool, e: UserToken)
    ensures
        s.push(e).filter(pred) == if pred(e) {
            s.filter(pred).push(e)
        } else {
            s.filter(pred)
        },
{
    reveal(Seq::filter);
    assert(s.push(e).drop_last() =~= s);
    assert(s.push(e).last() == e);
}

/// Two positions of a filtered sequence come from two distinct
/// positions of the original, so pairwise-distinct user ids survive
/// filtering.
proof fn lemma_filter_from_distinct(s: Seq<UserToken>, pred: spec_fn(UserToken) -> bool, i: int, j: int)
    requires
        forall|a: int, b: int|
            0 <= a < b < s.len() ==> (#[trigger] s[a]).user_id != (#[trigger] s[b]).user_id,
        0 <= i < j < s.filter(pred).len(),
    ensures
        s.filter(pred)[i].user_id != s.filter(pred)[j].user_id,
    decreases s.len(),
{
    reveal(Seq::filter);
    if s.len() > 0 {
        let f = s.filter(pred);
        let fd = s.drop_last().filter(pred);
        if pred(s.last()) {
            if j < f.len() - 1 {
                assert(fd[i] == f[i] && fd[j] == f[j]);
                lemma_filter_from_distinct(s.drop_last(), pred, i, j);
            } else {
                // f[j] is s.last(); f[i] sits in the filtered prefix, so
                // it equals some earlier element of s
                assert(fd[i] == f[i]);
                lemma_filter_element_from(s.drop_last(), pred, i);
                let a = choose|a: int|
                    0 <= a < s.drop_last().len() && #[trigger] s.drop_last()[a] == fd[i];
                assert(s[a] == fd[i]);
                assert(s[a].user_id != s[s.len() - 1].user_id);
            }
        } else {
            lemma_filter_from_distinct(s.drop_last(), pred, i, j);
            assert(fd[i] == f[i] && fd[j] == f[j]);
        }
    }
}

/// Every element of a filtered sequence occurs in the original.
proof fn lemma_filter_element_from(s: Seq<UserToken>, pred: spec_fn(UserToken) -> bool, i: int)
    requires
        0 <= i < s.filter(pred).len(),
    ensures
        exists|a: int| 0 <= a < s.len() && #[trigger] s[a] == s.filter(pred)[i],
    decreases s.len(),
{
    reveal(Seq::filter);
    if s.len() > 0 {
        let f = s.filter(pred);
        let fd = s.drop_last().filter(pred);
        if pred(s.last()) && i == f.len() - 1 {
            assert(s[s.len() - 1] == f[i]);
        } else {
            assert(fd[i] == f[i]);
            lemma_filter_element_from(s.drop_last(), pred, i);
            let a = choose|a: int|
                0 <= a < s.drop_last().len() && #[trigger] s.drop_last()[a] == fd[i];
            assert(s[a] == fd[i]);
        }
    }
}

/// One accepted (token, salt) pair of the salted challenge-response
/// variant, remembered until its retention window lapses.
#[derive(Debug)]
pub struct SeenSalt {
    pub token: String,
    pub salt: Vec<u8>,
    /// When the pair was accepted, seconds since the epoch.
    pub seen_at: u64,
}

/// Was this salt already accepted for this token?
pub open spec fn ledger_has(s: Seq<SeenSalt>, token: Seq<char>, salt: Seq<u8>) -> bool {
    exists|i: int|
        0 <= i < s.len() && (#[trigger] s[i]).token@ == token && s[i].salt@ == salt
}

/// The used-salt record the salted challenge-response variant requires:
/// without it nothing would stop a middleman from resubmitting a
/// captured (salt, hash) pair, since salt uniqueness alone proves
/// nothing server-side.
pub struct SaltLedger {
    seen: Vec<SeenSalt>,
}

impl SaltLedger {
    pub closed spec fn view(&self) -> Seq<SeenSalt> {
        self.seen@
    }

    pub fn new() -> (r: SaltLedger)
        ensures
            r@ == Seq::<SeenSalt>::empty(),
    {
        SaltLedger { seen: Vec::new() }
    }

    /// Accept a salt for a token at most once: true — and the pair is
    /// recorded — exactly when it was never accepted before. Each
    /// comparison runs in constant time with respect to the secrets.
    pub fn check_and_record(&mut self, token: &str, salt: &[u8], now: u64) -> (r: bool)
        ensures
            r == !ledger_has(old(self)@, token@, salt@),
            !r ==> *final(self) == *old(self),
            r ==> final(self)@.len() == old(self)@.len() + 1 && final(self)@.subrange(
                0,
                old(self)@.len() as int,
            ) == old(self)@ && final(self)@.last().token@ == token@ && final(self)@.last().salt@
                == salt@ && final(self)@.last().seen_at == now,
            ledger_has(final(self)@, token@, salt@),
    {
        let n = self.seen.len();
        let mut k: usize = 0;
        while k < n
            invariant
                n == self@.len(),
                0 <= k <= n,
                *self == *old(self),
                forall|i: int|
                    0 <= i < k ==> !((#[trigger] self@[i]).token@ == token@ && self@[i].salt@
                        == salt@),
            decreases n - k,
        {
            if crate::crypto::ct_str_eq(self.seen[k].token.as_str(), token) && crate::crypto::ct_bytes_eq(
                self.seen[k].salt.as_slice(),
                salt,
            ) {
                return false;
            }
            k = k + 1;
        }
        self.seen.push(
            SeenSalt { token: token.to_owned(), salt: vstd::slice::slice_to_vec(salt), seen_at: now },
        );
        proof {
            assert(self@.subrange(0, old(self)@.len() as int) =~= old(self)@);
            assert(self@.last().token@ == token@ && self@.last().salt@ == salt@);
        }
        true
    }

    /// Drop every pair accepted before the cutoff: the bounded
    /// retention window. A salt older than the window may be accepted
    /// again, so callers pair the window with token expiry.
    pub fn prune(&mut self, cutoff: u64)
        ensures
            final(self)@ == old(self)@.filter(|e: SeenSalt| e.seen_at >= cutoff),
    {
        let ghost pred = |e: SeenSalt| e.seen_at >= cutoff;
        let ghost orig = self.seen@;
        let mut kept: Vec<SeenSalt> = Vec::new();
        let ghost mut k: int = 0;
        proof {
            assert(orig.subrange(0, 0) =~= Seq::<SeenSalt>::empty());
            reveal(Seq::filter);
        }
        while self.seen.len() > 0
            invariant
                0 <= k <= orig.len(),
                self.seen@ == orig.subrange(k, orig.len() as int),
                kept@ == orig.subrange(0, k).filter(pred),
                pred == (|e: SeenSalt| e.seen_at >= cutoff),
            decreases self.seen@.len(),
        {
            let e = self.seen.remove(0);
            proof {
                assert(e == orig[k]);
                assert(self.seen@ =~= orig.subrange(k + 1, orig.len() as int));
                assert(orig.subrange(0, k + 1) =~= orig.subrange(0, k).push(orig[k]));
                lemma_salt_filter_push(orig.subrange(0, k), pred, orig[k]);
            }
            if e.seen_at >= cutoff {
                kept.push(e);
            }
            proof {
                k = k + 1;
            }
        }
        proof {
            assert(orig.subrange(0, orig.len() as int) =~= orig);
        }
        self.seen = kept;
    }
}

/// Filtering a sequence extended by one element keeps the element
/// exactly when the predicate accepts it.
proof fn lemma_salt_filter_push(s: Seq<SeenSalt>, pred: spec_fn(SeenSalt) -> bool, e: SeenSalt)
    ensures
        s.push(e).filter(pred) == if pred(e) {
            s.filter(pred).push(e)
        } else {
            s.filter(pred)
        },
{
    reveal(Seq::filter);
    assert(s.push(e).drop_last() =~= s);
    assert(s.push(e).last() == e);
}

/// The salted challenge-response check, complete: the recomputed hash
/// must match in constant time, and the salt must never have been
/// accepted for this token before; an accepted salt is recorded so a
/// replay of the same pair fails.
pub fn verify_salted_token(
    ledger: &mut SaltLedger,
    token: &str,
    salt: &[u8],
    expected_hash: &str,
    now: u64,
) -> (r: bool)
    ensures
        r == (crate::crypto::password_hash_of(salt@, token@) == expected_hash@ && !ledger_has(
            old(ledger)@,
            token@,
            salt@,
        )),
        r ==> ledger_has(final(ledger)@, token@, salt@),
        !r ==> *final(ledger) == *old(ledger),
{
    if !crate::crypto::validate_salted_authentication_token(token, salt, expected_hash) {
        return false;
    }
    ledger.check_and_record(token, salt, now)
}

/// Issuing a new token for an identity invalidates every previously
/// issued token for it: `issue` leaves the store holding
/// `before.filter(..).push(issued)`, and in that store no token other
/// than the issued one verifies as that identity — `verify` on any
/// earlier token fails immediately.
pub proof fn lemma_issue_invalidates_previous(
    before: Seq<UserToken>,
    after: Seq<UserToken>,
    issued: UserToken,
    old_token: Seq<char>,
)
    requires
        after == before.filter(|e: UserToken| e.user_id != issued.user_id).push(issued),
        old_token != issued.token@,
    ensures
        !token_maps_to(after, old_token, issued.user_id),
{
    let pred = |e: UserToken| e.user_id != issued.user_id;
    if token_maps_to(after, old_token, issued.user_id) {
        let i = choose|i: int|
            0 <= i < after.len() && (#[trigger] after[i]).token@ == old_token && after[i].user_id
                == issued.user_id;
        if i < after.len() - 1 {
            assert(before.filter(pred)[i] == after[i]);
            before.lemma_filter_pred(pred, i);
        }
    }
}

} // verus!
