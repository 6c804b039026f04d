//! The archive of community-made items (cars, stages, stage pieces,
//! wheels): the item taxonomy, and the parser for the textual metadata
//! file each item carries.

use vstd::prelude::*;
use vstd::string::StrSliceExecFns;
use vstd::string::StringExecFns;

use crate::text::is_space_ch;

verus! {

/// Lowercase mapping for ASCII letters; other characters unchanged.
pub open spec fn lower_ch(c: char) -> char {
    if 65 <= c as u32 && c as u32 <= 90 {
        (c as u32 + 32) as char
    } else {
        c
    }
}

/// Character-wise ASCII lowercasing.
pub open spec fn ascii_lower(s: Seq<char>) -> Seq<char> {
    Seq::new(s.len(), |i: int| lower_ch(s[i]))
}

/// Relies on str::to_ascii_lowercase: ASCII letters are mapped to their
/// lowercase forms, every other character is unchanged.
pub assume_specification[ str::to_ascii_lowercase ](s: &str) -> (r: String)
    ensures
        r@ == ascii_lower(s@),
;

/// Does the character occur?
pub open spec fn has_char(s: Seq<char>, c: char) -> bool {
    exists|i: int| 0 <= i < s.len() && s[i] == c
}

/// Index of the first occurrence, or -1.
pub open spec fn find_char(s: Seq<char>, c: char) -> int
    decreases s.len(),
{
    if s.len() == 0 {
        -1
    } else if s[0] == c {
        0
    } else {
        let r = find_char(s.drop_first(), c);
        if r < 0 {
            -1
        } else {
            r + 1
        }
    }
}

/// `find_char` names the first occurrence when there is one, -1
/// otherwise.
pub proof fn lemma_find_char(s: Seq<char>, c: char)
    ensures
        has_char(s, c) ==> {
            let k = find_char(s, c);
            &&& 0 <= k < s.len()
            &&& s[k] == c
            &&& forall|j: int| 0 <= j < k ==> s[j] != c
        },
        !has_char(s, c) ==> find_char(s, c) == -1,
    decreases s.len(),
{
    if s.len() == 0 {
    } else if s[0] == c {
    } else {
        lemma_find_char(s.drop_first(), c);
        assert forall|i: int| 0 <= i < s.len() && s[i] == c implies has_char(s.drop_first(), c) by {
            assert(s.drop_first()[i - 1] == c);
        };
        if has_char(s, c) {
            let i = choose|i: int| 0 <= i < s.len() && s[i] == c;
            assert(has_char(s.drop_first(), c));
            let k = find_char(s.drop_first(), c);
            assert forall|j: int| 0 <= j < k + 1 implies s[j] != c by {
                if j > 0 {
                    assert(s.drop_first()[j - 1] != c);
                }
            };
        } else {
            if has_char(s.drop_first(), c) {
                let k = choose|k: int| 0 <= k < s.drop_first().len() && s.drop_first()[k] == c;
                assert(s[k + 1] == c);
            }
        }
    }
}

/// How many times the character occurs.
pub open spec fn count_char(s: Seq<char>, c: char) -> int
    decreases s.len(),
{
    if s.len() == 0 {
        0int
    } else {
        count_char(s.drop_last(), c) + if s.last() == c {
            1int
        } else {
            0int
        }
    }
}

/// The sequence with leading ASCII whitespace removed.
pub open spec fn trim_start_spec(s: Seq<char>) -> Seq<char>
    decreases s.len(),
{
    if s.len() == 0 {
        s
    } else if is_space_ch(s[0]) {
        trim_start_spec(s.drop_first())
    } else {
        s
    }
}

/// The sequence with trailing ASCII whitespace removed.
pub open spec fn trim_end_spec(s: Seq<char>) -> Seq<char>
    decreases s.len(),
{
    if s.len() == 0 {
        s
    } else if is_space_ch(s.last()) {
        trim_end_spec(s.drop_last())
    } else {
        s
    }
}

/// The sequence with surrounding ASCII whitespace removed.
pub open spec fn trim_spec(s: Seq<char>) -> Seq<char> {
    trim_end_spec(trim_start_spec(s))
}

/// The pieces of `s` between occurrences of `c`: always at least one
/// piece, empty pieces kept.
pub open spec fn split_char(s: Seq<char>, c: char) -> Seq<Seq<char>>
    decreases s.len(),
{
    let k = find_char(s, c);
    if 0 <= k && k < s.len() {
        seq![s.subrange(0, k)] + split_char(s.subrange(k + 1, s.len() as int), c)
    } else {
        seq![s]
    }
}

/// The pieces re-joined with `c` between them.
pub open spec fn join_char(parts: Seq<Seq<char>>, c: char) -> Seq<char>
    decreases parts.len(),
{
    if parts.len() == 0 {
        Seq::<char>::empty()
    } else if parts.len() == 1 {
        parts[0]
    } else {
        parts[0] + seq![c] + join_char(parts.drop_first(), c)
    }
}

/// Joining after one more piece appends a separator and the piece.
proof fn lemma_join_push(parts: Seq<Seq<char>>, c: char, x: Seq<char>)
    requires
        parts.len() > 0,
    ensures
        join_char(parts.push(x), c) == join_char(parts, c) + seq![c] + x,
    decreases parts.len(),
{
    if parts.len() == 1 {
        assert(parts.push(x).drop_first() =~= seq![x]);
        assert(join_char(seq![x], c) == x);
        assert(join_char(parts.push(x), c) =~= join_char(parts, c) + seq![c] + x);
    } else {
        assert(parts.push(x).drop_first() =~= parts.drop_first().push(x));
        lemma_join_push(parts.drop_first(), c, x);
        assert(join_char(parts.push(x), c) =~= join_char(parts, c) + seq![c] + x);
    }
}

/// Re-joining the split pieces restores the original text, so the
/// parameter list a parsed line carries loses nothing: `parse_file`'s
/// joined field values are exactly the text between the brackets.
pub proof fn lemma_join_undoes_split(s: Seq<char>, c: char)
    ensures
        join_char(split_char(s, c), c) == s,
    decreases s.len(),
{
    lemma_find_char(s, c);
    let k = find_char(s, c);
    if 0 <= k && k < s.len() {
        let rest = s.subrange(k + 1, s.len() as int);
        lemma_join_undoes_split(rest, c);
        let parts = split_char(s, c);
        assert(split_char(rest, c).len() >= 1);
        assert(parts[0] == s.subrange(0, k));
        assert(parts.drop_first() =~= split_char(rest, c));
        assert(join_char(parts, c) == s.subrange(0, k) + seq![c] + join_char(
            split_char(rest, c),
            c,
        ));
        assert(s.subrange(0, k) + seq![c] + rest =~= s);
    }
}

/// What one (already lowercased) metadata line means: nothing for a
/// line outside the `attribute(param,param,...)` shape, else the
/// attribute name (surrounding whitespace trimmed) and the parameters.
/// A line qualifies when it starts with a lowercase letter, has `(`
/// before `)`, and carries no more than two brackets in all.
pub open spec fn parse_line_spec(line: Seq<char>) -> Option<(Seq<char>, Seq<Seq<char>>)> {
    if !(line.len() > 0 && 97 <= line[0] as u32 && line[0] as u32 <= 122) {
        None
    } else if !has_char(line, ')') || !has_char(line, '(') {
        None
    } else {
        let close = find_char(line, ')');
        let open = find_char(line, '(');
        if close < open {
            None
        } else if count_char(line, '(') + count_char(line, ')') > 2 {
            None
        } else {
            Some(
                (
                    trim_spec(line.subrange(0, open)),
                    split_char(line.subrange(open + 1, close), ','),
                ),
            )
        }
    }
}

/// Field info that may be relevant to all archive entries.
#[derive(Debug)]
pub struct GenericArchiveFileInfo {
    pub name: String,
    pub author: Option<String>,
    /// (Folder, Filename). Always defined for stages; never for
    /// anything else.
    pub soundtrack: Option<(String, String)>,
    pub description: Option<String>,
    pub tags: Vec<String>,
}

/// What kind of item an archive entry is.
#[derive(Clone, Copy, Debug, PartialEq, Eq, Structural)]
pub enum ArchiveItemType {
    Car,
    Stage,
    StagePiece,
    Wheel,
}

impl ArchiveItemType {
    /// The lowercase name of the item kind.
    pub fn kind_name(&self) -> (r: String)
        ensures
            *self is Car ==> r@ == "car"@,
            *self is Stage ==> r@ == "stage"@,
            *self is StagePiece ==> r@ == "stage_piece"@,
            *self is Wheel ==> r@ == "wheel"@,
    {
        match self {
            ArchiveItemType::Car => "car".to_owned(),
            ArchiveItemType::Stage => "stage".to_owned(),
            ArchiveItemType::StagePiece => "stage_piece".to_owned(),
            ArchiveItemType::Wheel => "wheel".to_owned(),
        }
    }

    /// The archive directory an item kind lives in: the kind's name,
    /// pluralised.
    pub fn dir_name(&self) -> (r: String)
        ensures
            *self is Car ==> r@ == "cars"@,
            *self is Stage ==> r@ == "stages"@,
            *self is StagePiece ==> r@ == "stage_pieces"@,
            *self is Wheel ==> r@ == "wheels"@,
    {
        let base = self.kind_name();
        proof {
            reveal_strlit("car");
            reveal_strlit("cars");
            reveal_strlit("stage");
            reveal_strlit("stages");
            reveal_strlit("stage_piece");
            reveal_strlit("stage_pieces");
            reveal_strlit("wheel");
            reveal_strlit("wheels");
            reveal_strlit("s");
        }
        let r = base.concat("s");
        proof {
            if *self is Car {
                assert(r@ =~= "cars"@);
            }
            if *self is Stage {
                assert(r@ =~= "stages"@);
            }
            if *self is StagePiece {
                assert(r@ =~= "stage_pieces"@);
            }
            if *self is Wheel {
                assert(r@ =~= "wheels"@);
            }
        }
        r
    }

    /// The item kind a lowercase name denotes, if any.
    pub fn from_name(value: &str) -> (r: Option<ArchiveItemType>)
        ensures
            value@ == "car"@ ==> r == Some(ArchiveItemType::Car),
            value@ == "stage"@ ==> r == Some(ArchiveItemType::Stage),
            value@ == "stage_piece"@ ==> r == Some(ArchiveItemType::StagePiece),
            value@ == "wheel"@ ==> r == Some(ArchiveItemType::Wheel),
            !(value@ == "car"@ || value@ == "stage"@ || value@ == "stage_piece"@ || value@
                == "wheel"@) ==> r is None,
    {
        proof {
            reveal_strlit("car");
            reveal_strlit("stage");
            reveal_strlit("stage_piece");
            reveal_strlit("wheel");
            assert("car"@.len() == 3);
            assert("stage"@.len() == 5);
            assert("stage_piece"@.len() == 11);
            assert("wheel"@.len() == 5);
            assert("stage"@[0] != "wheel"@[0]);
        }
        if crate::text::str_eq(value, "car") {
            Some(ArchiveItemType::Car)
        } else if crate::text::str_eq(value, "stage") {
            Some(ArchiveItemType::Stage)
        } else if crate::text::str_eq(value, "stage_piece") {
            Some(ArchiveItemType::StagePiece)
        } else if crate::text::str_eq(value, "wheel") {
            Some(ArchiveItemType::Wheel)
        } else {
            None
        }
    }

    /// The item kind the wire encodes as a single byte, if valid.
    pub fn from_code(code: u8) -> (r: Option<ArchiveItemType>)
        ensures
            code == 0 ==> r == Some(ArchiveItemType::Car),
            code == 1 ==> r == Some(ArchiveItemType::Stage),
            code == 2 ==> r == Some(ArchiveItemType::StagePiece),
            code == 3 ==> r == Some(ArchiveItemType::Wheel),
            code > 3 ==> r is None,
    {
        match code {
            0 => Some(ArchiveItemType::Car),
            1 => Some(ArchiveItemType::Stage),
            2 => Some(ArchiveItemType::StagePiece),
            3 => Some(ArchiveItemType::Wheel),
            _ => None,
        }
    }
}

/// Split a string at every occurrence of `sep`.
fn split_string(s: &str, sep: char) -> (r: Vec<String>)
    ensures
        r.deep_view() == split_char(s@, sep),
{
    let n = s.unicode_len();
    let mut parts: Vec<String> = Vec::new();
    let mut start: usize = 0;
    let mut i: usize = 0;
    proof {
        assert(s@.subrange(0, n as int) =~= s@);
        assert(parts.deep_view() + split_char(s@, sep) =~= split_char(s@, sep));
    }
    while i < n
        invariant
            n == s@.len(),
            0 <= start <= i <= n,
            split_char(s@, sep) == parts.deep_view() + split_char(
                s@.subrange(start as int, n as int),
                sep,
            ),
            forall|j: int| start <= j < i ==> s@[j] != sep,
        decreases n - i,
    {
        if s.get_char(i) == sep {
            let ghost pre = parts.deep_view();
            let piece = s.substring_char(start, i).to_owned();
            proof {
                let rest = s@.subrange(start as int, n as int);
                lemma_find_char(rest, sep);
                assert(rest[i - start] == sep);
                assert(has_char(rest, sep));
                let k = find_char(rest, sep);
                if k < i - start {
                    assert(s@[start + k] != sep);
                    assert(rest[k] == s@[start + k]);
                }
                if k > i - start {
                    assert(rest[i - start] != sep);
                }
                assert(k == i - start);
                assert(rest.subrange(0, k) =~= s@.subrange(start as int, i as int));
                assert(rest.subrange(k + 1, rest.len() as int) =~= s@.subrange(
                    i + 1,
                    n as int,
                ));
            }
            parts.push(piece);
            proof {
                assert(parts.deep_view() =~= pre.push(s@.subrange(start as int, i as int)));
                assert(parts.deep_view() + split_char(s@.subrange(i + 1, n as int), sep) =~= pre
                    + split_char(s@.subrange(start as int, n as int), sep));
            }
            start = i + 1;
        }
        i = i + 1;
    }
    let ghost pre = parts.deep_view();
    let last = s.substring_char(start, n).to_owned();
    proof {
        let rest = s@.subrange(start as int, n as int);
        lemma_find_char(rest, sep);
        if has_char(rest, sep) {
            let k = find_char(rest, sep);
            assert(s@[start + k] != sep);
            assert(rest[k] == s@[start + k]);
        }
        assert(split_char(rest, sep) =~= seq![rest]);
    }
    parts.push(last);
    proof {
        assert(parts.deep_view() =~= pre + seq![s@.subrange(start as int, n as int)]);
    }
    parts
}

/// Parse one (already lowercased) metadata line. Lines outside the
/// `attribute(param,param,...)` shape are skipped, not errors: the file
/// format interleaves them with lines this parser does not own.
pub fn parse_line(line: String) -> (r: Result<Option<(String, Vec<String>)>, ArchiveFileParseError>)
    ensures
        r is Ok,
        (r->Ok_0 is Some) == (parse_line_spec(line@) is Some),
        parse_line_spec(line@) is Some ==> ({
            let p = parse_line_spec(line@)->0;
            let q = (r->Ok_0)->0;
            q.0@ == p.0 && q.1.deep_view() == p.1
        }),
{
    let s = line.as_str();
    let n = s.unicode_len();
    if n == 0 {
        return Ok(None);
    }
    let c0 = s.get_char(0);
    let v0 = c0 as u32;
    if !(97 <= v0 && v0 <= 122) {
        return Ok(None);
    }
    let mut have_open = false;
    let mut open_idx: usize = 0;
    let mut have_close = false;
    let mut close_idx: usize = 0;
    let mut brackets: usize = 0;
    let mut i: usize = 0;
    proof {
        assert(line@.subrange(0, 0) =~= Seq::<char>::empty());
    }
    while i < n
        invariant
            n == line@.len(),
            s@ == line@,
            0 <= i <= n,
            have_open ==> 0 <= open_idx < i && line@[open_idx as int] == '(' && (forall|j: int|
                0 <= j < open_idx ==> line@[j] != '('),
            !have_open ==> forall|j: int| 0 <= j < i ==> line@[j] != '(',
            have_close ==> 0 <= close_idx < i && line@[close_idx as int] == ')' && (forall|j: int|
                0 <= j < close_idx ==> line@[j] != ')'),
            !have_close ==> forall|j: int| 0 <= j < i ==> line@[j] != ')',
            brackets <= i,
            brackets as int == count_char(line@.subrange(0, i as int), '(') + count_char(
                line@.subrange(0, i as int),
                ')',
            ),
        decreases n - i,
    {
        let c = s.get_char(i);
        proof {
            assert(line@.subrange(0, i + 1 as int).drop_last() =~= line@.subrange(0, i as int));
            assert(line@.subrange(0, i + 1 as int).last() == c);
        }
        if c == '(' {
            brackets = brackets + 1;
            if !have_open {
                have_open = true;
                open_idx = i;
            }
        } else if c == ')' {
            brackets = brackets + 1;
            if !have_close {
                have_close = true;
                close_idx = i;
            }
        }
        i = i + 1;
    }
    proof {
        assert(line@.subrange(0, n as int) =~= line@);
        lemma_find_char(line@, '(');
        lemma_find_char(line@, ')');
        if have_open {
            assert(has_char(line@, '('));
            let k = find_char(line@, '(');
            if k < open_idx as int {
                assert(line@[k] != '(');
            }
            if k > open_idx as int {
                assert(line@[open_idx as int] != '(');
            }
            assert(k == open_idx as int);
        } else {
            if has_char(line@, '(') {
                let w = choose|w: int| 0 <= w < line@.len() && line@[w] == '(';
                assert(line@[w] != '(');
            }
        }
        if have_close {
            assert(has_char(line@, ')'));
            let k = find_char(line@, ')');
            if k < close_idx as int {
                assert(line@[k] != ')');
            }
            if k > close_idx as int {
                assert(line@[close_idx as int] != ')');
            }
            assert(k == close_idx as int);
        } else {
            if has_char(line@, ')') {
                let w = choose|w: int| 0 <= w < line@.len() && line@[w] == ')';
                assert(line@[w] != ')');
            }
        }
    }
    if !have_open || !have_close {
        return Ok(None);
    }
    if close_idx < open_idx {
        return Ok(None);
    }
    if brackets > 2 {
        return Ok(None);
    }
    let ghost region = line@.subrange(0, open_idx as int);
    let mut a: usize = 0;
    let mut scanning = true;
    while scanning && a < open_idx
        invariant
            n == line@.len(),
            s@ == line@,
            open_idx < n,
            0 <= a <= open_idx,
            region == line@.subrange(0, open_idx as int),
            trim_start_spec(region) == trim_start_spec(line@.subrange(a as int, open_idx as int)),
            !scanning ==> a < open_idx && !is_space_ch(line@[a as int]),
        decreases open_idx - a, (if scanning { 1int } else { 0int }),
    {
        let c = s.get_char(a);
        let v = c as u32;
        if v == 32 || (9 <= v && v <= 13) {
            proof {
                let sub = line@.subrange(a as int, open_idx as int);
                assert(sub[0] == line@[a as int]);
                assert(sub.drop_first() =~= line@.subrange(a + 1 as int, open_idx as int));
            }
            a = a + 1;
        } else {
            scanning = false;
        }
    }
    proof {
        if a == open_idx {
            assert(line@.subrange(a as int, open_idx as int) =~= Seq::<char>::empty());
        }
        assert(trim_start_spec(region) == line@.subrange(a as int, open_idx as int));
    }
    let mut b: usize = open_idx;
    let mut scanning2 = true;
    while scanning2 && b > a
        invariant
            n == line@.len(),
            s@ == line@,
            open_idx < n,
            0 <= a <= b <= open_idx,
            trim_start_spec(region) == line@.subrange(a as int, open_idx as int),
            region == line@.subrange(0, open_idx as int),
            trim_end_spec(line@.subrange(a as int, open_idx as int)) == trim_end_spec(
                line@.subrange(a as int, b as int),
            ),
            !scanning2 ==> a < b && !is_space_ch(line@[b - 1]),
        decreases b - a, (if scanning2 { 1int } else { 0int }),
    {
        let c = s.get_char(b - 1);
        let v = c as u32;
        if v == 32 || (9 <= v && v <= 13) {
            proof {
                let sub = line@.subrange(a as int, b as int);
                assert(sub.last() == line@[b - 1]);
                assert(sub.drop_last() =~= line@.subrange(a as int, b - 1));
            }
            b = b - 1;
        } else {
            scanning2 = false;
        }
    }
    proof {
        if a == b {
            assert(line@.subrange(a as int, b as int) =~= Seq::<char>::empty());
        }
        assert(trim_spec(region) == line@.subrange(a as int, b as int));
    }
    let attr = s.substring_char(a, b).to_owned();
    let parts = split_string(s.substring_char(open_idx + 1, close_idx), ',');
    Ok(Some((attr, parts)))
}

/// Join parameter pieces back with commas, undoing the split.
fn join_parts(parts: &Vec<String>) -> (r: String)
    ensures
        r@ == join_char(parts.deep_view(), ','),
{
    let mut out = String::new();
    let n = parts.len();
    let mut k: usize = 0;
    proof {
        assert(parts.deep_view().subrange(0, 0) =~= Seq::<Seq<char>>::empty());
    }
    while k < n
        invariant
            n == parts.deep_view().len(),
            n == parts@.len(),
            0 <= k <= n,
            out@ == join_char(parts.deep_view().subrange(0, k as int), ','),
        decreases n - k,
    {
        proof {
            let dv = parts.deep_view();
            assert(dv.subrange(0, k + 1 as int) =~= dv.subrange(0, k as int).push(dv[k as int]));
            if k > 0 {
                lemma_join_push(dv.subrange(0, k as int), ',', dv[k as int]);
            }
            reveal_strlit(",");
            assert(","@ =~= seq![',']);
            assert(dv[k as int] == parts@[k as int]@);
        }
        if k > 0 {
            out.append(",");
        }
        out.append(parts[k].as_str());
        proof {
            let dv = parts.deep_view();
            if k == 0 {
                assert(join_char(dv.subrange(0, 1), ',') == dv.subrange(0, 1)[0]);
                assert(out@ =~= join_char(dv.subrange(0, 1), ','));
            }
        }
        k = k + 1;
    }
    proof {
        assert(parts.deep_view().subrange(0, n as int) =~= parts.deep_view());
    }
    out
}

/// The running result of reading a metadata file line by line.
pub struct FileFoldState {
    pub name: Option<Seq<char>>,
    pub author: Option<Seq<char>>,
    pub description: Option<Seq<char>>,
    pub soundtrack: Option<(Seq<char>, Seq<char>)>,
    pub tags: Seq<Seq<char>>,
}

/// Before any line was read: nothing known.
pub open spec fn init_fold_state() -> FileFoldState {
    FileFoldState {
        name: None,
        author: None,
        description: None,
        soundtrack: None,
        tags: Seq::<Seq<char>>::empty(),
    }
}

/// What one raw line contributes: the last `name`, `author` (or its
/// maker synonyms) and `desc`/`description` line wins, every `tag` line
/// accumulates, and a `soundtrack` line — honoured only where one is
/// expected — must carry exactly one folder and one filename.
pub open spec fn line_step(st: FileFoldState, line: Seq<char>, expect_soundtrack: bool) -> Result<
    FileFoldState,
    (),
> {
    match parse_line_spec(ascii_lower(line)) {
        None => Ok(st),
        Some(p) => {
            let attr = p.0;
            let joined = join_char(p.1, ',');
            if attr == "name"@ {
                Ok(FileFoldState { name: Some(joined), ..st })
            } else if attr == "author"@ || attr == "carmaker"@ || attr == "stagemaker"@ {
                Ok(FileFoldState { author: Some(joined), ..st })
            } else if attr == "tag"@ {
                Ok(FileFoldState { tags: st.tags.push(joined), ..st })
            } else if attr == "desc"@ || attr == "description"@ {
                Ok(FileFoldState { description: Some(joined), ..st })
            } else if attr == "soundtrack"@ && expect_soundtrack {
                if p.1.len() != 2 {
                    Err(())
                } else {
                    Ok(FileFoldState { soundtrack: Some((p.1[0], p.1[1])), ..st })
                }
            } else {
                Ok(st)
            }
        },
    }
}

/// The whole file, line by line, stopping at the first malformed
/// soundtrack.
pub open spec fn file_fold(st: FileFoldState, lines: Seq<Seq<char>>, expect_soundtrack: bool) -> Result<
    FileFoldState,
    (),
>
    decreases lines.len(),
{
    if lines.len() == 0 {
        Ok(st)
    } else {
        match line_step(st, lines[0], expect_soundtrack) {
            Err(e) => Err(e),
            Ok(st2) => file_fold(st2, lines.drop_first(), expect_soundtrack),
        }
    }
}

/// The fold state the local variables of `parse_file` stand for.
pub open spec fn fold_state_of(
    name: Option<String>,
    author: Option<String>,
    description: Option<String>,
    soundtrack: Option<(String, String)>,
    tags: Vec<String>,
) -> FileFoldState {
    FileFoldState {
        name: name.deep_view(),
        author: author.deep_view(),
        description: description.deep_view(),
        soundtrack: soundtrack.deep_view(),
        tags: tags.deep_view(),
    }
}

/// Parse a whole metadata file: each line is lowercased and read as
/// `parse_line` reads it, the recognised attributes are folded up, and
/// a file without a `name` line is refused.
pub fn parse_file(content: String, expect_soundtrack: bool) -> (r: Result<
    GenericArchiveFileInfo,
    ArchiveFileParseError,
>)
    ensures
        ({
            let folded = file_fold(init_fold_state(), split_char(content@, '\n'), expect_soundtrack);
            match folded {
                Err(e) => r is Err && r->Err_0 is InvalidMusicPath && (
                r->Err_0)->InvalidMusicPath_0@ == "Must have one folder and one filename."@,
                Ok(st) => match st.name {
                    None => r is Err && r->Err_0 is MissingField && (r->Err_0)->MissingField_0@
                        == "Name"@,
                    Some(nm) => r is Ok && ({
                        let info = r->Ok_0;
                        &&& info.name@ == nm
                        &&& info.author.deep_view() == st.author
                        &&& info.description.deep_view() == st.description
                        &&& info.soundtrack.deep_view() == st.soundtrack
                        &&& info.tags.deep_view() == st.tags
                    }),
                },
            }
        }),
{
    let lines = split_string(content.as_str(), '\n');
    let ghost lines_spec = split_char(content@, '\n');
    let mut name: Option<String> = None;
    let mut author: Option<String> = None;
    let mut description: Option<String> = None;
    let mut soundtrack: Option<(String, String)> = None;
    let mut tags: Vec<String> = Vec::new();
    let n = lines.len();
    let mut k: usize = 0;
    proof {
        assert(tags.deep_view() =~= Seq::<Seq<char>>::empty());
        assert(fold_state_of(name, author, description, soundtrack, tags) == init_fold_state());
        assert(lines_spec.subrange(0, lines_spec.len() as int) =~= lines_spec);
    }
    while k < n
        invariant
            lines_spec == split_char(content@, '\n'),
            lines.deep_view() == lines_spec,
            n == lines@.len(),
            n == lines_spec.len(),
            0 <= k <= n,
            file_fold(init_fold_state(), lines_spec, expect_soundtrack) == file_fold(
                fold_state_of(name, author, description, soundtrack, tags),
                lines_spec.subrange(k as int, n as int),
                expect_soundtrack,
            ),
        decreases n - k,
    {
        let ghost st0 = fold_state_of(name, author, description, soundtrack, tags);
        let ghost rest = lines_spec.subrange(k as int, n as int);
        proof {
            assert(rest[0] == lines_spec[k as int]);
            assert(rest.drop_first() =~= lines_spec.subrange(k + 1 as int, n as int));
            assert(lines@[k as int]@ == lines_spec[k as int]);
        }
        let lowered = lines[k].as_str().to_ascii_lowercase();
        let parsed = match parse_line(lowered) {
            Ok(o) => o,
            Err(e) => {
                proof {
                    assert(false);
                }
                return Err(e);
            },
        };
        match parsed {
            None => {},
            Some(pair) => {
                let (attr, parts) = pair;
                let ghost p = parse_line_spec(ascii_lower(lines_spec[k as int]))->0;
                proof {
                    assert(attr@ == p.0 && parts.deep_view() == p.1);
                }
                if crate::text::str_eq(attr.as_str(), "name") {
                    name = Some(join_parts(&parts));
                } else if crate::text::str_eq(attr.as_str(), "author") || crate::text::str_eq(
                    attr.as_str(),
                    "carmaker",
                ) || crate::text::str_eq(attr.as_str(), "stagemaker") {
                    author = Some(join_parts(&parts));
                } else if crate::text::str_eq(attr.as_str(), "tag") {
                    let ghost pre = tags.deep_view();
                    let joined = join_parts(&parts);
                    let ghost jv = joined@;
                    tags.push(joined);
                    proof {
                        assert(tags.deep_view() =~= pre.push(jv));
                    }
                } else if crate::text::str_eq(attr.as_str(), "desc") || crate::text::str_eq(
                    attr.as_str(),
                    "description",
                ) {
                    description = Some(join_parts(&parts));
                } else if crate::text::str_eq(attr.as_str(), "soundtrack") && expect_soundtrack {
                    if parts.len() != 2 {
                        proof {
                            assert(file_fold(st0, rest, expect_soundtrack) == Err::<
                                FileFoldState,
                                (),
                            >(()));
                        }
                        return Err(
                            ArchiveFileParseError::InvalidMusicPath(
                                "Must have one folder and one filename.".to_owned(),
                            ),
                        );
                    }
                    proof {
                        assert(parts@[0]@ == p.1[0] && parts@[1]@ == p.1[1]);
                    }
                    soundtrack = Some((parts[0].clone(), parts[1].clone()));
                }
            },
        }
        proof {
            assert(line_step(st0, lines_spec[k as int], expect_soundtrack) == Ok::<
                FileFoldState,
                (),
            >(fold_state_of(name, author, description, soundtrack, tags)));
        }
        k = k + 1;
    }
    proof {
        assert(lines_spec.subrange(n as int, n as int) =~= Seq::<Seq<char>>::empty());
    }
    let nm = match name {
        Some(nm) => nm,
        None => {
            return Err(ArchiveFileParseError::MissingField("Name".to_owned()));
        },
    };
    Ok(GenericArchiveFileInfo { name: nm, author, soundtrack, description, tags })
}

/// A tag rows in the archive can carry.
#[derive(Debug)]
pub struct ArchiveTag {
    pub id: i32,
    pub name: String,
}

/// Why an archive metadata file was refused.
#[derive(Debug)]
pub enum ArchiveFileParseError {
    /// (Field Name, The Character)
    InvalidCharactersInField(String, String),
    /// (Field Name, Max Length)
    FieldValueTooLong(String, i32),
    /// (Reason)
    InvalidMusicPath(String),
    /// (Field Name) — not all fields are required
    MissingField(String),
    Other(String),
}

impl ArchiveFileParseError {
    /// A short human-readable account of the failure.
    pub fn message(&self) -> (r: String)
        ensures
            *self is Other ==> r@ == "Generic parse error"@ + self->Other_0@,
            !(*self is Other) ==> r@ == "Generic parse error"@,
    {
        match self {
            ArchiveFileParseError::Other(s) => "Generic parse error".to_owned().concat(s.as_str()),
            _ => "Generic parse error".to_owned(),
        }
    }
}

/// Why indexing the archive failed.
#[derive(Debug)]
pub enum IndexError {
    /// Carries the text of the underlying I/O failure.
    IoError(String),
}

/// Whether the archive index can be searched.
#[derive(Clone, Copy, Debug, PartialEq, Eq, Structural)]
pub enum IndexState {
    /// Archive is searchable.
    Healthy,
    /// Archive is unsearchable; index is regenerating.
    Regenerating,
    /// Index is incomplete; searching is disabled. Only happens in the
    /// event of an error when indexing.
    Unhealthy,
}

} // verus!
