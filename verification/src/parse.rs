//! The blame-line parser.
//!
//! One line of `git blame` output looks like this:
//!
//! ```text
//! 1e1d1c3c (John Doe 2019-01-01 12:00:00 -0400 142) This is the code
//!
//! ^^^^^^^^  ^^^^^^^^ ^^^^^^^^^^^^^^^^^^^^^^^^^ ^^^  ^^^^^^^^^^^^^^^^
//!    |          |         |                     |     |
//!    |          |         |                     |     +-- file content
//!    |          |         |                     |
//!    |          |         +-- timestamp         +-- line number
//!    |          |
//!    |          +-- author name
//!    |
//!    +-- commit hash
//! ```
//!
//! The commit hash is 4 to 40 lowercase hex characters, optionally prefixed
//! with a single `^` boundary marker (stripped before the hash is used
//! anywhere). Between the hash and the space before the opening parenthesis
//! an original-filename token may appear; it is discarded. The author name
//! starts and ends with a non-space character and is as long as possible
//! while the rest of the line still fits the shape: one or more spaces, a
//! 25-character timestamp `YYYY-MM-DD HH:MM:SS +ZZZZ`, one or more spaces,
//! a line number, `)`, one space, and the contents verbatim to the end.
use vstd::prelude::*;
use vstd::string::*;

verus! {

/// The characters git uses in a commit identifier: lowercase hex.
pub open spec fn is_hex_char(c: char) -> bool {
    ('0' <= c && c <= '9') || ('a' <= c && c <= 'f')
}

/// A decimal digit.
pub open spec fn is_digit_char(c: char) -> bool {
    '0' <= c && c <= '9'
}

/// The classes of characters whose runs delimit the fields of a blame line.
#[derive(Clone, Copy, PartialEq, Eq, Structural, Debug)]
pub enum CharClass {
    Hex,
    Digit,
    Space,
}

/// Whether a character belongs to a class.
pub open spec fn char_in_class(c: char, k: CharClass) -> bool {
    match k {
        CharClass::Hex => is_hex_char(c),
        CharClass::Digit => is_digit_char(c),
        CharClass::Space => c == ' ',
    }
}

/// The first position at or after `i` whose character leaves the class
/// (`s.len()` if the run reaches the end of the line).
pub open spec fn run_end(s: Seq<char>, i: int, k: CharClass) -> int
    decreases s.len() - i,
{
    if i < 0 || i >= s.len() {
        i
    } else if char_in_class(s[i], k) {
        run_end(s, i + 1, k)
    } else {
        i
    }
}

pub proof fn lemma_run_end(s: Seq<char>, i: int, k: CharClass)
    requires
        0 <= i <= s.len(),
    ensures
        i <= run_end(s, i, k) <= s.len(),
        forall|j: int| i <= j < run_end(s, i, k) ==> char_in_class(s[j], k),
        run_end(s, i, k) < s.len() ==> !char_in_class(s[run_end(s, i, k)], k),
    decreases s.len() - i,
{
    if i < s.len() && char_in_class(s[i], k) {
        lemma_run_end(s, i + 1, k);
    }
}

/// The first position at or after `i` holding character `c`
/// (`s.len()` if there is none).
pub open spec fn first_pos(s: Seq<char>, i: int, c: char) -> int
    decreases s.len() - i,
{
    if i < 0 || i >= s.len() {
        s.len() as int
    } else if s[i] == c {
        i
    } else {
        first_pos(s, i + 1, c)
    }
}

pub proof fn lemma_first_pos(s: Seq<char>, i: int, c: char)
    requires
        0 <= i <= s.len(),
    ensures
        i <= first_pos(s, i, c) <= s.len(),
        forall|j: int| i <= j < first_pos(s, i, c) ==> s[j] != c,
        first_pos(s, i, c) < s.len() ==> s[first_pos(s, i, c)] == c,
    decreases s.len() - i,
{
    if i < s.len() && s[i] != c {
        lemma_first_pos(s, i + 1, c);
    }
}

/// Whether a 25-character timestamp `YYYY-MM-DD HH:MM:SS +ZZZZ` stands at
/// position `a`.
pub open spec fn timestamp_at(s: Seq<char>, a: int) -> bool {
    &&& 0 <= a
    &&& a + 25 <= s.len()
    &&& is_digit_char(s[a])
    &&& is_digit_char(s[a + 1])
    &&& is_digit_char(s[a + 2])
    &&& is_digit_char(s[a + 3])
    &&& s[a + 4] == '-'
    &&& is_digit_char(s[a + 5])
    &&& is_digit_char(s[a + 6])
    &&& s[a + 7] == '-'
    &&& is_digit_char(s[a + 8])
    &&& is_digit_char(s[a + 9])
    &&& s[a + 10] == ' '
    &&& is_digit_char(s[a + 11])
    &&& is_digit_char(s[a + 12])
    &&& s[a + 13] == ':'
    &&& is_digit_char(s[a + 14])
    &&& is_digit_char(s[a + 15])
    &&& s[a + 16] == ':'
    &&& is_digit_char(s[a + 17])
    &&& is_digit_char(s[a + 18])
    &&& s[a + 19] == ' '
    &&& (s[a + 20] == '-' || s[a + 20] == '+')
    &&& is_digit_char(s[a + 21])
    &&& is_digit_char(s[a + 22])
    &&& is_digit_char(s[a + 23])
    &&& is_digit_char(s[a + 24])
}

/// The shape the line must have after the author name ends at position `p`:
/// spaces, the timestamp, spaces, the line number, `)`, one space, then the
/// contents (possibly empty) to the end of the line.
pub open spec fn tail_shape(s: Seq<char>, p: int) -> bool {
    let q1 = run_end(s, p, CharClass::Space);
    let q2 = run_end(s, q1 + 25, CharClass::Space);
    let q3 = run_end(s, q2, CharClass::Digit);
    &&& 0 <= p < s.len()
    &&& q1 > p
    &&& timestamp_at(s, q1)
    &&& q2 > q1 + 25
    &&& q3 > q2
    &&& q3 + 2 <= s.len()
    &&& s[q3] == ')'
    &&& s[q3 + 1] == ' '
}

/// Whether the author name can end right before position `p`, given the
/// opening parenthesis at `op`: the name is non-empty, starts and ends with
/// a non-space character, and the tail shape follows.
pub open spec fn author_end_valid(s: Seq<char>, op: int, p: int) -> bool {
    &&& 0 <= op
    &&& op + 3 <= p <= s.len()
    &&& s[op + 1] != ' '
    &&& s[p - 1] != ' '
    &&& tail_shape(s, p)
}

/// The greatest position `<= p` where the author name can end (the name is
/// as long as possible), or -1 when there is none.
pub open spec fn best_author_end_from(s: Seq<char>, op: int, p: int) -> int
    decreases p,
{
    if p < 0 || op < 0 || p < op + 3 {
        -1
    } else if author_end_valid(s, op, p) {
        p
    } else {
        best_author_end_from(s, op, p - 1)
    }
}

/// The position where the author name of line `s` ends, or -1 when no
/// position fits.
pub open spec fn author_end(s: Seq<char>) -> int {
    best_author_end_from(s, first_pos(s, 0, '('), s.len() as int)
}

/// 1 when the line carries the `^` boundary-commit marker, else 0.
pub open spec fn boundary_skip(s: Seq<char>) -> int {
    if s.len() > 0 && s[0] == '^' {
        1
    } else {
        0
    }
}

/// The position right after the commit hash: the hex run following the
/// boundary marker, capped at 40 characters.
pub open spec fn sha_end(s: Seq<char>) -> int {
    let b = boundary_skip(s);
    let h = run_end(s, b, CharClass::Hex);
    if h - b > 40 {
        b + 40
    } else {
        h
    }
}

/// The shape of the line up to the opening parenthesis: a hash of at least
/// 4 hex characters, then an optional discarded filename token, then a
/// single space right before the first `(` of the line.
pub open spec fn head_shape(s: Seq<char>) -> bool {
    let b = boundary_skip(s);
    let op = first_pos(s, 0, '(');
    &&& sha_end(s) - b >= 4
    &&& 1 <= op < s.len()
    &&& s[op - 1] == ' '
    &&& sha_end(s) <= op - 1
}

/// Whether a whole line of blame output is well formed.
pub open spec fn line_matches(s: Seq<char>) -> bool {
    &&& head_shape(s)
    &&& author_end(s) >= 0
}

/// The fields parsed out of one blame line.
#[derive(PartialEq, Clone, Debug)]
pub struct BlameRecord {
    /// The commit hash, boundary marker stripped.
    pub commit_sha: String,
    /// The author name, as long as the line shape allows.
    pub author: String,
    /// The 25-character timestamp, kept as display text.
    pub timestamp: String,
    /// The line number, kept as text.
    pub line_number: String,
    /// The rest of the line, verbatim.
    pub contents: String,
}

/// The mathematical model of a parsed blame line.
#[verifier::ext_equal]
pub ghost struct BlameRecordView {
    pub commit_sha: Seq<char>,
    pub author: Seq<char>,
    pub timestamp: Seq<char>,
    pub line_number: Seq<char>,
    pub contents: Seq<char>,
}

impl View for BlameRecord {
    type V = BlameRecordView;

    open spec fn view(&self) -> BlameRecordView {
        BlameRecordView {
            commit_sha: self.commit_sha@,
            author: self.author@,
            timestamp: self.timestamp@,
            line_number: self.line_number@,
            contents: self.contents@,
        }
    }
}

/// What parsing a well-formed line yields, field by field.
pub open spec fn spec_parse_line(s: Seq<char>) -> BlameRecordView {
    let op = first_pos(s, 0, '(');
    let p = author_end(s);
    let q1 = run_end(s, p, CharClass::Space);
    let q2 = run_end(s, q1 + 25, CharClass::Space);
    let q3 = run_end(s, q2, CharClass::Digit);
    BlameRecordView {
        commit_sha: s.subrange(boundary_skip(s), sha_end(s)),
        author: s.subrange(op + 1, p),
        timestamp: s.subrange(q1, q1 + 25),
        line_number: s.subrange(q2, q3),
        contents: s.subrange(q3 + 2, s.len() as int),
    }
}

proof fn lemma_run_end_shift(s: Seq<char>, t: Seq<char>, i: int, k: CharClass)
    requires
        t =~= seq!['^'].add(s),
        0 <= i <= s.len(),
    ensures
        run_end(t, i + 1, k) == run_end(s, i, k) + 1,
    decreases s.len() - i,
{
    assert(t[i + 1] == s[i] || i == s.len());
    if i < s.len() && char_in_class(s[i], k) {
        lemma_run_end_shift(s, t, i + 1, k);
    }
}

proof fn lemma_first_pos_shift(s: Seq<char>, t: Seq<char>, i: int, c: char)
    requires
        t =~= seq!['^'].add(s),
        0 <= i <= s.len(),
    ensures
        first_pos(t, i + 1, c) == first_pos(s, i, c) + 1,
    decreases s.len() - i,
{
    assert(t[i + 1] == s[i] || i == s.len());
    if i < s.len() && s[i] != c {
        lemma_first_pos_shift(s, t, i + 1, c);
    }
}

proof fn lemma_tail_shape_shift(s: Seq<char>, t: Seq<char>, p: int)
    requires
        t =~= seq!['^'].add(s),
        0 <= p <= s.len(),
    ensures
        tail_shape(t, p + 1) == tail_shape(s, p),
{
    assert(forall|j: int| 1 <= j < t.len() ==> t[j] == s[j - 1]);
    lemma_run_end_shift(s, t, p, CharClass::Space);
    let q1 = run_end(s, p, CharClass::Space);
    lemma_run_end(s, p, CharClass::Space);
    if q1 + 25 <= s.len() {
        lemma_run_end_shift(s, t, q1 + 25, CharClass::Space);
        let q2 = run_end(s, q1 + 25, CharClass::Space);
        lemma_run_end(s, q1 + 25, CharClass::Space);
        lemma_run_end_shift(s, t, q2, CharClass::Digit);
        assert(timestamp_at(t, q1 + 1) == timestamp_at(s, q1));
    } else {
        assert(!timestamp_at(s, q1));
        assert(!timestamp_at(t, q1 + 1));
    }
}

proof fn lemma_author_end_valid_shift(s: Seq<char>, t: Seq<char>, op: int, p: int)
    requires
        t =~= seq!['^'].add(s),
        0 <= op,
        0 <= p <= s.len(),
    ensures
        author_end_valid(t, op + 1, p + 1) == author_end_valid(s, op, p),
{
    assert(forall|j: int| 1 <= j < t.len() ==> t[j] == s[j - 1]);
    lemma_tail_shape_shift(s, t, p);
}

proof fn lemma_best_author_end_shift(s: Seq<char>, t: Seq<char>, op: int, p: int)
    requires
        t =~= seq!['^'].add(s),
        0 <= op,
        -1 <= p <= s.len(),
    ensures
        best_author_end_from(t, op + 1, p + 1) == if best_author_end_from(s, op, p) == -1 {
            -1
        } else {
            best_author_end_from(s, op, p) + 1
        },
    decreases p + 1,
{
    if p < 0 || p < op + 3 {
    } else {
        lemma_author_end_valid_shift(s, t, op, p);
        if !author_end_valid(s, op, p) {
            lemma_best_author_end_shift(s, t, op, p - 1);
        }
    }
}

proof fn lemma_best_author_end_props(s: Seq<char>, op: int, p: int)
    requires
        best_author_end_from(s, op, p) >= 0,
    ensures
        op + 3 <= best_author_end_from(s, op, p) <= p,
        author_end_valid(s, op, best_author_end_from(s, op, p)),
    decreases p,
{
    if p < 0 || op < 0 || p < op + 3 {
    } else if author_end_valid(s, op, p) {
    } else {
        lemma_best_author_end_props(s, op, p - 1);
    }
}

/// Boundary stripping: a line carrying the `^` boundary-commit marker
/// parses exactly as the same line without the marker does; in particular
/// the commit sha — the key into the metadata cache — is identical, so a
/// boundary commit and a non-boundary commit with the same sha are one
/// logical commit.
pub proof fn lemma_boundary_marker_stripped(s: Seq<char>)
    requires
        s.len() == 0 || s[0] != '^',
    ensures
        ({
            let t = seq!['^'].add(s);
            &&& (line_matches(t) <==> line_matches(s))
            &&& (line_matches(s) ==> spec_parse_line(t) == spec_parse_line(s))
        }),
{
    let t = seq!['^'].add(s);
    assert(t[0] == '^');
    assert(forall|j: int| 1 <= j < t.len() ==> t[j] == s[j - 1]);
    assert(boundary_skip(t) == 1);
    assert(boundary_skip(s) == 0);
    lemma_run_end_shift(s, t, 0, CharClass::Hex);
    lemma_run_end(s, 0, CharClass::Hex);
    assert(sha_end(t) == sha_end(s) + 1);
    lemma_first_pos_shift(s, t, 0, '(');
    let op = first_pos(s, 0, '(');
    lemma_first_pos(s, 0, '(');
    assert(first_pos(t, 0, '(') == op + 1);
    assert(head_shape(t) == head_shape(s)) by {
        if 1 <= op < s.len() {
            assert(t[op] == s[op - 1]);
        }
    }
    lemma_best_author_end_shift(s, t, op, s.len() as int);
    assert(best_author_end_from(t, op + 1, s.len() as int + 1) == author_end(t));
    assert(line_matches(t) <==> line_matches(s));
    if line_matches(s) {
        let p = author_end(s);
        lemma_best_author_end_props(s, op, s.len() as int);
        assert(author_end(t) == p + 1);
        lemma_run_end_shift(s, t, p, CharClass::Space);
        let q1 = run_end(s, p, CharClass::Space);
        lemma_run_end(s, p, CharClass::Space);
        lemma_run_end_shift(s, t, q1 + 25, CharClass::Space);
        let q2 = run_end(s, q1 + 25, CharClass::Space);
        lemma_run_end(s, q1 + 25, CharClass::Space);
        lemma_run_end_shift(s, t, q2, CharClass::Digit);
        let q3 = run_end(s, q2, CharClass::Digit);
        assert(t.subrange(1int + 1, sha_end(s) + 1) =~= s.subrange(1int, sha_end(s)));
        assert(spec_parse_line(t).commit_sha =~= spec_parse_line(s).commit_sha);
        assert(spec_parse_line(t).author =~= spec_parse_line(s).author);
        assert(spec_parse_line(t).timestamp =~= spec_parse_line(s).timestamp);
        assert(spec_parse_line(t).line_number =~= spec_parse_line(s).line_number);
        assert(spec_parse_line(t).contents =~= spec_parse_line(s).contents);
        assert(spec_parse_line(t) =~= spec_parse_line(s));
    }
}

/// The characters of `s`, for constant-time position access.
pub fn chars_of(s: &str) -> (v: Vec<char>)
    ensures
        v@ == s@,
{
    let n = s.unicode_len();
    let mut v: Vec<char> = Vec::new();
    let mut i: usize = 0;
    while i < n
        invariant
            i <= n,
            n == s@.len(),
            v@ == s@.subrange(0, i as int),
        decreases n - i,
    {
        let c = s.get_char(i);
        v.push(c);
        proof {
            assert(s@.subrange(0, i + 1 as int) =~= s@.subrange(0, i as int).push(s@[i as int]));
        }
        i += 1;
    }
    proof {
        assert(v@ =~= s@);
    }
    v
}

/// Whether a character belongs to a class, as an executable check.
pub fn char_in_class_exec(c: char, k: CharClass) -> (r: bool)
    ensures
        r == char_in_class(c, k),
{
    match k {
        CharClass::Hex => ('0' <= c && c <= '9') || ('a' <= c && c <= 'f'),
        CharClass::Digit => '0' <= c && c <= '9',
        CharClass::Space => c == ' ',
    }
}

fn run_end_exec(v: &Vec<char>, i: usize, k: CharClass) -> (r: usize)
    requires
        i <= v@.len(),
    ensures
        r == run_end(v@, i as int, k),
        i <= r <= v@.len(),
{
    let mut j = i;
    while j < v.len() && char_in_class_exec(v[j], k)
        invariant
            i <= j <= v@.len(),
            run_end(v@, i as int, k) == run_end(v@, j as int, k),
        decreases v@.len() - j,
    {
        j += 1;
    }
    proof {
        lemma_run_end(v@, j as int, k);
    }
    j
}

pub fn first_pos_exec(v: &Vec<char>, i: usize, c: char) -> (r: usize)
    requires
        i <= v@.len(),
    ensures
        r == first_pos(v@, i as int, c),
        i <= r <= v@.len(),
{
    let mut j = i;
    while j < v.len() && v[j] != c
        invariant
            i <= j <= v@.len(),
            first_pos(v@, i as int, c) == first_pos(v@, j as int, c),
        decreases v@.len() - j,
    {
        j += 1;
    }
    j
}

fn timestamp_at_exec(v: &Vec<char>, a: usize) -> (r: bool)
    ensures
        r == timestamp_at(v@, a as int),
{
    if v.len() < 25 || a > v.len() - 25 {
        return false;
    }
    digit_at(v, a) && digit_at(v, a + 1) && digit_at(v, a + 2) && digit_at(v, a + 3) && v[a + 4]
        == '-' && digit_at(v, a + 5) && digit_at(v, a + 6) && v[a + 7] == '-' && digit_at(v, a + 8)
        && digit_at(v, a + 9) && v[a + 10] == ' ' && digit_at(v, a + 11) && digit_at(v, a + 12)
        && v[a + 13] == ':' && digit_at(v, a + 14) && digit_at(v, a + 15) && v[a + 16] == ':'
        && digit_at(v, a + 17) && digit_at(v, a + 18) && v[a + 19] == ' ' && (v[a + 20] == '-' || v[a
        + 20] == '+') && digit_at(v, a + 21) && digit_at(v, a + 22) && digit_at(v, a + 23)
        && digit_at(v, a + 24)
}

fn digit_at(v: &Vec<char>, i: usize) -> (r: bool)
    requires
        i < v@.len(),
    ensures
        r == is_digit_char(v@[i as int]),
{
    '0' <= v[i] && v[i] <= '9'
}

fn tail_shape_exec(v: &Vec<char>, p: usize) -> (r: bool)
    requires
        p <= v@.len(),
    ensures
        r == tail_shape(v@, p as int),
{
    if p >= v.len() {
        return false;
    }
    let q1 = run_end_exec(v, p, CharClass::Space);
    if q1 <= p {
        return false;
    }
    if !timestamp_at_exec(v, q1) {
        return false;
    }
    let q2 = run_end_exec(v, q1 + 25, CharClass::Space);
    if q2 <= q1 + 25 {
        return false;
    }
    let q3 = run_end_exec(v, q2, CharClass::Digit);
    if q3 <= q2 {
        return false;
    }
    if v.len() - q3 < 2 {
        return false;
    }
    v[q3] == ')' && v[q3 + 1] == ' '
}

fn author_end_valid_exec(v: &Vec<char>, op: usize, p: usize) -> (r: bool)
    requires
        op < v@.len(),
        p <= v@.len(),
    ensures
        r == author_end_valid(v@, op as int, p as int),
{
    if p < 3 || p - 3 < op {
        return false;
    }
    if op + 1 >= v.len() {
        return false;
    }
    if v[op + 1] == ' ' {
        return false;
    }
    if v[p - 1] == ' ' {
        return false;
    }
    tail_shape_exec(v, p)
}

/// Parses one line of raw blame output, or reports that it does not have
/// the recognized shape.
pub fn parse_line(line: &str) -> (r: Option<BlameRecord>)
    ensures
        r is Some <==> line_matches(line@),
        (r matches Some(rec) ==> rec@ == spec_parse_line(line@)),
{
    let v = chars_of(line);
    let n = v.len();
    let b: usize = if n > 0 && v[0] == '^' {
        1
    } else {
        0
    };
    let h = run_end_exec(&v, b, CharClass::Hex);
    let sha_e: usize = if h - b > 40 {
        b + 40
    } else {
        h
    };
    assert(sha_e == sha_end(line@));
    let op = first_pos_exec(&v, 0, '(');
    if h - b < 4 || op < 1 || op >= n || v[op - 1] != ' ' || sha_e > op - 1 {
        assert(!head_shape(line@));
        return None;
    }
    assert(head_shape(line@));
    // Find the greatest position where the author name can end.
    let mut p: usize = n;
    loop
        invariant
            v@ == line@,
            op == first_pos(line@, 0, '('),
            op < v@.len(),
            p <= v@.len(),
            best_author_end_from(v@, op as int, v@.len() as int) == best_author_end_from(
                v@,
                op as int,
                p as int,
            ),
        ensures
            op + 3 <= p <= v@.len(),
            author_end_valid(v@, op as int, p as int),
            best_author_end_from(v@, op as int, v@.len() as int) == p,
        decreases p,
    {
        if p < 3 || p - 3 < op {
            assert(best_author_end_from(v@, op as int, p as int) == -1);
            return None;
        }
        if author_end_valid_exec(&v, op, p) {
            assert(best_author_end_from(v@, op as int, p as int) == p);
            break;
        }
        p -= 1;
    }
    assert(p == author_end(line@));
    assert(author_end_valid(v@, op as int, p as int));
    proof {
        lemma_run_end(v@, p as int, CharClass::Space);
    }
    let q1 = run_end_exec(&v, p, CharClass::Space);
    assert(timestamp_at(v@, q1 as int));
    let q2 = run_end_exec(&v, q1 + 25, CharClass::Space);
    let q3 = run_end_exec(&v, q2, CharClass::Digit);
    let rec = BlameRecord {
        commit_sha: String::from_str(line.substring_char(b, sha_e)),
        author: String::from_str(line.substring_char(op + 1, p)),
        timestamp: String::from_str(line.substring_char(q1, q1 + 25)),
        line_number: String::from_str(line.substring_char(q2, q3)),
        contents: String::from_str(line.substring_char(q3 + 2, n)),
    };
    Some(rec)
}

} // verus!
