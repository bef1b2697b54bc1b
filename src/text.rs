use vstd::prelude::*;

verus! {

/// ASCII decimal digit.
pub open spec fn digit(c: char) -> bool {
    '0' <= c && c <= '9'
}

/// ASCII letter or underscore: what may start an identifier.
pub open spec fn alpha(c: char) -> bool {
    ('a' <= c && c <= 'z') || ('A' <= c && c <= 'Z') || c == '_'
}

pub open spec fn alphanum(c: char) -> bool {
    digit(c) || alpha(c)
}

/// Horizontal white space; a newline is handled on its own.
pub open spec fn space(c: char) -> bool {
    c == ' ' || c == '\t' || c == '\r'
}

/// Characters the scanner skips between tokens.
pub open spec fn blank(c: char) -> bool {
    space(c) || c == '\n'
}

pub fn is_digit(c: char) -> (r: bool)
    ensures
        r == digit(c),
{
    c >= '0' && c <= '9'
}

pub fn is_alpha(c: char) -> (r: bool)
    ensures
        r == alpha(c),
{
    (c >= 'a' && c <= 'z') || (c >= 'A' && c <= 'Z') || c == '_'
}

pub fn is_alphanum(c: char) -> (r: bool)
    ensures
        r == alphanum(c),
{
    is_digit(c) || is_alpha(c)
}

pub fn is_space(c: char) -> (r: bool)
    ensures
        r == space(c),
{
    c == ' ' || c == '\t' || c == '\r'
}

/// `pat` occurs in `src` at position `pos` (an empty pattern occurs at
/// every position up to the end).
pub open spec fn matches_at(src: Seq<char>, pos: int, pat: Seq<char>) -> bool {
    &&& 0 <= pos
    &&& pos + pat.len() <= src.len()
    &&& src.subrange(pos, pos + pat.len()) == pat
}

/// Executable test of `matches_at`.
pub fn pattern_at(src: &Vec<char>, pos: usize, pat: &str) -> (r: bool)
    requires
        pos <= src@.len(),
    ensures
        r == matches_at(src@, pos as int, pat@),
{
    let n: usize = pat.unicode_len();
    let len: usize = src.len();
    if n > len - pos {
        return false;
    }
    let mut i: usize = 0;
    while i < n
        invariant
            n == pat@.len(),
            len == src@.len(),
            pos + n <= src@.len(),
            i <= n,
            forall|j: int| 0 <= j < i ==> src@[pos + j] == pat@[j],
        decreases n - i,
    {
        if src[pos + i] != pat.get_char(i) {
            assert(src@.subrange(pos as int, pos + n)[i as int] != pat@[i as int]);
            return false;
        }
        i += 1;
    }
    assert(src@.subrange(pos as int, pos + n) =~= pat@);
    true
}

/// The characters of `s`, in order.
pub(crate) fn chars_of(s: &str) -> (r: Vec<char>)
    ensures
        r@ == s@,
{
    broadcast use vstd::string::group_string_axioms;

    let mut v: Vec<char> = Vec::new();
    for c in it: s.chars()
        invariant
            it.seq() == s@,
            v@ == it.seq().subrange(0, it.index() as int),
    {
        v.push(c);
    }
    v
}

/// Relies on `String: FromIterator<char>`: the string holds exactly the
/// given characters, in order.
#[verifier::external_body]
pub(crate) fn string_of(cs: &[char]) -> (r: String)
    ensures
        r@ == cs@,
{
    cs.iter().collect()
}

} // verus!
