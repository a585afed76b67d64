//! Character-level helpers for strings.
use vstd::prelude::*;
use vstd::utf8::{decode_utf8, valid_utf8};

verus! {

/// `needle` occurs in `hay` at index `at`.
pub open spec fn occurs_at(hay: Seq<char>, needle: Seq<char>, at: int) -> bool {
    &&& 0 <= at
    &&& at + needle.len() <= hay.len()
    &&& hay.subrange(at, at + needle.len()) == needle
}

/// `needle` is a contiguous part of `hay`.
pub open spec fn contains_text(hay: Seq<char>, needle: Seq<char>) -> bool {
    exists|at: int| #[trigger] occurs_at(hay, needle, at)
}

/// The text of an optional string.
pub open spec fn optional_text(s: Option<String>) -> Option<Seq<char>> {
    match s {
        Some(text) => Some(text@),
        None => None,
    }
}

/// A text contains what stands between any two parts of it.
pub proof fn law_part_is_contained(before: Seq<char>, part: Seq<char>, after: Seq<char>)
    ensures
        contains_text(before + part + after, part),
{
    let hay = before + part + after;
    assert(hay.subrange(before.len() as int, before.len() as int + part.len()) =~= part);
    assert(occurs_at(hay, part, before.len() as int));
}

/// A text that is contained in another is a part of it, with the rest before and behind it.
pub proof fn law_contained_is_part(hay: Seq<char>, part: Seq<char>)
    requires
        contains_text(hay, part),
    ensures
        exists|at: int|
            0 <= at && at + part.len() <= hay.len() && #[trigger] hay.take(at) + part + hay.skip(
                at + part.len(),
            ) == hay,
{
    let at = choose|at: int| #[trigger] occurs_at(hay, part, at);
    assert(hay.take(at) + hay.subrange(at, at + part.len()) + hay.skip(at + part.len()) =~= hay);
}

/// What an optional string says is its text, if it has one.
pub proof fn law_optional_text(s: Option<String>)
    ensures
        s is None <==> optional_text(s) is None,
        s is Some ==> optional_text(s) == Some(s->0@),
{
}

/// The characters of `s`, in order.
pub fn chars_of(s: &str) -> (res: Vec<char>)
    ensures
        res@ == s@,
{
    let mut res: Vec<char> = Vec::new();
    for c in it: s.chars()
        invariant
            it.seq() == s@,
            res@ == s@.take(it.index() as int),
    {
        res.push(c);
        assert(s@.take(it.index() + 1) == s@.take(it.index() as int).push(c));
    }
    assert(s@.take(s@.len() as int) == s@);
    res
}

/// Whether the characters of `hay` from `at` on begin with those of `needle`.
fn matches_at(hay: &Vec<char>, needle: &Vec<char>, at: usize) -> (res: bool)
    requires
        at + needle@.len() <= hay@.len(),
    ensures
        res == occurs_at(hay@, needle@, at as int),
{
    let len: usize = hay.len();
    let mut i: usize = 0;
    while i < needle.len()
        invariant
            i <= needle@.len(),
            len == hay@.len(),
            at + needle@.len() <= len,
            forall|k: int| 0 <= k < i ==> hay@[at + k] == needle@[k],
        decreases needle@.len() - i,
    {
        if hay[at + i] != needle[i] {
            assert(hay@.subrange(at as int, at + needle@.len())[i as int] != needle@[i as int]);
            return false;
        }
        i = i + 1;
    }
    assert(hay@.subrange(at as int, at + needle@.len()) =~= needle@);
    true
}

/// Whether two strings hold the same characters.
pub fn text_eq(a: &str, b: &str) -> (res: bool)
    ensures
        res == (a@ == b@),
{
    let x = chars_of(a);
    let y = chars_of(b);
    if x.len() != y.len() {
        return false;
    }
    let res = matches_at(&x, &y, 0);
    assert(x@.subrange(0, x@.len() as int) =~= x@);
    res
}

/// Whether `needle` is a contiguous part of `hay`.
pub fn has_text(hay: &str, needle: &str) -> (res: bool)
    ensures
        res == contains_text(hay@, needle@),
{
    let x = chars_of(hay);
    let y = chars_of(needle);
    if y.len() > x.len() {
        return false;
    }
    let last: usize = x.len() - y.len();
    let mut at: usize = 0;
    while at <= last
        invariant
            x@ == hay@,
            y@ == needle@,
            last + y@.len() == x@.len(),
            at <= last + 1,
            forall|k: int| 0 <= k < at ==> !#[trigger] occurs_at(hay@, needle@, k),
        decreases last + 1 - at,
    {
        if matches_at(&x, &y, at) {
            return true;
        }
        if at == last {
            return false;
        }
        at = at + 1;
    }
    false
}

/// Calls `std::str::from_utf8`, which gives the text that the bytes encode if they are valid
/// UTF-8 and fails if they are not.
#[verifier::external_body]
pub(crate) fn decode(bytes: &Vec<u8>) -> (res: Option<String>)
    ensures
        optional_text(res) == if valid_utf8(bytes@) {
            Some(decode_utf8(bytes@))
        } else {
            None
        },
{
    std::str::from_utf8(bytes).ok().map(|text| text.to_string())
}

} // verus!
