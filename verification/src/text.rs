use vstd::prelude::*;
use vstd::utf8::*;

verus! {

/// `bytes` begins with `prefix`.
pub open spec fn has_prefix(bytes: Seq<u8>, prefix: Seq<u8>) -> bool {
    prefix.len() <= bytes.len() && bytes.subrange(0, prefix.len() as int) == prefix
}

/// `needle` occurs somewhere in `hay` as a contiguous run of bytes.
pub open spec fn occurs_in(hay: Seq<u8>, needle: Seq<u8>) -> bool {
    exists|i: int|
        0 <= i && i + needle.len() <= hay.len() && #[trigger] hay.subrange(i, i + needle.len())
            == needle
}

/// Whether `bytes` starts with `prefix` (the slice method `starts_with`).
pub fn starts_with(bytes: &[u8], prefix: &[u8]) -> (res: bool)
    ensures
        res == has_prefix(bytes@, prefix@),
        res == (prefix@.len() <= bytes@.len() && forall|i: int|
            0 <= i < prefix@.len() ==> bytes@[i] == prefix@[i]),
{
    if prefix.len() > bytes.len() {
        return false;
    }
    assert forall|i: int| 0 <= i < prefix@.len() implies bytes@.subrange(0, prefix@.len() as int)[i]
        == bytes@[i] by {}
    let mut i: usize = 0;
    while i < prefix.len()
        invariant
            prefix@.len() <= bytes@.len(),
            i <= prefix@.len(),
            forall|k: int| 0 <= k < i ==> bytes@[k] == prefix@[k],
        decreases prefix@.len() - i,
    {
        if bytes[i] != prefix[i] {
            assert(bytes@.subrange(0, prefix@.len() as int)[i as int] != prefix@[i as int]);
            assert(bytes@[i as int] != prefix@[i as int]);
            return false;
        }
        i = i + 1;
    }
    assert(bytes@.subrange(0, prefix@.len() as int) =~= prefix@);
    true
}

/// Whether `needle` occurs in `hay` at offset `start`.
fn occurs_at(hay: &[u8], needle: &[u8], start: usize) -> (res: bool)
    requires
        start + needle@.len() <= hay@.len(),
    ensures
        res == (hay@.subrange(start as int, start + needle@.len()) == needle@),
{
    let hay_len = hay.len();
    let mut k: usize = 0;
    while k < needle.len()
        invariant
            hay_len == hay@.len(),
            start + needle@.len() <= hay@.len(),
            k <= needle@.len(),
            forall|m: int| 0 <= m < k ==> hay@[start + m] == needle@[m],
        decreases needle@.len() - k,
    {
        if hay[start + k] != needle[k] {
            assert(hay@.subrange(start as int, start + needle@.len())[k as int] != needle@[k as int]);
            return false;
        }
        k = k + 1;
    }
    assert(hay@.subrange(start as int, start + needle@.len()) =~= needle@);
    true
}

/// Whether the text whose UTF-8 bytes are `hay` contains the text whose UTF-8
/// bytes are `needle` (the string method `contains` with a string pattern).
pub fn contains(hay: &[u8], needle: &[u8]) -> (res: bool)
    ensures
        res == occurs_in(hay@, needle@),
{
    if needle.len() > hay.len() {
        return false;
    }
    let last: usize = hay.len() - needle.len();
    let mut start: usize = 0;
    loop
        invariant
            needle@.len() <= hay@.len(),
            last == hay@.len() - needle@.len(),
            start <= last,
            forall|j: int|
                0 <= j < start ==> #[trigger] hay@.subrange(j, j + needle@.len()) != needle@,
        decreases last - start,
    {
        if occurs_at(hay, needle, start) {
            return true;
        }
        if start == last {
            assert forall|i: int|
                0 <= i && i + needle@.len() <= hay@.len() implies #[trigger] hay@.subrange(
                i,
                i + needle@.len(),
            ) != needle@ by {
                if i == start {
                } else {
                    assert(i < start);
                }
            }
            return false;
        }
        start = start + 1;
    }
}

/// Turns bytes into a `String` with `String::from_utf8`, dropping the error.
/// Trusted: `from_utf8` succeeds exactly when the bytes are well-formed UTF-8
/// (`valid_utf8` of vstd), and the string it returns holds the characters that
/// the bytes encode (`decode_utf8` of vstd).
#[verifier::external_body]
pub(crate) fn string_from_utf8(bytes: Vec<u8>) -> (res: Option<String>)
    ensures
        res.is_some() == valid_utf8(bytes@),
        res matches Some(s) ==> s@ == decode_utf8(bytes@),
{
    String::from_utf8(bytes).ok()
}

} // verus!
