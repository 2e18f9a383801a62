//! Comparisons and conversions on strings.

use vstd::prelude::*;
use vstd::std_specs::iter::IteratorSpec;
use vstd::string::StringExecFns;
use vstd::string::StringSliceAdditionalSpecFns;
use vstd::utf8::{encode_utf8, encode_utf8_decode_utf8};

verus! {

/// Whether two strings hold the same characters.
pub fn same_text(a: &str, b: &str) -> (same: bool)
    ensures
        same == (a@ == b@),
{
    let x = a.as_bytes();
    let y = b.as_bytes();
    proof {
        encode_utf8_decode_utf8(a@);
        encode_utf8_decode_utf8(b@);
    }
    if x.len() != y.len() {
        return false;
    }
    let mut i: usize = 0;
    while i < x.len()
        invariant
            i <= x.len(),
            x.len() == y.len(),
            x@ == encode_utf8(a@),
            y@ == encode_utf8(b@),
            forall|k: int| 0 <= k < i ==> x@[k] == y@[k],
        decreases x.len() - i,
    {
        if x[i] != y[i] {
            return false;
        }
        i += 1;
    }
    assert(x@ =~= y@);
    true
}

/// The lower-case form that `str::to_lowercase` gives.
pub uninterp spec fn lowercase_of(text: Seq<char>) -> Seq<char>;

/// Calls `str::to_lowercase`. Trusted: the result is the lower-case form of
/// the text, by the rules of Unicode.
#[verifier::external_body]
pub(crate) fn lowercase(text: &str) -> (lowered: String)
    ensures
        lowered@ == lowercase_of(text@),
{
    text.to_lowercase()
}

/// Whether `text` ends with the characters of `ending`.
pub open spec fn has_ending(text: Seq<char>, ending: Seq<char>) -> bool {
    ending.len() <= text.len() && text.subrange(text.len() - ending.len(), text.len() as int)
        == ending
}

/// Whether `text` ends with the characters of `ending`.
pub fn ends_with(text: &str, ending: &str) -> (ends: bool)
    ensures
        ends == has_ending(text@, ending@),
{
    let whole = chars_of(text);
    let end = chars_of(ending);
    if end.len() > whole.len() {
        return false;
    }
    let start = whole.len() - end.len();
    let ghost tail = whole@.subrange(start as int, whole.len() as int);
    let mut i: usize = 0;
    while i < end.len()
        invariant
            i <= end.len(),
            whole@ == text@,
            end@ == ending@,
            start + end.len() == whole.len(),
            tail == whole@.subrange(start as int, whole.len() as int),
            forall|k: int| 0 <= k < i ==> tail[k] == end@[k],
        decreases end.len() - i,
    {
        if whole[start + i] != end[i] {
            assert(tail[i as int] != end@[i as int]);
            return false;
        }
        i += 1;
    }
    assert(tail =~= end@);
    true
}

/// `front`, then `back`, in one string.
pub fn chain(front: &str, back: &str) -> (whole: String)
    ensures
        whole@ == front@ + back@,
{
    let mut whole = front.to_owned();
    whole.append(back);
    whole
}

/// The characters of a string, one by one.
pub fn chars_of(text: &str) -> (chars: Vec<char>)
    ensures
        chars@ == text@,
{
    let mut rest = text.chars();
    let mut chars: Vec<char> = Vec::new();
    loop
        invariant
            chars@ + rest.remaining() == text@,
            rest.obeys_prophetic_iter_laws(),
            rest.decrease() is Some,
        decreases rest.decrease()->0,
    {
        match rest.next() {
            Some(c) => {
                chars.push(c);
                assert(chars@ + rest.remaining() =~= text@);
            },
            None => {
                assert(chars@ =~= text@);
                return chars;
            },
        }
    }
}

} // verus!
