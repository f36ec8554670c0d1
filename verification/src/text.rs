//! Small text helpers shared by the modules that render keys and seeds.

use vstd::prelude::*;
use vstd::string::StringSliceAdditionalSpecFns;

verus! {

/// Appends one character to a `String`.
///
/// Calls `String::push`; the contract claims that the string's characters
/// afterwards are the old ones followed by `c`, as std documents.
#[verifier::external_body]
pub(crate) fn push_char(s: &mut String, c: char)
    ensures
        final(s)@ == old(s)@.push(c),
{
    s.push(c);
}

/// The characters that stand for a sequence of bytes, one per byte.
pub open spec fn bytes_as_chars(b: Seq<u8>) -> Seq<char> {
    Seq::new(b.len(), |i: int| b[i] as char)
}

/// Builds a `String` holding one character per byte of `b`.
pub fn string_from_bytes(b: &[u8]) -> (r: String)
    ensures
        r@ == bytes_as_chars(b@),
{
    let mut s = String::new();
    let mut i: usize = 0;
    while i < b.len()
        invariant
            i <= b@.len(),
            s@ =~= bytes_as_chars(b@.subrange(0, i as int)),
        decreases b@.len() - i,
    {
        push_char(&mut s, b[i] as char);
        i += 1;
    }
    assert(b@.subrange(0, b@.len() as int) =~= b@);
    s
}

/// Whether two byte slices hold the same bytes.
pub fn bytes_eq(a: &[u8], b: &[u8]) -> (r: bool)
    ensures
        r == (a@ == b@),
{
    if a.len() != b.len() {
        return false;
    }
    let mut i: usize = 0;
    while i < a.len()
        invariant
            a@.len() == b@.len(),
            i <= a@.len(),
            forall|k: int| 0 <= k < i ==> a@[k] == b@[k],
        decreases a@.len() - i,
    {
        if a[i] != b[i] {
            return false;
        }
        i += 1;
    }
    assert(a@ =~= b@);
    true
}


/// The bytes of an ASCII string are its characters, one byte each.
pub proof fn lemma_ascii_str_bytes(s: &str)
    requires
        vstd::utf8::is_ascii_chars(s@),
    ensures
        s.spec_bytes().len() == s@.len(),
        forall|i: int| 0 <= i < s@.len() ==> #[trigger] s.spec_bytes()[i] == s@[i] as u8,
{
    vstd::utf8::is_ascii_chars_encode_utf8(s@);
}


} // verus!
