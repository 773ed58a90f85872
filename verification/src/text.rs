//! Small helpers for building and reading text.

use vstd::prelude::*;
use vstd::string::StringSliceAdditionalSpecFns;
use vstd::utf8::{encode_utf8, encode_utf8_decode_utf8};

verus! {

/// `String::push` of the standard library: the character is appended to the
/// end of the string, and nothing else changes.
pub assume_specification[ String::push ](s: &mut String, ch: char)
    ensures
        final(s)@ == old(s)@.push(ch),
;

/// Appends every character of `chars` to `out`, in order.
pub fn push_all(out: &mut String, chars: &Vec<char>)
    ensures
        final(out)@ == old(out)@ + chars@,
{
    let mut i: usize = 0;
    while i < chars.len()
        invariant
            i <= chars.len(),
            out@ == old(out)@ + chars@.take(i as int),
        decreases chars.len() - i,
    {
        out.push(chars[i]);
        i += 1;
        assert(chars@.take(i as int) == chars@.take(i - 1).push(chars@[i - 1]));
    }
    assert(chars@.take(i as int) == chars@);
}

/// Appends the ASCII bytes `bytes[from..to]` to `out`, as characters.
pub(crate) fn push_ascii(out: &mut String, bytes: &[u8], from: usize, to: usize)
    requires
        from <= to <= bytes.len(),
    ensures
        final(out)@ == old(out)@ + Seq::new((to - from) as nat, |i: int| bytes@[from + i] as char),
{
    let mut i: usize = from;
    while i < to
        invariant
            from <= i <= to <= bytes.len(),
            out@ == old(out)@ + Seq::new((i - from) as nat, |k: int| bytes@[from + k] as char),
        decreases to - i,
    {
        out.push(bytes[i] as char);
        i += 1;
        assert(out@ =~= old(out)@ + Seq::new((i - from) as nat, |k: int| bytes@[from + k] as char));
    }
}

/// Whether two texts are the same.
pub fn same_text(a: &str, b: &str) -> (r: bool)
    ensures
        r == (a@ == b@),
{
    let left = a.as_bytes();
    let right = b.as_bytes();
    proof {
        // Equal bytes are the bytes of equal texts.
        encode_utf8_decode_utf8(a@);
        encode_utf8_decode_utf8(b@);
    }
    if left.len() != right.len() {
        return false;
    }
    let mut i: usize = 0;
    while i < left.len()
        invariant
            i <= left.len(),
            left.len() == right.len(),
            left@ == encode_utf8(a@),
            right@ == encode_utf8(b@),
            forall|k: int| 0 <= k < i ==> left@[k] == right@[k],
        decreases left.len() - i,
    {
        if left[i] != right[i] {
            return false;
        }
        i += 1;
    }
    assert(left@ =~= right@);
    true
}

} // verus!
