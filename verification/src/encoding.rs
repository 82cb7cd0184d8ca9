//! Text and bytes: whether bytes are UTF-8, and how bytes are shown as text.
use vstd::prelude::*;

verus! {

/// What `String::from_utf8_lossy` makes of `bytes`.
pub uninterp spec fn utf8_lossy(bytes: Seq<u8>) -> Seq<char>;

/// Calls `String::from_utf8_lossy`. Believed of it: its result depends on the
/// bytes alone, and bytes that are UTF-8 come out as the text they encode. How
/// it replaces ill-formed bytes is left to the name `utf8_lossy`.
#[verifier::external_body]
pub(crate) fn lossy(bytes: &[u8]) -> (r: String)
    ensures
        r@ == utf8_lossy(bytes@),
        vstd::utf8::valid_utf8(bytes@) ==> r@ == vstd::utf8::decode_utf8(bytes@),
{
    String::from_utf8_lossy(bytes).into_owned()
}

/// Whether `b` continues a multi-byte character.
fn continues(b: u8) -> (r: bool)
    ensures
        r == vstd::utf8::is_continuation_byte(b),
{
    0x80 <= b && b <= 0xbf
}

/// The length of the character that starts at `bytes[k]`, or 0 if no
/// well-formed character starts there.
fn scalar_len(bytes: &[u8], k: usize) -> (r: usize)
    requires
        k < bytes.len(),
    ensures
        r == 0 ==> !vstd::utf8::valid_first_scalar(bytes@.skip(k as int)),
        r > 0 ==> vstd::utf8::valid_first_scalar(bytes@.skip(k as int)) && r == vstd::utf8::length_of_first_scalar(
            bytes@.skip(k as int),
        ) && k + r <= bytes@.len(),
{
    let ghost s = bytes@.skip(k as int);
    let left: usize = bytes.len() - k;
    let b1: u8 = bytes[k];
    assert(s[0] == b1);
    if b1 <= 0x7f {
        return 1;
    }
    if b1 < 0xc0 || b1 > 0xf7 || left < 2 {
        return 0;
    }
    let b2: u8 = bytes[k + 1];
    assert(s[1] == b2);
    if !continues(b2) {
        return 0;
    }
    if b1 <= 0xdf {
        let point: u32 = (((b1 & 0x1F) as u32) << 6) | ((b2 & 0x3F) as u32);
        assert(point == vstd::utf8::codepoint_width_2(b1, b2));
        proof {
            assert(point < 0x800) by (bit_vector)
                requires
                    point == (((b1 & 0x1F) as u32) << 6) | ((b2 & 0x3F) as u32),
            ;
        }
        return if 0x80 <= point {
            2
        } else {
            0
        };
    }
    if left < 3 {
        return 0;
    }
    let b3: u8 = bytes[k + 2];
    assert(s[2] == b3);
    if !continues(b3) {
        return 0;
    }
    if b1 <= 0xef {
        let point: u32 = (((b1 & 0x0F) as u32) << 12) | (((b2 & 0x3F) as u32) << 6) | ((b3
            & 0x3F) as u32);
        assert(point == vstd::utf8::codepoint_width_3(b1, b2, b3));
        return if 0x800 <= point && !(0xD800 <= point && point <= 0xDFFF) {
            3
        } else {
            0
        };
    }
    if left < 4 {
        return 0;
    }
    let b4: u8 = bytes[k + 3];
    assert(s[3] == b4);
    if !continues(b4) {
        return 0;
    }
    let point: u32 = (((b1 & 0x07) as u32) << 18) | (((b2 & 0x3F) as u32) << 12) | (((b3
        & 0x3F) as u32) << 6) | ((b4 & 0x3F) as u32);
    assert(point == vstd::utf8::codepoint_width_4(b1, b2, b3, b4));
    if 0x10000 <= point && point <= 0x10ffff {
        4
    } else {
        0
    }
}

/// Whether `bytes` are UTF-8.
pub fn is_utf8(bytes: &[u8]) -> (r: bool)
    ensures
        r == vstd::utf8::valid_utf8(bytes@),
{
    let mut k: usize = 0;
    assert(bytes@.skip(0) =~= bytes@);
    while k < bytes.len()
        invariant
            k <= bytes.len(),
            vstd::utf8::valid_utf8(bytes@) == vstd::utf8::valid_utf8(bytes@.skip(k as int)),
        decreases bytes.len() - k,
    {
        let n: usize = scalar_len(bytes, k);
        if n == 0 {
            return false;
        }
        proof {
            let s = bytes@.skip(k as int);
            assert(s.subrange(n as int, s.len() as int) =~= bytes@.skip(k + n));
        }
        k += n;
    }
    true
}

/// `what` is missing at the place shown as `shown`.
pub fn not_found(what: &str, shown: &str) -> (r: String)
    ensures
        r@ == what@ + " not found: "@ + shown@,
{
    let mut out = what.to_string();
    out.append(" not found: ");
    out.append(shown);
    out
}

} // verus!
