//! Fixed-width little-endian numbers and length-prefixed text.

use vstd::prelude::*;
use vstd::utf8::encode_utf8;

verus! {

/// 256 to the power `width`.
pub open spec fn byte_range(width: nat) -> nat
    decreases width,
{
    if width == 0 {
        1
    } else {
        256 * byte_range((width - 1) as nat)
    }
}

/// The `width` low bytes of `n`, the least significant first.
pub open spec fn le_bytes(n: nat, width: nat) -> Seq<u8>
    decreases width,
{
    if width == 0 {
        Seq::empty()
    } else {
        seq![(n % 256) as u8] + le_bytes(n / 256, (width - 1) as nat)
    }
}

/// A number takes exactly `width` bytes.
pub proof fn lemma_le_bytes_len(n: nat, width: nat)
    ensures
        le_bytes(n, width).len() == width,
    decreases width,
{
    if width > 0 {
        lemma_le_bytes_len(n / 256, (width - 1) as nat);
    }
}

/// Numbers that fit in `width` bytes are told apart by their bytes.
pub proof fn lemma_le_bytes_injective(a: nat, b: nat, width: nat)
    requires
        a < byte_range(width),
        b < byte_range(width),
        le_bytes(a, width) == le_bytes(b, width),
    ensures
        a == b,
    decreases width,
{
    if width > 0 {
        let rest = (width - 1) as nat;
        let x = le_bytes(a, width);
        let y = le_bytes(b, width);
        lemma_le_bytes_len(a / 256, rest);
        lemma_le_bytes_len(b / 256, rest);
        assert(x[0] == (a % 256) as u8);
        assert(y[0] == (b % 256) as u8);
        assert(x.skip(1) =~= le_bytes(a / 256, rest));
        assert(y.skip(1) =~= le_bytes(b / 256, rest));
        lemma_le_bytes_injective(a / 256, b / 256, rest);
    }
}

/// The ranges of the widths in use.
pub proof fn lemma_byte_ranges()
    ensures
        byte_range(4) == 0x1_0000_0000,
        byte_range(8) == 0x1_0000_0000_0000_0000,
{
    reveal_with_fuel(byte_range, 9);
}

/// Appends the `width` low bytes of `n`.
pub fn write_le(buf: &mut Vec<u8>, n: u64, width: usize)
    ensures
        final(buf)@ == old(buf)@ + le_bytes(n as nat, width as nat),
{
    let mut rest: u64 = n;
    let mut left: usize = width;
    assert(buf@ + le_bytes(rest as nat, left as nat) == old(buf)@ + le_bytes(
        n as nat,
        width as nat,
    ));
    while left > 0
        invariant
            buf@ + le_bytes(rest as nat, left as nat) == old(buf)@ + le_bytes(
                n as nat,
                width as nat,
            ),
        decreases left,
    {
        let ghost before = buf@;
        let b: u8 = (rest % 256) as u8;
        buf.push(b);
        assert(before + le_bytes(rest as nat, left as nat) =~= buf@ + le_bytes(
            (rest / 256) as nat,
            (left - 1) as nat,
        ));
        rest = rest / 256;
        left = left - 1;
    }
    assert(buf@ + le_bytes(rest as nat, 0) =~= buf@);
}

/// Appends the bytes of a slice.
pub fn write_bytes(buf: &mut Vec<u8>, bytes: &[u8])
    ensures
        final(buf)@ == old(buf)@ + bytes@,
{
    let mut i: usize = 0;
    assert(buf@ =~= old(buf)@ + bytes@.take(0));
    while i < bytes.len()
        invariant
            i <= bytes.len(),
            buf@ == old(buf)@ + bytes@.take(i as int),
        decreases bytes.len() - i,
    {
        buf.push(bytes[i]);
        i = i + 1;
        assert(buf@ =~= old(buf)@ + bytes@.take(i as int));
    }
    assert(bytes@.take(i as int) =~= bytes@);
}

/// A text as the length of its UTF-8 encoding in eight bytes, then the encoding.
pub open spec fn text_bytes(s: Seq<char>) -> Seq<u8> {
    le_bytes(encode_utf8(s).len(), 8) + encode_utf8(s)
}

/// The length of the text's encoding fits in eight bytes.
pub open spec fn text_fits(s: Seq<char>) -> bool {
    encode_utf8(s).len() < 0x1_0000_0000_0000_0000
}

/// An absent text as a zero byte, a present one as a one byte and the text.
pub open spec fn opt_text_bytes(s: Option<Seq<char>>) -> Seq<u8> {
    match s {
        Some(s) => seq![1u8] + text_bytes(s),
        None => seq![0u8],
    }
}

/// An absent text fits.
pub open spec fn opt_text_fits(s: Option<Seq<char>>) -> bool {
    s matches Some(s) ==> text_fits(s)
}

/// An absent number as a zero byte, a present one as a one byte and eight bytes.
pub open spec fn opt_number_bytes(n: Option<u64>) -> Seq<u8> {
    match n {
        Some(n) => seq![1u8] + le_bytes(n as nat, 8),
        None => seq![0u8],
    }
}

/// Appends a text with its length in front.
pub fn write_string(buf: &mut Vec<u8>, value: &str)
    ensures
        final(buf)@ == old(buf)@ + text_bytes(value@),
        text_fits(value@),
{
    let bytes = value.as_bytes();
    let n: usize = bytes.len();
    assert(n as nat == bytes@.len());
    write_le(buf, n as u64, 8);
    write_bytes(buf, bytes);
    assert(buf@ =~= old(buf)@ + text_bytes(value@));
}

/// Appends an optional text.
pub fn write_optional_string(buf: &mut Vec<u8>, value: &Option<String>)
    ensures
        final(buf)@ == old(buf)@ + opt_text_bytes(crate::text::opt_text(*value)),
{
    match value {
        Some(value) => {
            buf.push(1);
            write_string(buf, value.as_str());
            assert(buf@ =~= old(buf)@ + (seq![1u8] + text_bytes(value@)));
        },
        None => {
            buf.push(0);
            assert(buf@ =~= old(buf)@ + seq![0u8]);
        },
    }
}

/// Appends an optional number.
pub fn write_optional_number(buf: &mut Vec<u8>, value: Option<u64>)
    ensures
        final(buf)@ == old(buf)@ + opt_number_bytes(value),
{
    match value {
        Some(value) => {
            buf.push(1);
            write_le(buf, value, 8);
            assert(buf@ =~= old(buf)@ + (seq![1u8] + le_bytes(value as nat, 8)));
        },
        None => {
            buf.push(0);
            assert(buf@ =~= old(buf)@ + seq![0u8]);
        },
    }
}

/// Appending in two steps appends both parts.
pub proof fn lemma_append(a: Seq<u8>, b: Seq<u8>, c: Seq<u8>)
    ensures
        (a + b) + c == a + (b + c),
{
    assert((a + b) + c =~= a + (b + c));
}

/// Two byte strings that begin with parts of the same length agree only if the
/// parts agree and what follows agrees.
pub proof fn lemma_same_split(a: Seq<u8>, x: Seq<u8>, b: Seq<u8>, y: Seq<u8>)
    requires
        a + x == b + y,
        a.len() == b.len(),
    ensures
        a == b,
        x == y,
{
    assert(a =~= (a + x).take(a.len() as int));
    assert(b =~= (b + y).take(a.len() as int));
    assert(x =~= (a + x).skip(a.len() as int));
    assert(y =~= (b + y).skip(a.len() as int));
}

/// A number can be read back from the front of a byte string.
pub proof fn lemma_number_front(a: nat, x: Seq<u8>, b: nat, y: Seq<u8>, width: nat)
    requires
        a < byte_range(width),
        b < byte_range(width),
        le_bytes(a, width) + x == le_bytes(b, width) + y,
    ensures
        a == b,
        x == y,
{
    lemma_le_bytes_len(a, width);
    lemma_le_bytes_len(b, width);
    lemma_same_split(le_bytes(a, width), x, le_bytes(b, width), y);
    lemma_le_bytes_injective(a, b, width);
}

/// A text can be read back from the front of a byte string: no two different
/// texts, whatever follows them, encode to the same bytes.
pub proof fn law_text_front(s: Seq<char>, x: Seq<u8>, t: Seq<char>, y: Seq<u8>)
    requires
        text_fits(s),
        text_fits(t),
        text_bytes(s) + x == text_bytes(t) + y,
    ensures
        s == t,
        x == y,
{
    broadcast use vstd::utf8::encode_utf8_decode_utf8;

    lemma_byte_ranges();
    let es = encode_utf8(s);
    let et = encode_utf8(t);
    assert(text_bytes(s) + x =~= le_bytes(es.len(), 8) + (es + x));
    assert(text_bytes(t) + y =~= le_bytes(et.len(), 8) + (et + y));
    lemma_number_front(es.len(), es + x, et.len(), et + y, 8);
    lemma_same_split(es, x, et, y);
    assert(vstd::utf8::decode_utf8(es) == s);
    assert(vstd::utf8::decode_utf8(et) == t);
}

/// An optional text can be read back from the front of a byte string.
pub proof fn lemma_opt_text_front(
    s: Option<Seq<char>>,
    x: Seq<u8>,
    t: Option<Seq<char>>,
    y: Seq<u8>,
)
    requires
        opt_text_fits(s),
        opt_text_fits(t),
        opt_text_bytes(s) + x == opt_text_bytes(t) + y,
    ensures
        s == t,
        x == y,
{
    assert((opt_text_bytes(s) + x)[0] == opt_text_bytes(s)[0]);
    assert((opt_text_bytes(t) + y)[0] == opt_text_bytes(t)[0]);
    match (s, t) {
        (Some(a), Some(b)) => {
            assert(opt_text_bytes(s) + x =~= seq![1u8] + (text_bytes(a) + x));
            assert(opt_text_bytes(t) + y =~= seq![1u8] + (text_bytes(b) + y));
            lemma_same_split(seq![1u8], text_bytes(a) + x, seq![1u8], text_bytes(b) + y);
            law_text_front(a, x, b, y);
        },
        (None, None) => {
            lemma_same_split(seq![0u8], x, seq![0u8], y);
        },
        _ => {},
    }
}

/// An optional number can be read back from the front of a byte string.
pub proof fn lemma_opt_number_front(a: Option<u64>, x: Seq<u8>, b: Option<u64>, y: Seq<u8>)
    requires
        opt_number_bytes(a) + x == opt_number_bytes(b) + y,
    ensures
        a == b,
        x == y,
{
    lemma_byte_ranges();
    assert((opt_number_bytes(a) + x)[0] == opt_number_bytes(a)[0]);
    assert((opt_number_bytes(b) + y)[0] == opt_number_bytes(b)[0]);
    match (a, b) {
        (Some(m), Some(n)) => {
            let p = le_bytes(m as nat, 8);
            let q = le_bytes(n as nat, 8);
            assert(opt_number_bytes(a) + x =~= seq![1u8] + (p + x));
            assert(opt_number_bytes(b) + y =~= seq![1u8] + (q + y));
            lemma_same_split(seq![1u8], p + x, seq![1u8], q + y);
            lemma_number_front(m as nat, x, n as nat, y, 8);
        },
        (None, None) => {
            lemma_same_split(seq![0u8], x, seq![0u8], y);
        },
        _ => {},
    }
}

/// Each byte of a number is one of its digits to the base 256, the least significant
/// first.
pub proof fn law_bytes_are_digits(n: nat, width: nat, i: int)
    requires
        0 <= i < width,
    ensures
        le_bytes(n, width).len() == width,
        le_bytes(n, width)[i] == (n as int / vstd::arithmetic::power::pow(256, i as nat)) % 256,
    decreases width,
{
    lemma_le_bytes_len(n, width);
    vstd::arithmetic::power::lemma_pow0(256);
    if i > 0 {
        law_bytes_are_digits(n / 256, (width - 1) as nat, i - 1);
        vstd::arithmetic::power::lemma_pow_adds(256, 1, (i - 1) as nat);
        vstd::arithmetic::power::lemma_pow1(256);
        vstd::arithmetic::power::lemma_pow_positive(256, (i - 1) as nat);
        let p = vstd::arithmetic::power::pow(256, (i - 1) as nat);
        vstd::arithmetic::div_mod::lemma_div_denominator(n as int, 256, p);
    }
}

/// How a text, an optional text and an optional number are written: a length in eight
/// bytes in front of a text, and a byte in front of what is optional that tells whether
/// it is there.
pub proof fn law_optional_fields(text: Seq<char>, n: u64)
    ensures
        text_bytes(text) == le_bytes(encode_utf8(text).len(), 8) + encode_utf8(text),
        opt_text_bytes(None) == seq![0u8],
        opt_text_bytes(Some(text)) == seq![1u8] + le_bytes(encode_utf8(text).len(), 8)
            + encode_utf8(text),
        opt_number_bytes(None) == seq![0u8],
        opt_number_bytes(Some(n)) == seq![1u8] + le_bytes(n as nat, 8),
{
    assert(opt_text_bytes(Some(text)) =~= seq![1u8] + le_bytes(encode_utf8(text).len(), 8)
        + encode_utf8(text));
}

} // verus!
