//! Text building blocks: decimal and hexadecimal renderings of numbers and
//! bytes, and the conversion of ASCII byte strings into `String`s.
use vstd::prelude::*;

verus! {

/// ASCII code of the digit `d` (0..=9).
pub open spec fn digit_char(d: nat) -> u8 {
    (48 + d) as u8
}

/// Decimal rendering of `n` (most significant digit first, no padding).
pub open spec fn dec_digits(n: nat) -> Seq<u8>
    decreases n,
{
    if n < 10 {
        seq![digit_char(n)]
    } else {
        dec_digits(n / 10).push(digit_char(n % 10))
    }
}

/// `s` left-padded with ASCII zeros up to `width` bytes.
pub open spec fn zero_pad(s: Seq<u8>, width: nat) -> Seq<u8> {
    if s.len() >= width {
        s
    } else {
        Seq::new((width - s.len()) as nat, |i: int| 48u8) + s
    }
}

/// Lowercase hexadecimal digit of a nibble.
pub open spec fn hex_digit(v: u8) -> u8 {
    if v < 10 {
        (48 + v) as u8
    } else {
        (87 + v) as u8
    }
}

/// Lowercase hexadecimal rendering of a byte sequence, two digits per byte.
pub open spec fn hex_of(s: Seq<u8>) -> Seq<u8>
    decreases s.len(),
{
    if s.len() == 0 {
        Seq::empty()
    } else {
        hex_of(s.drop_last()) + seq![hex_digit(s.last() / 16), hex_digit(s.last() % 16)]
    }
}

/// Value of a hexadecimal digit (either case), or `None` for any other byte.
pub open spec fn hex_value(c: u8) -> Option<u8> {
    if 48 <= c <= 57 {
        Some((c - 48) as u8)
    } else if 97 <= c <= 102 {
        Some((c - 87) as u8)
    } else if 65 <= c <= 70 {
        Some((c - 55) as u8)
    } else {
        None
    }
}

/// Whether every byte of `s` is a hexadecimal digit.
pub open spec fn all_hex(s: Seq<u8>) -> bool {
    forall|i: int| 0 <= i < s.len() ==> (#[trigger] hex_value(s[i])) is Some
}

/// Bytes decoded from an even-length run of hexadecimal digits.
pub open spec fn unhex(s: Seq<u8>) -> Seq<u8> {
    Seq::new(
        s.len() / 2,
        |i: int| (hex_value(s[2 * i]).unwrap() * 16 + hex_value(s[2 * i + 1]).unwrap()) as u8,
    )
}

/// The characters of an ASCII byte string.
pub open spec fn ascii_chars(s: Seq<u8>) -> Seq<char> {
    Seq::new(s.len(), |i: int| s[i] as char)
}

/// Whether every byte is ASCII.
pub open spec fn is_ascii_bytes(s: Seq<u8>) -> bool {
    forall|i: int| 0 <= i < s.len() ==> #[trigger] s[i] < 128
}

proof fn lemma_digit_ascii(n: nat)
    ensures
        is_ascii_bytes(dec_digits(n)),
        dec_digits(n).len() >= 1,
    decreases n,
{
    if n >= 10 {
        lemma_digit_ascii(n / 10);
    }
}

/// The decimal digits of `n`.
pub fn decimal_bytes(n: u64) -> (v: Vec<u8>)
    ensures
        v@ == dec_digits(n as nat),
        is_ascii_bytes(v@),
    decreases n,
{
    proof {
        lemma_digit_ascii(n as nat);
    }
    if n < 10 {
        let mut v: Vec<u8> = Vec::new();
        v.push((48 + n) as u8);
        assert(v@ =~= dec_digits(n as nat));
        v
    } else {
        let mut v = decimal_bytes(n / 10);
        v.push((48 + n % 10) as u8);
        v
    }
}

/// The decimal digits of `n`, left-padded with zeros to `width` bytes.
pub fn decimal_bytes_padded(n: u64, width: usize) -> (v: Vec<u8>)
    ensures
        v@ == zero_pad(dec_digits(n as nat), width as nat),
        is_ascii_bytes(v@),
{
    let digits = decimal_bytes(n);
    if digits.len() >= width {
        return digits;
    }
    let mut v: Vec<u8> = Vec::new();
    let pad = width - digits.len();
    let mut i: usize = 0;
    while i < pad
        invariant
            i <= pad,
            pad == width - digits@.len(),
            v@ =~= Seq::new(i as nat, |k: int| 48u8),
        decreases pad - i,
    {
        v.push(48u8);
        i = i + 1;
    }
    let mut j: usize = 0;
    while j < digits.len()
        invariant
            j <= digits@.len(),
            pad == width - digits@.len(),
            digits@ == dec_digits(n as nat),
            is_ascii_bytes(digits@),
            v@ =~= Seq::new(pad as nat, |k: int| 48u8) + digits@.take(j as int),
        decreases digits@.len() - j,
    {
        v.push(digits[j]);
        assert(digits@.take(j + 1) =~= digits@.take(j as int).push(digits@[j as int]));
        j = j + 1;
    }
    assert(digits@.take(digits@.len() as int) =~= digits@);
    v
}

/// Appends the lowercase hexadecimal rendering of `bytes` to `out`.
pub fn push_hex(out: &mut Vec<u8>, bytes: &[u8])
    ensures
        final(out)@ == old(out)@ + hex_of(bytes@),
{
    let mut i: usize = 0;
    while i < bytes.len()
        invariant
            i <= bytes@.len(),
            out@ == old(out)@ + hex_of(bytes@.take(i as int)),
        decreases bytes@.len() - i,
    {
        let b = bytes[i];
        let hi = b / 16;
        let lo = b % 16;
        let hc: u8 = if hi < 10 { 48 + hi } else { 87 + hi };
        let lc: u8 = if lo < 10 { 48 + lo } else { 87 + lo };
        out.push(hc);
        out.push(lc);
        assert(bytes@.take(i + 1).drop_last() =~= bytes@.take(i as int));
        assert(out@ =~= old(out)@ + hex_of(bytes@.take(i + 1)));
        i = i + 1;
    }
    assert(bytes@.take(bytes@.len() as int) =~= bytes@);
}

/// Decodes hexadecimal text (`hex::decode`). Per the crate's documentation
/// and source: an odd length or any byte that is not a hexadecimal digit
/// (either case) is an error, rendered here by the error's `Display`;
/// otherwise each pair of digits becomes one byte. The error text is not
/// stated.
#[verifier::external_body]
pub(crate) fn hex_decode(data: &[u8]) -> (r: Result<Vec<u8>, String>)
    ensures
        r is Ok <==> (data@.len() % 2 == 0 && all_hex(data@)),
        r matches Ok(v) ==> v@ == unhex(data@),
{
    match hex::decode(data) {
        Ok(v) => Ok(v),
        Err(e) => Err(e.to_string()),
    }
}

/// Builds a `String` from ASCII bytes (std `String::from_utf8`).
///
/// Every ASCII byte string is valid UTF-8, so the call succeeds and each
/// byte becomes the character with the same code.
#[verifier::external_body]
pub(crate) fn ascii_string(bytes: Vec<u8>) -> (s: String)
    requires
        is_ascii_bytes(bytes@),
    ensures
        s@ == ascii_chars(bytes@),
{
    match String::from_utf8(bytes) {
        Ok(s) => s,
        Err(_) => String::new(),
    }
}

/// The decimal rendering of `n` as a `String`.
pub fn decimal_string(n: u64) -> (s: String)
    ensures
        s@ == ascii_chars(dec_digits(n as nat)),
{
    ascii_string(decimal_bytes(n))
}

/// The lowercase hexadecimal rendering of `bytes` as a `String`.
pub fn hex_string(bytes: &[u8]) -> (s: String)
    ensures
        s@ == ascii_chars(hex_of(bytes@)),
{
    let mut v: Vec<u8> = Vec::new();
    push_hex(&mut v, bytes);
    proof {
        lemma_hex_ascii(bytes@);
    }
    assert(v@ =~= hex_of(bytes@));
    ascii_string(v)
}

/// Hexadecimal renderings are ASCII and twice as long as their input.
pub proof fn lemma_hex_ascii(s: Seq<u8>)
    ensures
        is_ascii_bytes(hex_of(s)),
        hex_of(s).len() == 2 * s.len(),
    decreases s.len(),
{
    if s.len() > 0 {
        lemma_hex_ascii(s.drop_last());
        let a = hex_of(s.drop_last());
        let b = seq![hex_digit(s.last() / 16), hex_digit(s.last() % 16)];
        assert forall|i: int| 0 <= i < (a + b).len() implies #[trigger] (a + b)[i] < 128 by {
            if i < a.len() {
                assert((a + b)[i] == a[i]);
            } else {
                assert((a + b)[i] == b[i - a.len()]);
            }
        }
    }
}

} // verus!
