//! Pure byte-level codecs of the GDB remote serial protocol dialect the
//! ICDI speaks: frame checksums, hex encoding, and the `}` binary escape.

use crate::errors::IcdiError;
use vstd::prelude::*;

verus! {

/// Sum of the body bytes modulo 256, the frame checksum.
pub open spec fn spec_checksum(body: Seq<u8>) -> u8
    decreases body.len(),
{
    if body.len() == 0 {
        0u8
    } else {
        ((spec_checksum(body.drop_last()) + body.last()) % 256) as u8
    }
}

/// The hex digit (lower case) for a value below 16.
pub open spec fn spec_hex_digit(v: u8) -> u8 {
    if v < 10 {
        (48 + v) as u8
    } else {
        (87 + v) as u8
    }
}

/// Two lower-case hex digits for one byte, high nibble first.
pub open spec fn spec_hex_byte(b: u8) -> Seq<u8> {
    seq![spec_hex_digit(b / 16), spec_hex_digit(b % 16)]
}

/// A full outbound frame: `$`, the body, `#`, and the checksum as two
/// lower-case hex digits.
pub open spec fn spec_frame(body: Seq<u8>) -> Seq<u8> {
    seq![36u8] + body + seq![35u8] + spec_hex_byte(spec_checksum(body))
}

/// The plain sum of the body bytes.
pub open spec fn spec_byte_sum(body: Seq<u8>) -> int
    decreases body.len(),
{
    if body.len() == 0 {
        0
    } else {
        spec_byte_sum(body.drop_last()) + body.last()
    }
}

/// The checksum is the sum of the body bytes modulo 256.
pub proof fn lemma_checksum_is_sum(body: Seq<u8>)
    ensures
        spec_checksum(body) == spec_byte_sum(body) % 256,
    decreases body.len(),
{
    if body.len() > 0 {
        lemma_checksum_is_sum(body.drop_last());
        let s = spec_byte_sum(body.drop_last());
        let b = body.last() as int;
        assert((s % 256 + b) % 256 == (s + b) % 256) by (nonlinear_arith);
    }
}

/// What framing a body produces, written out in full: `$`, the body,
/// `#`, and two hex digits of the byte sum modulo 256.
pub proof fn lemma_frame_shape(body: Seq<u8>)
    ensures
        spec_frame(body) == seq![36u8] + body + seq![35u8] + spec_hex_byte(
            (spec_byte_sum(body) % 256) as u8,
        ),
{
    lemma_checksum_is_sum(body);
}

/// Computes the frame checksum of `body`.
pub fn checksum(body: &Vec<u8>) -> (r: u8)
    ensures
        r == spec_checksum(body@),
{
    let mut acc: u8 = 0;
    let mut i: usize = 0;
    while i < body.len()
        invariant
            0 <= i <= body@.len(),
            acc == spec_checksum(body@.take(i as int)),
        decreases body@.len() - i,
    {
        proof {
            assert(body@.take(i + 1).drop_last() =~= body@.take(i as int));
            assert(body@.take(i + 1).last() == body@[i as int]);
        }
        acc = ((acc as u16 + body[i] as u16) % 256) as u8;
        i = i + 1;
    }
    proof {
        assert(body@.take(body@.len() as int) =~= body@);
    }
    acc
}

/// The hex digit (lower case) for a value below 16.
pub fn hex_digit(v: u8) -> (r: u8)
    requires
        v < 16,
    ensures
        r == spec_hex_digit(v),
{
    if v < 10 {
        48 + v
    } else {
        87 + v
    }
}

/// Wraps a command body in a frame: `$` + body + `#` + checksum.
pub fn frame_packet(body: &Vec<u8>) -> (r: Vec<u8>)
    ensures
        r@ == spec_frame(body@),
{
    let sum = checksum(body);
    let mut out: Vec<u8> = Vec::new();
    out.push(36);
    let mut i: usize = 0;
    while i < body.len()
        invariant
            0 <= i <= body@.len(),
            out@ == seq![36u8] + body@.take(i as int),
        decreases body@.len() - i,
    {
        out.push(body[i]);
        proof {
            assert(seq![36u8] + body@.take(i + 1) =~= (seq![36u8] + body@.take(i as int)).push(
                body@[i as int],
            ));
        }
        i = i + 1;
    }
    out.push(35);
    out.push(hex_digit(sum / 16));
    out.push(hex_digit(sum % 16));
    proof {
        assert(body@.take(body@.len() as int) =~= body@);
        assert(out@ =~= spec_frame(body@));
    }
    out
}

/// The four bytes that must not appear raw in a binary payload:
/// `$`, `#`, `}` and `*`.
pub open spec fn is_special(b: u8) -> bool {
    b == 36 || b == 35 || b == 125 || b == 42
}

/// Binary-safe escape: each special byte becomes `}` followed by the
/// byte XOR 0x20; every other byte passes through.
pub open spec fn spec_escape(s: Seq<u8>) -> Seq<u8>
    decreases s.len(),
{
    if s.len() == 0 {
        Seq::empty()
    } else {
        let head: Seq<u8> = if is_special(s[0]) {
            seq![125u8, (s[0] ^ 32) as u8]
        } else {
            seq![s[0]]
        };
        head + spec_escape(s.drop_first())
    }
}

/// Reverse of the escape: `}` marks the next byte as XOR 0x20; a
/// dangling `}` at the end yields nothing.
pub open spec fn spec_unescape(s: Seq<u8>) -> Seq<u8>
    decreases s.len(),
{
    if s.len() == 0 {
        Seq::empty()
    } else if s[0] == 125 {
        if s.len() == 1 {
            Seq::empty()
        } else {
            seq![(s[1] ^ 32) as u8] + spec_unescape(s.skip(2))
        }
    } else {
        seq![s[0]] + spec_unescape(s.drop_first())
    }
}

/// The shape escaped output always has: no raw `$`, `#` or `*`, and
/// every `}` starts a two-byte escape pair whose second byte decodes
/// to a special byte.
pub open spec fn spec_escaped_form(s: Seq<u8>) -> bool
    decreases s.len(),
{
    if s.len() == 0 {
        true
    } else if s[0] == 125 {
        s.len() >= 2 && is_special((s[1] ^ 32) as u8) && spec_escaped_form(s.skip(2))
    } else {
        !is_special(s[0]) && spec_escaped_form(s.drop_first())
    }
}

/// Escaping then unescaping any byte sequence gives the sequence back.
pub proof fn lemma_escape_roundtrip(s: Seq<u8>)
    ensures
        spec_unescape(spec_escape(s)) == s,
    decreases s.len(),
{
    if s.len() == 0 {
    } else {
        lemma_escape_roundtrip(s.drop_first());
        let rest = spec_escape(s.drop_first());
        if is_special(s[0]) {
            let b = s[0];
            let e = seq![125u8, (b ^ 32) as u8] + rest;
            assert(e[0] == 125 && e.len() >= 2);
            assert(e.skip(2) =~= rest);
            assert((((b ^ 32) as u8) ^ 32) == b) by (bit_vector);
            assert(seq![s[0]] + s.drop_first() =~= s);
        } else {
            let e = seq![s[0]] + rest;
            assert(e[0] != 125);
            assert(e.drop_first() =~= rest);
            assert(seq![s[0]] + s.drop_first() =~= s);
        }
    }
}

/// Escaped output never holds a raw `$`, `#` or `*`, and every `}`
/// in it opens an escape pair.
pub proof fn lemma_escape_clean(s: Seq<u8>)
    ensures
        spec_escaped_form(spec_escape(s)),
        forall|i: int|
            0 <= i < spec_escape(s).len() ==> (#[trigger] spec_escape(s)[i]) != 36
                && spec_escape(s)[i] != 35 && spec_escape(s)[i] != 42,
    decreases s.len(),
{
    if s.len() == 0 {
    } else {
        lemma_escape_clean(s.drop_first());
        let rest = spec_escape(s.drop_first());
        let b = s[0];
        if is_special(b) {
            let e = seq![125u8, (b ^ 32) as u8] + rest;
            assert((b == 36 || b == 35 || b == 125 || b == 42) ==> ((((b ^ 32) as u8) ^ 32) == b
                && (b ^ 32) != 36 && (b ^ 32) != 35 && (b ^ 32) != 125 && (b ^ 32) != 42))
                by (bit_vector);
            assert(e.skip(2) =~= rest);
            assert(spec_escape(s) =~= e);
        } else {
            let e = seq![b] + rest;
            assert(e.drop_first() =~= rest);
            assert(spec_escape(s) =~= e);
        }
    }
}

/// Applies the binary escape to `data`.
pub fn escape(data: &Vec<u8>) -> (r: Vec<u8>)
    ensures
        r@ == spec_escape(data@),
{
    let mut out: Vec<u8> = Vec::new();
    proof {
        assert(data@.skip(0) =~= data@);
        assert(Seq::<u8>::empty() + spec_escape(data@) =~= spec_escape(data@));
    }
    let mut i: usize = 0;
    while i < data.len()
        invariant
            0 <= i <= data@.len(),
            spec_escape(data@) == out@ + spec_escape(data@.skip(i as int)),
        decreases data@.len() - i,
    {
        let b = data[i];
        proof {
            assert(data@.skip(i as int)[0] == b);
            assert(data@.skip(i as int).drop_first() =~= data@.skip(i + 1));
        }
        if b == 36 || b == 35 || b == 125 || b == 42 {
            out.push(125);
            out.push(b ^ 32);
        } else {
            out.push(b);
        }
        proof {
            assert(spec_escape(data@) =~= out@ + spec_escape(data@.skip(i + 1)));
        }
        i = i + 1;
    }
    proof {
        assert(data@.skip(data@.len() as int) =~= Seq::<u8>::empty());
        assert(out@ =~= spec_escape(data@));
    }
    out
}

/// Removes the binary escape from `data`.
pub fn unescape(data: &Vec<u8>) -> (r: Vec<u8>)
    ensures
        r@ == spec_unescape(data@),
{
    let mut out: Vec<u8> = Vec::new();
    proof {
        assert(data@.skip(0) =~= data@);
        assert(Seq::<u8>::empty() + spec_unescape(data@) =~= spec_unescape(data@));
    }
    let mut i: usize = 0;
    while i < data.len()
        invariant
            0 <= i <= data@.len(),
            spec_unescape(data@) == out@ + spec_unescape(data@.skip(i as int)),
        decreases data@.len() - i,
    {
        let b = data[i];
        proof {
            assert(data@.skip(i as int)[0] == b);
        }
        if b == 125 {
            if i + 1 < data.len() {
                proof {
                    assert(data@.skip(i as int)[1] == data@[i + 1]);
                    assert(data@.skip(i as int).skip(2) =~= data@.skip(i + 2));
                }
                out.push(data[i + 1] ^ 32);
                proof {
                    assert(spec_unescape(data@) =~= out@ + spec_unescape(data@.skip(i + 2)));
                }
                i = i + 2;
            } else {
                proof {
                    assert(data@.skip(i as int).len() == 1);
                    assert(spec_unescape(data@) =~= out@ + spec_unescape(data@.skip(i + 1)));
                }
                i = i + 1;
            }
        } else {
            proof {
                assert(data@.skip(i as int).drop_first() =~= data@.skip(i + 1));
            }
            out.push(b);
            proof {
                assert(spec_unescape(data@) =~= out@ + spec_unescape(data@.skip(i + 1)));
            }
            i = i + 1;
        }
    }
    proof {
        assert(data@.skip(data@.len() as int) =~= Seq::<u8>::empty());
        assert(out@ =~= spec_unescape(data@));
    }
    out
}

/// True for the ASCII bytes `0`-`9`, `a`-`f` and `A`-`F`.
pub open spec fn is_hex_digit(b: u8) -> bool {
    (48 <= b && b <= 57) || (97 <= b && b <= 102) || (65 <= b && b <= 70)
}

/// The value of one hex digit byte.
pub open spec fn spec_hex_val(b: u8) -> u8
    recommends
        is_hex_digit(b),
{
    if 48 <= b && b <= 57 {
        (b - 48) as u8
    } else if 97 <= b && b <= 102 {
        (b - 87) as u8
    } else {
        (b - 55) as u8
    }
}

/// An even number of hex digit bytes, either case.
pub open spec fn valid_hex(s: Seq<u8>) -> bool {
    s.len() % 2 == 0 && (forall|i: int| 0 <= i < s.len() ==> is_hex_digit(#[trigger] s[i]))
}

/// Two lower-case digits per byte, high nibble first.
pub open spec fn spec_hex_encode(s: Seq<u8>) -> Seq<u8>
    decreases s.len(),
{
    if s.len() == 0 {
        Seq::empty()
    } else {
        spec_hex_byte(s[0]) + spec_hex_encode(s.drop_first())
    }
}

/// One byte per digit pair, high nibble first.
pub open spec fn spec_hex_decode(s: Seq<u8>) -> Seq<u8>
    recommends
        valid_hex(s),
    decreases s.len(),
{
    if s.len() < 2 {
        Seq::empty()
    } else {
        seq![(spec_hex_val(s[0]) * 16 + spec_hex_val(s[1])) as u8] + spec_hex_decode(s.skip(2))
    }
}

/// Emits two lower-case hex digits for each byte of `data`.
pub fn hex_encode(data: &Vec<u8>) -> (r: Vec<u8>)
    ensures
        r@ == spec_hex_encode(data@),
{
    let mut out: Vec<u8> = Vec::new();
    proof {
        assert(data@.skip(0) =~= data@);
        assert(Seq::<u8>::empty() + spec_hex_encode(data@) =~= spec_hex_encode(data@));
    }
    let mut i: usize = 0;
    while i < data.len()
        invariant
            0 <= i <= data@.len(),
            spec_hex_encode(data@) == out@ + spec_hex_encode(data@.skip(i as int)),
        decreases data@.len() - i,
    {
        let b = data[i];
        proof {
            assert(data@.skip(i as int)[0] == b);
            assert(data@.skip(i as int).drop_first() =~= data@.skip(i + 1));
        }
        out.push(hex_digit(b / 16));
        out.push(hex_digit(b % 16));
        proof {
            assert(spec_hex_encode(data@) =~= out@ + spec_hex_encode(data@.skip(i + 1)));
        }
        i = i + 1;
    }
    proof {
        assert(data@.skip(data@.len() as int) =~= Seq::<u8>::empty());
        assert(out@ =~= spec_hex_encode(data@));
    }
    out
}

/// Relies on hex::decode, which succeeds exactly on an even number of
/// hex digit bytes (either case) and returns one byte per digit pair,
/// high nibble first.
#[verifier::external_body]
fn hex_decode_raw(data: &Vec<u8>) -> (r: Option<Vec<u8>>)
    ensures
        r is Some <==> valid_hex(data@),
        r matches Some(v) ==> v@ == spec_hex_decode(data@),
{
    match hex::decode(data.as_slice()) {
        Ok(v) => Some(v),
        Err(_) => None,
    }
}

/// Parses an even number of hex digits into bytes; `HexDecode` on
/// anything else.
pub fn hex_decode(data: &Vec<u8>) -> (r: Result<Vec<u8>, IcdiError>)
    ensures
        r matches Ok(v) ==> valid_hex(data@) && v@ == spec_hex_decode(data@),
        r matches Err(e) ==> !valid_hex(data@) && e == IcdiError::HexDecode,
{
    match hex_decode_raw(data) {
        Some(v) => Ok(v),
        None => Err(IcdiError::HexDecode),
    }
}

/// The decoded form is half as long as the digits.
pub proof fn lemma_hex_decode_len(s: Seq<u8>)
    requires
        s.len() % 2 == 0,
    ensures
        spec_hex_decode(s).len() == s.len() / 2,
    decreases s.len(),
{
    if s.len() >= 2 {
        lemma_hex_decode_len(s.skip(2));
    }
}

/// Encoding always yields valid hex of twice the length.
pub proof fn lemma_hex_encode_valid(s: Seq<u8>)
    ensures
        spec_hex_encode(s).len() == 2 * s.len(),
        valid_hex(spec_hex_encode(s)),
    decreases s.len(),
{
    if s.len() == 0 {
    } else {
        lemma_hex_encode_valid(s.drop_first());
        let e = spec_hex_byte(s[0]) + spec_hex_encode(s.drop_first());
        assert forall|i: int| 0 <= i < e.len() implies is_hex_digit(#[trigger] e[i]) by {
            if i >= 2 {
                assert(e[i] == spec_hex_encode(s.drop_first())[i - 2]);
            }
        }
        assert(spec_hex_encode(s) =~= e);
    }
}

/// Decoding undoes encoding.
pub proof fn lemma_hex_roundtrip(s: Seq<u8>)
    ensures
        spec_hex_decode(spec_hex_encode(s)) == s,
    decreases s.len(),
{
    if s.len() == 0 {
    } else {
        lemma_hex_roundtrip(s.drop_first());
        let b = s[0];
        let e = spec_hex_byte(b) + spec_hex_encode(s.drop_first());
        assert(e.skip(2) =~= spec_hex_encode(s.drop_first()));
        assert(spec_hex_val(spec_hex_digit(b / 16)) == b / 16);
        assert(spec_hex_val(spec_hex_digit(b % 16)) == b % 16);
        assert(seq![b] + s.drop_first() =~= s);
    }
}

/// What a register-read reply payload means: exactly eight hex digits
/// encoding four bytes, read as a little-endian word.
pub open spec fn spec_parse_register(p: Seq<u8>) -> Result<u32, IcdiError> {
    if p.len() == 8 && valid_hex(p) {
        Ok(vstd::bytes::spec_u32_from_le_bytes(spec_hex_decode(p)))
    } else {
        Err(IcdiError::HexDecode)
    }
}

/// Decodes a register-read reply payload: eight hex digits for four
/// little-endian bytes.
pub fn parse_register(p: &Vec<u8>) -> (r: Result<u32, IcdiError>)
    ensures
        r == spec_parse_register(p@),
{
    if p.len() != 8 {
        return Err(IcdiError::HexDecode);
    }
    let bytes = hex_decode(p)?;
    proof {
        lemma_hex_decode_len(p@);
    }
    Ok(vstd::bytes::u32_from_le_bytes(bytes.as_slice()))
}

/// A register value survives the trip through little-endian bytes and
/// hex digits: parsing the hex form of its four bytes gives it back.
pub proof fn lemma_register_roundtrip(v: u32)
    ensures
        spec_parse_register(spec_hex_encode(vstd::bytes::spec_u32_to_le_bytes(v))) == Ok::<
            u32,
            IcdiError,
        >(v),
{
    vstd::bytes::lemma_auto_spec_u32_to_from_le_bytes();
    let bytes = vstd::bytes::spec_u32_to_le_bytes(v);
    lemma_hex_encode_valid(bytes);
    lemma_hex_roundtrip(bytes);
}

/// Eight lower-case hex digits of a 32-bit value, most significant
/// nibble first, as `x`/`X` commands spell addresses and lengths.
pub open spec fn spec_hex8(v: u32) -> Seq<u8> {
    Seq::new(8, |i: int| spec_hex_digit(((v >> (((7 - i) * 4) as u32)) & 0xf) as u8))
}

/// Formats a 32-bit value as eight lower-case hex digits.
pub fn hex8(v: u32) -> (r: Vec<u8>)
    ensures
        r@ == spec_hex8(v),
{
    let mut out: Vec<u8> = Vec::new();
    let mut i: usize = 0;
    while i < 8
        invariant
            0 <= i <= 8,
            out@ =~= spec_hex8(v).take(i as int),
        decreases 8 - i,
    {
        let shift: u32 = (7 - i as u32) * 4;
        let nib = ((v >> shift) & 0xf) as u8;
        proof {
            let vv = v;
            let sh = shift;
            assert(sh < 32 ==> ((vv >> sh) & 0xf) < 16) by (bit_vector);
        }
        out.push(hex_digit(nib));
        proof {
            assert(out@ =~= spec_hex8(v).take(i + 1));
        }
        i = i + 1;
    }
    proof {
        assert(spec_hex8(v).take(8) =~= spec_hex8(v));
    }
    out
}

/// Minimal-width lower-case hex digits of a 32-bit value, as the
/// register commands spell register numbers; zero is a single `0`.
pub open spec fn spec_hex_min(v: u32) -> Seq<u8>
    decreases v,
{
    if v < 16 {
        seq![spec_hex_digit(v as u8)]
    } else {
        spec_hex_min(v / 16) + seq![spec_hex_digit((v % 16) as u8)]
    }
}

/// Formats a 32-bit value as minimal-width lower-case hex digits.
pub fn hex_min(v: u32) -> (r: Vec<u8>)
    ensures
        r@ == spec_hex_min(v),
    decreases v,
{
    if v < 16 {
        let mut out: Vec<u8> = Vec::new();
        out.push(hex_digit(v as u8));
        proof {
            assert(out@ =~= spec_hex_min(v));
        }
        out
    } else {
        let mut out = hex_min(v / 16);
        out.push(hex_digit((v % 16) as u8));
        proof {
            assert(out@ =~= spec_hex_min(v));
        }
        out
    }
}

/// The number a string of hex digits denotes, most significant first.
pub open spec fn spec_hex_num(s: Seq<u8>) -> int
    decreases s.len(),
{
    if s.len() == 0 {
        0
    } else {
        spec_hex_num(s.drop_last()) * 16 + spec_hex_val(s.last())
    }
}

/// Hex digits only, any length.
pub open spec fn all_hex_digits(s: Seq<u8>) -> bool {
    forall|i: int| 0 <= i < s.len() ==> is_hex_digit(#[trigger] s[i])
}

/// A hex number never goes down when digits are appended.
pub proof fn lemma_hex_num_nonneg(s: Seq<u8>)
    ensures
        spec_hex_num(s) >= 0,
    decreases s.len(),
{
    if s.len() > 0 {
        lemma_hex_num_nonneg(s.drop_last());
    }
}

/// The whole string denotes at least what any prefix denotes.
pub proof fn lemma_hex_num_prefix(s: Seq<u8>, i: int)
    requires
        0 <= i <= s.len(),
    ensures
        spec_hex_num(s) >= spec_hex_num(s.take(i)),
    decreases s.len() - i,
{
    if i == s.len() {
        assert(s.take(i) =~= s);
    } else {
        lemma_hex_num_prefix(s, i + 1);
        lemma_hex_num_nonneg(s.take(i));
        assert(s.take(i + 1).drop_last() =~= s.take(i));
        assert(s.take(i + 1).last() == s[i]);
    }
}

/// The value of one hex digit byte.
pub fn hex_val(b: u8) -> (r: u8)
    requires
        is_hex_digit(b),
    ensures
        r == spec_hex_val(b),
{
    if 48 <= b && b <= 57 {
        b - 48
    } else if 97 <= b && b <= 102 {
        b - 87
    } else {
        b - 55
    }
}

/// Parses a non-empty string of hex digits as a 32-bit number; `None`
/// when a byte is not a digit, the string is empty, or the value does
/// not fit.
pub fn parse_hex_u32(s: &Vec<u8>) -> (r: Option<u32>)
    ensures
        r is Some <==> (s@.len() >= 1 && all_hex_digits(s@) && spec_hex_num(s@) <= u32::MAX),
        r matches Some(v) ==> v == spec_hex_num(s@),
{
    if s.len() == 0 {
        return None;
    }
    let mut acc: u32 = 0;
    let mut i: usize = 0;
    while i < s.len()
        invariant
            0 <= i <= s@.len(),
            acc == spec_hex_num(s@.take(i as int)),
            forall|j: int| 0 <= j < i ==> is_hex_digit(#[trigger] s@[j]),
        decreases s@.len() - i,
    {
        let b = s[i];
        if !((48 <= b && b <= 57) || (97 <= b && b <= 102) || (65 <= b && b <= 70)) {
            return None;
        }
        if acc > 0x0fff_ffff {
            proof {
                lemma_hex_num_nonneg(s@.take(i as int));
                assert(s@.take(i + 1).drop_last() =~= s@.take(i as int));
                assert(s@.take(i + 1).last() == s@[i as int]);
                lemma_hex_num_prefix(s@, i + 1);
            }
            return None;
        }
        let v = hex_val(b);
        proof {
            assert(s@.take(i + 1).drop_last() =~= s@.take(i as int));
            assert(s@.take(i + 1).last() == s@[i as int]);
        }
        acc = acc * 16 + v as u32;
        i = i + 1;
    }
    proof {
        assert(s@.take(s@.len() as int) =~= s@);
    }
    Some(acc)
}

/// The packet size assumed until `qSupported` says otherwise.
pub const ICDI_MAX_PACKET_SIZE: u32 = 2048;

/// The memory-transfer chunk limit the default packet size gives.
pub const ICDI_MAX_RW_PACKET: u32 = ((ICDI_MAX_PACKET_SIZE - 64) / 4) * 4 / 2;

/// The largest binary payload one `x`/`X` request may carry for a
/// negotiated packet size: the usable span below the header and
/// checksum, rounded down to words, then halved.
pub fn chunk_size(max_packet_size: u32) -> (r: u32)
    requires
        max_packet_size >= 68,
    ensures
        r == ((max_packet_size - 64) / 4) * 4 / 2,
        r <= (max_packet_size - 64) / 2,
        r >= 2,
{
    let q = (max_packet_size - 64) / 4;
    proof {
        let m = (max_packet_size - 64) as int;
        assert(q == m / 4);
        assert(m / 4 * 4 <= m && m / 4 >= 1) by (nonlinear_arith)
            requires
                m >= 4,
        ;
        assert(q * 4 / 2 == q * 2) by (nonlinear_arith);
        assert(q * 2 <= m / 2) by (nonlinear_arith)
            requires
                q * 4 <= m,
                q >= 0,
        ;
    }
    q * 4 / 2
}

/// Whenever the usable span holds a whole number of eight-byte groups,
/// the chunk size is a multiple of four.  (For other packet sizes it
/// need not be: a 68-byte packet gives a chunk of 2.)
pub proof fn lemma_chunk_size_word_aligned(max_packet_size: u32)
    requires
        max_packet_size >= 68,
        ((max_packet_size - 64) / 4) % 2 == 0,
    ensures
        (((max_packet_size - 64) / 4) * 4 / 2) % 4 == 0,
{
    let q = ((max_packet_size - 64) / 4) as int;
    assert(q * 4 / 2 == q * 2) by (nonlinear_arith);
    assert(q % 2 == 0 && q >= 0 ==> (q * 2) % 4 == 0) by (nonlinear_arith);
}

/// `bs` cut into pieces of at most `c` bytes, in order.
pub open spec fn spec_chunks(bs: Seq<u8>, c: int) -> Seq<Seq<u8>>
    recommends
        c >= 1,
    decreases bs.len(),
    when c >= 1
{
    if bs.len() == 0 {
        Seq::empty()
    } else if bs.len() <= c {
        seq![bs]
    } else {
        seq![bs.take(c)] + spec_chunks(bs.skip(c), c)
    }
}

/// Chunking splits without loss: the pieces concatenate back to the
/// sequence, there are exactly as many as the length demands, and each
/// piece holds between one and `c` bytes.
pub proof fn lemma_chunks_concat(bs: Seq<u8>, c: int)
    requires
        c >= 1,
    ensures
        spec_chunks(bs, c).flatten() == bs,
        spec_chunks(bs, c).len() == (bs.len() + c - 1) / c,
        forall|i: int|
            0 <= i < spec_chunks(bs, c).len() ==> 1 <= (#[trigger] spec_chunks(bs, c)[i]).len()
                <= c,
    decreases bs.len(),
{
    let ch = spec_chunks(bs, c);
    if bs.len() == 0 {
        assert(ch.flatten() =~= bs);
        assert((0 + c - 1) / c == 0) by (nonlinear_arith)
            requires
                c >= 1,
        ;
    } else if bs.len() <= c {
        assert(ch =~= seq![bs]);
        ch.lemma_flatten_one_element();
        assert((bs.len() + c - 1) / c == 1) by (nonlinear_arith)
            requires
                c >= 1,
                1 <= bs.len() <= c,
        ;
    } else {
        lemma_chunks_concat(bs.skip(c), c);
        let rest = spec_chunks(bs.skip(c), c);
        assert(ch.drop_first() =~= rest);
        assert(ch.first() == bs.take(c));
        assert(ch.flatten() == bs.take(c) + rest.flatten());
        assert(bs.take(c) + bs.skip(c) =~= bs);
        let n = bs.len() as int;
        assert((n - c + c - 1) / c + 1 == (n + c - 1) / c) by (nonlinear_arith)
            requires
                c >= 1,
                n > c,
        ;
        assert forall|i: int| 0 <= i < ch.len() implies 1 <= (#[trigger] ch[i]).len() <= c by {
            if i > 0 {
                assert(ch[i] == rest[i - 1]);
            }
        }
    }
}

/// Escaping each chunk for the wire and unescaping what comes back
/// reassembles exactly the original bytes, whatever the chunk size.
pub proof fn lemma_chunked_escape_roundtrip(bs: Seq<u8>, c: int)
    requires
        c >= 1,
    ensures
        spec_chunks(bs, c).map_values(|piece: Seq<u8>| spec_unescape(spec_escape(piece))).flatten()
            == bs,
{
    let ch = spec_chunks(bs, c);
    let mapped = ch.map_values(|piece: Seq<u8>| spec_unescape(spec_escape(piece)));
    assert forall|i: int| 0 <= i < ch.len() implies mapped[i] == ch[i] by {
        lemma_escape_roundtrip(ch[i]);
    }
    assert(mapped =~= ch);
    lemma_chunks_concat(bs, c);
}

/// The words a byte sequence holds, each four bytes little-endian.
pub open spec fn spec_le_words(bytes: Seq<u8>) -> Seq<u32>
    recommends
        bytes.len() % 4 == 0,
{
    Seq::new(bytes.len() / 4, |i: int| vstd::bytes::spec_u32_from_le_bytes(bytes.subrange(4 * i, 4 * i + 4)))
}

/// The bytes of a word sequence, each word four bytes little-endian.
pub open spec fn spec_words_bytes(words: Seq<u32>) -> Seq<u8>
    decreases words.len(),
{
    if words.len() == 0 {
        Seq::empty()
    } else {
        spec_words_bytes(words.drop_last()) + vstd::bytes::spec_u32_to_le_bytes(words.last())
    }
}

/// Where the first `;` stands, or the length when there is none.
pub open spec fn spec_sem_pos(s: Seq<u8>) -> nat
    decreases s.len(),
{
    if s.len() == 0 {
        0
    } else if s[0] == 59 {
        0
    } else {
        1 + spec_sem_pos(s.drop_first())
    }
}

/// What the semicolon position means: in range, a `;` there unless at
/// the end, and none before it.
pub proof fn lemma_sem_pos(s: Seq<u8>)
    ensures
        spec_sem_pos(s) <= s.len(),
        spec_sem_pos(s) < s.len() ==> s[spec_sem_pos(s) as int] == 59,
        forall|j: int| 0 <= j < spec_sem_pos(s) ==> (#[trigger] s[j]) != 59,
    decreases s.len(),
{
    if s.len() == 0 {
    } else if s[0] == 59 {
    } else {
        lemma_sem_pos(s.drop_first());
        assert forall|j: int| 0 <= j < spec_sem_pos(s) implies (#[trigger] s[j]) != 59 by {
            if j > 0 {
                assert(s.drop_first()[j - 1] != 59);
            }
        }
    }
}

/// Any position with no `;` before it and a `;` (or the end) at it is
/// the semicolon position.
pub proof fn lemma_sem_pos_unique(s: Seq<u8>, m: int)
    requires
        0 <= m <= s.len(),
        forall|j: int| 0 <= j < m ==> (#[trigger] s[j]) != 59,
        m < s.len() ==> s[m] == 59,
    ensures
        spec_sem_pos(s) == m,
    decreases m,
{
    if m == 0 {
    } else {
        assert(s[0] != 59);
        let t = s.drop_first();
        assert forall|j: int| 0 <= j < m - 1 implies (#[trigger] t[j]) != 59 by {
            assert(s[j + 1] != 59);
        }
        lemma_sem_pos_unique(t, m - 1);
    }
}

/// The eleven bytes of `PacketSize=`.
pub open spec fn spec_ps_prefix() -> Seq<u8> {
    seq![80u8, 97u8, 99u8, 107u8, 101u8, 116u8, 83u8, 105u8, 122u8, 101u8, 61u8]
}

/// What one `qSupported` feature does to the negotiated packet size:
/// a `PacketSize=` feature sets it to the number its hex digits
/// denote, however large; one whose digits are missing or not all hex
/// is an error; any other feature is ignored.
pub open spec fn spec_feature_step(feat: Seq<u8>, cur: int) -> Result<int, IcdiError> {
    if feat.len() >= 11 && feat.take(11) == spec_ps_prefix() {
        let digits = feat.skip(11);
        if digits.len() >= 1 && all_hex_digits(digits) {
            Ok(spec_hex_num(digits))
        } else {
            Err(IcdiError::HexDecode)
        }
    } else {
        Ok(cur)
    }
}

/// Walks the `;`-separated features of a `qSupported` reply in order,
/// the last `PacketSize=` offer winning.
pub open spec fn spec_scan_features(s: Seq<u8>, cur: int) -> Result<int, IcdiError>
    decreases s.len(),
{
    let p = spec_sem_pos(s);
    match spec_feature_step(s.take(p as int), cur) {
        Err(e) => Err(e),
        Ok(v) => if p >= s.len() {
            Ok(v)
        } else {
            proof {
                lemma_sem_pos(s);
            }
            spec_scan_features(s.skip(p as int + 1), v)
        },
    }
}

/// A copy of `v[from..to]`.
pub fn copy_range(v: &Vec<u8>, from: usize, to: usize) -> (r: Vec<u8>)
    requires
        0 <= from <= to <= v@.len(),
    ensures
        r@ == v@.subrange(from as int, to as int),
{
    let mut out: Vec<u8> = Vec::new();
    let mut i: usize = from;
    proof {
        assert(out@ =~= v@.subrange(from as int, from as int));
    }
    while i < to
        invariant
            from <= i <= to <= v@.len(),
            out@ == v@.subrange(from as int, i as int),
        decreases to - i,
    {
        out.push(v[i]);
        proof {
            assert(v@.subrange(from as int, i + 1) =~= v@.subrange(from as int, i as int).push(
                v@[i as int],
            ));
        }
        i = i + 1;
    }
    out
}

/// Whether `feat` begins with `PacketSize=`.
pub fn has_ps_prefix(feat: &Vec<u8>) -> (r: bool)
    ensures
        r <==> (feat@.len() >= 11 && feat@.take(11) == spec_ps_prefix()),
{
    if feat.len() < 11 {
        return false;
    }
    let m = feat[0] == 80 && feat[1] == 97 && feat[2] == 99 && feat[3] == 107 && feat[4] == 101
        && feat[5] == 116 && feat[6] == 83 && feat[7] == 105 && feat[8] == 122 && feat[9] == 101
        && feat[10] == 61;
    proof {
        if m {
            assert(feat@.take(11) =~= spec_ps_prefix());
        } else {
            if feat@.take(11) == spec_ps_prefix() {
                assert(feat@[0] == feat@.take(11)[0]);
                assert(feat@[1] == feat@.take(11)[1]);
                assert(feat@[2] == feat@.take(11)[2]);
                assert(feat@[3] == feat@.take(11)[3]);
                assert(feat@[4] == feat@.take(11)[4]);
                assert(feat@[5] == feat@.take(11)[5]);
                assert(feat@[6] == feat@.take(11)[6]);
                assert(feat@[7] == feat@.take(11)[7]);
                assert(feat@[8] == feat@.take(11)[8]);
                assert(feat@[9] == feat@.take(11)[9]);
                assert(feat@[10] == feat@.take(11)[10]);
            }
        }
    }
    m
}

/// Hex digits only, tested byte by byte.
fn all_hex(s: &Vec<u8>) -> (r: bool)
    ensures
        r <==> all_hex_digits(s@),
{
    let mut i: usize = 0;
    while i < s.len()
        invariant
            0 <= i <= s@.len(),
            forall|j: int| 0 <= j < i ==> is_hex_digit(#[trigger] s@[j]),
        decreases s@.len() - i,
    {
        let b = s[i];
        if !((48 <= b && b <= 57) || (97 <= b && b <= 102) || (65 <= b && b <= 70)) {
            return false;
        }
        i = i + 1;
    }
    true
}

/// Runs the feature walk of a `qSupported` reply payload.  The size an
/// `Ok` scan ends on comes back exactly where it fits a `u32`, and as
/// `None` where the offer is too large to carry.
pub fn scan_features(p: &Vec<u8>, cur0: u32) -> (r: Result<Option<u32>, IcdiError>)
    ensures
        r matches Err(e) ==> e == IcdiError::HexDecode && spec_scan_features(p@, cur0 as int)
            == Err::<int, IcdiError>(e),
        r matches Ok(o) ==> (spec_scan_features(p@, cur0 as int) matches Ok(n) && (o matches Some(v)
            ==> n == v) && (o is None ==> n > u32::MAX)),
{
    let n = p.len();
    let mut cur: Option<u32> = Some(cur0);
    let ghost mut cur_i: int = cur0 as int;
    let mut i: usize = 0;
    proof {
        assert(p@.skip(0) =~= p@);
    }
    loop
        invariant
            i <= n,
            n == p@.len(),
            spec_scan_features(p@, cur0 as int) == spec_scan_features(p@.skip(i as int), cur_i),
            cur matches Some(v) ==> cur_i == v,
            cur is None ==> cur_i > u32::MAX,
        decreases n - i,
    {
        let mut j: usize = i;
        while j < n && p[j] != 59
            invariant
                i <= j <= n,
                n == p@.len(),
                forall|k: int| i <= k < j ==> (#[trigger] p@[k]) != 59,
            decreases n - j,
        {
            j = j + 1;
        }
        let ghost rest = p@.skip(i as int);
        proof {
            assert forall|k: int| 0 <= k < j - i implies (#[trigger] rest[k]) != 59 by {
                assert(p@[i + k] != 59);
            }
            lemma_sem_pos_unique(rest, j - i);
        }
        let feat = copy_range(p, i, j);
        proof {
            assert(feat@ =~= rest.take(j - i));
        }
        let stepped: Option<u32>;
        let ghost mut stepped_i: int = cur_i;
        if has_ps_prefix(&feat) {
            let digits = copy_range(&feat, 11, feat.len());
            proof {
                assert(digits@ =~= feat@.skip(11));
            }
            if digits.len() == 0 || !all_hex(&digits) {
                proof {
                    assert(spec_feature_step(feat@, cur_i) == Err::<int, IcdiError>(
                        IcdiError::HexDecode,
                    ));
                }
                return Err(IcdiError::HexDecode);
            }
            stepped = parse_hex_u32(&digits);
            proof {
                stepped_i = spec_hex_num(digits@);
            }
        } else {
            stepped = cur;
        }
        proof {
            assert(spec_feature_step(rest.take(j - i), cur_i) == Ok::<int, IcdiError>(stepped_i));
        }
        if j == n {
            return Ok(stepped);
        }
        proof {
            assert(rest.skip(j - i + 1) =~= p@.skip(j + 1));
        }
        cur = stepped;
        proof {
            cur_i = stepped_i;
        }
        i = j + 1;
    }
}

/// Trailing newline bytes stripped.
pub open spec fn spec_trim_newlines(s: Seq<u8>) -> Seq<u8>
    decreases s.len(),
{
    if s.len() > 0 && s.last() == 10 {
        spec_trim_newlines(s.drop_last())
    } else {
        s
    }
}

/// The characters a byte sequence decodes to as UTF-8; they depend on
/// the bytes alone.
pub uninterp spec fn utf8_of(bytes: Seq<u8>) -> Seq<char>;

/// Relies on String::from_utf8: it succeeds exactly on well-formed
/// UTF-8, so always on ASCII, and the characters are a function of the
/// bytes alone.
#[verifier::external_body]
pub(crate) fn utf8_string(bytes: Vec<u8>) -> (r: Option<String>)
    ensures
        r matches Some(s) ==> s@ == utf8_of(bytes@),
        (forall|i: int| 0 <= i < bytes@.len() ==> bytes@[i] < 128) ==> r is Some,
{
    String::from_utf8(bytes).ok()
}

} // verus!
