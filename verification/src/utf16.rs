//! UTF-16 as the fleet chat logs store it (little-endian): encoding of texts
//! into code units, and lossy decoding of bytes back into characters.
use vstd::prelude::*;
use vstd::utf8::is_scalar;

verus! {

/// U+FFFD, put in place of what does not decode.
pub const REPLACEMENT: char = '\u{FFFD}';

/// A code unit that opens a surrogate pair.
pub open spec fn is_high_surrogate(u: u16) -> bool {
    0xD800 <= u && u <= 0xDBFF
}

/// A code unit that closes a surrogate pair.
pub open spec fn is_low_surrogate(u: u16) -> bool {
    0xDC00 <= u && u <= 0xDFFF
}

/// A code unit that is half of a surrogate pair.
pub open spec fn is_surrogate(u: u16) -> bool {
    0xD800 <= u && u <= 0xDFFF
}

/// The scalar value that a surrogate pair stands for.
pub open spec fn pair_value(hi: u16, lo: u16) -> u32 {
    (0x10000 + (hi - 0xD800) * 0x400 + (lo - 0xDC00)) as u32
}

/// The UTF-16 code units of one character.
pub open spec fn encode_char_utf16(c: char) -> Seq<u16> {
    let u = c as u32;
    if u < 0x10000 {
        seq![u as u16]
    } else {
        seq![
            (0xD800 + (u - 0x10000) / 0x400) as u16,
            (0xDC00 + (u - 0x10000) % 0x400) as u16,
        ]
    }
}

/// The UTF-16 code units of a text (`str::encode_utf16`).
pub open spec fn encode_utf16(s: Seq<char>) -> Seq<u16>
    decreases s.len(),
{
    if s.len() == 0 {
        Seq::empty()
    } else {
        encode_char_utf16(s[0]) + encode_utf16(s.drop_first())
    }
}

/// Decoding of code units as `char::decode_utf16` does it, each error
/// replaced by U+FFFD: a surrogate pair gives one character, a surrogate
/// that is not the first half of a pair gives one U+FFFD.
pub open spec fn decode_utf16_lossy(us: Seq<u16>) -> Seq<char>
    decreases us.len(),
{
    if us.len() == 0 {
        Seq::empty()
    } else if !is_surrogate(us[0]) {
        seq![(us[0] as u32) as char] + decode_utf16_lossy(us.drop_first())
    } else if is_high_surrogate(us[0]) && us.len() >= 2 && is_low_surrogate(us[1]) {
        seq![pair_value(us[0], us[1]) as char] + decode_utf16_lossy(us.subrange(2, us.len() as int))
    } else {
        seq![REPLACEMENT] + decode_utf16_lossy(us.drop_first())
    }
}

/// The little-endian code unit at byte offset `p`.
pub open spec fn unit_at(bytes: Seq<u8>, p: int) -> u16 {
    (bytes[p] as int + 256 * (bytes[p + 1] as int)) as u16
}

/// The whole little-endian code units of `bytes`; a trailing odd byte is not
/// among them.
pub open spec fn units_of(bytes: Seq<u8>) -> Seq<u16> {
    Seq::new((bytes.len() / 2) as nat, |i: int| unit_at(bytes, 2 * i))
}

/// `String::from_utf16le_lossy`: the units decoded lossily, and one more
/// U+FFFD when a byte is left over.
pub open spec fn decode_utf16le_lossy(bytes: Seq<u8>) -> Seq<char> {
    if bytes.len() % 2 == 1 {
        decode_utf16_lossy(units_of(bytes)).push(REPLACEMENT)
    } else {
        decode_utf16_lossy(units_of(bytes))
    }
}

/// The character whose scalar value is `u`, if `u` is one (`char::from_u32`).
#[verifier::external_body]
fn char_from_u32(u: u32) -> (r: Option<char>)
    ensures
        r == if is_scalar(u) {
            Some(u as char)
        } else {
            None
        },
{
    char::from_u32(u)
}

/// The little-endian code unit at byte offset `p`.
pub fn read_unit(bytes: &[u8], p: usize) -> (r: u16)
    requires
        p + 1 < bytes@.len(),
    ensures
        r == unit_at(bytes@, p as int),
{
    bytes[p] as u16 + 256 * (bytes[p + 1] as u16)
}

proof fn lemma_pair_is_scalar(hi: u16, lo: u16)
    requires
        is_high_surrogate(hi),
        is_low_surrogate(lo),
    ensures
        0x10000 <= pair_value(hi, lo) <= 0x10FFFF,
        is_scalar(pair_value(hi, lo)),
{
}

/// Decodes code units lossily (see `decode_utf16_lossy`).
pub fn decode_units_lossy(us: &[u16]) -> (r: Vec<char>)
    ensures
        r@ == decode_utf16_lossy(us@),
{
    let n = us.len();
    let mut out: Vec<char> = Vec::new();
    let mut i: usize = 0;
    assert(us@.subrange(0, n as int) =~= us@);
    while i < n
        invariant
            n == us@.len(),
            i <= n,
            decode_utf16_lossy(us@) == out@ + decode_utf16_lossy(us@.subrange(i as int, n as int)),
        decreases n - i,
    {
        let ghost rest = us@.subrange(i as int, n as int);
        let u = us[i];
        if u < 0xD800 || u > 0xDFFF {
            let c = char_from_u32(u as u32);
            assert(is_scalar(u as u32));
            let ch = c.unwrap();
            assert(rest.drop_first() =~= us@.subrange(i + 1, n as int));
            out.push(ch);
            i = i + 1;
        } else if u <= 0xDBFF && i + 1 < n && us[i + 1] >= 0xDC00 && us[i + 1] <= 0xDFFF {
            let lo = us[i + 1];
            proof {
                lemma_pair_is_scalar(u, lo);
            }
            let v: u32 = 0x10000 + (u as u32 - 0xD800) * 0x400 + (lo as u32 - 0xDC00);
            assert(v == pair_value(u, lo));
            let c = char_from_u32(v);
            let ch = c.unwrap();
            assert(rest.subrange(2, rest.len() as int) =~= us@.subrange(i + 2, n as int));
            out.push(ch);
            i = i + 2;
        } else {
            assert(rest.drop_first() =~= us@.subrange(i + 1, n as int));
            out.push(REPLACEMENT);
            i = i + 1;
        }
        proof {
            assert(decode_utf16_lossy(us@) == out@ + decode_utf16_lossy(
                us@.subrange(i as int, n as int),
            )) by {
                assert(out@.drop_last().push(out@.last()) =~= out@);
                assert(out@.drop_last() + (seq![out@.last()] + decode_utf16_lossy(
                    us@.subrange(i as int, n as int),
                )) =~= out@ + decode_utf16_lossy(us@.subrange(i as int, n as int)));
            }
        }
    }
    assert(us@.subrange(n as int, n as int) =~= Seq::<u16>::empty());
    assert(out@ + Seq::<char>::empty() =~= out@);
    out
}

/// The whole little-endian code units of `bytes` (see `units_of`).
pub fn units_of_bytes(bytes: &[u8]) -> (r: Vec<u16>)
    ensures
        r@ == units_of(bytes@),
{
    let n = bytes.len() / 2;
    let mut out: Vec<u16> = Vec::new();
    let mut i: usize = 0;
    while i < n
        invariant
            n == bytes@.len() / 2,
            i <= n,
            out@ == units_of(bytes@).take(i as int),
        decreases n - i,
    {
        assert(2 * i + 1 < bytes.len());
        let u = read_unit(bytes, 2 * i);
        out.push(u);
        i = i + 1;
        assert(out@ =~= units_of(bytes@).take(i as int));
    }
    assert(units_of(bytes@).take(n as int) =~= units_of(bytes@));
    out
}

/// `String::from_utf16le_lossy` (see `decode_utf16le_lossy`).
pub fn from_utf16le_lossy(bytes: &[u8]) -> (r: Vec<char>)
    ensures
        r@ == decode_utf16le_lossy(bytes@),
{
    let units = units_of_bytes(bytes);
    let mut out = decode_units_lossy(units.as_slice());
    if bytes.len() % 2 == 1 {
        out.push(REPLACEMENT);
    }
    out
}

/// The UTF-16 code units of a text (see `encode_utf16`).
pub fn encode_text_utf16(s: &[char]) -> (r: Vec<u16>)
    ensures
        r@ == encode_utf16(s@),
{
    let n = s.len();
    let mut out: Vec<u16> = Vec::new();
    let mut i: usize = 0;
    assert(s@.subrange(0, n as int) =~= s@);
    assert(out@ + encode_utf16(s@.subrange(0, n as int)) =~= encode_utf16(s@));
    while i < n
        invariant
            n == s@.len(),
            i <= n,
            out@ + encode_utf16(s@.subrange(i as int, n as int)) == encode_utf16(s@),
        decreases n - i,
    {
        let ghost rest = s@.subrange(i as int, n as int);
        assert(rest.drop_first() =~= s@.subrange(i + 1, n as int));
        let u = s[i] as u32;
        if u < 0x10000 {
            out.push(u as u16);
        } else {
            proof {
                vstd::utf8::char_is_scalar(s[i as int]);
            }
            out.push((0xD800 + (u - 0x10000) / 0x400) as u16);
            out.push((0xDC00 + (u - 0x10000) % 0x400) as u16);
        }
        i = i + 1;
        proof {
            assert(out@ + encode_utf16(s@.subrange(i as int, n as int)) =~= encode_utf16(s@)) by {
                let prev = out@.subrange(0, out@.len() - encode_char_utf16(s@[i - 1]).len());
                assert(out@ =~= prev + encode_char_utf16(s@[i - 1]));
            }
        }
    }
    assert(s@.subrange(n as int, n as int) =~= Seq::<char>::empty());
    assert(out@ + Seq::<u16>::empty() =~= out@);
    out
}

proof fn lemma_decode_char(c: char, rest: Seq<u16>)
    ensures
        decode_utf16_lossy(encode_char_utf16(c) + rest) == seq![c] + decode_utf16_lossy(rest),
{
    vstd::utf8::char_is_scalar(c);
    let u = c as u32;
    let e = encode_char_utf16(c);
    let all = e + rest;
    vstd::utf8::char_u32_cast(c, u);
    if u < 0x10000 {
        assert(all.drop_first() =~= rest);
        assert(all[0] == u as u16);
        assert((all[0] as u32) == u);
    } else {
        let q = (u - 0x10000) / 0x400;
        let r = (u - 0x10000) % 0x400;
        assert(u - 0x10000 == 0x400 * q + r) by (nonlinear_arith)
            requires
                q == (u - 0x10000) / 0x400,
                r == (u - 0x10000) % 0x400,
        ;
        assert(0 <= r < 0x400);
        assert(q < 0x400) by (nonlinear_arith)
            requires
                q == (u - 0x10000) / 0x400,
                u <= 0x10FFFF,
                u >= 0x10000,
        ;
        assert(all.subrange(2, all.len() as int) =~= rest);
        assert(pair_value(all[0], all[1]) == u);
    }
}

/// Decoding what encoding produced gives the text back: the header texts that
/// the fleet log reader compares against are read back as written.
pub proof fn law_utf16_round_trip(s: Seq<char>)
    ensures
        decode_utf16_lossy(encode_utf16(s)) == s,
    decreases s.len(),
{
    if s.len() > 0 {
        law_utf16_round_trip(s.drop_first());
        lemma_decode_char(s[0], encode_utf16(s.drop_first()));
        assert(seq![s[0]] + s.drop_first() =~= s);
    } else {
        assert(encode_utf16(s) =~= Seq::<u16>::empty());
    }
}

} // verus!
