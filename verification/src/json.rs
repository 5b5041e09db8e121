//! The document format of a flyg file: a restricted JSON document with a
//! fixed schema, defined here as a recursive grammar over bytes and decoded
//! by verified functions that are proved to follow that grammar exactly.
//!
//! Number and string syntax is JSON's: no leading zeros, string content
//! well-formed UTF-8, the single-character escapes and `\uXXXX` with
//! surrogate pairs. The two integer fields of the schema reject
//! fractions, exponents and signs. An object's members may appear in any
//! order, each schema member at most once; members outside the schema are
//! ignored, though their values must still be well-formed; the extended
//! members (`fuelWeight`, `unusableFuelQuantity`, `fuelRecords`) may be
//! left out and then take their schema defaults (zero, and no records).

use vstd::prelude::*;
use vstd::string::StrSliceExecFns;
use vstd::string::StringSliceAdditionalSpecFns;

use crate::model::Decimal;
use crate::model::FlygFlight;
use crate::model::FlygFlightView;
use crate::model::FlygFormatError;
use crate::model::FuelRecord;
use crate::model::FuelRecordView;
use crate::model::PlaneInformation;
use crate::model::PlaneInformationView;
use crate::model::Times;
use crate::model::TimesView;

verus! {

/// ASCII lower-casing of a single byte: upper-case letters fold, every
/// other byte is unchanged.
pub open spec fn lower_byte(b: u8) -> u8 {
    if 65 <= b && b <= 90 {
        (b + 32) as u8
    } else {
        b
    }
}

/// Fold one byte to its ASCII lower case.
pub fn to_lower_byte(b: u8) -> (r: u8)
    ensures
        r == lower_byte(b),
{
    if 65 <= b && b <= 90 {
        b + 32
    } else {
        b
    }
}

/// Space, horizontal tab, line feed, carriage return: the bytes the format
/// treats as insignificant whitespace between tokens.
pub open spec fn is_ws(b: u8) -> bool {
    b == 32 || b == 9 || b == 10 || b == 13
}

/// The ASCII digits `0` through `9`.
pub open spec fn is_digit(b: u8) -> bool {
    48 <= b <= 57
}

/// The first position at or after `pos` that does not hold whitespace.
pub open spec fn ws_end(s: Seq<u8>, pos: int) -> int
    decreases s.len() - pos when 0 <= pos <= s.len()
{
    if pos < s.len() && is_ws(s[pos]) {
        ws_end(s, pos + 1)
    } else {
        pos
    }
}

/// Advance over whitespace.
pub fn skip_ws(s: &[u8], pos: usize) -> (r: usize)
    requires
        pos <= s@.len(),
    ensures
        r == ws_end(s@, pos as int),
        pos <= r <= s@.len(),
{
    let mut cur: usize = pos;
    while cur < s.len() && (s[cur] == 32 || s[cur] == 9 || s[cur] == 10 || s[cur] == 13)
        invariant
            pos <= cur <= s@.len(),
            ws_end(s@, pos as int) == ws_end(s@, cur as int),
        decreases s@.len() - cur,
    {
        cur = cur + 1;
    }
    cur
}

/// The replacement byte of a single-character escape sequence, or `None`
/// when the byte after the backslash is not one of the supported escapes.
pub open spec fn unescaped(b: u8) -> Option<u8> {
    if b == 34 {
        Some(34u8)  // \"
    } else if b == 92 {
        Some(92u8)  // \\
    } else if b == 47 {
        Some(47u8)  // \/
    } else if b == 98 {
        Some(8u8)  // \b
    } else if b == 102 {
        Some(12u8)  // \f
    } else if b == 110 {
        Some(10u8)  // \n
    } else if b == 114 {
        Some(13u8)  // \r
    } else if b == 116 {
        Some(9u8)  // \t
    } else {
        None
    }
}

/// The value of an ASCII hex digit, or `None` for any other byte.
#[verifier::opaque]
pub open spec fn hex_val(b: u8) -> Option<u8> {
    if 48 <= b <= 57 {
        Some((b - 48) as u8)
    } else if 97 <= b <= 102 {
        Some((b - 87) as u8)
    } else if 65 <= b <= 70 {
        Some((b - 55) as u8)
    } else {
        None
    }
}

/// The value of the four hex digits starting at `pos`, or `None` when
/// fewer than four bytes follow or one of them is not a hex digit.
#[verifier::opaque]
pub open spec fn hex4(s: Seq<u8>, pos: int) -> Option<u32> {
    if 0 <= pos && pos + 4 <= s.len() {
        match (hex_val(s[pos]), hex_val(s[pos + 1]), hex_val(s[pos + 2]), hex_val(s[pos + 3])) {
            (Some(a), Some(b), Some(c), Some(d)) => Some(
                (a as u32 * 4096 + b as u32 * 256 + c as u32 * 16 + d as u32) as u32,
            ),
            _ => None,
        }
    } else {
        None
    }
}

/// The UTF-8 encoding of one code point (below the last code point and
/// not a surrogate).
#[verifier::opaque]
pub open spec fn utf8_of_cp(cp: u32) -> Seq<u8>
    recommends
        cp < 0x110000,
{
    if cp < 0x80 {
        seq![cp as u8]
    } else if cp < 0x800 {
        seq![(192 + cp / 64) as u8, (128 + cp % 64) as u8]
    } else if cp < 0x10000 {
        seq![(224 + cp / 4096) as u8, (128 + (cp / 64) % 64) as u8, (128 + cp % 64) as u8]
    } else {
        seq![
            (240 + cp / 262144) as u8,
            (128 + (cp / 4096) % 64) as u8,
            (128 + (cp / 64) % 64) as u8,
            (128 + cp % 64) as u8,
        ]
    }
}

/// A UTF-8 continuation byte.
pub open spec fn is_cont(b: u8) -> bool {
    128 <= b <= 191
}

/// The end of a well-formed UTF-8 multi-byte sequence whose leading byte
/// stands at `pos`, or `None` when the bytes there are not one. The table
/// is the standard one: it excludes overlong forms, surrogates and values
/// beyond the last code point.
#[verifier::opaque]
pub open spec fn utf8_seq_end(s: Seq<u8>, pos: int) -> Option<int>
    recommends
        0 <= pos < s.len(),
{
    let b0 = s[pos];
    if 194 <= b0 <= 223 {
        if pos + 2 <= s.len() && is_cont(s[pos + 1]) {
            Some(pos + 2)
        } else {
            None
        }
    } else if b0 == 224 {
        if s.len() - pos >= 3 && 160 <= s[pos + 1] <= 191 && is_cont(s[pos + 2]) {
            Some(pos + 3)
        } else {
            None
        }
    } else if (225 <= b0 <= 236) || b0 == 238 || b0 == 239 {
        if pos + 3 <= s.len() && is_cont(s[pos + 1]) && is_cont(s[pos + 2]) {
            Some(pos + 3)
        } else {
            None
        }
    } else if b0 == 237 {
        if pos + 3 <= s.len() && 128 <= s[pos + 1] <= 159 && is_cont(s[pos + 2]) {
            Some(pos + 3)
        } else {
            None
        }
    } else if b0 == 240 {
        if s.len() - pos >= 4 && 144 <= s[pos + 1] <= 191 && is_cont(s[pos + 2]) && is_cont(
            s[pos + 3],
        ) {
            Some(pos + 4)
        } else {
            None
        }
    } else if 241 <= b0 <= 243 {
        if pos + 4 <= s.len() && is_cont(s[pos + 1]) && is_cont(s[pos + 2]) && is_cont(
            s[pos + 3],
        ) {
            Some(pos + 4)
        } else {
            None
        }
    } else if b0 == 244 {
        if pos + 4 <= s.len() && 128 <= s[pos + 1] <= 143 && is_cont(s[pos + 2]) && is_cont(
            s[pos + 3],
        ) {
            Some(pos + 4)
        } else {
            None
        }
    } else {
        None
    }
}

/// The body of a string token, starting right after the opening quote:
/// the unescaped content and the position right after the closing quote,
/// or `None` when the bytes do not form a valid string body. Control
/// bytes below 32 must be escaped; other ASCII bytes stand for
/// themselves; bytes beyond ASCII must form well-formed UTF-8 sequences,
/// which are kept as they stand; `\uXXXX` escapes (with a surrogate pair
/// for a code point beyond the basic plane) decode to the UTF-8 bytes of
/// their code point. The bound checks before the recursive steps can
/// never fail (each sequence's end lies within the input); they make the
/// descent of the definition manifest.
pub open spec fn parse_string_body(s: Seq<u8>, pos: int) -> Option<(Seq<u8>, int)>
    decreases s.len() - pos when 0 <= pos <= s.len()
{
    if pos >= s.len() {
        None
    } else if s[pos] == 34 {
        Some((Seq::empty(), pos + 1))
    } else if s[pos] == 92 {
        if pos + 1 < s.len() {
            if s[pos + 1] == 117 {
                // \uXXXX: a code point, or a surrogate pair for one
                // beyond the basic plane
                match hex4(s, pos + 2) {
                    None => None,
                    Some(cp) => if cp < 0xD800 || cp >= 0xE000 {
                        if pos + 6 <= s.len() {
                            match parse_string_body(s, pos + 6) {
                                Some(r) => Some((utf8_of_cp(cp) + r.0, r.1)),
                                None => None,
                            }
                        } else {
                            None
                        }
                    } else if cp < 0xDC00 {
                        if pos + 8 <= s.len() && s[pos + 6] == 92 && s[pos + 7] == 117 {
                            match hex4(s, pos + 8) {
                                None => None,
                                Some(cp2) => if 0xDC00 <= cp2 < 0xE000 && pos + 12 <= s.len() {
                                    match parse_string_body(s, pos + 12) {
                                        Some(r) => Some((
                                            utf8_of_cp(
                                                (0x10000 + (cp - 0xD800) * 1024 + (cp2
                                                    - 0xDC00)) as u32,
                                            ) + r.0,
                                            r.1,
                                        )),
                                        None => None,
                                    }
                                } else {
                                    None
                                },
                            }
                        } else {
                            None
                        }
                    } else {
                        None
                    },
                }
            } else {
                match unescaped(s[pos + 1]) {
                    Some(e) => match parse_string_body(s, pos + 2) {
                        Some(r) => Some((seq![e] + r.0, r.1)),
                        None => None,
                    },
                    None => None,
                }
            }
        } else {
            None
        }
    } else if s[pos] < 32 {
        None
    } else if s[pos] < 128 {
        match parse_string_body(s, pos + 1) {
            Some(r) => Some((seq![s[pos]] + r.0, r.1)),
            None => None,
        }
    } else {
        match utf8_seq_end(s, pos) {
            None => None,
            Some(e) => if pos < e <= s.len() {
                match parse_string_body(s, e) {
                    Some(r) => Some((s.subrange(pos, e) + r.0, r.1)),
                    None => None,
                }
            } else {
                None
            },
        }
    }
}

/// A string token at `pos`: opening quote, body, closing quote.
pub open spec fn parse_string(s: Seq<u8>, pos: int) -> Option<(Seq<u8>, int)> {
    if 0 <= pos < s.len() && s[pos] == 34 {
        parse_string_body(s, pos + 1)
    } else {
        None
    }
}

pub proof fn lemma_parse_string_body_bounds(s: Seq<u8>, pos: int)
    requires
        0 <= pos <= s.len(),
    ensures
        parse_string_body(s, pos) matches Some(r) ==> pos < r.1 <= s.len(),
    decreases s.len() - pos,
{
    if pos < s.len() {
        if s[pos] == 92 {
            if pos + 2 <= s.len() {
                lemma_parse_string_body_bounds(s, pos + 2);
            }
            if pos + 6 <= s.len() {
                lemma_parse_string_body_bounds(s, pos + 6);
            }
            if pos + 12 <= s.len() {
                lemma_parse_string_body_bounds(s, pos + 12);
            }
        } else if s[pos] != 34 && 32 <= s[pos] < 128 {
            lemma_parse_string_body_bounds(s, pos + 1);
        } else if s[pos] >= 128 {
            if let Some(e) = utf8_seq_end(s, pos) {
                if pos < e <= s.len() {
                    lemma_parse_string_body_bounds(s, e);
                }
            }
        }
    }
}

pub proof fn lemma_parse_string_bounds(s: Seq<u8>, pos: int)
    requires
        0 <= pos <= s.len(),
    ensures
        parse_string(s, pos) matches Some(r) ==> pos + 1 < r.1 <= s.len(),
{
    if pos < s.len() && s[pos] == 34 {
        lemma_parse_string_body_bounds(s, pos + 1);
    }
}

/// The value of one hex digit.
fn hex_digit(b: u8) -> (r: Option<u8>)
    ensures
        r == hex_val(b),
        r matches Some(v) ==> v < 16,
{
    proof {
        reveal(hex_val);
    }
    if 48 <= b && b <= 57 {
        Some(b - 48)
    } else if 97 <= b && b <= 102 {
        Some(b - 87)
    } else if 65 <= b && b <= 70 {
        Some(b - 55)
    } else {
        None
    }
}

/// The value of four hex digits.
fn hex4_scan(s: &[u8], pos: usize) -> (r: Option<u32>)
    requires
        pos <= s@.len(),
    ensures
        r == hex4(s@, pos as int),
        r matches Some(v) ==> v < 0x10000 && pos + 4 <= s@.len(),
{
    proof {
        reveal(hex4);
    }
    if s.len() - pos < 4 {
        return None;
    }
    let a = match hex_digit(s[pos]) {
        None => return None,
        Some(v) => v,
    };
    let b = match hex_digit(s[pos + 1]) {
        None => return None,
        Some(v) => v,
    };
    let c = match hex_digit(s[pos + 2]) {
        None => return None,
        Some(v) => v,
    };
    let d = match hex_digit(s[pos + 3]) {
        None => return None,
        Some(v) => v,
    };
    Some(a as u32 * 4096 + b as u32 * 256 + c as u32 * 16 + d as u32)
}

/// Append the UTF-8 encoding of one code point.
fn push_utf8_cp(acc: &mut Vec<u8>, cp: u32)
    requires
        cp < 0x110000,
    ensures
        final(acc)@ == old(acc)@ + utf8_of_cp(cp),
{
    if cp < 0x80 {
        acc.push(cp as u8);
    } else if cp < 0x800 {
        acc.push((192 + cp / 64) as u8);
        acc.push((128 + cp % 64) as u8);
    } else if cp < 0x10000 {
        acc.push((224 + cp / 4096) as u8);
        acc.push((128 + (cp / 64) % 64) as u8);
        acc.push((128 + cp % 64) as u8);
    } else {
        acc.push((240 + cp / 262144) as u8);
        acc.push((128 + (cp / 4096) % 64) as u8);
        acc.push((128 + (cp / 64) % 64) as u8);
        acc.push((128 + cp % 64) as u8);
    }
    proof {
        reveal(utf8_of_cp);
        assert(acc@ =~= old(acc)@ + utf8_of_cp(cp));
    }
}

/// Advance over one well-formed UTF-8 multi-byte sequence.
fn utf8_seq_scan(s: &[u8], pos: usize) -> (r: Option<usize>)
    requires
        pos < s@.len(),
        s@[pos as int] >= 128,
    ensures
        match r {
            Some(e) => utf8_seq_end(s@, pos as int) == Some(e as int) && pos + 2 <= e <= s@.len()
                && e <= pos + 4,
            None => utf8_seq_end(s@, pos as int) is None,
        },
{
    proof {
        reveal(utf8_seq_end);
    }
    let b0 = s[pos];
    if 194 <= b0 && b0 <= 223 {
        if s.len() - pos >= 2 && 128 <= s[pos + 1] && s[pos + 1] <= 191 {
            Some(pos + 2)
        } else {
            None
        }
    } else if b0 == 224 {
        if s.len() - pos >= 3 && 160 <= s[pos + 1] && s[pos + 1] <= 191 && 128 <= s[pos + 2]
            && s[pos + 2] <= 191 {
            Some(pos + 3)
        } else {
            None
        }
    } else if (225 <= b0 && b0 <= 236) || b0 == 238 || b0 == 239 {
        if s.len() - pos >= 3 && 128 <= s[pos + 1] && s[pos + 1] <= 191 && 128 <= s[pos + 2]
            && s[pos + 2] <= 191 {
            Some(pos + 3)
        } else {
            None
        }
    } else if b0 == 237 {
        if s.len() - pos >= 3 && 128 <= s[pos + 1] && s[pos + 1] <= 159 && 128 <= s[pos + 2]
            && s[pos + 2] <= 191 {
            Some(pos + 3)
        } else {
            None
        }
    } else if b0 == 240 {
        if s.len() - pos >= 4 && 144 <= s[pos + 1] && s[pos + 1] <= 191 && 128 <= s[pos + 2]
            && s[pos + 2] <= 191 && 128 <= s[pos + 3] && s[pos + 3] <= 191 {
            Some(pos + 4)
        } else {
            None
        }
    } else if 241 <= b0 && b0 <= 243 {
        if s.len() - pos >= 4 && 128 <= s[pos + 1] && s[pos + 1] <= 191 && 128 <= s[pos + 2]
            && s[pos + 2] <= 191 && 128 <= s[pos + 3] && s[pos + 3] <= 191 {
            Some(pos + 4)
        } else {
            None
        }
    } else if b0 == 244 {
        if s.len() - pos >= 4 && 128 <= s[pos + 1] && s[pos + 1] <= 143 && 128 <= s[pos + 2]
            && s[pos + 2] <= 191 && 128 <= s[pos + 3] && s[pos + 3] <= 191 {
            Some(pos + 4)
        } else {
            None
        }
    } else {
        None
    }
}

/// Decode a string token at `pos`.
#[verifier::rlimit(100)]
pub fn scan_string(s: &[u8], pos: usize) -> (r: Option<(Vec<u8>, usize)>)
    requires
        pos <= s@.len(),
    ensures
        match r {
            Some(v) => parse_string(s@, pos as int) == Some((v.0@, v.1 as int))
                && pos < v.1 <= s@.len(),
            None => parse_string(s@, pos as int) is None,
        },
{
    proof {
        lemma_parse_string_bounds(s@, pos as int);
    }
    if pos >= s.len() || s[pos] != 34 {
        return None;
    }
    let mut acc: Vec<u8> = Vec::new();
    let mut cur: usize = pos + 1;
    loop
        invariant
            pos < s@.len(),
            s@[pos as int] == 34,
            pos + 1 <= cur <= s@.len(),
            match parse_string_body(s@, cur as int) {
                Some(r) => parse_string_body(s@, pos + 1) == Some((acc@ + r.0, r.1)),
                None => parse_string_body(s@, pos + 1) is None,
            },
        decreases s@.len() - cur,
    {
        if cur >= s.len() {
            return None;
        }
        let b = s[cur];
        if b == 34 {
            proof {
                assert(acc@ + Seq::<u8>::empty() =~= acc@);
                lemma_parse_string_body_bounds(s@, pos + 1);
            }
            return Some((acc, cur + 1));
        } else if b == 92 {
            if cur + 1 >= s.len() {
                return None;
            }
            let e = s[cur + 1];
            let ghost old_acc = acc@;
            if e == 117 {
                let cp = match hex4_scan(s, cur + 2) {
                    None => return None,
                    Some(v) => v,
                };
                if cp < 0xD800 || cp >= 0xE000 {
                    push_utf8_cp(&mut acc, cp);
                    proof {
                        if let Some(r) = parse_string_body(s@, cur as int + 6) {
                            assert(old_acc + (utf8_of_cp(cp) + r.0) =~= (old_acc + utf8_of_cp(cp))
                                + r.0);
                        }
                    }
                    cur = cur + 6;
                    continue;
                }
                if !(cp < 0xDC00) {
                    return None;
                }
                if !(s.len() - cur >= 8 && s[cur + 6] == 92 && s[cur + 7] == 117) {
                    return None;
                }
                let cp2 = match hex4_scan(s, cur + 8) {
                    None => return None,
                    Some(v) => v,
                };
                if !(0xDC00 <= cp2 && cp2 < 0xE000) {
                    return None;
                }
                let combined: u32 = 0x10000 + (cp - 0xD800) * 1024 + (cp2 - 0xDC00);
                push_utf8_cp(&mut acc, combined);
                proof {
                    if let Some(r) = parse_string_body(s@, cur as int + 12) {
                        assert(old_acc + (utf8_of_cp(combined) + r.0) =~= (old_acc + utf8_of_cp(
                            combined,
                        )) + r.0);
                    }
                }
                cur = cur + 12;
                continue;
            }
            if e == 34 {
                acc.push(34);
            } else if e == 92 {
                acc.push(92);
            } else if e == 47 {
                acc.push(47);
            } else if e == 98 {
                acc.push(8);
            } else if e == 102 {
                acc.push(12);
            } else if e == 110 {
                acc.push(10);
            } else if e == 114 {
                acc.push(13);
            } else if e == 116 {
                acc.push(9);
            } else {
                return None;
            }
            proof {
                let u = unescaped(s@[cur + 1]).unwrap();
                assert(acc@ == old_acc + seq![u]);
                if let Some(r) = parse_string_body(s@, cur as int + 2) {
                    assert(old_acc + (seq![u] + r.0) =~= (old_acc + seq![u]) + r.0);
                }
            }
            cur = cur + 2;
        } else if b < 32 {
            return None;
        } else if b < 128 {
            let ghost old_acc = acc@;
            acc.push(b);
            proof {
                if let Some(r) = parse_string_body(s@, cur as int + 1) {
                    assert(old_acc + (seq![b] + r.0) =~= (old_acc + seq![b]) + r.0);
                }
            }
            cur = cur + 1;
        } else {
            let e = match utf8_seq_scan(s, cur) {
                None => return None,
                Some(p) => p,
            };
            let ghost old_acc = acc@;
            acc.push(s[cur]);
            acc.push(s[cur + 1]);
            if e - cur >= 3 {
                acc.push(s[cur + 2]);
            }
            if e - cur >= 4 {
                acc.push(s[cur + 3]);
            }
            proof {
                assert(acc@ =~= old_acc + s@.subrange(cur as int, e as int));
                if let Some(r) = parse_string_body(s@, e as int) {
                    assert(old_acc + (s@.subrange(cur as int, e as int) + r.0) =~= (old_acc
                        + s@.subrange(cur as int, e as int)) + r.0);
                }
            }
            cur = e;
        }
    }
}

/// The first position at or after `pos` that does not hold a digit.
pub open spec fn digits_end(s: Seq<u8>, pos: int) -> int
    decreases s.len() - pos when 0 <= pos <= s.len()
{
    if pos < s.len() && is_digit(s[pos]) {
        digits_end(s, pos + 1)
    } else {
        pos
    }
}

pub proof fn lemma_digits_end_bounds(s: Seq<u8>, pos: int)
    requires
        0 <= pos <= s.len(),
    ensures
        pos <= digits_end(s, pos) <= s.len(),
        forall|i: int| pos <= i < digits_end(s, pos) ==> is_digit(s[i]),
    decreases s.len() - pos,
{
    if pos < s.len() && is_digit(s[pos]) {
        lemma_digits_end_bounds(s, pos + 1);
    }
}

/// Advance over digits.
pub fn skip_digits(s: &[u8], pos: usize) -> (r: usize)
    requires
        pos <= s@.len(),
    ensures
        r == digits_end(s@, pos as int),
        pos <= r <= s@.len(),
{
    let mut cur: usize = pos;
    while cur < s.len() && 48 <= s[cur] && s[cur] <= 57
        invariant
            pos <= cur <= s@.len(),
            digits_end(s@, pos as int) == digits_end(s@, cur as int),
        decreases s@.len() - cur,
    {
        cur = cur + 1;
    }
    cur
}

/// The position right after a number token at `pos`, or `None` when no
/// number token starts there. The grammar is JSON's: an optional minus
/// sign, an integer part (a single `0`, or a nonzero digit followed by
/// digits — no leading zeros), an optional fraction (`.` and one or more
/// digits) and an optional exponent (`e` or `E`, an optional sign, one or
/// more digits).
pub open spec fn number_end(s: Seq<u8>, pos: int) -> Option<int> {
    let p1 = if 0 <= pos < s.len() && s[pos] == 45 {
        pos + 1
    } else {
        pos
    };
    if !(0 <= p1 < s.len() && is_digit(s[p1])) {
        None
    } else {
        let p2 = if s[p1] == 48 {
            p1 + 1
        } else {
            digits_end(s, p1)
        };
        let frac = if p2 < s.len() && s[p2] == 46 {
            if p2 + 1 < s.len() && is_digit(s[p2 + 1]) {
                Some(digits_end(s, p2 + 1))
            } else {
                None
            }
        } else {
            Some(p2)
        };
        match frac {
            None => None,
            Some(p3) => {
                if p3 < s.len() && (s[p3] == 101 || s[p3] == 69) {
                    let p4 = if p3 + 1 < s.len() && (s[p3 + 1] == 43 || s[p3 + 1] == 45) {
                        p3 + 2
                    } else {
                        p3 + 1
                    };
                    if p4 < s.len() && is_digit(s[p4]) {
                        Some(digits_end(s, p4))
                    } else {
                        None
                    }
                } else {
                    Some(p3)
                }
            },
        }
    }
}

/// A number token at `pos`: the bytes of the token and the position right
/// after it.
pub open spec fn parse_number(s: Seq<u8>, pos: int) -> Option<(Seq<u8>, int)> {
    match number_end(s, pos) {
        Some(e) => Some((s.subrange(pos, e), e)),
        None => None,
    }
}

pub proof fn lemma_number_end_bounds(s: Seq<u8>, pos: int)
    requires
        0 <= pos <= s.len(),
    ensures
        number_end(s, pos) matches Some(e) ==> pos < e <= s.len(),
{
    let p1 = if 0 <= pos < s.len() && s[pos] == 45 {
        pos + 1
    } else {
        pos
    };
    if 0 <= p1 < s.len() && is_digit(s[p1]) {
        let p2 = if s[p1] == 48 {
            p1 + 1
        } else {
            digits_end(s, p1)
        };
        if s[p1] != 48 {
            lemma_digits_end_bounds(s, p1 + 1);
            assert(p2 == digits_end(s, p1 + 1));
        }
        assert(p2 > p1);
        if p2 < s.len() && s[p2] == 46 && p2 + 1 < s.len() && is_digit(s[p2 + 1]) {
            lemma_digits_end_bounds(s, p2 + 1);
        }
        let frac = if p2 < s.len() && s[p2] == 46 {
            if p2 + 1 < s.len() && is_digit(s[p2 + 1]) {
                Some(digits_end(s, p2 + 1))
            } else {
                None
            }
        } else {
            Some(p2)
        };
        if let Some(p3) = frac {
            if p3 < s.len() && (s[p3] == 101 || s[p3] == 69) {
                let p4 = if p3 + 1 < s.len() && (s[p3 + 1] == 43 || s[p3 + 1] == 45) {
                    p3 + 2
                } else {
                    p3 + 1
                };
                if p4 < s.len() && is_digit(s[p4]) {
                    lemma_digits_end_bounds(s, p4);
                }
            }
        }
    }
}

/// Scan a number token at `pos` and hand back its bytes.
pub fn scan_number(s: &[u8], pos: usize) -> (r: Option<(Vec<u8>, usize)>)
    requires
        pos <= s@.len(),
    ensures
        match r {
            Some(v) => parse_number(s@, pos as int) == Some((v.0@, v.1 as int))
                && pos < v.1 <= s@.len(),
            None => parse_number(s@, pos as int) is None,
        },
{
    proof {
        lemma_number_end_bounds(s@, pos as int);
    }
    let p1: usize = if pos < s.len() && s[pos] == 45 {
        pos + 1
    } else {
        pos
    };
    if !(p1 < s.len() && 48 <= s[p1] && s[p1] <= 57) {
        return None;
    }
    let p2: usize = if s[p1] == 48 {
        p1 + 1
    } else {
        skip_digits(s, p1)
    };
    let p3: usize = if p2 < s.len() && s[p2] == 46 {
        if p2 + 1 < s.len() && 48 <= s[p2 + 1] && s[p2 + 1] <= 57 {
            skip_digits(s, p2 + 1)
        } else {
            return None;
        }
    } else {
        p2
    };
    let end: usize = if p3 < s.len() && (s[p3] == 101 || s[p3] == 69) {
        let p4: usize = if p3 + 1 < s.len() && (s[p3 + 1] == 43 || s[p3 + 1] == 45) {
            p3 + 2
        } else {
            p3 + 1
        };
        if p4 < s.len() && 48 <= s[p4] && s[p4] <= 57 {
            skip_digits(s, p4)
        } else {
            return None;
        }
    } else {
        p3
    };
    assert(number_end(s@, pos as int) == Some(end as int));
    let mut token: Vec<u8> = Vec::new();
    let mut cur: usize = pos;
    while cur < end
        invariant
            pos <= cur <= end <= s@.len(),
            token@ =~= s@.subrange(pos as int, cur as int),
        decreases end - cur,
    {
        token.push(s[cur]);
        proof {
            assert(token@ =~= s@.subrange(pos as int, cur + 1));
        }
        cur = cur + 1;
    }
    Some((token, end))
}

/// The numeric value of the digits from `pos` (inclusive) to `end`
/// (exclusive), read as a decimal integer.
pub open spec fn digits_value(s: Seq<u8>, pos: int, end: int) -> nat
    decreases end - pos when pos <= end
{
    if pos >= end {
        0
    } else {
        digits_value(s, pos, end - 1) * 10 + (if is_digit(s[end - 1]) {
            (s[end - 1] - 48) as nat
        } else {
            0
        })
    }
}

/// An unsigned integer field value at `pos`: a single `0`, or a nonzero
/// digit followed by digits (no leading zeros), with a value of at most
/// `bound`. Anything else, a preceding minus sign included, is a
/// mismatch.
pub open spec fn parse_uint(s: Seq<u8>, pos: int, bound: nat) -> Option<(nat, int)> {
    if 0 <= pos < s.len() && is_digit(s[pos]) {
        let e = if s[pos] == 48 {
            pos + 1
        } else {
            digits_end(s, pos)
        };
        let v = digits_value(s, pos, e);
        if v <= bound {
            Some((v, e))
        } else {
            None
        }
    } else {
        None
    }
}

/// Read an unsigned integer field whose value must not exceed `bound`.
pub fn scan_uint(s: &[u8], pos: usize, bound: u64) -> (r: Option<(u64, usize)>)
    requires
        pos <= s@.len(),
        bound <= u32::MAX,
    ensures
        match r {
            Some(v) => parse_uint(s@, pos as int, bound as nat) == Some((v.0 as nat, v.1 as int))
                && pos < v.1 <= s@.len(),
            None => parse_uint(s@, pos as int, bound as nat) is None,
        },
{
    if !(pos < s.len() && 48 <= s[pos] && s[pos] <= 57) {
        return None;
    }
    if s[pos] == 48 {
        proof {
            assert(digits_value(s@, pos as int, pos as int) == 0);
            assert(digits_value(s@, pos as int, pos + 1) == 0);
        }
        return Some((0, pos + 1));
    }
    let end = skip_digits(s, pos);
    proof {
        lemma_digits_end_bounds(s@, pos as int);
        lemma_digits_end_bounds(s@, pos as int + 1);
        assert(digits_end(s@, pos as int) == digits_end(s@, pos as int + 1));
    }
    let mut val: u64 = 0;
    let mut big: bool = false;
    let mut cur: usize = pos;
    while cur < end
        invariant
            pos <= cur <= end <= s@.len(),
            pos < end,
            pos < s@.len(),
            is_digit(s@[pos as int]),
            end == digits_end(s@, pos as int),
            forall|i: int| pos <= i < end ==> is_digit(s@[i]),
            bound <= u32::MAX,
            big == (digits_value(s@, pos as int, cur as int) > bound),
            !big ==> val == digits_value(s@, pos as int, cur as int),
            val <= bound,
        decreases end - cur,
    {
        let d = s[cur];
        let ghost prev = digits_value(s@, pos as int, cur as int);
        proof {
            assert(digits_value(s@, pos as int, cur + 1) == prev * 10 + (if is_digit(s@[cur as int]) {
                (s@[cur as int] - 48) as nat
            } else {
                0
            }));
            if big {
                assert(prev * 10 >= prev);
            }
        }
        if !big {
            let dv: u64 = (d - 48) as u64;
            let next = val * 10 + dv;
            if next > bound {
                big = true;
                val = 0;
            } else {
                val = next;
            }
        }
        cur = cur + 1;
    }
    if big {
        return None;
    }
    Some((val, end))
}

/// Whether two byte sequences hold the same bytes.
pub fn bytes_eq(a: &[u8], b: &[u8]) -> (r: bool)
    ensures
        r == (a@ == b@),
{
    if a.len() != b.len() {
        proof {
            assert(a@ != b@);
        }
        return false;
    }
    let n = a.len();
    let mut i: usize = 0;
    while i < n
        invariant
            0 <= i <= n,
            n == a@.len(),
            n == b@.len(),
            forall|j: int| 0 <= j < i ==> a@[j] == b@[j],
        decreases n - i,
    {
        if a[i] != b[i] {
            return false;
        }
        i = i + 1;
    }
    proof {
        assert(a@ =~= b@);
    }
    true
}

/// The position right after one value starting at the non-whitespace
/// byte `pos`: a string, a number, one of the three literals, an object
/// or an array. The schema's objects ignore members outside the schema,
/// but their values must still be well-formed; this function walks them.
/// The bound checks before the recursive steps can never fail; they make
/// the descent of the definitions manifest.
pub open spec fn skip_value(s: Seq<u8>, pos: int) -> Option<int>
    decreases s.len() - pos, 0int when 0 <= pos <= s.len()
{
    if pos >= s.len() {
        None
    } else if s[pos] == 34 {
        match parse_string(s, pos) {
            Some(r) => Some(r.1),
            None => None,
        }
    } else if s[pos] == 45 || is_digit(s[pos]) {
        number_end(s, pos)
    } else if s[pos] == 116 {
        // true
        if pos + 4 <= s.len() && s[pos + 1] == 114 && s[pos + 2] == 117 && s[pos + 3] == 101 {
            Some(pos + 4)
        } else {
            None
        }
    } else if s[pos] == 102 {
        // false
        if pos + 5 <= s.len() && s[pos + 1] == 97 && s[pos + 2] == 108 && s[pos + 3] == 115 && s[
            pos + 4
        ] == 101 {
            Some(pos + 5)
        } else {
            None
        }
    } else if s[pos] == 110 {
        // null
        if pos + 4 <= s.len() && s[pos + 1] == 117 && s[pos + 2] == 108 && s[pos + 3] == 108 {
            Some(pos + 4)
        } else {
            None
        }
    } else if s[pos] == 123 {
        let p = ws_end(s, pos + 1);
        if p < s.len() && s[p] == 125 {
            Some(p + 1)
        } else if pos < p <= s.len() {
            skip_members(s, p)
        } else {
            None
        }
    } else if s[pos] == 91 {
        let p = ws_end(s, pos + 1);
        if p < s.len() && s[p] == 93 {
            Some(p + 1)
        } else if pos < p <= s.len() {
            skip_items(s, p)
        } else {
            None
        }
    } else {
        None
    }
}

/// The members of an object being skipped, from the first key: a key, a
/// colon, a value, then a comma and more members or the closing brace.
pub open spec fn skip_members(s: Seq<u8>, pos: int) -> Option<int>
    decreases s.len() - pos, 1int when 0 <= pos <= s.len()
{
    match parse_string(s, pos) {
        None => None,
        Some(k) => {
            let p1 = ws_end(s, k.1);
            if !(p1 < s.len() && s[p1] == 58) {
                None
            } else {
                let v = ws_end(s, p1 + 1);
                if !(pos < v <= s.len()) {
                    None
                } else {
                    match skip_value(s, v) {
                        None => None,
                        Some(e) => {
                            let p2 = ws_end(s, e);
                            if p2 < s.len() && s[p2] == 44 {
                                let q = ws_end(s, p2 + 1);
                                if pos < q <= s.len() {
                                    skip_members(s, q)
                                } else {
                                    None
                                }
                            } else if p2 < s.len() && s[p2] == 125 {
                                Some(p2 + 1)
                            } else {
                                None
                            }
                        },
                    }
                }
            }
        },
    }
}

/// The items of an array being skipped, from the first item: a value,
/// then a comma and more items or the closing bracket.
pub open spec fn skip_items(s: Seq<u8>, pos: int) -> Option<int>
    decreases s.len() - pos, 1int when 0 <= pos <= s.len()
{
    match skip_value(s, pos) {
        None => None,
        Some(e) => {
            let p2 = ws_end(s, e);
            if p2 < s.len() && s[p2] == 44 {
                let q = ws_end(s, p2 + 1);
                if pos < q <= s.len() {
                    skip_items(s, q)
                } else {
                    None
                }
            } else if p2 < s.len() && s[p2] == 93 {
                Some(p2 + 1)
            } else {
                None
            }
        },
    }
}

/// Advance over one value of any shape.
fn skip_value_scan(s: &[u8], pos: usize) -> (r: Option<usize>)
    requires
        pos <= s@.len(),
    ensures
        match r {
            Some(e) => skip_value(s@, pos as int) == Some(e as int) && pos < e <= s@.len(),
            None => skip_value(s@, pos as int) is None,
        },
    decreases s@.len() - pos, 0int,
{
    if pos >= s.len() {
        return None;
    }
    let b = s[pos];
    if b == 34 {
        match scan_string(s, pos) {
            Some((_, e)) => Some(e),
            None => None,
        }
    } else if b == 45 || (48 <= b && b <= 57) {
        proof {
            lemma_number_end_bounds(s@, pos as int);
        }
        match scan_number(s, pos) {
            Some((_, e)) => Some(e),
            None => None,
        }
    } else if b == 116 {
        if s.len() - pos >= 4 && s[pos + 1] == 114 && s[pos + 2] == 117 && s[pos + 3] == 101 {
            Some(pos + 4)
        } else {
            None
        }
    } else if b == 102 {
        if s.len() - pos >= 5 && s[pos + 1] == 97 && s[pos + 2] == 108 && s[pos + 3] == 115
            && s[pos + 4] == 101 {
            Some(pos + 5)
        } else {
            None
        }
    } else if b == 110 {
        if s.len() - pos >= 4 && s[pos + 1] == 117 && s[pos + 2] == 108 && s[pos + 3] == 108 {
            Some(pos + 4)
        } else {
            None
        }
    } else if b == 123 {
        let p = skip_ws(s, pos + 1);
        if p < s.len() && s[p] == 125 {
            Some(p + 1)
        } else if pos < p {
            skip_members_scan(s, p)
        } else {
            None
        }
    } else if b == 91 {
        let p = skip_ws(s, pos + 1);
        if p < s.len() && s[p] == 93 {
            Some(p + 1)
        } else if pos < p {
            skip_items_scan(s, p)
        } else {
            None
        }
    } else {
        None
    }
}

/// Advance over the members of an object being skipped.
fn skip_members_scan(s: &[u8], pos: usize) -> (r: Option<usize>)
    requires
        pos <= s@.len(),
    ensures
        match r {
            Some(e) => skip_members(s@, pos as int) == Some(e as int) && pos < e <= s@.len(),
            None => skip_members(s@, pos as int) is None,
        },
    decreases s@.len() - pos, 1int,
{
    let (_, p0) = match scan_string(s, pos) {
        None => return None,
        Some(v) => v,
    };
    let p1 = skip_ws(s, p0);
    if !(p1 < s.len() && s[p1] == 58) {
        return None;
    }
    let v = skip_ws(s, p1 + 1);
    if !(pos < v) {
        return None;
    }
    let e = match skip_value_scan(s, v) {
        None => return None,
        Some(p) => p,
    };
    let p2 = skip_ws(s, e);
    if p2 < s.len() && s[p2] == 44 {
        let q = skip_ws(s, p2 + 1);
        if !(pos < q) {
            return None;
        }
        skip_members_scan(s, q)
    } else if p2 < s.len() && s[p2] == 125 {
        Some(p2 + 1)
    } else {
        None
    }
}

/// Advance over the items of an array being skipped.
fn skip_items_scan(s: &[u8], pos: usize) -> (r: Option<usize>)
    requires
        pos <= s@.len(),
    ensures
        match r {
            Some(e) => skip_items(s@, pos as int) == Some(e as int) && pos < e <= s@.len(),
            None => skip_items(s@, pos as int) is None,
        },
    decreases s@.len() - pos, 1int,
{
    let e = match skip_value_scan(s, pos) {
        None => return None,
        Some(p) => p,
    };
    let p2 = skip_ws(s, e);
    if p2 < s.len() && s[p2] == 44 {
        let q = skip_ws(s, p2 + 1);
        if !(pos < q) {
            return None;
        }
        skip_items_scan(s, q)
    } else if p2 < s.len() && s[p2] == 93 {
        Some(p2 + 1)
    } else {
        None
    }
}

/// The value of an `Option` as the view of what it holds.
pub open spec fn opt_view<T: View>(o: Option<T>) -> Option<T::V> {
    match o {
        Some(v) => Some(v@),
        None => None,
    }
}

/// The value of an optional fuel-record list.
pub open spec fn opt_records_view(o: Option<Vec<FuelRecord>>) -> Option<Seq<FuelRecordView>> {
    match o {
        Some(v) => Some(v@.map_values(|r: FuelRecord| r@)),
        None => None,
    }
}

/// The schema default for an absent extended decimal member: zero.
pub open spec fn default_decimal() -> Seq<u8> {
    "0".spec_bytes()
}

/// The schema default as a value.
pub fn default_decimal_value() -> (r: Decimal)
    ensures
        r@ == default_decimal(),
{
    Decimal { text: "0".as_bytes_vec() }
}

/// What the members of a `planeInformation` object seen so far have
/// bound.
pub struct PlaneAcc {
    pub name: Option<Seq<u8>>,
    pub fuel_capacity: Option<u32>,
    pub number_of_engines: Option<u8>,
    pub fuel_weight: Option<Seq<u8>>,
    pub unusable_fuel_quantity: Option<Seq<u8>>,
}

/// No member seen yet.
pub open spec fn plane_acc_empty() -> PlaneAcc {
    PlaneAcc {
        name: None,
        fuel_capacity: None,
        number_of_engines: None,
        fuel_weight: None,
        unusable_fuel_quantity: None,
    }
}

/// One member value of a `planeInformation` object, at `v`, under the
/// key `key`: a schema member binds its field (a second occurrence is a
/// mismatch), any other member is ignored after its value is walked.
pub open spec fn plane_member_value(s: Seq<u8>, v: int, acc: PlaneAcc, key: Seq<u8>) -> Option<
    (PlaneAcc, int),
> {
    if key == "name".spec_bytes() {
        if acc.name is Some {
            None
        } else {
            match parse_string(s, v) {
                Some(r) => Some((PlaneAcc { name: Some(r.0), ..acc }, r.1)),
                None => None,
            }
        }
    } else if key == "fuelCapacity".spec_bytes() {
        if acc.fuel_capacity is Some {
            None
        } else {
            match parse_uint(s, v, u32::MAX as nat) {
                Some(r) => Some((PlaneAcc { fuel_capacity: Some(r.0 as u32), ..acc }, r.1)),
                None => None,
            }
        }
    } else if key == "numberOfEngines".spec_bytes() {
        if acc.number_of_engines is Some {
            None
        } else {
            match parse_uint(s, v, u8::MAX as nat) {
                Some(r) => Some((PlaneAcc { number_of_engines: Some(r.0 as u8), ..acc }, r.1)),
                None => None,
            }
        }
    } else if key == "fuelWeight".spec_bytes() {
        if acc.fuel_weight is Some {
            None
        } else {
            match parse_number(s, v) {
                Some(r) => Some((PlaneAcc { fuel_weight: Some(r.0), ..acc }, r.1)),
                None => None,
            }
        }
    } else if key == "unusableFuelQuantity".spec_bytes() {
        if acc.unusable_fuel_quantity is Some {
            None
        } else {
            match parse_number(s, v) {
                Some(r) => Some((PlaneAcc { unusable_fuel_quantity: Some(r.0), ..acc }, r.1)),
                None => None,
            }
        }
    } else {
        match skip_value(s, v) {
            Some(e) => Some((acc, e)),
            None => None,
        }
    }
}

/// The members of a `planeInformation` object from the first key, in any
/// order.
pub open spec fn plane_members(s: Seq<u8>, pos: int, acc: PlaneAcc) -> Option<(PlaneAcc, int)>
    decreases s.len() - pos when 0 <= pos <= s.len()
{
    match parse_string(s, pos) {
        None => None,
        Some(k) => {
            let p1 = ws_end(s, k.1);
            if !(p1 < s.len() && s[p1] == 58) {
                None
            } else {
                let v = ws_end(s, p1 + 1);
                if !(pos < v <= s.len()) {
                    None
                } else {
                    match plane_member_value(s, v, acc, k.0) {
                        None => None,
                        Some(m) => {
                            let p2 = ws_end(s, m.1);
                            if p2 < s.len() && s[p2] == 44 {
                                let q = ws_end(s, p2 + 1);
                                if pos < q <= s.len() {
                                    plane_members(s, q, m.0)
                                } else {
                                    None
                                }
                            } else if p2 < s.len() && s[p2] == 125 {
                                Some((m.0, p2 + 1))
                            } else {
                                None
                            }
                        },
                    }
                }
            }
        },
    }
}

/// The `planeInformation` object: `name`, `fuelCapacity` and
/// `numberOfEngines` required, the two extended decimal members optional
/// with their schema default, all in any member order, unknown members
/// ignored.
pub open spec fn parse_plane_information(s: Seq<u8>, pos: int) -> Option<(PlaneInformationView, int)> {
    if !(0 <= pos < s.len() && s[pos] == 123) {
        None
    } else {
        let p = ws_end(s, pos + 1);
        if p < s.len() && s[p] == 125 {
            None
        } else {
            match plane_members(s, p, plane_acc_empty()) {
                None => None,
                Some(r) => match ((r.0.name, r.0.fuel_capacity), r.0.number_of_engines) {
                    ((Some(n), Some(cap)), Some(eng)) => Some((
                        PlaneInformationView {
                            name: n,
                            fuel_capacity: cap,
                            number_of_engines: eng,
                            fuel_weight: match r.0.fuel_weight {
                                Some(w) => w,
                                None => default_decimal(),
                            },
                            unusable_fuel_quantity: match r.0.unusable_fuel_quantity {
                                Some(u) => u,
                                None => default_decimal(),
                            },
                        },
                        r.1,
                    )),
                    _ => None,
                },
            }
        }
    }
}

/// Decode a `planeInformation` object.
#[verifier::rlimit(100)]
pub fn scan_plane_information(s: &[u8], pos: usize) -> (r: Option<(PlaneInformation, usize)>)
    requires
        pos <= s@.len(),
    ensures
        match r {
            Some(v) => parse_plane_information(s@, pos as int) == Some((v.0@, v.1 as int))
                && pos < v.1 <= s@.len(),
            None => parse_plane_information(s@, pos as int) is None,
        },
{
    if !(pos < s.len() && s[pos] == 123) {
        return None;
    }
    let first = skip_ws(s, pos + 1);
    if first < s.len() && s[first] == 125 {
        return None;
    }
    let mut name: Option<Vec<u8>> = None;
    let mut cap: Option<u32> = None;
    let mut eng: Option<u8> = None;
    let mut fw: Option<Vec<u8>> = None;
    let mut uf: Option<Vec<u8>> = None;
    let mut cur: usize = first;
    loop
        invariant
            pos < s@.len(),
            s@[pos as int] == 123,
            first == ws_end(s@, pos + 1),
            !(first < s@.len() && s@[first as int] == 125),
            first <= s@.len(),
            pos < cur <= s@.len(),
            plane_members(s@, first as int, plane_acc_empty()) == plane_members(
                s@,
                cur as int,
                PlaneAcc {
                    name: opt_view(name),
                    fuel_capacity: cap,
                    number_of_engines: eng,
                    fuel_weight: opt_view(fw),
                    unusable_fuel_quantity: opt_view(uf),
                },
            ),
        decreases s@.len() - cur,
    {
        let (key, p0) = match scan_string(s, cur) {
            None => return None,
            Some(v) => v,
        };
        let p1 = skip_ws(s, p0);
        if !(p1 < s.len() && s[p1] == 58) {
            return None;
        }
        let v = skip_ws(s, p1 + 1);
        if !(cur < v) {
            return None;
        }
        let e: usize;
        if bytes_eq(key.as_slice(), "name".as_bytes()) {
            if name.is_some() {
                return None;
            }
            let (val, ve) = match scan_string(s, v) {
                None => return None,
                Some(x) => x,
            };
            name = Some(val);
            e = ve;
        } else if bytes_eq(key.as_slice(), "fuelCapacity".as_bytes()) {
            if cap.is_some() {
                return None;
            }
            let (val, ve) = match scan_uint(s, v, 0xFFFF_FFFF) {
                None => return None,
                Some(x) => x,
            };
            cap = Some(val as u32);
            e = ve;
        } else if bytes_eq(key.as_slice(), "numberOfEngines".as_bytes()) {
            if eng.is_some() {
                return None;
            }
            let (val, ve) = match scan_uint(s, v, 255) {
                None => return None,
                Some(x) => x,
            };
            eng = Some(val as u8);
            e = ve;
        } else if bytes_eq(key.as_slice(), "fuelWeight".as_bytes()) {
            if fw.is_some() {
                return None;
            }
            let (val, ve) = match scan_number(s, v) {
                None => return None,
                Some(x) => x,
            };
            fw = Some(val);
            e = ve;
        } else if bytes_eq(key.as_slice(), "unusableFuelQuantity".as_bytes()) {
            if uf.is_some() {
                return None;
            }
            let (val, ve) = match scan_number(s, v) {
                None => return None,
                Some(x) => x,
            };
            uf = Some(val);
            e = ve;
        } else {
            e = match skip_value_scan(s, v) {
                None => return None,
                Some(x) => x,
            };
        }
        let p2 = skip_ws(s, e);
        if p2 < s.len() && s[p2] == 44 {
            let q = skip_ws(s, p2 + 1);
            if !(cur < q) {
                return None;
            }
            cur = q;
        } else if p2 < s.len() && s[p2] == 125 {
            return match ((name, cap), eng) {
                ((Some(n), Some(c)), Some(g)) => Some((
                    PlaneInformation {
                        name: n,
                        fuel_capacity: c,
                        number_of_engines: g,
                        fuel_weight: match fw {
                            Some(w) => Decimal { text: w },
                            None => default_decimal_value(),
                        },
                        unusable_fuel_quantity: match uf {
                            Some(u) => Decimal { text: u },
                            None => default_decimal_value(),
                        },
                    },
                    p2 + 1,
                )),
                _ => None,
            };
        } else {
            return None;
        }
    }
}


/// What the members of a `times` object seen so far have bound.
pub struct TimesAcc {
    pub block_off_time: Option<Seq<u8>>,
    pub block_on_time: Option<Seq<u8>>,
    pub landing_time: Option<Seq<u8>>,
    pub takeoff_time: Option<Seq<u8>>,
}

/// No member seen yet.
pub open spec fn times_acc_empty() -> TimesAcc {
    TimesAcc {
        block_off_time: None,
        block_on_time: None,
        landing_time: None,
        takeoff_time: None,
    }
}

/// One member value of a `times` object, at `v`, under the key `key`:
/// a schema member binds its field (a second occurrence is a mismatch),
/// any other member is ignored after its value is walked.
pub open spec fn times_member_value(s: Seq<u8>, v: int, acc: TimesAcc, key: Seq<u8>) -> Option<
    (TimesAcc, int),
> {
    if key == "blockOffTime".spec_bytes() {
        if acc.block_off_time is Some {
            None
        } else {
            match parse_string(s, v) {
                Some(r) => Some((TimesAcc { block_off_time: Some(r.0), ..acc }, r.1)),
                None => None,
            }
        }
    } else if key == "blockOnTime".spec_bytes() {
        if acc.block_on_time is Some {
            None
        } else {
            match parse_string(s, v) {
                Some(r) => Some((TimesAcc { block_on_time: Some(r.0), ..acc }, r.1)),
                None => None,
            }
        }
    } else if key == "landingTime".spec_bytes() {
        if acc.landing_time is Some {
            None
        } else {
            match parse_string(s, v) {
                Some(r) => Some((TimesAcc { landing_time: Some(r.0), ..acc }, r.1)),
                None => None,
            }
        }
    } else if key == "takeoffTime".spec_bytes() {
        if acc.takeoff_time is Some {
            None
        } else {
            match parse_string(s, v) {
                Some(r) => Some((TimesAcc { takeoff_time: Some(r.0), ..acc }, r.1)),
                None => None,
            }
        }
    } else {
        match skip_value(s, v) {
            Some(e) => Some((acc, e)),
            None => None,
        }
    }
}

/// The members of a `times` object from the first key, in any order:
/// each is a key, a colon and a value, separated by commas, closed by a
/// brace. The result is what the members bound and the position after
/// the closing brace.
pub open spec fn times_members(s: Seq<u8>, pos: int, acc: TimesAcc) -> Option<(TimesAcc, int)>
    decreases s.len() - pos when 0 <= pos <= s.len()
{
    match parse_string(s, pos) {
        None => None,
        Some(k) => {
            let p1 = ws_end(s, k.1);
            if !(p1 < s.len() && s[p1] == 58) {
                None
            } else {
                let v = ws_end(s, p1 + 1);
                if !(pos < v <= s.len()) {
                    None
                } else {
                    match times_member_value(s, v, acc, k.0) {
                        None => None,
                        Some(m) => {
                            let p2 = ws_end(s, m.1);
                            if p2 < s.len() && s[p2] == 44 {
                                let q = ws_end(s, p2 + 1);
                                if pos < q <= s.len() {
                                    times_members(s, q, m.0)
                                } else {
                                    None
                                }
                            } else if p2 < s.len() && s[p2] == 125 {
                                Some((m.0, p2 + 1))
                            } else {
                                None
                            }
                        },
                    }
                }
            }
        },
    }
}

/// The `times` object: the four phase timestamps, all required, in any
/// member order, unknown members ignored.
pub open spec fn parse_times(s: Seq<u8>, pos: int) -> Option<(TimesView, int)> {
    if !(0 <= pos < s.len() && s[pos] == 123) {
        None
    } else {
        let p = ws_end(s, pos + 1);
        if p < s.len() && s[p] == 125 {
            None
        } else {
            match times_members(s, p, times_acc_empty()) {
                None => None,
                Some(r) => match ((r.0.block_off_time, r.0.block_on_time), (r.0.landing_time, r.0.takeoff_time)) {
                    ((Some(a), Some(b)), (Some(c), Some(d))) => Some((
                        TimesView {
                            block_off_time: a,
                            block_on_time: b,
                            landing_time: c,
                            takeoff_time: d,
                        },
                        r.1,
                    )),
                    _ => None,
                },
            }
        }
    }
}

/// Decode a `times` object.
#[verifier::rlimit(100)]
pub fn scan_times(s: &[u8], pos: usize) -> (r: Option<(Times, usize)>)
    requires
        pos <= s@.len(),
    ensures
        match r {
            Some(v) => parse_times(s@, pos as int) == Some((v.0@, v.1 as int))
                && pos < v.1 <= s@.len(),
            None => parse_times(s@, pos as int) is None,
        },
{
    if !(pos < s.len() && s[pos] == 123) {
        return None;
    }
    let first = skip_ws(s, pos + 1);
    if first < s.len() && s[first] == 125 {
        return None;
    }
    let mut boff: Option<Vec<u8>> = None;
    let mut bon: Option<Vec<u8>> = None;
    let mut land: Option<Vec<u8>> = None;
    let mut take: Option<Vec<u8>> = None;
    let mut cur: usize = first;
    loop
        invariant
            pos < s@.len(),
            s@[pos as int] == 123,
            first == ws_end(s@, pos + 1),
            !(first < s@.len() && s@[first as int] == 125),
            first <= s@.len(),
            pos < cur <= s@.len(),
            times_members(s@, first as int, times_acc_empty()) == times_members(
                s@,
                cur as int,
                TimesAcc {
                    block_off_time: opt_view(boff),
                    block_on_time: opt_view(bon),
                    landing_time: opt_view(land),
                    takeoff_time: opt_view(take),
                },
            ),
        decreases s@.len() - cur,
    {
        let (key, p0) = match scan_string(s, cur) {
            None => return None,
            Some(v) => v,
        };
        let p1 = skip_ws(s, p0);
        if !(p1 < s.len() && s[p1] == 58) {
            return None;
        }
        let v = skip_ws(s, p1 + 1);
        if !(cur < v) {
            return None;
        }
        let e: usize;
        if bytes_eq(key.as_slice(), "blockOffTime".as_bytes()) {
            if boff.is_some() {
                return None;
            }
            let (val, ve) = match scan_string(s, v) {
                None => return None,
                Some(x) => x,
            };
            boff = Some(val);
            e = ve;
        } else if bytes_eq(key.as_slice(), "blockOnTime".as_bytes()) {
            if bon.is_some() {
                return None;
            }
            let (val, ve) = match scan_string(s, v) {
                None => return None,
                Some(x) => x,
            };
            bon = Some(val);
            e = ve;
        } else if bytes_eq(key.as_slice(), "landingTime".as_bytes()) {
            if land.is_some() {
                return None;
            }
            let (val, ve) = match scan_string(s, v) {
                None => return None,
                Some(x) => x,
            };
            land = Some(val);
            e = ve;
        } else if bytes_eq(key.as_slice(), "takeoffTime".as_bytes()) {
            if take.is_some() {
                return None;
            }
            let (val, ve) = match scan_string(s, v) {
                None => return None,
                Some(x) => x,
            };
            take = Some(val);
            e = ve;
        } else {
            e = match skip_value_scan(s, v) {
                None => return None,
                Some(x) => x,
            };
        }
        let p2 = skip_ws(s, e);
        if p2 < s.len() && s[p2] == 44 {
            let q = skip_ws(s, p2 + 1);
            if !(cur < q) {
                return None;
            }
            cur = q;
        } else if p2 < s.len() && s[p2] == 125 {
            return match ((boff, bon), (land, take)) {
                ((Some(a), Some(b)), (Some(c), Some(d))) => Some((
                    Times {
                        block_off_time: a,
                        block_on_time: b,
                        landing_time: c,
                        takeoff_time: d,
                    },
                    p2 + 1,
                )),
                _ => None,
            };
        } else {
            return None;
        }
    }
}

/// One member value of a fuel record object, at `v`, under the key
/// `key`: `fuelQuantity` binds the sample (a second occurrence is a
/// mismatch), any other member is ignored after its value is walked.
pub open spec fn record_member_value(s: Seq<u8>, v: int, acc: Option<Seq<u8>>, key: Seq<u8>) -> Option<
    (Option<Seq<u8>>, int),
> {
    if key == "fuelQuantity".spec_bytes() {
        if acc is Some {
            None
        } else {
            match parse_number(s, v) {
                Some(r) => Some((Some(r.0), r.1)),
                None => None,
            }
        }
    } else {
        match skip_value(s, v) {
            Some(e) => Some((acc, e)),
            None => None,
        }
    }
}

/// The members of a fuel record object from the first key, in any order.
pub open spec fn record_members(s: Seq<u8>, pos: int, acc: Option<Seq<u8>>) -> Option<(
    Option<Seq<u8>>,
    int,
)>
    decreases s.len() - pos when 0 <= pos <= s.len()
{
    match parse_string(s, pos) {
        None => None,
        Some(k) => {
            let p1 = ws_end(s, k.1);
            if !(p1 < s.len() && s[p1] == 58) {
                None
            } else {
                let v = ws_end(s, p1 + 1);
                if !(pos < v <= s.len()) {
                    None
                } else {
                    match record_member_value(s, v, acc, k.0) {
                        None => None,
                        Some(m) => {
                            let p2 = ws_end(s, m.1);
                            if p2 < s.len() && s[p2] == 44 {
                                let q = ws_end(s, p2 + 1);
                                if pos < q <= s.len() {
                                    record_members(s, q, m.0)
                                } else {
                                    None
                                }
                            } else if p2 < s.len() && s[p2] == 125 {
                                Some((m.0, p2 + 1))
                            } else {
                                None
                            }
                        },
                    }
                }
            }
        },
    }
}

/// One fuel record object: its required `fuelQuantity` member, in any
/// member order, unknown members ignored.
pub open spec fn parse_fuel_record(s: Seq<u8>, pos: int) -> Option<(FuelRecordView, int)> {
    if !(0 <= pos < s.len() && s[pos] == 123) {
        None
    } else {
        let p = ws_end(s, pos + 1);
        if p < s.len() && s[p] == 125 {
            None
        } else {
            match record_members(s, p, None) {
                None => None,
                Some(r) => match r.0 {
                    Some(q) => Some((FuelRecordView { fuel_quantity: q }, r.1)),
                    None => None,
                },
            }
        }
    }
}

/// Decode one fuel record object.
#[verifier::rlimit(100)]
pub fn scan_fuel_record(s: &[u8], pos: usize) -> (r: Option<(FuelRecord, usize)>)
    requires
        pos <= s@.len(),
    ensures
        match r {
            Some(v) => parse_fuel_record(s@, pos as int) == Some((v.0@, v.1 as int))
                && pos < v.1 <= s@.len(),
            None => parse_fuel_record(s@, pos as int) is None,
        },
{
    if !(pos < s.len() && s[pos] == 123) {
        return None;
    }
    let first = skip_ws(s, pos + 1);
    if first < s.len() && s[first] == 125 {
        return None;
    }
    let mut quantity: Option<Vec<u8>> = None;
    let mut cur: usize = first;
    loop
        invariant
            pos < s@.len(),
            s@[pos as int] == 123,
            first == ws_end(s@, pos + 1),
            !(first < s@.len() && s@[first as int] == 125),
            first <= s@.len(),
            pos < cur <= s@.len(),
            record_members(s@, first as int, None) == record_members(
                s@,
                cur as int,
                opt_view(quantity),
            ),
        decreases s@.len() - cur,
    {
        let (key, p0) = match scan_string(s, cur) {
            None => return None,
            Some(v) => v,
        };
        let p1 = skip_ws(s, p0);
        if !(p1 < s.len() && s[p1] == 58) {
            return None;
        }
        let v = skip_ws(s, p1 + 1);
        if !(cur < v) {
            return None;
        }
        let e: usize;
        if bytes_eq(key.as_slice(), "fuelQuantity".as_bytes()) {
            if quantity.is_some() {
                return None;
            }
            let (val, ve) = match scan_number(s, v) {
                None => return None,
                Some(x) => x,
            };
            quantity = Some(val);
            e = ve;
        } else {
            e = match skip_value_scan(s, v) {
                None => return None,
                Some(x) => x,
            };
        }
        let p2 = skip_ws(s, e);
        if p2 < s.len() && s[p2] == 44 {
            let q = skip_ws(s, p2 + 1);
            if !(cur < q) {
                return None;
            }
            cur = q;
        } else if p2 < s.len() && s[p2] == 125 {
            return match quantity {
                Some(q) => Some((FuelRecord { fuel_quantity: Decimal { text: q } }, p2 + 1)),
                None => None,
            };
        } else {
            return None;
        }
    }
}


/// A non-empty tail of the `fuelRecords` array: one record, then either a
/// comma and the rest of the records or the closing bracket. The bound
/// check before the recursive step can never fail on a record the grammar
/// accepts (every record is at least one byte wide); it makes the descent
/// of the definition manifest.
pub open spec fn parse_records_from(s: Seq<u8>, pos: int) -> Option<(Seq<FuelRecordView>, int)>
    decreases s.len() - pos when 0 <= pos <= s.len()
{
    match parse_fuel_record(s, pos) {
        None => None,
        Some(q) => {
            let p2 = ws_end(s, q.1);
            if p2 < s.len() && s[p2] == 44 {
                let p3 = ws_end(s, p2 + 1);
                if pos < p3 <= s.len() {
                    match parse_records_from(s, p3) {
                        None => None,
                        Some(rest) => Some((seq![q.0] + rest.0, rest.1)),
                    }
                } else {
                    None
                }
            } else if p2 < s.len() && s[p2] == 93 {
                Some((seq![q.0], p2 + 1))
            } else {
                None
            }
        },
    }
}

/// The `fuelRecords` array: `[`, whitespace, and either an immediate `]`
/// (no records) or the records separated by commas and a closing `]`.
pub open spec fn parse_fuel_records(s: Seq<u8>, pos: int) -> Option<(Seq<FuelRecordView>, int)> {
    if !(0 <= pos < s.len() && s[pos] == 91) {
        None
    } else {
        let p = ws_end(s, pos + 1);
        if p < s.len() && s[p] == 93 {
            Some((Seq::empty(), p + 1))
        } else {
            parse_records_from(s, p)
        }
    }
}

/// Decode a `fuelRecords` array.
pub fn scan_fuel_records(s: &[u8], pos: usize) -> (r: Option<(Vec<FuelRecord>, usize)>)
    requires
        pos <= s@.len(),
    ensures
        match r {
            Some(v) => parse_fuel_records(s@, pos as int) == Some((
                v.0@.map_values(|fr: FuelRecord| fr@),
                v.1 as int,
            )) && pos < v.1 <= s@.len(),
            None => parse_fuel_records(s@, pos as int) is None,
        },
{
    if !(pos < s.len() && s[pos] == 91) {
        return None;
    }
    let first = skip_ws(s, pos + 1);
    let mut acc: Vec<FuelRecord> = Vec::new();
    if first < s.len() && s[first] == 93 {
        proof {
            assert(acc@.map_values(|fr: FuelRecord| fr@) =~= Seq::<FuelRecordView>::empty());
        }
        return Some((acc, first + 1));
    }
    let mut cur: usize = first;
    loop
        invariant
            pos < s@.len(),
            s@[pos as int] == 91,
            first == ws_end(s@, pos + 1),
            !(first < s@.len() && s@[first as int] == 93),
            pos < cur <= s@.len(),
            (match parse_records_from(s@, cur as int) {
                Some(rest) => parse_records_from(s@, first as int) == Some((
                    acc@.map_values(|fr: FuelRecord| fr@) + rest.0,
                    rest.1,
                )),
                None => parse_records_from(s@, first as int) is None,
            }),
        decreases s@.len() - cur,
    {
        let ghost old_view = acc@.map_values(|fr: FuelRecord| fr@);
        let (q, p1) = match scan_fuel_record(s, cur) {
            None => return None,
            Some(v) => v,
        };
        let p2 = skip_ws(s, p1);
        if p2 < s.len() && s[p2] == 44 {
            let p3 = skip_ws(s, p2 + 1);
            if p3 <= cur {
                return None;
            }
            let ghost qv = q@;
            acc.push(q);
            proof {
                assert(acc@.map_values(|fr: FuelRecord| fr@) =~= old_view + seq![qv]);
                if let Some(rest) = parse_records_from(s@, p3 as int) {
                    assert(old_view + (seq![qv] + rest.0) =~= (old_view + seq![qv]) + rest.0);
                }
            }
            cur = p3;
        } else if p2 < s.len() && s[p2] == 93 {
            let ghost qv = q@;
            acc.push(q);
            proof {
                assert(acc@.map_values(|fr: FuelRecord| fr@) =~= old_view + seq![qv]);
            }
            return Some((acc, p2 + 1));
        } else {
            return None;
        }
    }
}

/// What the members of the root object seen so far have bound.
pub struct FlightAcc {
    pub plane_information: Option<PlaneInformationView>,
    pub landing_speed: Option<Seq<u8>>,
    pub times: Option<TimesView>,
    pub fuel_records: Option<Seq<FuelRecordView>>,
}

/// No member seen yet.
pub open spec fn flight_acc_empty() -> FlightAcc {
    FlightAcc { plane_information: None, landing_speed: None, times: None, fuel_records: None }
}

/// One member value of the root object, at `v`, under the key `key`: a
/// schema member binds its field (a second occurrence is a mismatch),
/// any other member is ignored after its value is walked.
pub open spec fn flight_member_value(s: Seq<u8>, v: int, acc: FlightAcc, key: Seq<u8>) -> Option<
    (FlightAcc, int),
> {
    if key == "planeInformation".spec_bytes() {
        if acc.plane_information is Some {
            None
        } else {
            match parse_plane_information(s, v) {
                Some(r) => Some((FlightAcc { plane_information: Some(r.0), ..acc }, r.1)),
                None => None,
            }
        }
    } else if key == "landingSpeed".spec_bytes() {
        if acc.landing_speed is Some {
            None
        } else {
            match parse_number(s, v) {
                Some(r) => Some((FlightAcc { landing_speed: Some(r.0), ..acc }, r.1)),
                None => None,
            }
        }
    } else if key == "times".spec_bytes() {
        if acc.times is Some {
            None
        } else {
            match parse_times(s, v) {
                Some(r) => Some((FlightAcc { times: Some(r.0), ..acc }, r.1)),
                None => None,
            }
        }
    } else if key == "fuelRecords".spec_bytes() {
        if acc.fuel_records is Some {
            None
        } else {
            match parse_fuel_records(s, v) {
                Some(r) => Some((FlightAcc { fuel_records: Some(r.0), ..acc }, r.1)),
                None => None,
            }
        }
    } else {
        match skip_value(s, v) {
            Some(e) => Some((acc, e)),
            None => None,
        }
    }
}

/// The members of the root object from the first key, in any order.
pub open spec fn flight_members(s: Seq<u8>, pos: int, acc: FlightAcc) -> Option<(FlightAcc, int)>
    decreases s.len() - pos when 0 <= pos <= s.len()
{
    match parse_string(s, pos) {
        None => None,
        Some(k) => {
            let p1 = ws_end(s, k.1);
            if !(p1 < s.len() && s[p1] == 58) {
                None
            } else {
                let v = ws_end(s, p1 + 1);
                if !(pos < v <= s.len()) {
                    None
                } else {
                    match flight_member_value(s, v, acc, k.0) {
                        None => None,
                        Some(m) => {
                            let p2 = ws_end(s, m.1);
                            if p2 < s.len() && s[p2] == 44 {
                                let q = ws_end(s, p2 + 1);
                                if pos < q <= s.len() {
                                    flight_members(s, q, m.0)
                                } else {
                                    None
                                }
                            } else if p2 < s.len() && s[p2] == 125 {
                                Some((m.0, p2 + 1))
                            } else {
                                None
                            }
                        },
                    }
                }
            }
        },
    }
}

/// The root object of a flyg document: `planeInformation`,
/// `landingSpeed` and `times` required, the extended `fuelRecords`
/// member optional with its schema default (no records), all in any
/// member order, unknown members ignored.
pub open spec fn parse_flight(s: Seq<u8>, pos: int) -> Option<(FlygFlightView, int)> {
    if !(0 <= pos < s.len() && s[pos] == 123) {
        None
    } else {
        let p = ws_end(s, pos + 1);
        if p < s.len() && s[p] == 125 {
            None
        } else {
            match flight_members(s, p, flight_acc_empty()) {
                None => None,
                Some(r) => match ((r.0.plane_information, r.0.landing_speed), r.0.times) {
                    ((Some(pl), Some(sp)), Some(t)) => Some((
                        FlygFlightView {
                            plane_information: pl,
                            landing_speed: sp,
                            times: t,
                            fuel_records: match r.0.fuel_records {
                                Some(rs) => rs,
                                None => Seq::empty(),
                            },
                        },
                        r.1,
                    )),
                    _ => None,
                },
            }
        }
    }
}

/// A complete flyg document: optional whitespace, the root object,
/// optional trailing whitespace, and nothing else.
pub open spec fn flyg_document(s: Seq<u8>) -> Option<FlygFlightView> {
    let p = ws_end(s, 0);
    match parse_flight(s, p) {
        None => None,
        Some(f) => if ws_end(s, f.1) == s.len() {
            Some(f.0)
        } else {
            None
        },
    }
}

/// Decode the root object.
#[verifier::rlimit(100)]
pub fn scan_flight(s: &[u8], pos: usize) -> (r: Option<(FlygFlight, usize)>)
    requires
        pos <= s@.len(),
    ensures
        match r {
            Some(v) => parse_flight(s@, pos as int) == Some((v.0@, v.1 as int))
                && pos < v.1 <= s@.len(),
            None => parse_flight(s@, pos as int) is None,
        },
{
    if !(pos < s.len() && s[pos] == 123) {
        return None;
    }
    let first = skip_ws(s, pos + 1);
    if first < s.len() && s[first] == 125 {
        return None;
    }
    let mut plane: Option<PlaneInformation> = None;
    let mut speed: Option<Vec<u8>> = None;
    let mut times: Option<Times> = None;
    let mut records: Option<Vec<FuelRecord>> = None;
    let mut cur: usize = first;
    loop
        invariant
            pos < s@.len(),
            s@[pos as int] == 123,
            first == ws_end(s@, pos + 1),
            !(first < s@.len() && s@[first as int] == 125),
            first <= s@.len(),
            pos < cur <= s@.len(),
            flight_members(s@, first as int, flight_acc_empty()) == flight_members(
                s@,
                cur as int,
                FlightAcc {
                    plane_information: opt_view(plane),
                    landing_speed: opt_view(speed),
                    times: opt_view(times),
                    fuel_records: opt_records_view(records),
                },
            ),
        decreases s@.len() - cur,
    {
        let (key, p0) = match scan_string(s, cur) {
            None => return None,
            Some(v) => v,
        };
        let p1 = skip_ws(s, p0);
        if !(p1 < s.len() && s[p1] == 58) {
            return None;
        }
        let v = skip_ws(s, p1 + 1);
        if !(cur < v) {
            return None;
        }
        let e: usize;
        if bytes_eq(key.as_slice(), "planeInformation".as_bytes()) {
            if plane.is_some() {
                return None;
            }
            let (val, ve) = match scan_plane_information(s, v) {
                None => return None,
                Some(x) => x,
            };
            plane = Some(val);
            e = ve;
        } else if bytes_eq(key.as_slice(), "landingSpeed".as_bytes()) {
            if speed.is_some() {
                return None;
            }
            let (val, ve) = match scan_number(s, v) {
                None => return None,
                Some(x) => x,
            };
            speed = Some(val);
            e = ve;
        } else if bytes_eq(key.as_slice(), "times".as_bytes()) {
            if times.is_some() {
                return None;
            }
            let (val, ve) = match scan_times(s, v) {
                None => return None,
                Some(x) => x,
            };
            times = Some(val);
            e = ve;
        } else if bytes_eq(key.as_slice(), "fuelRecords".as_bytes()) {
            if records.is_some() {
                return None;
            }
            let (val, ve) = match scan_fuel_records(s, v) {
                None => return None,
                Some(x) => x,
            };
            records = Some(val);
            e = ve;
        } else {
            e = match skip_value_scan(s, v) {
                None => return None,
                Some(x) => x,
            };
        }
        let p2 = skip_ws(s, e);
        if p2 < s.len() && s[p2] == 44 {
            let q = skip_ws(s, p2 + 1);
            if !(cur < q) {
                return None;
            }
            cur = q;
        } else if p2 < s.len() && s[p2] == 125 {
            return match ((plane, speed), times) {
                ((Some(p), Some(sp)), Some(t)) => {
                    let ghost recs_bound = opt_records_view(records);
                    let recs: Vec<FuelRecord> = match records {
                        Some(rs) => rs,
                        None => Vec::new(),
                    };
                    proof {
                        if recs_bound is None {
                            assert(recs@.map_values(|fr: FuelRecord| fr@)
                                =~= Seq::<FuelRecordView>::empty());
                        }
                    }
                    Some((
                        FlygFlight {
                            plane_information: p,
                            landing_speed: Decimal { text: sp },
                            times: t,
                            fuel_records: recs,
                        },
                        p2 + 1,
                    ))
                },
                _ => None,
            };
        } else {
            return None;
        }
    }
}

/// The key-to-field translation of the schema, stated once for every
/// nesting level: wherever a member is accepted, a member under a schema
/// key binds exactly its partner field — `blockOffTime` to
/// `block_off_time`, `fuelCapacity` to `fuel_capacity`, and so on —
/// leaving every other field as it was (and only where that field was
/// still unbound), while a member under any key outside the schema binds
/// no field at all.
/// The byte encodings of an object's schema keys are pairwise distinct,
/// so exactly one dispatch branch can match a member's key.
proof fn lemma_schema_keys_distinct()
    ensures
        "blockOffTime".spec_bytes() != "blockOnTime".spec_bytes(),
        "blockOffTime".spec_bytes() != "landingTime".spec_bytes(),
        "blockOffTime".spec_bytes() != "takeoffTime".spec_bytes(),
        "blockOnTime".spec_bytes() != "landingTime".spec_bytes(),
        "blockOnTime".spec_bytes() != "takeoffTime".spec_bytes(),
        "landingTime".spec_bytes() != "takeoffTime".spec_bytes(),
        "name".spec_bytes() != "fuelCapacity".spec_bytes(),
        "name".spec_bytes() != "numberOfEngines".spec_bytes(),
        "name".spec_bytes() != "fuelWeight".spec_bytes(),
        "name".spec_bytes() != "unusableFuelQuantity".spec_bytes(),
        "fuelCapacity".spec_bytes() != "numberOfEngines".spec_bytes(),
        "fuelCapacity".spec_bytes() != "fuelWeight".spec_bytes(),
        "fuelCapacity".spec_bytes() != "unusableFuelQuantity".spec_bytes(),
        "numberOfEngines".spec_bytes() != "fuelWeight".spec_bytes(),
        "numberOfEngines".spec_bytes() != "unusableFuelQuantity".spec_bytes(),
        "fuelWeight".spec_bytes() != "unusableFuelQuantity".spec_bytes(),
        "planeInformation".spec_bytes() != "landingSpeed".spec_bytes(),
        "planeInformation".spec_bytes() != "times".spec_bytes(),
        "planeInformation".spec_bytes() != "fuelRecords".spec_bytes(),
        "landingSpeed".spec_bytes() != "times".spec_bytes(),
        "landingSpeed".spec_bytes() != "fuelRecords".spec_bytes(),
        "times".spec_bytes() != "fuelRecords".spec_bytes(),
{
    reveal_strlit("blockOffTime");
    reveal_strlit("blockOnTime");
    reveal_strlit("landingTime");
    reveal_strlit("takeoffTime");
    reveal_strlit("name");
    reveal_strlit("fuelCapacity");
    reveal_strlit("numberOfEngines");
    reveal_strlit("fuelWeight");
    reveal_strlit("unusableFuelQuantity");
    reveal_strlit("planeInformation");
    reveal_strlit("landingSpeed");
    reveal_strlit("times");
    reveal_strlit("fuelRecords");
    vstd::utf8::encode_utf8_decode_utf8("blockOffTime"@);
    vstd::utf8::encode_utf8_decode_utf8("blockOnTime"@);
    vstd::utf8::encode_utf8_decode_utf8("landingTime"@);
    vstd::utf8::encode_utf8_decode_utf8("takeoffTime"@);
    vstd::utf8::encode_utf8_decode_utf8("name"@);
    vstd::utf8::encode_utf8_decode_utf8("fuelCapacity"@);
    vstd::utf8::encode_utf8_decode_utf8("numberOfEngines"@);
    vstd::utf8::encode_utf8_decode_utf8("fuelWeight"@);
    vstd::utf8::encode_utf8_decode_utf8("unusableFuelQuantity"@);
    vstd::utf8::encode_utf8_decode_utf8("planeInformation"@);
    vstd::utf8::encode_utf8_decode_utf8("landingSpeed"@);
    vstd::utf8::encode_utf8_decode_utf8("times"@);
    vstd::utf8::encode_utf8_decode_utf8("fuelRecords"@);
    // the three phase keys of equal length differ in their first letter
    assert("blockOnTime"@[0] != "landingTime"@[0]);
    assert("blockOnTime"@[0] != "takeoffTime"@[0]);
    assert("landingTime"@[0] != "takeoffTime"@[0]);
}

pub proof fn lemma_key_field_bijection(
    s: Seq<u8>,
    v: int,
    key: Seq<u8>,
    ta: TimesAcc,
    pa: PlaneAcc,
    fa: FlightAcc,
    ra: Option<Seq<u8>>,
)
    ensures
        times_member_value(s, v, ta, key) matches Some(m) ==> {
            &&& (key == "blockOffTime".spec_bytes() ==> m.0.block_off_time is Some
                && ta.block_off_time is None && m.0.block_on_time == ta.block_on_time
                && m.0.landing_time == ta.landing_time && m.0.takeoff_time == ta.takeoff_time)
            &&& (key == "blockOnTime".spec_bytes() ==> m.0.block_on_time is Some
                && ta.block_on_time is None && m.0.block_off_time == ta.block_off_time
                && m.0.landing_time == ta.landing_time && m.0.takeoff_time == ta.takeoff_time)
            &&& (key == "landingTime".spec_bytes() ==> m.0.landing_time is Some
                && ta.landing_time is None && m.0.block_off_time == ta.block_off_time
                && m.0.block_on_time == ta.block_on_time && m.0.takeoff_time == ta.takeoff_time)
            &&& (key == "takeoffTime".spec_bytes() ==> m.0.takeoff_time is Some
                && ta.takeoff_time is None && m.0.block_off_time == ta.block_off_time
                && m.0.block_on_time == ta.block_on_time && m.0.landing_time == ta.landing_time)
            &&& (key != "blockOffTime".spec_bytes() && key != "blockOnTime".spec_bytes() && key
                != "landingTime".spec_bytes() && key != "takeoffTime".spec_bytes() ==> m.0 == ta)
        },
        plane_member_value(s, v, pa, key) matches Some(m) ==> {
            &&& (key == "name".spec_bytes() ==> m.0.name is Some && pa.name is None
                && m.0.fuel_capacity == pa.fuel_capacity && m.0.number_of_engines
                == pa.number_of_engines && m.0.fuel_weight == pa.fuel_weight
                && m.0.unusable_fuel_quantity == pa.unusable_fuel_quantity)
            &&& (key == "fuelCapacity".spec_bytes() ==> m.0.fuel_capacity is Some
                && pa.fuel_capacity is None && m.0.name == pa.name && m.0.number_of_engines
                == pa.number_of_engines && m.0.fuel_weight == pa.fuel_weight
                && m.0.unusable_fuel_quantity == pa.unusable_fuel_quantity)
            &&& (key == "numberOfEngines".spec_bytes() ==> m.0.number_of_engines is Some
                && pa.number_of_engines is None && m.0.name == pa.name && m.0.fuel_capacity
                == pa.fuel_capacity && m.0.fuel_weight == pa.fuel_weight
                && m.0.unusable_fuel_quantity == pa.unusable_fuel_quantity)
            &&& (key == "fuelWeight".spec_bytes() ==> m.0.fuel_weight is Some
                && pa.fuel_weight is None && m.0.name == pa.name && m.0.fuel_capacity
                == pa.fuel_capacity && m.0.number_of_engines == pa.number_of_engines
                && m.0.unusable_fuel_quantity == pa.unusable_fuel_quantity)
            &&& (key == "unusableFuelQuantity".spec_bytes() ==> m.0.unusable_fuel_quantity
                is Some && pa.unusable_fuel_quantity is None && m.0.name == pa.name
                && m.0.fuel_capacity == pa.fuel_capacity && m.0.number_of_engines
                == pa.number_of_engines && m.0.fuel_weight == pa.fuel_weight)
            &&& (key != "name".spec_bytes() && key != "fuelCapacity".spec_bytes() && key
                != "numberOfEngines".spec_bytes() && key != "fuelWeight".spec_bytes() && key
                != "unusableFuelQuantity".spec_bytes() ==> m.0 == pa)
        },
        flight_member_value(s, v, fa, key) matches Some(m) ==> {
            &&& (key == "planeInformation".spec_bytes() ==> m.0.plane_information is Some
                && fa.plane_information is None && m.0.landing_speed == fa.landing_speed
                && m.0.times == fa.times && m.0.fuel_records == fa.fuel_records)
            &&& (key == "landingSpeed".spec_bytes() ==> m.0.landing_speed is Some
                && fa.landing_speed is None && m.0.plane_information == fa.plane_information
                && m.0.times == fa.times && m.0.fuel_records == fa.fuel_records)
            &&& (key == "times".spec_bytes() ==> m.0.times is Some && fa.times is None
                && m.0.plane_information == fa.plane_information && m.0.landing_speed
                == fa.landing_speed && m.0.fuel_records == fa.fuel_records)
            &&& (key == "fuelRecords".spec_bytes() ==> m.0.fuel_records is Some
                && fa.fuel_records is None && m.0.plane_information == fa.plane_information
                && m.0.landing_speed == fa.landing_speed && m.0.times == fa.times)
            &&& (key != "planeInformation".spec_bytes() && key != "landingSpeed".spec_bytes()
                && key != "times".spec_bytes() && key != "fuelRecords".spec_bytes() ==> m.0
                == fa)
        },
        record_member_value(s, v, ra, key) matches Some(m) ==> {
            &&& (key == "fuelQuantity".spec_bytes() ==> m.0 is Some && ra is None)
            &&& (key != "fuelQuantity".spec_bytes() ==> m.0 == ra)
        },
{
    lemma_schema_keys_distinct();
}

/// Decode a complete flyg document, classifying any mismatch as
/// [`FlygFormatError::FileFormatNotRecognized`]. Returns the decoded
/// flight exactly when the bytes form a valid document, and then returns
/// the flight the document encodes.
pub fn parse_flyg_document(content: &[u8]) -> (r: Result<FlygFlight, FlygFormatError>)
    ensures
        match r {
            Ok(f) => flyg_document(content@) == Some(f@),
            Err(e) => flyg_document(content@) is None
                && e == FlygFormatError::FileFormatNotRecognized,
        },
{
    let p = skip_ws(content, 0);
    let (flight, e) = match scan_flight(content, p) {
        None => return Err(FlygFormatError::FileFormatNotRecognized),
        Some(v) => v,
    };
    let tail = skip_ws(content, e);
    if tail != content.len() {
        return Err(FlygFormatError::FileFormatNotRecognized);
    }
    Ok(flight)
}

} // verus!
