//! Percent-encoding of URL path segments.
//!
//! A value placed into a path segment is written byte by byte over its UTF-8
//! encoding: bytes in the RFC 3986 unreserved set are kept verbatim, every
//! other byte becomes `%` followed by two uppercase hexadecimal digits.
//! Decoding inverts this; a stray `%` not followed by two hexadecimal digits,
//! or decoded bytes that are not valid UTF-8, make the segment unparsable.

use vstd::prelude::*;
use vstd::arithmetic::div_mod::lemma_fundamental_div_mod;
use vstd::utf8::{decode_utf8, encode_utf8, encode_utf8_decode_utf8, encode_utf8_valid_utf8,
    valid_utf8};
use vstd::string::{StringSliceAdditionalSpecFns, StrSliceExecFns};
use crate::strings::{all_ascii_bytes, ascii_chars_of, lemma_ascii_bridge, sep_free};

verus! {

/// Bytes kept verbatim by the percent-encoder: ASCII letters, digits, and
/// `-`, `.`, `_`, `~`.
pub open spec fn is_unreserved(b: u8) -> bool {
    (65 <= b && b <= 90) || (97 <= b && b <= 122) || (48 <= b && b <= 57) || b == 45 || b == 46
        || b == 95 || b == 126
}

/// The uppercase hexadecimal digit for a value below 16.
pub open spec fn hex_digit(n: u8) -> u8
    recommends
        n < 16,
{
    if n < 10 {
        (48 + n) as u8
    } else {
        (65 + (n - 10)) as u8
    }
}

/// The value of a hexadecimal digit byte, or -1 for any other byte.
pub open spec fn hex_val(b: u8) -> int {
    if 48 <= b && b <= 57 {
        b - 48
    } else if 65 <= b && b <= 70 {
        b - 65 + 10
    } else if 97 <= b && b <= 102 {
        b - 97 + 10
    } else {
        -1
    }
}

/// The percent-encoding of a byte sequence.
pub open spec fn pct_encode_bytes(bs: Seq<u8>) -> Seq<u8>
    decreases bs.len(),
{
    if bs.len() == 0 {
        Seq::<u8>::empty()
    } else {
        let b = bs[0];
        (if is_unreserved(b) {
            seq![b]
        } else {
            seq![37u8, hex_digit((b / 16) as u8), hex_digit((b % 16) as u8)]
        }) + pct_encode_bytes(bs.drop_first())
    }
}

/// The percent-decoding of a byte sequence, or `None` when a `%` is not
/// followed by two hexadecimal digits.
pub open spec fn pct_decode_bytes(bs: Seq<u8>) -> Option<Seq<u8>>
    decreases bs.len(),
{
    if bs.len() == 0 {
        Some(Seq::<u8>::empty())
    } else if bs[0] == 37 {
        if bs.len() >= 3 && hex_val(bs[1]) >= 0 && hex_val(bs[2]) >= 0 {
            match pct_decode_bytes(bs.skip(3)) {
                Some(r) => Some(seq![(hex_val(bs[1]) * 16 + hex_val(bs[2])) as u8] + r),
                None => None,
            }
        } else {
            None
        }
    } else {
        match pct_decode_bytes(bs.drop_first()) {
            Some(r) => Some(seq![bs[0]] + r),
            None => None,
        }
    }
}

/// Every byte of a percent-encoded sequence is unreserved or `%`.
pub proof fn lemma_pct_output_shape(bs: Seq<u8>)
    ensures
        forall|i: int|
            0 <= i < pct_encode_bytes(bs).len() ==> is_unreserved(#[trigger] pct_encode_bytes(bs)[i])
                || pct_encode_bytes(bs)[i] == 37,
        all_ascii_bytes(pct_encode_bytes(bs)),
    decreases bs.len(),
{
    if bs.len() == 0 {
    } else {
        lemma_pct_output_shape(bs.drop_first());
        let b = bs[0];
        if is_unreserved(b) {
            assert(pct_encode_bytes(bs) =~= seq![b] + pct_encode_bytes(bs.drop_first()));
        } else {
            assert(hex_digit((b / 16) as u8) < 128 && is_unreserved(hex_digit((b / 16) as u8)));
            assert(hex_digit((b % 16) as u8) < 128 && is_unreserved(hex_digit((b % 16) as u8)));
        }
    }
}

/// Decoding a percent-encoded sequence restores the original bytes.
pub proof fn lemma_pct_bytes_round_trip(bs: Seq<u8>)
    ensures
        pct_decode_bytes(pct_encode_bytes(bs)) == Some(bs),
    decreases bs.len(),
{
    if bs.len() == 0 {
        assert(pct_encode_bytes(bs) =~= Seq::<u8>::empty());
        assert(bs =~= Seq::<u8>::empty());
    } else {
        lemma_pct_bytes_round_trip(bs.drop_first());
        let b = bs[0];
        let rest = pct_encode_bytes(bs.drop_first());
        if is_unreserved(b) {
            let e = seq![b] + rest;
            assert(pct_encode_bytes(bs) =~= e);
            assert(e[0] == b && b != 37);
            assert(e.drop_first() =~= rest);
            assert(seq![b] + bs.drop_first() =~= bs);
        } else {
            let h = hex_digit((b / 16) as u8);
            let l = hex_digit((b % 16) as u8);
            let e = seq![37u8, h, l] + rest;
            assert(pct_encode_bytes(bs) =~= e);
            assert(e[0] == 37 && e[1] == h && e[2] == l && e.len() >= 3);
            assert(b / 16 < 16 && b % 16 < 16);
            assert(hex_val(h) == b / 16);
            assert(hex_val(l) == b % 16);
            assert(e.skip(3) =~= rest);
            lemma_fundamental_div_mod(b as int, 16);
            assert(hex_val(e[1]) * 16 + hex_val(e[2]) == b);
            assert(seq![b] + bs.drop_first() =~= bs);
        }
    }
}

/// The percent-encoding of a string value, as characters.
pub open spec fn pct_chars(v: Seq<char>) -> Seq<char> {
    ascii_chars_of(pct_encode_bytes(encode_utf8(v)))
}

/// The percent-decoding of a path segment, as characters.
pub open spec fn pct_dec_str(s: Seq<char>) -> Option<Seq<char>> {
    match pct_decode_bytes(encode_utf8(s)) {
        Some(d) => if valid_utf8(d) {
            Some(decode_utf8(d))
        } else {
            None
        },
        None => None,
    }
}

/// Decoding an encoded value restores the value exactly.
pub proof fn lemma_pct_round_trip(v: Seq<char>)
    ensures
        pct_dec_str(pct_chars(v)) == Some(v),
{
    let bs = encode_utf8(v);
    let e = pct_encode_bytes(bs);
    lemma_pct_output_shape(bs);
    lemma_ascii_bridge(e);
    assert(encode_utf8(pct_chars(v)) == e);
    lemma_pct_bytes_round_trip(bs);
    encode_utf8_valid_utf8(v);
    encode_utf8_decode_utf8(v);
}

/// An encoded value never contains a path separator.
pub proof fn lemma_pct_chars_no_slash(v: Seq<char>)
    ensures
        sep_free(pct_chars(v), '/'),
{
    let bs = encode_utf8(v);
    let e = pct_encode_bytes(bs);
    lemma_pct_output_shape(bs);
    assert forall|i: int| 0 <= i < pct_chars(v).len() implies pct_chars(v)[i] != '/' by {
        assert(pct_chars(v)[i] == e[i] as char);
        assert(is_unreserved(e[i]) || e[i] == 37);
        assert(e[i] != 47);
    }
}

/// Relies on `String::from_utf8`: returns the string whose UTF-8 encoding is
/// the given bytes exactly when the bytes are valid UTF-8.
#[verifier::external_body]
fn string_from_utf8(v: Vec<u8>) -> (r: Option<String>)
    ensures
        match r {
            Some(s) => valid_utf8(v@) && encode_utf8(s@) == v@,
            None => !valid_utf8(v@),
        },
{
    String::from_utf8(v).ok()
}

/// Reports whether the byte is kept verbatim by the encoder.
fn is_unreserved_byte(b: u8) -> (r: bool)
    ensures
        r == is_unreserved(b),
{
    (65 <= b && b <= 90) || (97 <= b && b <= 122) || (48 <= b && b <= 57) || b == 45 || b == 46
        || b == 95 || b == 126
}

/// Percent-encodes a value for inclusion as one URL path segment.
pub fn percent_encode_component(s: &str) -> (r: String)
    ensures
        r@ == pct_chars(s@),
{
    let bs = s.as_bytes_vec();
    let ghost whole = bs@;
    proof {
        assert(whole == encode_utf8(s@));
    }
    let mut out: Vec<u8> = Vec::new();
    let mut i: usize = 0;
    proof {
        assert(whole.skip(0) =~= whole);
        assert(out@ + pct_encode_bytes(whole) =~= pct_encode_bytes(whole));
    }
    while i < bs.len()
        invariant
            0 <= i <= bs.len(),
            whole == bs@,
            pct_encode_bytes(whole) == out@ + pct_encode_bytes(whole.skip(i as int)),
        decreases bs.len() - i,
    {
        let b = bs[i];
        proof {
            assert(whole.skip(i as int)[0] == b);
            assert(whole.skip(i as int).drop_first() =~= whole.skip(i as int + 1));
        }
        let ghost old_out = out@;
        if is_unreserved_byte(b) {
            out.push(b);
            proof {
                assert(out@ =~= old_out + seq![b]);
                assert(out@ + pct_encode_bytes(whole.skip(i as int + 1)) =~= old_out + (seq![b]
                    + pct_encode_bytes(whole.skip(i as int + 1))));
            }
        } else {
            let h = b / 16;
            let l = b % 16;
            let hd = if h < 10 { 48 + h } else { 65 + (h - 10) };
            let ld = if l < 10 { 48 + l } else { 65 + (l - 10) };
            out.push(37);
            out.push(hd);
            out.push(ld);
            proof {
                assert(hd == hex_digit(h) && ld == hex_digit(l));
                assert(out@ =~= old_out + seq![37u8, hex_digit(h), hex_digit(l)]);
                assert(out@ + pct_encode_bytes(whole.skip(i as int + 1)) =~= old_out + (seq![
                    37u8, hex_digit(h), hex_digit(l)] + pct_encode_bytes(whole.skip(i as int + 1))));
            }
        }
        i += 1;
    }
    proof {
        assert(whole.skip(whole.len() as int) =~= Seq::<u8>::empty());
        assert(out@ + Seq::<u8>::empty() =~= out@);
        assert(out@ == pct_encode_bytes(whole));
        lemma_pct_output_shape(whole);
        lemma_ascii_bridge(out@);
    }
    let r = string_from_utf8(out);
    match r {
        Some(t) => {
            proof {
                encode_utf8_decode_utf8(t@);
            }
            t
        },
        None => {
            proof {
                assert(false);
            }
            String::new()
        },
    }
}

/// Reports the value of a hexadecimal digit byte.
fn hex_val_byte(b: u8) -> (r: Option<u8>)
    ensures
        match r {
            Some(n) => hex_val(b) == n as int && n < 16,
            None => hex_val(b) < 0,
        },
{
    if 48 <= b && b <= 57 {
        Some(b - 48)
    } else if 65 <= b && b <= 70 {
        Some(b - 65 + 10)
    } else if 97 <= b && b <= 102 {
        Some(b - 97 + 10)
    } else {
        None
    }
}

/// Percent-decodes one URL path segment back into a value.
pub fn percent_decode_component(s: &str) -> (r: Option<String>)
    ensures
        match r {
            Some(t) => pct_dec_str(s@) == Some(t@),
            None => pct_dec_str(s@) is None,
        },
{
    let bs = s.as_bytes_vec();
    let ghost whole = bs@;
    proof {
        assert(whole == encode_utf8(s@));
    }
    let mut out: Vec<u8> = Vec::new();
    let mut i: usize = 0;
    proof {
        assert(whole.skip(0) =~= whole);
    }
    while i < bs.len()
        invariant
            0 <= i <= bs.len(),
            whole == bs@,
            whole == encode_utf8(s@),
            match pct_decode_bytes(whole.skip(i as int)) {
                Some(d) => pct_decode_bytes(whole) == Some(out@ + d),
                None => pct_decode_bytes(whole) is None,
            },
        decreases bs.len() - i,
    {
        let b = bs[i];
        proof {
            assert(whole.skip(i as int)[0] == b);
            assert(whole.skip(i as int).drop_first() =~= whole.skip(i as int + 1));
        }
        let ghost old_out = out@;
        if b == 37 {
            if bs.len() - i < 3 {
                proof {
                    let u = whole.skip(i as int);
                    assert(u.len() >= 1 && u[0] == 37 && u.len() < 3);
                    assert(pct_decode_bytes(u) is None);
                }
                return None;
            }
            let hv = hex_val_byte(bs[i + 1]);
            let lv = hex_val_byte(bs[i + 2]);
            proof {
                assert(whole.skip(i as int)[1] == whole[i as int + 1]);
                assert(whole.skip(i as int)[2] == whole[i as int + 2]);
            }
            match (hv, lv) {
                (Some(h), Some(l)) => {
                    out.push(h * 16 + l);
                    proof {
                        assert(whole.skip(i as int).skip(3) =~= whole.skip(i as int + 3));
                        assert((h * 16 + l) as int == hex_val(whole[i as int + 1]) * 16 + hex_val(
                            whole[i as int + 2],
                        ));
                        assert(out@ =~= old_out + seq![((h * 16 + l) as u8)]);
                        if let Some(d) = pct_decode_bytes(whole.skip(i as int + 3)) {
                            assert(out@ + d =~= old_out + (seq![(hex_val(whole[i as int + 1]) * 16
                                + hex_val(whole[i as int + 2])) as u8] + d));
                        }
                    }
                    i += 3;
                },
                _ => {
                    proof {
                        let u = whole.skip(i as int);
                        assert(u.len() >= 3 && u[0] == 37);
                        assert(hex_val(u[1]) < 0 || hex_val(u[2]) < 0);
                        assert(pct_decode_bytes(u) is None);
                    }
                    return None;
                },
            }
        } else {
            out.push(b);
            proof {
                assert(out@ =~= old_out + seq![b]);
                if let Some(d) = pct_decode_bytes(whole.skip(i as int + 1)) {
                    assert(out@ + d =~= old_out + (seq![b] + d));
                }
            }
            i += 1;
        }
    }
    proof {
        assert(whole.skip(whole.len() as int) =~= Seq::<u8>::empty());
        assert(out@ + Seq::<u8>::empty() =~= out@);
        assert(pct_decode_bytes(whole) == Some(out@));
    }
    let r = string_from_utf8(out);
    match r {
        Some(t) => {
            proof {
                encode_utf8_decode_utf8(t@);
            }
            Some(t)
        },
        None => None,
    }
}

} // verus!
