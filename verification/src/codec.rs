//! The byte codec.
//!
//! Integer literals and column ids travel as exactly eight big-endian
//! bytes.  Byte strings coerce to numbers through a plain decimal parse.
//! Value lists (the right-hand side of `In`) travel as a self-describing
//! stream of tagged elements; see the functions further down.

use vstd::prelude::*;

use vstd::arithmetic::div_mod::{
    lemma_basic_div_specific_divisor, lemma_div_denominator, lemma_fundamental_div_mod,
    lemma_fundamental_div_mod_converse, lemma_mod_division_less_than_divisor,
};

use crate::datum::{datums_view, has_float, Datum, DatumView};
use crate::error::Error;
use crate::text;

verus! {

/// The value-list type tag of the null value.
pub const NIL_TAG: u8 = 0;

/// The value-list type tag of a signed 64-bit integer.
pub const INT_TAG: u8 = 1;

/// The value-list type tag of an unsigned 64-bit integer.
pub const UINT_TAG: u8 = 2;

/// The value-list type tag of a byte string.
pub const BYTES_TAG: u8 = 3;

/// 256 raised to the given power: the weight of a byte at a given
/// distance from the least significant end.
pub open spec fn pow256(n: nat) -> nat
    decreases n,
{
    if n == 0 {
        1
    } else {
        256 * pow256((n - 1) as nat)
    }
}

/// The value of a byte sequence read as one big-endian unsigned integer:
/// the first byte is the most significant.
pub open spec fn be_value(s: Seq<u8>) -> nat
    decreases s.len(),
{
    if s.len() == 0 {
        0
    } else {
        (be_value(s.drop_last()) * 256 + s.last()) as nat
    }
}

pub proof fn lemma_pow256_pos(n: nat)
    ensures
        pow256(n) >= 1,
    decreases n,
{
    if n > 0 {
        lemma_pow256_pos((n - 1) as nat);
    }
}

pub proof fn lemma_pow256_le(a: nat, b: nat)
    requires
        a <= b,
    ensures
        pow256(a) <= pow256(b),
    decreases b,
{
    if a < b {
        lemma_pow256_le(a, (b - 1) as nat);
        lemma_pow256_pos((b - 1) as nat);
    }
}

/// A sequence of `n` bytes holds a value below `256^n`.
pub proof fn lemma_be_value_bound(s: Seq<u8>)
    ensures
        be_value(s) < pow256(s.len()),
    decreases s.len(),
{
    if s.len() > 0 {
        lemma_be_value_bound(s.drop_last());
    }
}

/// Two byte sequences of one length with one big-endian value are the
/// same sequence: the value pins the bytes.
pub proof fn lemma_be_value_injective(a: Seq<u8>, b: Seq<u8>)
    requires
        a.len() == b.len(),
        be_value(a) == be_value(b),
    ensures
        a == b,
    decreases a.len(),
{
    if a.len() == 0 {
        assert(a =~= b);
    } else {
        lemma_fundamental_div_mod_converse(
            be_value(a) as int,
            256,
            be_value(a.drop_last()) as int,
            a.last() as int,
        );
        lemma_fundamental_div_mod_converse(
            be_value(b) as int,
            256,
            be_value(b.drop_last()) as int,
            b.last() as int,
        );
        lemma_be_value_injective(a.drop_last(), b.drop_last());
        assert(a.last() == b.last());
        assert forall|i: int| 0 <= i < a.len() implies a[i] == b[i] by {
            if i < a.len() - 1 {
                assert(a.drop_last()[i] == b.drop_last()[i]);
            }
        }
        assert(a =~= b);
    }
}

/// What decoding an unsigned integer payload yields: the big-endian value
/// of exactly eight bytes, or an error on any other length.
pub open spec fn spec_decode_u64(s: Seq<u8>) -> Result<u64, Error> {
    if s.len() == 8 {
        Ok(be_value(s) as u64)
    } else {
        Err(Error::InvalidLength)
    }
}

/// What decoding a signed integer payload yields: the same eight bytes,
/// reinterpreted in two's complement.
pub open spec fn spec_decode_i64(s: Seq<u8>) -> Result<i64, Error> {
    if s.len() == 8 {
        Ok((be_value(s) as u64) as i64)
    } else {
        Err(Error::InvalidLength)
    }
}

/// The big-endian value of exactly eight bytes.
pub(crate) fn be_read(data: &[u8]) -> (v: u64)
    requires
        data@.len() == 8,
    ensures
        v as nat == be_value(data@),
{
    let mut acc: u64 = 0;
    let mut i: usize = 0;
    while i < 8
        invariant
            data@.len() == 8,
            i <= 8,
            acc as nat == be_value(data@.take(i as int)),
        decreases 8 - i,
    {
        proof {
            lemma_be_value_bound(data@.take(i as int));
            lemma_pow256_le(i as nat, 7);
            assert(pow256(7) == 0x100000000000000) by {
                reveal_with_fuel(pow256, 8);
            }
        }
        acc = acc * 256 + (data[i] as u64);
        i = i + 1;
        proof {
            assert(data@.take(i as int).drop_last() =~= data@.take(i - 1));
        }
    }
    proof {
        assert(data@.take(8) =~= data@);
    }
    acc
}

/// Decode an unsigned 64-bit integer from exactly eight big-endian bytes.
pub fn decode_u64(data: &[u8]) -> (r: Result<u64, Error>)
    ensures
        r == spec_decode_u64(data@),
{
    if data.len() != 8 {
        return Err(Error::InvalidLength);
    }
    Ok(be_read(data))
}

/// Decode a signed 64-bit integer from exactly eight big-endian bytes,
/// two's complement.
pub fn decode_i64(data: &[u8]) -> (r: Result<i64, Error>)
    ensures
        r == spec_decode_i64(data@),
{
    match decode_u64(data) {
        Ok(v) => Ok(v as i64),
        Err(e) => Err(e),
    }
}

/// One digit-peeling step of the encoder proof: the value whose most
/// significant digits are still to be peeled splits into its next digit
/// and the rest.
proof fn lemma_be_digit_step(x: int, c: int)
    requires
        0 <= x,
        0 < c,
    ensures
        x / c == (x / (c * 256)) * 256 + (x / c) % 256,
{
    lemma_fundamental_div_mod(x / c, 256);
    lemma_div_denominator(x, c, 256);
}

/// Encode an unsigned 64-bit integer as exactly eight big-endian bytes.
pub fn encode_u64(v: u64) -> (r: Vec<u8>)
    ensures
        r@.len() == 8,
        be_value(r@) == v as nat,
{
    let mut r: Vec<u8> = Vec::new();
    r.push((v / 0x100000000000000 % 0x100) as u8);
    r.push((v / 0x1000000000000 % 0x100) as u8);
    r.push((v / 0x10000000000 % 0x100) as u8);
    r.push((v / 0x100000000 % 0x100) as u8);
    r.push((v / 0x1000000 % 0x100) as u8);
    r.push((v / 0x10000 % 0x100) as u8);
    r.push((v / 0x100 % 0x100) as u8);
    r.push((v % 0x100) as u8);
    proof {
        let s = r@;
        let x = v as int;
        lemma_mod_division_less_than_divisor(x, 0x100);
        lemma_mod_division_less_than_divisor(x / 0x100, 0x100);
        assert(s.take(0).len() == 0);
        assert(be_value(s.take(0)) == 0);
        lemma_basic_div_specific_divisor(0x10000000000000000);
        assert(x / 0x10000000000000000 == 0);
        assert(s.take(1).drop_last() =~= s.take(0));
        assert(be_value(s.take(1)) == x / 0x100000000000000) by {
            lemma_be_digit_step(x, 0x100000000000000);
        }
        assert(s.take(2).drop_last() =~= s.take(1));
        assert(be_value(s.take(2)) == x / 0x1000000000000) by {
            lemma_be_digit_step(x, 0x1000000000000);
        }
        assert(s.take(3).drop_last() =~= s.take(2));
        assert(be_value(s.take(3)) == x / 0x10000000000) by {
            lemma_be_digit_step(x, 0x10000000000);
        }
        assert(s.take(4).drop_last() =~= s.take(3));
        assert(be_value(s.take(4)) == x / 0x100000000) by {
            lemma_be_digit_step(x, 0x100000000);
        }
        assert(s.take(5).drop_last() =~= s.take(4));
        assert(be_value(s.take(5)) == x / 0x1000000) by {
            lemma_be_digit_step(x, 0x1000000);
        }
        assert(s.take(6).drop_last() =~= s.take(5));
        assert(be_value(s.take(6)) == x / 0x10000) by {
            lemma_be_digit_step(x, 0x10000);
        }
        assert(s.take(7).drop_last() =~= s.take(6));
        assert(be_value(s.take(7)) == x / 0x100) by {
            lemma_be_digit_step(x, 0x100);
        }
        assert(s.take(8).drop_last() =~= s.take(7));
        assert(be_value(s.take(8)) == x) by {
            lemma_be_digit_step(x, 1);
        }
        assert(s.take(8) =~= s);
    }
    r
}

/// Encode a signed 64-bit integer as exactly eight big-endian bytes,
/// two's complement.
pub fn encode_i64(v: i64) -> (r: Vec<u8>)
    ensures
        r@.len() == 8,
        be_value(r@) == (v as u64) as nat,
{
    encode_u64(v as u64)
}

/// Reinterpreting a signed value as unsigned and back loses nothing.
pub proof fn lemma_i64_round_trip(v: i64)
    ensures
        ((v as u64) as i64) == v,
{
    assert(((v as u64) as i64) == v) by (bit_vector);
}

/// Whether a byte is an ASCII decimal digit.
pub open spec fn is_dec_digit(b: u8) -> bool {
    0x30 <= b <= 0x39
}

/// Whether every byte of a sequence is an ASCII decimal digit.
pub open spec fn all_dec_digits(s: Seq<u8>) -> bool {
    forall|i: int| 0 <= i < s.len() ==> is_dec_digit(#[trigger] s[i])
}

/// The value of a digit sequence read in base ten, most significant first.
pub open spec fn dec_value(s: Seq<u8>) -> int
    decreases s.len(),
{
    if s.len() == 0 {
        0
    } else {
        dec_value(s.drop_last()) * 10 + s.last() - 0x30
    }
}

proof fn lemma_dec_value_nonneg(s: Seq<u8>)
    requires
        all_dec_digits(s),
    ensures
        dec_value(s) >= 0,
    decreases s.len(),
{
    if s.len() > 0 {
        assert(all_dec_digits(s.drop_last()));
        lemma_dec_value_nonneg(s.drop_last());
    }
}

/// Extending a digit sequence never shrinks its value.
proof fn lemma_dec_value_prefix(s: Seq<u8>, k: int)
    requires
        all_dec_digits(s),
        0 <= k <= s.len(),
    ensures
        dec_value(s.take(k)) <= dec_value(s),
    decreases s.len(),
{
    if k < s.len() {
        assert(all_dec_digits(s.drop_last()));
        assert(s.drop_last().take(k) =~= s.take(k));
        lemma_dec_value_prefix(s.drop_last(), k);
        lemma_dec_value_nonneg(s.drop_last());
    } else {
        assert(s.take(k) =~= s);
    }
}

/// What coercing a byte string to a number yields: an optional leading
/// minus sign, then at least one decimal digit, valued in base ten;
/// anything else, or a value outside the signed 64-bit range, is an error.
pub open spec fn spec_parse_decimal(s: Seq<u8>) -> Result<i64, Error> {
    if s.len() >= 1 && s[0] == 0x2d {
        let digits = s.skip(1);
        if digits.len() >= 1 && all_dec_digits(digits) && dec_value(digits)
            <= 0x8000000000000000 {
            Ok((-dec_value(digits)) as i64)
        } else {
            Err(Error::InvalidNumber)
        }
    } else if s.len() >= 1 && all_dec_digits(s) && dec_value(s) <= 0x7fffffffffffffff {
        Ok(dec_value(s) as i64)
    } else {
        Err(Error::InvalidNumber)
    }
}

/// Coerce a byte string to a signed 64-bit integer through the decimal
/// parse.
pub fn parse_decimal(data: &[u8]) -> (r: Result<i64, Error>)
    ensures
        r == spec_parse_decimal(data@),
{
    if data.len() == 0 {
        return Err(Error::InvalidNumber);
    }
    let neg = data[0] == 0x2d;
    let start: usize = if neg {
        1
    } else {
        0
    };
    if data.len() == start {
        return Err(Error::InvalidNumber);
    }
    let ghost digits = data@.skip(start as int);
    proof {
        if !neg {
            assert(data@.skip(0int) =~= data@);
        }
    }
    let limit: u64 = if neg {
        0x8000000000000000
    } else {
        0x7fffffffffffffff
    };
    let mut acc: u64 = 0;
    let mut i: usize = start;
    while i < data.len()
        invariant
            start <= i <= data@.len(),
            start <= 1,
            data@.len() > start,
            neg == (data@[0] == 0x2d),
            start == if neg {
                1int
            } else {
                0int
            },
            limit == if neg {
                0x8000000000000000u64
            } else {
                0x7fffffffffffffffu64
            },
            digits == data@.skip(start as int),
            !neg ==> digits == data@,
            digits.len() >= 1,
            all_dec_digits(digits.take(i - start)),
            acc == dec_value(digits.take(i - start)),
            acc <= limit,
        decreases data@.len() - i,
    {
        let c = data[i];
        if c < 0x30 || c > 0x39 {
            proof {
                assert(digits[i - start] == c);
                assert(!all_dec_digits(digits));
            }
            return Err(Error::InvalidNumber);
        }
        let d = (c - 0x30) as u64;
        if acc > (limit - d) / 10 {
            proof {
                let w = (limit - d) as int;
                lemma_fundamental_div_mod(w, 10);
                lemma_mod_division_less_than_divisor(w, 10);
                assert(acc * 10 + d > limit);
                assert(digits.take(i - start + 1).drop_last() =~= digits.take(i - start));
                assert(digits.take(i - start + 1).last() == c);
                assert(dec_value(digits.take(i - start + 1)) > limit);
                if all_dec_digits(digits) {
                    lemma_dec_value_prefix(digits, i - start + 1);
                    assert(dec_value(digits) > limit);
                }
            }
            return Err(Error::InvalidNumber);
        }
        proof {
            let w = (limit - d) as int;
            lemma_fundamental_div_mod(w, 10);
            lemma_mod_division_less_than_divisor(w, 10);
            assert(acc * 10 + d <= limit);
            assert(digits.take(i - start + 1).drop_last() =~= digits.take(i - start));
            assert(digits.take(i - start + 1).last() == c);
        }
        acc = acc * 10 + d;
        i = i + 1;
    }
    proof {
        assert(digits.take(i - start) =~= digits);
        lemma_dec_value_nonneg(digits);
    }
    if neg {
        if acc == 0x8000000000000000 {
            Ok(i64::MIN)
        } else {
            Ok(-(acc as i64))
        }
    } else {
        Ok(acc as i64)
    }
}

/// One decoded element put in front of the rest of a decoded stream;
/// an error in the rest wins.
pub open spec fn spec_cons_datum(d: DatumView, rest: Result<Seq<DatumView>, Error>) -> Result<
    Seq<DatumView>,
    Error,
> {
    match rest {
        Ok(l) => Ok(seq![d] + l),
        Err(e) => Err(e),
    }
}

/// A decoded prefix put in front of the rest of a decoded stream; an
/// error in the rest wins.
pub open spec fn spec_prepend(pre: Seq<DatumView>, rest: Result<Seq<DatumView>, Error>) -> Result<
    Seq<DatumView>,
    Error,
> {
    match rest {
        Ok(l) => Ok(pre + l),
        Err(e) => Err(e),
    }
}

/// What decoding a value-list payload yields: a self-describing stream
/// of elements, each a one-byte type tag followed by its payload — no
/// payload for the null value, eight big-endian bytes for an integer,
/// and an eight-byte big-endian length followed by that many raw bytes
/// for a byte string.  Truncated input and unknown tags are errors.
pub open spec fn spec_decode_datums(s: Seq<u8>) -> Result<Seq<DatumView>, Error>
    decreases s.len(),
{
    if s.len() == 0 {
        Ok(Seq::empty())
    } else if s[0] == NIL_TAG {
        spec_cons_datum(DatumView::Null, spec_decode_datums(s.skip(1)))
    } else if s[0] == INT_TAG {
        if s.len() >= 9 {
            spec_cons_datum(
                DatumView::I64((be_value(s.subrange(1, 9)) as u64) as i64),
                spec_decode_datums(s.skip(9)),
            )
        } else {
            Err(Error::Truncated)
        }
    } else if s[0] == UINT_TAG {
        if s.len() >= 9 {
            spec_cons_datum(
                DatumView::U64(be_value(s.subrange(1, 9)) as u64),
                spec_decode_datums(s.skip(9)),
            )
        } else {
            Err(Error::Truncated)
        }
    } else if s[0] == BYTES_TAG {
        if s.len() >= 9 {
            let n = be_value(s.subrange(1, 9));
            if s.len() >= 9 + n {
                spec_cons_datum(
                    DatumView::Bytes(s.subrange(9, 9 + n as int)),
                    spec_decode_datums(s.skip(9 + n as int)),
                )
            } else {
                Err(Error::Truncated)
            }
        } else {
            Err(Error::Truncated)
        }
    } else {
        Err(Error::UnknownTag(s[0]))
    }
}

/// Decode a value-list payload into its datums; see
/// [`spec_decode_datums`].
pub fn decode_datums(data: &[u8]) -> (r: Result<Vec<Datum>, Error>)
    ensures
        match (r, spec_decode_datums(data@)) {
            (Ok(v), Ok(ds)) => datums_view(v@) == ds,
            (Err(e1), Err(e2)) => e1 == e2,
            _ => false,
        },
{
    let n = data.len();
    let mut out: Vec<Datum> = Vec::new();
    let mut i: usize = 0;
    proof {
        assert(data@.skip(0int) =~= data@);
        assert(datums_view(out@) =~= Seq::<DatumView>::empty());
        if spec_decode_datums(data@) is Ok {
            assert(datums_view(out@) + spec_decode_datums(data@)->Ok_0 =~= spec_decode_datums(
                data@,
            )->Ok_0);
        }
    }
    while i < n
        invariant
            i <= n,
            n == data@.len(),
            spec_decode_datums(data@) == spec_prepend(
                datums_view(out@),
                spec_decode_datums(data@.skip(i as int)),
            ),
        decreases n - i,
    {
        let ghost pre = datums_view(out@);
        let tag = data[i];
        if tag == NIL_TAG {
            out.push(Datum::Null);
            proof {
                assert(data@.skip(i as int).skip(1) =~= data@.skip(i + 1));
                lemma_prepend_cons(pre, DatumView::Null, spec_decode_datums(data@.skip(i + 1)));
                assert(datums_view(out@) =~= pre + seq![DatumView::Null]);
            }
            i = i + 1;
        } else if tag == INT_TAG {
            if n - i < 9 {
                return Err(Error::Truncated);
            }
            let v = be_read(&data[i + 1..i + 9]);
            let d = Datum::I64(v as i64);
            proof {
                assert(data@.skip(i as int).subrange(1, 9) =~= data@.subrange(i + 1, i + 9));
                assert(data@.skip(i as int).skip(9) =~= data@.skip(i + 9));
                lemma_prepend_cons(pre, d@, spec_decode_datums(data@.skip(i + 9)));
            }
            out.push(d);
            proof {
                assert(datums_view(out@) =~= pre + seq![DatumView::I64(v as i64)]);
            }
            i = i + 9;
        } else if tag == UINT_TAG {
            if n - i < 9 {
                return Err(Error::Truncated);
            }
            let v = be_read(&data[i + 1..i + 9]);
            let d = Datum::U64(v);
            proof {
                assert(data@.skip(i as int).subrange(1, 9) =~= data@.subrange(i + 1, i + 9));
                assert(data@.skip(i as int).skip(9) =~= data@.skip(i + 9));
                lemma_prepend_cons(pre, d@, spec_decode_datums(data@.skip(i + 9)));
            }
            out.push(d);
            proof {
                assert(datums_view(out@) =~= pre + seq![DatumView::U64(v)]);
            }
            i = i + 9;
        } else if tag == BYTES_TAG {
            if n - i < 9 {
                return Err(Error::Truncated);
            }
            let m64 = be_read(&data[i + 1..i + 9]);
            proof {
                assert(data@.skip(i as int).subrange(1, 9) =~= data@.subrange(i + 1, i + 9));
            }
            if m64 > (n - i - 9) as u64 {
                return Err(Error::Truncated);
            }
            let m = m64 as usize;
            let b = text::copy_bytes(&data[i + 9..i + 9 + m]);
            let d = Datum::Bytes(b);
            proof {
                assert(data@.skip(i as int).subrange(9, 9 + m64 as int) =~= data@.subrange(
                    i + 9,
                    i + 9 + m64 as int,
                ));
                assert(data@.skip(i as int).skip(9 + m64 as int) =~= data@.skip(
                    i + 9 + m64 as int,
                ));
                lemma_prepend_cons(pre, d@, spec_decode_datums(data@.skip(i + 9 + m64 as int)));
            }
            out.push(d);
            proof {
                assert(datums_view(out@) =~= pre + seq![d@]);
            }
            i = i + 9 + m;
        } else {
            return Err(Error::UnknownTag(tag));
        }
    }
    proof {
        assert(data@.skip(n as int).len() == 0);
        assert(datums_view(out@) + Seq::<DatumView>::empty() =~= datums_view(out@));
    }
    Ok(out)
}

/// Splicing a fresh element between a decoded prefix and the rest moves
/// it into the prefix.
proof fn lemma_prepend_cons(pre: Seq<DatumView>, d: DatumView, rest: Result<Seq<DatumView>, Error>)
    ensures
        spec_prepend(pre, spec_cons_datum(d, rest)) == spec_prepend(pre + seq![d], rest),
{
    match rest {
        Ok(l) => {
            assert(pre + (seq![d] + l) =~= (pre + seq![d]) + l);
        },
        Err(_) => {
        },
    }
}

/// A stream that decodes cleanly keeps its meaning in front of any
/// extension: decoding the concatenation decodes the first stream's
/// elements, then the rest.
pub proof fn lemma_decode_append(a: Seq<u8>, la: Seq<DatumView>, b: Seq<u8>)
    requires
        spec_decode_datums(a) == Ok::<Seq<DatumView>, Error>(la),
    ensures
        spec_decode_datums(a + b) == spec_prepend(la, spec_decode_datums(b)),
    decreases a.len(),
{
    let ab = a + b;
    if a.len() == 0 {
        assert(ab =~= b);
        assert(la =~= Seq::<DatumView>::empty());
        match spec_decode_datums(b) {
            Ok(l) => {
                assert(la + l =~= l);
            },
            Err(_) => {
            },
        }
    } else {
        assert(ab[0] == a[0]);
        let k: int = if a[0] == NIL_TAG {
            1
        } else if a[0] == INT_TAG || a[0] == UINT_TAG {
            9
        } else {
            9 + be_value(a.subrange(1, 9)) as int
        };
        if a[0] == NIL_TAG || a[0] == INT_TAG || a[0] == UINT_TAG || a[0] == BYTES_TAG {
            if a[0] != NIL_TAG {
                assert(a.len() >= 9);
                assert(ab.subrange(1, 9) =~= a.subrange(1, 9));
            }
            assert(a.len() >= k);
            if a[0] == BYTES_TAG {
                assert(ab.subrange(9, k) =~= a.subrange(9, k));
            }
            let d: DatumView = if a[0] == NIL_TAG {
                DatumView::Null
            } else if a[0] == INT_TAG {
                DatumView::I64((be_value(a.subrange(1, 9)) as u64) as i64)
            } else if a[0] == UINT_TAG {
                DatumView::U64(be_value(a.subrange(1, 9)) as u64)
            } else {
                DatumView::Bytes(a.subrange(9, k))
            };
            let ra = spec_decode_datums(a.skip(k));
            assert(spec_decode_datums(a) == spec_cons_datum(d, ra));
            match ra {
                Ok(la1) => {
                    assert(a.skip(k) + b =~= ab.skip(k));
                    lemma_decode_append(a.skip(k), la1, b);
                    assert(spec_decode_datums(ab) == spec_cons_datum(
                        d,
                        spec_prepend(la1, spec_decode_datums(b)),
                    ));
                    match spec_decode_datums(b) {
                        Ok(lb) => {
                            assert(seq![d] + (la1 + lb) =~= (seq![d] + la1) + lb);
                        },
                        Err(_) => {
                        },
                    }
                },
                Err(_) => {
                    assert(false);
                },
            }
        } else {
            assert(false);
        }
    }
}

/// Append the bytes of `src` to `dst`.
pub(crate) fn push_all(dst: &mut Vec<u8>, src: &Vec<u8>)
    ensures
        final(dst)@ == old(dst)@ + src@,
{
    let mut j: usize = 0;
    proof {
        assert(dst@ =~= old(dst)@ + src@.take(0int));
    }
    while j < src.len()
        invariant
            j <= src@.len(),
            dst@ == old(dst)@ + src@.take(j as int),
        decreases src@.len() - j,
    {
        dst.push(src[j]);
        j = j + 1;
        proof {
            assert(dst@ =~= old(dst)@ + src@.take(j as int));
        }
    }
    proof {
        assert(old(dst)@ + src@.take(src@.len() as int) =~= old(dst)@ + src@);
    }
}

/// Encode a list of datums as a value-list payload.  Decoding the result
/// yields exactly the given list; floats have no wire form and are
/// rejected.
pub fn encode_datums(values: &Vec<Datum>) -> (r: Result<Vec<u8>, Error>)
    ensures
        match r {
            Ok(bytes) => !has_float(datums_view(values@)) && spec_decode_datums(bytes@)
                == Ok::<Seq<DatumView>, Error>(datums_view(values@)),
            Err(e) => has_float(datums_view(values@)) && e == Error::Unimplemented,
        },
{
    let mut out: Vec<u8> = Vec::new();
    let mut i: usize = 0;
    proof {
        assert(out@ =~= Seq::<u8>::empty());
        assert(datums_view(values@.take(0int)) =~= Seq::<DatumView>::empty());
    }
    while i < values.len()
        invariant
            i <= values@.len(),
            forall|j: int|
                0 <= j < i ==> !(#[trigger] datums_view(values@)[j]).is_float(),
            spec_decode_datums(out@) == Ok::<Seq<DatumView>, Error>(
                datums_view(values@.take(i as int)),
            ),
        decreases values@.len() - i,
    {
        let ghost out0 = out@;
        let ghost lv = datums_view(values@.take(i as int));
        match &values[i] {
            Datum::Null => {
                out.push(NIL_TAG);
                proof {
                    let e1 = seq![NIL_TAG];
                    assert(out@ =~= out0 + e1);
                    assert(e1.skip(1) =~= Seq::<u8>::empty());
                    assert(spec_decode_datums(Seq::<u8>::empty()) == Ok::<Seq<DatumView>, Error>(Seq::<DatumView>::empty()));
                    assert(seq![DatumView::Null] + Seq::<DatumView>::empty() =~= seq![DatumView::Null]);
                    assert(spec_decode_datums(e1) == Ok::<Seq<DatumView>, Error>(
                        seq![DatumView::Null],
                    ));
                    lemma_decode_append(out0, lv, e1);
                    assert(lv + seq![DatumView::Null] =~= datums_view(values@.take(i + 1)));
                }
            },
            Datum::I64(x) => {
                let ghost xv: i64 = *x;
                out.push(INT_TAG);
                let enc = encode_i64(*x);
                push_all(&mut out, &enc);
                proof {
                    let e1 = seq![INT_TAG] + enc@;
                    assert(out@ =~= out0 + e1);
                    assert(e1.subrange(1, 9) =~= enc@);
                    assert(e1.skip(9) =~= Seq::<u8>::empty());
                    assert(spec_decode_datums(Seq::<u8>::empty()) == Ok::<Seq<DatumView>, Error>(Seq::<DatumView>::empty()));
                    assert(seq![DatumView::I64(xv)] + Seq::<DatumView>::empty() =~= seq![DatumView::I64(xv)]);
                    lemma_i64_round_trip(xv);
                    assert(spec_decode_datums(e1) == Ok::<Seq<DatumView>, Error>(
                        seq![DatumView::I64(xv)],
                    ));
                    lemma_decode_append(out0, lv, e1);
                    assert(lv + seq![DatumView::I64(xv)] =~= datums_view(values@.take(i + 1)));
                }
            },
            Datum::U64(x) => {
                let ghost xv: u64 = *x;
                out.push(UINT_TAG);
                let enc = encode_u64(*x);
                push_all(&mut out, &enc);
                proof {
                    let e1 = seq![UINT_TAG] + enc@;
                    assert(out@ =~= out0 + e1);
                    assert(e1.subrange(1, 9) =~= enc@);
                    assert(e1.skip(9) =~= Seq::<u8>::empty());
                    assert(spec_decode_datums(Seq::<u8>::empty()) == Ok::<Seq<DatumView>, Error>(Seq::<DatumView>::empty()));
                    assert(seq![DatumView::U64(xv)] + Seq::<DatumView>::empty() =~= seq![DatumView::U64(xv)]);
                    assert(spec_decode_datums(e1) == Ok::<Seq<DatumView>, Error>(
                        seq![DatumView::U64(xv)],
                    ));
                    lemma_decode_append(out0, lv, e1);
                    assert(lv + seq![DatumView::U64(xv)] =~= datums_view(values@.take(i + 1)));
                }
            },
            Datum::Bytes(b) => {
                let ghost bv = b@;
                out.push(BYTES_TAG);
                let enc = encode_u64(b.len() as u64);
                push_all(&mut out, &enc);
                push_all(&mut out, b);
                proof {
                    let e1 = seq![BYTES_TAG] + enc@ + bv;
                    assert(out@ =~= out0 + e1);
                    assert(e1.subrange(1, 9) =~= enc@);
                    assert(be_value(enc@) == bv.len());
                    assert(e1.len() == 9 + bv.len());
                    assert(e1.subrange(9, 9 + bv.len() as int) =~= bv);
                    assert(e1.skip(9 + bv.len() as int) =~= Seq::<u8>::empty());
                    assert(spec_decode_datums(Seq::<u8>::empty()) == Ok::<Seq<DatumView>, Error>(Seq::<DatumView>::empty()));
                    assert(seq![DatumView::Bytes(bv)] + Seq::<DatumView>::empty() =~= seq![DatumView::Bytes(bv)]);
                    assert(spec_decode_datums(e1) == Ok::<Seq<DatumView>, Error>(
                        seq![DatumView::Bytes(bv)],
                    ));
                    lemma_decode_append(out0, lv, e1);
                    assert(lv + seq![DatumView::Bytes(bv)] =~= datums_view(values@.take(i + 1)));
                }
            },
            Datum::F32(_) => {
                proof {
                    assert(datums_view(values@)[i as int].is_float());
                }
                return Err(Error::Unimplemented);
            },
            Datum::F64(_) => {
                proof {
                    assert(datums_view(values@)[i as int].is_float());
                }
                return Err(Error::Unimplemented);
            },
        }
        i = i + 1;
    }
    proof {
        assert(values@.take(values@.len() as int) =~= values@);
    }
    Ok(out)
}

} // verus!
