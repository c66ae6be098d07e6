//! The typed scalar value model.
//!
//! A [`Datum`] is the only runtime value the evaluator produces or consumes:
//! the null value, a signed or unsigned 64-bit integer, or a byte string
//! (which doubles as the string type).  The float variants are carried
//! through for parsed literals but no operator accepts them.
//!
//! Non-null datums have a total order: integers compare as mathematical
//! integers regardless of signedness, byte strings compare lexicographically,
//! and an integer meets a byte string through a decimal parse of the bytes.
//! The null value sorts before every other datum.

use vstd::prelude::*;

use core::cmp::Ordering;

use crate::codec;
use crate::error::Error;
use crate::text;

verus! {

/// The mathematical image of a datum: the same variants with the byte
/// string abstracted to a sequence.
pub enum DatumView {
    Null,
    I64(i64),
    U64(u64),
    Bytes(Seq<u8>),
    F32(u32),
    F64(u64),
}

impl DatumView {
    /// Whether this is the null value.
    pub open spec fn is_null(self) -> bool {
        self is Null
    }

    /// Whether this is a float, which no operator accepts.
    pub open spec fn is_float(self) -> bool {
        self is F32 || self is F64
    }
}

/// One typed scalar value.
///
/// The float variants hold the bit pattern of an IEEE 754 value: the
/// evaluator never operates on floats, it only rejects them, so they are
/// carried as opaque bits.
#[derive(Debug, Clone, PartialEq)]
pub enum Datum {
    Null,
    I64(i64),
    U64(u64),
    Bytes(Vec<u8>),
    F32(u32),
    F64(u64),
}

impl View for Datum {
    type V = DatumView;

    open spec fn view(&self) -> DatumView {
        match self {
            Datum::Null => DatumView::Null,
            Datum::I64(v) => DatumView::I64(*v),
            Datum::U64(v) => DatumView::U64(*v),
            Datum::Bytes(b) => DatumView::Bytes(b@),
            Datum::F32(v) => DatumView::F32(*v),
            Datum::F64(v) => DatumView::F64(*v),
        }
    }
}

/// The images of a list of datums, in order.
pub open spec fn datums_view(s: Seq<Datum>) -> Seq<DatumView> {
    s.map_values(|d: Datum| d@)
}

/// Whether a list of datums holds a float anywhere.
pub open spec fn has_float(l: Seq<DatumView>) -> bool {
    exists|i: int| 0 <= i < l.len() && (#[trigger] l[i]).is_float()
}

/// The order of two mathematical integers.
pub open spec fn spec_cmp_int(a: int, b: int) -> Ordering {
    if a < b {
        Ordering::Less
    } else if a == b {
        Ordering::Equal
    } else {
        Ordering::Greater
    }
}

/// The lexicographic order of two byte strings, by unsigned byte value.
pub open spec fn spec_cmp_bytes(a: Seq<u8>, b: Seq<u8>) -> Ordering
    decreases a.len(),
{
    if a.len() == 0 && b.len() == 0 {
        Ordering::Equal
    } else if a.len() == 0 {
        Ordering::Less
    } else if b.len() == 0 {
        Ordering::Greater
    } else if a[0] < b[0] {
        Ordering::Less
    } else if a[0] > b[0] {
        Ordering::Greater
    } else {
        spec_cmp_bytes(a.skip(1), b.skip(1))
    }
}

/// The total order of two datums: the null value sorts first; integers
/// compare as mathematical integers whatever their signedness; byte
/// strings compare lexicographically; an integer meets a byte string
/// through the decimal parse of the bytes, whose failure is an error;
/// floats are not supported.
pub open spec fn spec_cmp(a: DatumView, b: DatumView) -> Result<Ordering, Error> {
    match (a, b) {
        (DatumView::Null, DatumView::Null) => Ok(Ordering::Equal),
        (DatumView::Null, _) => Ok(Ordering::Less),
        (_, DatumView::Null) => Ok(Ordering::Greater),
        (DatumView::F32(_), _) => Err(Error::Unimplemented),
        (DatumView::F64(_), _) => Err(Error::Unimplemented),
        (_, DatumView::F32(_)) => Err(Error::Unimplemented),
        (_, DatumView::F64(_)) => Err(Error::Unimplemented),
        (DatumView::I64(x), DatumView::I64(y)) => Ok(spec_cmp_int(x as int, y as int)),
        (DatumView::I64(x), DatumView::U64(y)) => Ok(spec_cmp_int(x as int, y as int)),
        (DatumView::U64(x), DatumView::I64(y)) => Ok(spec_cmp_int(x as int, y as int)),
        (DatumView::U64(x), DatumView::U64(y)) => Ok(spec_cmp_int(x as int, y as int)),
        (DatumView::Bytes(p), DatumView::Bytes(q)) => Ok(spec_cmp_bytes(p, q)),
        (DatumView::I64(x), DatumView::Bytes(q)) => match codec::spec_parse_decimal(q) {
            Ok(n) => Ok(spec_cmp_int(x as int, n as int)),
            Err(e) => Err(e),
        },
        (DatumView::U64(x), DatumView::Bytes(q)) => match codec::spec_parse_decimal(q) {
            Ok(n) => Ok(spec_cmp_int(x as int, n as int)),
            Err(e) => Err(e),
        },
        (DatumView::Bytes(p), DatumView::I64(y)) => match codec::spec_parse_decimal(p) {
            Ok(n) => Ok(spec_cmp_int(n as int, y as int)),
            Err(e) => Err(e),
        },
        (DatumView::Bytes(p), DatumView::U64(y)) => match codec::spec_parse_decimal(p) {
            Ok(n) => Ok(spec_cmp_int(n as int, y as int)),
            Err(e) => Err(e),
        },
    }
}

/// What coercing a datum to a boolean yields: zero integers are false,
/// other integers are true, byte strings go through the decimal parse
/// first, floats are not supported, and the null value is no boolean at
/// all (the evaluator answers "unknown" before ever coercing it).
pub open spec fn spec_into_bool(d: DatumView) -> Result<bool, Error> {
    match d {
        DatumView::Null => Err(Error::InvalidNumber),
        DatumView::I64(v) => Ok(v != 0),
        DatumView::U64(v) => Ok(v != 0),
        DatumView::Bytes(b) => match codec::spec_parse_decimal(b) {
            Ok(n) => Ok(n != 0),
            Err(e) => Err(e),
        },
        DatumView::F32(_) => Err(Error::Unimplemented),
        DatumView::F64(_) => Err(Error::Unimplemented),
    }
}

/// What coercing a datum to a string yields: the bytes of a byte string,
/// provided they are well-formed UTF-8; everything else is an error.
pub open spec fn spec_into_string(d: DatumView) -> Result<Seq<u8>, Error> {
    match d {
        DatumView::Bytes(b) => if text::is_utf8(b) {
            Ok(b)
        } else {
            Err(Error::InvalidUtf8)
        },
        _ => Err(Error::NotString),
    }
}

/// The mirror image of an ordering outcome.
pub open spec fn ord_reverse(o: Ordering) -> Ordering {
    match o {
        Ordering::Less => Ordering::Greater,
        Ordering::Equal => Ordering::Equal,
        Ordering::Greater => Ordering::Less,
    }
}

/// An ordering outcome as a position on the line: below, at, above.
pub open spec fn ord_rank(o: Ordering) -> int {
    match o {
        Ordering::Less => 0,
        Ordering::Equal => 1,
        Ordering::Greater => 2,
    }
}

proof fn lemma_cmp_bytes_antisym(a: Seq<u8>, b: Seq<u8>)
    ensures
        spec_cmp_bytes(b, a) == ord_reverse(spec_cmp_bytes(a, b)),
    decreases a.len(),
{
    if a.len() > 0 && b.len() > 0 && a[0] == b[0] {
        lemma_cmp_bytes_antisym(a.skip(1), b.skip(1));
    }
}

/// Consistency of the lexicographic order: moving from a byte string to
/// one at or above it never moves a third string's position down.
pub proof fn lemma_cmp_bytes_rank_trans(a: Seq<u8>, b: Seq<u8>, c: Seq<u8>)
    requires
        ord_rank(spec_cmp_bytes(a, b)) <= 1,
    ensures
        ord_rank(spec_cmp_bytes(a, c)) <= ord_rank(spec_cmp_bytes(b, c)),
    decreases a.len() + b.len() + c.len(),
{
    if a.len() > 0 && b.len() == 0 {
        assert(spec_cmp_bytes(a, b) == Ordering::Greater);
    } else if c.len() == 0 || a.len() == 0 {
        // immediate from the definitions
    } else {
        // all three are nonempty, and a[0] <= b[0]
        if a[0] == c[0] && b[0] == c[0] {
            lemma_cmp_bytes_rank_trans(a.skip(1), b.skip(1), c.skip(1));
        }
    }
}

/// Swapping the operands of the datum order mirrors the outcome, and
/// leaves every error as it is.
pub proof fn lemma_cmp_antisym(a: DatumView, b: DatumView)
    ensures
        spec_cmp(b, a) == (match spec_cmp(a, b) {
            Ok(o) => Ok::<Ordering, Error>(ord_reverse(o)),
            Err(e) => Err::<Ordering, Error>(e),
        }),
{
    match (a, b) {
        (DatumView::Bytes(p), DatumView::Bytes(q)) => {
            lemma_cmp_bytes_antisym(p, q);
        },
        _ => {
        },
    }
}

fn cmp_i64(a: i64, b: i64) -> (r: Ordering)
    ensures
        r == spec_cmp_int(a as int, b as int),
{
    if a < b {
        Ordering::Less
    } else if a == b {
        Ordering::Equal
    } else {
        Ordering::Greater
    }
}

fn cmp_u64(a: u64, b: u64) -> (r: Ordering)
    ensures
        r == spec_cmp_int(a as int, b as int),
{
    if a < b {
        Ordering::Less
    } else if a == b {
        Ordering::Equal
    } else {
        Ordering::Greater
    }
}

fn cmp_i64_u64(a: i64, b: u64) -> (r: Ordering)
    ensures
        r == spec_cmp_int(a as int, b as int),
{
    if a < 0 {
        Ordering::Less
    } else {
        cmp_u64(a as u64, b)
    }
}

fn cmp_u64_i64(a: u64, b: i64) -> (r: Ordering)
    ensures
        r == spec_cmp_int(a as int, b as int),
{
    if b < 0 {
        Ordering::Greater
    } else {
        cmp_u64(a, b as u64)
    }
}

fn cmp_bytes(a: &[u8], b: &[u8]) -> (r: Ordering)
    ensures
        r == spec_cmp_bytes(a@, b@),
{
    let mut i: usize = 0;
    proof {
        assert(a@.skip(0int) =~= a@);
        assert(b@.skip(0int) =~= b@);
    }
    while i < a.len() && i < b.len()
        invariant
            i <= a@.len(),
            i <= b@.len(),
            spec_cmp_bytes(a@, b@) == spec_cmp_bytes(a@.skip(i as int), b@.skip(i as int)),
        decreases a@.len() - i,
    {
        if a[i] < b[i] {
            return Ordering::Less;
        }
        if a[i] > b[i] {
            return Ordering::Greater;
        }
        proof {
            assert(a@.skip(i as int).skip(1) =~= a@.skip(i + 1));
            assert(b@.skip(i as int).skip(1) =~= b@.skip(i + 1));
        }
        i = i + 1;
    }
    if a.len() == b.len() {
        Ordering::Equal
    } else if a.len() < b.len() {
        Ordering::Less
    } else {
        Ordering::Greater
    }
}

impl Datum {
    /// Whether this is the null value.
    pub fn is_null(&self) -> (r: bool)
        ensures
            r == self@.is_null(),
    {
        matches!(self, Datum::Null)
    }

    /// Compare two datums in the total datum order; see [`spec_cmp`].
    pub fn cmp(&self, other: &Datum) -> (r: Result<Ordering, Error>)
        ensures
            r == spec_cmp(self@, other@),
    {
        match (self, other) {
            (Datum::Null, Datum::Null) => Ok(Ordering::Equal),
            (Datum::Null, _) => Ok(Ordering::Less),
            (_, Datum::Null) => Ok(Ordering::Greater),
            (Datum::F32(_), _) => Err(Error::Unimplemented),
            (Datum::F64(_), _) => Err(Error::Unimplemented),
            (_, Datum::F32(_)) => Err(Error::Unimplemented),
            (_, Datum::F64(_)) => Err(Error::Unimplemented),
            (Datum::I64(x), Datum::I64(y)) => Ok(cmp_i64(*x, *y)),
            (Datum::I64(x), Datum::U64(y)) => Ok(cmp_i64_u64(*x, *y)),
            (Datum::U64(x), Datum::I64(y)) => Ok(cmp_u64_i64(*x, *y)),
            (Datum::U64(x), Datum::U64(y)) => Ok(cmp_u64(*x, *y)),
            (Datum::Bytes(p), Datum::Bytes(q)) => Ok(cmp_bytes(p.as_slice(), q.as_slice())),
            (Datum::I64(x), Datum::Bytes(q)) => match codec::parse_decimal(q.as_slice()) {
                Ok(n) => Ok(cmp_i64(*x, n)),
                Err(e) => Err(e),
            },
            (Datum::U64(x), Datum::Bytes(q)) => match codec::parse_decimal(q.as_slice()) {
                Ok(n) => Ok(cmp_u64_i64(*x, n)),
                Err(e) => Err(e),
            },
            (Datum::Bytes(p), Datum::I64(y)) => match codec::parse_decimal(p.as_slice()) {
                Ok(n) => Ok(cmp_i64(n, *y)),
                Err(e) => Err(e),
            },
            (Datum::Bytes(p), Datum::U64(y)) => match codec::parse_decimal(p.as_slice()) {
                Ok(n) => Ok(cmp_i64_u64(n, *y)),
                Err(e) => Err(e),
            },
        }
    }

    /// Coerce a datum to a boolean; see [`spec_into_bool`].
    pub fn into_bool(self) -> (r: Result<bool, Error>)
        ensures
            r == spec_into_bool(self@),
    {
        match self {
            Datum::Null => Err(Error::InvalidNumber),
            Datum::I64(v) => Ok(v != 0),
            Datum::U64(v) => Ok(v != 0),
            Datum::Bytes(b) => match codec::parse_decimal(b.as_slice()) {
                Ok(n) => Ok(n != 0),
                Err(e) => Err(e),
            },
            Datum::F32(_) => Err(Error::Unimplemented),
            Datum::F64(_) => Err(Error::Unimplemented),
        }
    }

    /// Coerce a datum to the bytes of a UTF-8 string; see
    /// [`spec_into_string`].
    pub fn into_string_bytes(self) -> (r: Result<Vec<u8>, Error>)
        ensures
            match (r, spec_into_string(self@)) {
                (Ok(v), Ok(s)) => v@ == s,
                (Err(e1), Err(e2)) => e1 == e2,
                _ => false,
            },
    {
        match self {
            Datum::Bytes(b) => {
                if text::validate_utf8(b.as_slice()) {
                    Ok(b)
                } else {
                    Err(Error::InvalidUtf8)
                }
            },
            _ => Err(Error::NotString),
        }
    }

    /// An owned copy with the same image.
    pub fn duplicate(&self) -> (r: Datum)
        ensures
            r@ == self@,
    {
        match self {
            Datum::Null => Datum::Null,
            Datum::I64(v) => Datum::I64(*v),
            Datum::U64(v) => Datum::U64(*v),
            Datum::Bytes(b) => Datum::Bytes(text::copy_bytes(b.as_slice())),
            Datum::F32(v) => Datum::F32(*v),
            Datum::F64(v) => Datum::F64(*v),
        }
    }
}

} // verus!
