//! The row-scoped expression evaluator.
//!
//! An [`Evaluator`] owns one row binding (column id to datum) and a cache
//! of decoded value lists, and evaluates expression trees against that
//! row under SQL three-valued logic.  What [`Evaluator::eval`] returns is
//! pinned down, for every tree and every row, by the mathematical
//! function [`spec_eval`]: the result depends on the row binding and the
//! tree alone, never on the cache, so repeated evaluations agree with
//! decoding every value list freshly.
//!
//! Child evaluation order is left first, then right, and `And`/`Or` do
//! not short-circuit: both children are always evaluated and coerced,
//! and Kleene logic combines the outcomes.

use vstd::prelude::*;

use core::cmp::Ordering;
use std::collections::HashMap;

use crate::codec;
use crate::datum::{
    datums_view, spec_cmp, spec_into_bool, spec_into_string, Datum, DatumView,
};
use crate::error::Error;
use crate::expr::{lemma_exprs_view, Expr, ExprType, ExprView};
use crate::text;

verus! {

broadcast use vstd::std_specs::hash::group_hash_axioms;

/// The image of a fallible datum computation.
pub open spec fn res_view(r: Result<Datum, Error>) -> Result<DatumView, Error> {
    match r {
        Ok(d) => Ok(d@),
        Err(e) => Err(e),
    }
}

/// The image of a fallible pair of datums.
pub open spec fn pair_view(r: Result<(Datum, Datum), Error>) -> Result<
    (DatumView, DatumView),
    Error,
> {
    match r {
        Ok((a, b)) => Ok((a@, b@)),
        Err(e) => Err(e),
    }
}

/// A three-valued boolean: `None` is the unknown truth value that the
/// null datum carries.
pub open spec fn spec_bool3(d: DatumView) -> Result<Option<bool>, Error> {
    if d is Null {
        Ok(None)
    } else {
        match spec_into_bool(d) {
            Ok(b) => Ok(Some(b)),
            Err(e) => Err(e),
        }
    }
}

/// Kleene conjunction: false wins, truth needs both, the rest is unknown.
pub open spec fn spec_kleene_and(a: Option<bool>, b: Option<bool>) -> Option<bool> {
    match (a, b) {
        (Some(true), Some(true)) => Some(true),
        (Some(false), _) => Some(false),
        (_, Some(false)) => Some(false),
        _ => None,
    }
}

/// Kleene disjunction: truth wins, falsity needs both, the rest is
/// unknown.
pub open spec fn spec_kleene_or(a: Option<bool>, b: Option<bool>) -> Option<bool> {
    match (a, b) {
        (Some(true), _) => Some(true),
        (_, Some(true)) => Some(true),
        (Some(false), Some(false)) => Some(false),
        _ => None,
    }
}

/// A boolean as the evaluator returns it: `I64(1)` or `I64(0)`.
pub open spec fn bool_datum(b: bool) -> DatumView {
    if b {
        DatumView::I64(1)
    } else {
        DatumView::I64(0)
    }
}

/// A three-valued boolean as the evaluator returns it: the unknown value
/// is the null datum.
pub open spec fn bool3_datum(b: Option<bool>) -> DatumView {
    match b {
        None => DatumView::Null,
        Some(v) => bool_datum(v),
    }
}

/// How a comparison operator reads one ordering outcome.
pub open spec fn spec_cmp_op(tp: ExprType, o: Ordering) -> bool {
    match tp {
        ExprType::LT => o is Less,
        ExprType::LE => !(o is Greater),
        ExprType::EQ => o is Equal,
        ExprType::NE => !(o is Equal),
        ExprType::GE => !(o is Less),
        ExprType::GT => o is Greater,
        _ => false,
    }
}

/// Whether a kind is one of the six plain comparison operators.
pub open spec fn is_cmp_kind(tp: ExprType) -> bool {
    tp is LT || tp is LE || tp is EQ || tp is NE || tp is GE || tp is GT
}

/// The null-safe equality of two evaluated operands: two nulls are equal,
/// a single null is unequal to anything, and non-null operands go through
/// the datum order.
pub open spec fn spec_null_eq_combine(lr: Result<(DatumView, DatumView), Error>) -> Result<
    DatumView,
    Error,
> {
    match lr {
        Err(e) => Err(e),
        Ok((a, b)) => if a is Null && b is Null {
            Ok(bool_datum(true))
        } else if a is Null || b is Null {
            Ok(bool_datum(false))
        } else {
            match spec_cmp(a, b) {
                Ok(o) => Ok(bool_datum(o is Equal)),
                Err(e) => Err(e),
            }
        },
    }
}

/// Kleene combination of two evaluated operands: both are coerced to
/// three-valued booleans (left first), then combined.
pub open spec fn spec_logic_combine(tp: ExprType, lr: Result<(DatumView, DatumView), Error>) -> Result<
    DatumView,
    Error,
> {
    match lr {
        Err(e) => Err(e),
        Ok((a, b)) => match spec_bool3(a) {
            Err(e) => Err(e),
            Ok(ba) => match spec_bool3(b) {
                Err(e) => Err(e),
                Ok(bb) => if tp is And {
                    Ok(bool3_datum(spec_kleene_and(ba, bb)))
                } else {
                    Ok(bool3_datum(spec_kleene_or(ba, bb)))
                },
            },
        },
    }
}

/// Negation of one evaluated operand: null stays null, anything else is
/// coerced to a boolean and negated.
pub open spec fn spec_not_combine(r: Result<DatumView, Error>) -> Result<DatumView, Error> {
    match r {
        Err(e) => Err(e),
        Ok(d) => if d is Null {
            Ok(DatumView::Null)
        } else {
            match spec_into_bool(d) {
                Ok(b) => Ok(bool_datum(!b)),
                Err(e) => Err(e),
            }
        },
    }
}

/// The restricted `Like` match itself, on UTF-8 bytes: if the pattern
/// holds an ASCII letter, both sides are case-folded first; then an
/// optional leading and trailing `%` select containment, suffix, prefix,
/// or exact equality.
pub open spec fn spec_like(t: Seq<u8>, p: Seq<u8>) -> bool {
    let tf = if text::has_ascii_alpha(p) {
        text::lower(t)
    } else {
        t
    };
    let pf = if text::has_ascii_alpha(p) {
        text::lower(p)
    } else {
        p
    };
    if pf.len() > 0 && pf[0] == 0x25 {
        if pf.len() >= 2 && pf[pf.len() - 1] == 0x25 {
            text::spec_contains(tf, pf.subrange(1, pf.len() - 1))
        } else {
            text::spec_ends_with(tf, pf.skip(1))
        }
    } else if pf.len() > 0 && pf[pf.len() - 1] == 0x25 {
        text::spec_starts_with(tf, pf.take(pf.len() - 1))
    } else {
        tf == pf
    }
}

/// `Like` over two evaluated operands: null propagates, both sides must
/// coerce to strings, then the match runs.
pub open spec fn spec_like_combine(lr: Result<(DatumView, DatumView), Error>) -> Result<
    DatumView,
    Error,
> {
    match lr {
        Err(e) => Err(e),
        Ok((t, p)) => if t is Null || p is Null {
            Ok(DatumView::Null)
        } else {
            match spec_into_string(t) {
                Err(e) => Err(e),
                Ok(ts) => match spec_into_string(p) {
                    Err(e) => Err(e),
                    Ok(ps) => Ok(bool_datum(spec_like(ts, ps))),
                },
            }
        },
    }
}

/// The probe path of a binary search for `t` in `list` between `lo`
/// (inclusive) and `hi` (exclusive): found, not found, or the first
/// comparison error met on the path.
pub open spec fn spec_bsearch(list: Seq<DatumView>, t: DatumView, lo: int, hi: int) -> Result<
    bool,
    Error,
>
    decreases hi - lo,
{
    if lo >= hi {
        Ok(false)
    } else {
        let mid = lo + (hi - lo) / 2;
        match spec_cmp(list[mid], t) {
            Err(e) => Err(e),
            Ok(o) => if o is Less {
                spec_bsearch(list, t, mid + 1, hi)
            } else if o is Greater {
                spec_bsearch(list, t, lo, mid)
            } else {
                Ok(true)
            },
        }
    }
}

/// Membership of an evaluated target in a value-list node: a null target
/// is unknown; the node must be a value list and must decode; a binary
/// search of the sorted list decides membership; a missing target is
/// unknown when the list starts with null, else absent.
pub open spec fn spec_in_combine(tr: Result<DatumView, Error>, vl: ExprView) -> Result<
    DatumView,
    Error,
> {
    match tr {
        Err(e) => Err(e),
        Ok(t) => if t is Null {
            Ok(DatumView::Null)
        } else if !(vl.tp is ValueList) {
            Err(Error::NotValueList)
        } else {
            match codec::spec_decode_datums(vl.val) {
                Err(e) => Err(e),
                Ok(list) => match spec_bsearch(list, t, 0, list.len() as int) {
                    Err(e) => Err(e),
                    Ok(true) => Ok(bool_datum(true)),
                    Ok(false) => if list.len() > 0 && list[0] is Null {
                        Ok(DatumView::Null)
                    } else {
                        Ok(bool_datum(false))
                    },
                },
            }
        },
    }
}

/// Both children of a binary node, evaluated left first.
pub open spec fn spec_eval_two(row: Map<i64, DatumView>, e: ExprView) -> Result<
    (DatumView, DatumView),
    Error,
>
    decreases e, 0int,
{
    if e.children.len() != 2 {
        Err(Error::Arity { expected: 2, got: e.children.len() as usize })
    } else {
        match spec_eval(row, e.children[0]) {
            Err(e1) => Err(e1),
            Ok(l) => match spec_eval(row, e.children[1]) {
                Err(e2) => Err(e2),
                Ok(r) => Ok((l, r)),
            },
        }
    }
}

/// The ordering of the two children of a comparison node: unknown when a
/// side is null, otherwise the datum order of the two values.
pub open spec fn spec_cmp_children(row: Map<i64, DatumView>, e: ExprView) -> Result<
    Option<Ordering>,
    Error,
>
    decreases e, 1int,
{
    match spec_eval_two(row, e) {
        Err(err) => Err(err),
        Ok((a, b)) => if a is Null || b is Null {
            Ok(None)
        } else {
            match spec_cmp(a, b) {
                Ok(o) => Ok(Some(o)),
                Err(err) => Err(err),
            }
        },
    }
}

/// What evaluating a node against a row yields.  This is the evaluator's
/// whole contract: a mathematical function of the row binding and the
/// tree alone.
pub open spec fn spec_eval(row: Map<i64, DatumView>, e: ExprView) -> Result<DatumView, Error>
    decreases e, 2int,
{
    match e.tp {
        ExprType::Int64 => match codec::spec_decode_i64(e.val) {
            Ok(v) => Ok(DatumView::I64(v)),
            Err(err) => Err(err),
        },
        ExprType::Uint64 => match codec::spec_decode_u64(e.val) {
            Ok(v) => Ok(DatumView::U64(v)),
            Err(err) => Err(err),
        },
        ExprType::String => Ok(DatumView::Bytes(e.val)),
        ExprType::Bytes => Ok(DatumView::Bytes(e.val)),
        ExprType::ColumnRef => match codec::spec_decode_i64(e.val) {
            Ok(id) => if row.contains_key(id) {
                Ok(row[id])
            } else {
                Err(Error::ColumnNotFound(id))
            },
            Err(err) => Err(err),
        },
        ExprType::LT | ExprType::LE | ExprType::EQ | ExprType::NE | ExprType::GE
            | ExprType::GT => match spec_cmp_children(row, e) {
            Err(err) => Err(err),
            Ok(None) => Ok(DatumView::Null),
            Ok(Some(o)) => Ok(bool_datum(spec_cmp_op(e.tp, o))),
        },
        ExprType::NullEQ => spec_null_eq_combine(spec_eval_two(row, e)),
        ExprType::And | ExprType::Or => spec_logic_combine(e.tp, spec_eval_two(row, e)),
        ExprType::Not => if e.children.len() != 1 {
            Err(Error::Arity { expected: 1, got: e.children.len() as usize })
        } else {
            spec_not_combine(spec_eval(row, e.children[0]))
        },
        ExprType::Like => spec_like_combine(spec_eval_two(row, e)),
        ExprType::In => if e.children.len() != 2 {
            Err(Error::Arity { expected: 2, got: e.children.len() as usize })
        } else {
            spec_in_combine(spec_eval(row, e.children[0]), e.children[1])
        },
        ExprType::Float32 => Err(Error::Unimplemented),
        ExprType::Float64 => Err(Error::Unimplemented),
        ExprType::Null => Ok(DatumView::Null),
        ExprType::ValueList => Ok(DatumView::Null),
        ExprType::Unknown => Ok(DatumView::Null),
    }
}

/// Both children of a binary node coerced to three-valued booleans, left
/// first.
pub open spec fn spec_two_bools(row: Map<i64, DatumView>, e: ExprView) -> Result<
    (Option<bool>, Option<bool>),
    Error,
>
    decreases e, 1int,
{
    match spec_eval_two(row, e) {
        Err(err) => Err(err),
        Ok((a, b)) => match spec_bool3(a) {
            Err(err) => Err(err),
            Ok(ba) => match spec_bool3(b) {
                Err(err) => Err(err),
                Ok(bb) => Ok((ba, bb)),
            },
        },
    }
}

/// Coerce an evaluated datum to a three-valued boolean: the null value is
/// the unknown truth value.
fn eval_into_bool(datum: Datum) -> (r: Result<Option<bool>, Error>)
    ensures
        r == spec_bool3(datum@),
{
    if datum.is_null() {
        Ok(None)
    } else {
        match datum.into_bool() {
            Ok(b) => Ok(Some(b)),
            Err(e) => Err(e),
        }
    }
}

/// A boolean as the evaluator returns it.
fn bool_to_datum(b: bool) -> (r: Datum)
    ensures
        r@ == bool_datum(b),
{
    if b {
        Datum::I64(1)
    } else {
        Datum::I64(0)
    }
}

/// Binary search for `target` in the sorted decoded list, with the datum
/// order deciding each probe; a comparison error aborts the search.
fn check_in(target: &Datum, values: &Vec<Datum>) -> (r: Result<bool, Error>)
    ensures
        r == spec_bsearch(datums_view(values@), target@, 0, values@.len() as int),
{
    let mut lo: usize = 0;
    let mut hi: usize = values.len();
    while lo < hi
        invariant
            lo <= hi <= values@.len(),
            spec_bsearch(datums_view(values@), target@, 0, values@.len() as int) == spec_bsearch(
                datums_view(values@),
                target@,
                lo as int,
                hi as int,
            ),
        decreases hi - lo,
    {
        let mid = lo + (hi - lo) / 2;
        let probe = &values[mid];
        match probe.cmp(target) {
            Err(e) => return Err(e),
            Ok(Ordering::Less) => {
                lo = mid + 1;
            },
            Ok(Ordering::Greater) => {
                hi = mid;
            },
            Ok(Ordering::Equal) => {
                return Ok(true);
            },
        }
    }
    Ok(false)
}

/// The row-scoped evaluator: one row binding and a cache of decoded
/// value lists.
///
/// The cache is keyed by the value-list payload bytes themselves, so two
/// nodes with equal payloads share one decode; every cache entry holds
/// exactly what decoding its key yields, so a cache hit and a fresh
/// decode are indistinguishable.  Keying by content rather than by node
/// identity frees one evaluator to serve any number of trees over its
/// lifetime.
pub struct Evaluator {
    row: HashMap<i64, Datum>,
    cached_value_list: Vec<(Vec<u8>, Vec<Datum>)>,
}

impl View for Evaluator {
    type V = Map<i64, DatumView>;

    /// The abstract state: the row binding alone — the cache never
    /// changes what evaluation returns.
    closed spec fn view(&self) -> Map<i64, DatumView> {
        self.row@.map_values(|d: Datum| d@)
    }
}

impl Evaluator {
    /// Every cache entry holds exactly the decoded form of its key.
    #[verifier::type_invariant]
    spec fn wf(&self) -> bool {
        forall|i: int|
            0 <= i < self.cached_value_list@.len() ==> codec::spec_decode_datums(
                (#[trigger] self.cached_value_list@[i]).0@,
            ) == Ok::<Seq<DatumView>, Error>(datums_view(self.cached_value_list@[i].1@))
    }

    /// A fresh evaluator: empty row binding, empty cache.
    pub fn new() -> (r: Evaluator)
        ensures
            r@ == Map::<i64, DatumView>::empty(),
    {
        let r = Evaluator { row: HashMap::new(), cached_value_list: Vec::new() };
        proof {
            assert(r@ =~= Map::<i64, DatumView>::empty());
        }
        r
    }

    /// Bind one column of the row to a value, replacing any earlier
    /// binding.
    pub fn set_column(&mut self, col_id: i64, value: Datum)
        ensures
            final(self)@ == old(self)@.insert(col_id, value@),
    {
        let ghost v = value@;
        proof {
            use_type_invariant(&*self);
        }
        let mut row: HashMap<i64, Datum> = HashMap::new();
        std::mem::swap(&mut row, &mut self.row);
        row.insert(col_id, value);
        std::mem::swap(&mut row, &mut self.row);
        proof {
            assert(self@ =~= old(self)@.insert(col_id, v));
        }
    }

    /// Look one column of the row up.
    pub fn get_column(&self, col_id: i64) -> (r: Option<&Datum>)
        ensures
            match r {
                Some(d) => self@.contains_key(col_id) && d@ == self@[col_id],
                None => !self@.contains_key(col_id),
            },
    {
        self.row.get(&col_id)
    }

    /// The decoded form of a value-list payload, from the cache when the
    /// same payload was decoded before, freshly decoded and cached
    /// otherwise.  Returns the index of the cache entry.
    fn decode_value_list(&mut self, val: &Vec<u8>) -> (r: Result<usize, Error>)
        ensures
            final(self)@ == old(self)@,
            match r {
                Ok(idx) => {
                    &&& idx < final(self).cached_value_list@.len()
                    &&& codec::spec_decode_datums(val@) == Ok::<Seq<DatumView>, Error>(
                        datums_view(final(self).cached_value_list@[idx as int].1@),
                    )
                },
                Err(e) => codec::spec_decode_datums(val@) == Err::<Seq<DatumView>, Error>(e),
            },
    {
        proof {
            use_type_invariant(&*self);
        }
        let n = self.cached_value_list.len();
        let mut i: usize = 0;
        while i < n
            invariant
                i <= n,
                n == self.cached_value_list@.len(),
                self.wf(),
            decreases n - i,
        {
            if text::bytes_eq(self.cached_value_list[i].0.as_slice(), val.as_slice()) {
                return Ok(i);
            }
            i = i + 1;
        }
        match codec::decode_datums(val.as_slice()) {
            Ok(list) => {
                let key = text::copy_bytes(val.as_slice());
                let mut cache: Vec<(Vec<u8>, Vec<Datum>)> = Vec::new();
                std::mem::swap(&mut cache, &mut self.cached_value_list);
                cache.push((key, list));
                std::mem::swap(&mut cache, &mut self.cached_value_list);
                Ok(self.cached_value_list.len() - 1)
            },
            Err(e) => Err(e),
        }
    }

    /// Evaluate an expression tree against the current row binding.
    ///
    /// The result is exactly [`spec_eval`] of the row and the tree: it
    /// does not depend on the cache, and the row binding is left
    /// untouched.
    pub fn eval(&mut self, expr: &Expr) -> (r: Result<Datum, Error>)
        ensures
            final(self)@ == old(self)@,
            res_view(r) == spec_eval(old(self)@, expr@),
        decreases *expr, 3int,
    {
        match expr.tp {
            ExprType::Int64 => self.eval_int(expr),
            ExprType::Uint64 => self.eval_uint(expr),
            ExprType::String => Ok(Datum::Bytes(text::copy_bytes(expr.val.as_slice()))),
            ExprType::Bytes => Ok(Datum::Bytes(text::copy_bytes(expr.val.as_slice()))),
            ExprType::ColumnRef => self.eval_column_ref(expr),
            ExprType::LT => self.eval_lt(expr),
            ExprType::LE => self.eval_le(expr),
            ExprType::EQ => self.eval_eq(expr),
            ExprType::NE => self.eval_ne(expr),
            ExprType::GE => self.eval_ge(expr),
            ExprType::GT => self.eval_gt(expr),
            ExprType::NullEQ => self.eval_null_eq(expr),
            ExprType::And => self.eval_and(expr),
            ExprType::Or => self.eval_or(expr),
            ExprType::Not => self.eval_not(expr),
            ExprType::Like => self.eval_like(expr),
            ExprType::In => self.eval_in(expr),
            ExprType::Float32 => Err(Error::Unimplemented),
            ExprType::Float64 => Err(Error::Unimplemented),
            ExprType::Null => Ok(Datum::Null),
            ExprType::ValueList => Ok(Datum::Null),
            ExprType::Unknown => Ok(Datum::Null),
        }
    }

    fn eval_int(&self, expr: &Expr) -> (r: Result<Datum, Error>)
        ensures
            res_view(r) == (match codec::spec_decode_i64(expr@.val) {
                Ok(v) => Ok::<DatumView, Error>(DatumView::I64(v)),
                Err(e) => Err::<DatumView, Error>(e),
            }),
    {
        match codec::decode_i64(expr.val.as_slice()) {
            Ok(i) => Ok(Datum::I64(i)),
            Err(e) => Err(e),
        }
    }

    fn eval_uint(&self, expr: &Expr) -> (r: Result<Datum, Error>)
        ensures
            res_view(r) == (match codec::spec_decode_u64(expr@.val) {
                Ok(v) => Ok::<DatumView, Error>(DatumView::U64(v)),
                Err(e) => Err::<DatumView, Error>(e),
            }),
    {
        match codec::decode_u64(expr.val.as_slice()) {
            Ok(u) => Ok(Datum::U64(u)),
            Err(e) => Err(e),
        }
    }

    fn eval_column_ref(&self, expr: &Expr) -> (r: Result<Datum, Error>)
        ensures
            res_view(r) == (match codec::spec_decode_i64(expr@.val) {
                Ok(id) => if self@.contains_key(id) {
                    Ok::<DatumView, Error>(self@[id])
                } else {
                    Err::<DatumView, Error>(Error::ColumnNotFound(id))
                },
                Err(e) => Err::<DatumView, Error>(e),
            }),
    {
        match codec::decode_i64(expr.val.as_slice()) {
            Ok(i) => match self.row.get(&i) {
                Some(d) => Ok(d.duplicate()),
                None => Err(Error::ColumnNotFound(i)),
            },
            Err(e) => Err(e),
        }
    }

    fn eval_lt(&mut self, expr: &Expr) -> (r: Result<Datum, Error>)
        requires
            expr@.tp is LT,
        ensures
            final(self)@ == old(self)@,
            res_view(r) == spec_eval(old(self)@, expr@),
        decreases *expr, 2int,
    {
        match self.cmp_children(expr) {
            Err(e) => Err(e),
            Ok(None) => Ok(Datum::Null),
            Ok(Some(o)) => Ok(bool_to_datum(matches!(o, Ordering::Less))),
        }
    }

    fn eval_le(&mut self, expr: &Expr) -> (r: Result<Datum, Error>)
        requires
            expr@.tp is LE,
        ensures
            final(self)@ == old(self)@,
            res_view(r) == spec_eval(old(self)@, expr@),
        decreases *expr, 2int,
    {
        match self.cmp_children(expr) {
            Err(e) => Err(e),
            Ok(None) => Ok(Datum::Null),
            Ok(Some(o)) => Ok(bool_to_datum(!matches!(o, Ordering::Greater))),
        }
    }

    fn eval_eq(&mut self, expr: &Expr) -> (r: Result<Datum, Error>)
        requires
            expr@.tp is EQ,
        ensures
            final(self)@ == old(self)@,
            res_view(r) == spec_eval(old(self)@, expr@),
        decreases *expr, 2int,
    {
        match self.cmp_children(expr) {
            Err(e) => Err(e),
            Ok(None) => Ok(Datum::Null),
            Ok(Some(o)) => Ok(bool_to_datum(matches!(o, Ordering::Equal))),
        }
    }

    fn eval_ne(&mut self, expr: &Expr) -> (r: Result<Datum, Error>)
        requires
            expr@.tp is NE,
        ensures
            final(self)@ == old(self)@,
            res_view(r) == spec_eval(old(self)@, expr@),
        decreases *expr, 2int,
    {
        match self.cmp_children(expr) {
            Err(e) => Err(e),
            Ok(None) => Ok(Datum::Null),
            Ok(Some(o)) => Ok(bool_to_datum(!matches!(o, Ordering::Equal))),
        }
    }

    fn eval_ge(&mut self, expr: &Expr) -> (r: Result<Datum, Error>)
        requires
            expr@.tp is GE,
        ensures
            final(self)@ == old(self)@,
            res_view(r) == spec_eval(old(self)@, expr@),
        decreases *expr, 2int,
    {
        match self.cmp_children(expr) {
            Err(e) => Err(e),
            Ok(None) => Ok(Datum::Null),
            Ok(Some(o)) => Ok(bool_to_datum(!matches!(o, Ordering::Less))),
        }
    }

    fn eval_gt(&mut self, expr: &Expr) -> (r: Result<Datum, Error>)
        requires
            expr@.tp is GT,
        ensures
            final(self)@ == old(self)@,
            res_view(r) == spec_eval(old(self)@, expr@),
        decreases *expr, 2int,
    {
        match self.cmp_children(expr) {
            Err(e) => Err(e),
            Ok(None) => Ok(Datum::Null),
            Ok(Some(o)) => Ok(bool_to_datum(matches!(o, Ordering::Greater))),
        }
    }

    fn eval_null_eq(&mut self, expr: &Expr) -> (r: Result<Datum, Error>)
        requires
            expr@.tp is NullEQ,
        ensures
            final(self)@ == old(self)@,
            res_view(r) == spec_eval(old(self)@, expr@),
        decreases *expr, 2int,
    {
        let (left, right) = match self.eval_two_children(expr) {
            Ok(p) => p,
            Err(e) => return Err(e),
        };
        if left.is_null() && right.is_null() {
            return Ok(Datum::I64(1));
        }
        if left.is_null() || right.is_null() {
            return Ok(Datum::I64(0));
        }
        match left.cmp(&right) {
            Ok(o) => Ok(bool_to_datum(matches!(o, Ordering::Equal))),
            Err(e) => Err(e),
        }
    }

    fn cmp_children(&mut self, expr: &Expr) -> (r: Result<Option<Ordering>, Error>)
        ensures
            final(self)@ == old(self)@,
            r == spec_cmp_children(old(self)@, expr@),
        decreases *expr, 1int,
    {
        let (left, right) = match self.eval_two_children(expr) {
            Ok(p) => p,
            Err(e) => return Err(e),
        };
        if left.is_null() || right.is_null() {
            return Ok(None);
        }
        match left.cmp(&right) {
            Ok(o) => Ok(Some(o)),
            Err(e) => Err(e),
        }
    }

    fn eval_two_children(&mut self, expr: &Expr) -> (r: Result<(Datum, Datum), Error>)
        ensures
            final(self)@ == old(self)@,
            pair_view(r) == spec_eval_two(old(self)@, expr@),
        decreases *expr, 0int,
    {
        proof {
            lemma_exprs_view(expr.children@);
        }
        let l = expr.children.len();
        if l != 2 {
            return Err(Error::Arity { expected: 2, got: l });
        }
        proof {
            assert(decreases_to!(*expr => expr.children));
            assert(decreases_to!(expr.children => expr.children@));
            assert(decreases_to!(expr.children@ => expr.children@[0int]));
            assert(decreases_to!(expr.children@ => expr.children@[1int]));
        }
        let left = match self.eval(&expr.children[0]) {
            Ok(d) => d,
            Err(e) => return Err(e),
        };
        let right = match self.eval(&expr.children[1]) {
            Ok(d) => d,
            Err(e) => return Err(e),
        };
        Ok((left, right))
    }

    fn eval_and(&mut self, expr: &Expr) -> (r: Result<Datum, Error>)
        requires
            expr@.tp is And,
        ensures
            final(self)@ == old(self)@,
            res_view(r) == spec_eval(old(self)@, expr@),
        decreases *expr, 2int,
    {
        match self.eval_two_children_as_bool(expr) {
            Err(e) => Err(e),
            Ok((Some(true), Some(true))) => Ok(Datum::I64(1)),
            Ok((Some(false), _)) => Ok(Datum::I64(0)),
            Ok((_, Some(false))) => Ok(Datum::I64(0)),
            Ok(_) => Ok(Datum::Null),
        }
    }

    fn eval_or(&mut self, expr: &Expr) -> (r: Result<Datum, Error>)
        requires
            expr@.tp is Or,
        ensures
            final(self)@ == old(self)@,
            res_view(r) == spec_eval(old(self)@, expr@),
        decreases *expr, 2int,
    {
        match self.eval_two_children_as_bool(expr) {
            Err(e) => Err(e),
            Ok((Some(true), _)) => Ok(Datum::I64(1)),
            Ok((_, Some(true))) => Ok(Datum::I64(1)),
            Ok((Some(false), Some(false))) => Ok(Datum::I64(0)),
            Ok(_) => Ok(Datum::Null),
        }
    }

    fn eval_not(&mut self, expr: &Expr) -> (r: Result<Datum, Error>)
        requires
            expr@.tp is Not,
        ensures
            final(self)@ == old(self)@,
            res_view(r) == spec_eval(old(self)@, expr@),
        decreases *expr, 2int,
    {
        proof {
            lemma_exprs_view(expr.children@);
        }
        let children_cnt = expr.children.len();
        if children_cnt != 1 {
            return Err(Error::Arity { expected: 1, got: children_cnt });
        }
        proof {
            assert(decreases_to!(*expr => expr.children));
            assert(decreases_to!(expr.children => expr.children@));
            assert(decreases_to!(expr.children@ => expr.children@[0int]));
        }
        let d = match self.eval(&expr.children[0]) {
            Ok(d) => d,
            Err(e) => return Err(e),
        };
        if d.is_null() {
            return Ok(Datum::Null);
        }
        match d.into_bool() {
            Ok(b) => Ok(bool_to_datum(!b)),
            Err(e) => Err(e),
        }
    }

    fn eval_like(&mut self, expr: &Expr) -> (r: Result<Datum, Error>)
        requires
            expr@.tp is Like,
        ensures
            final(self)@ == old(self)@,
            res_view(r) == spec_eval(old(self)@, expr@),
        decreases *expr, 2int,
    {
        let (target, pattern) = match self.eval_two_children(expr) {
            Ok(p) => p,
            Err(e) => return Err(e),
        };
        if target.is_null() || pattern.is_null() {
            return Ok(Datum::Null);
        }
        let target_str = match target.into_string_bytes() {
            Ok(v) => v,
            Err(e) => return Err(e),
        };
        let pattern_str = match pattern.into_string_bytes() {
            Ok(v) => v,
            Err(e) => return Err(e),
        };
        let fold = text::contains_ascii_alpha(pattern_str.as_slice());
        let (t, p) = if fold {
            (text::to_lower(target_str.as_slice()), text::to_lower(pattern_str.as_slice()))
        } else {
            (target_str, pattern_str)
        };
        let len = p.len();
        if len > 0 && p[0] == 0x25 {
            if len >= 2 && p[len - 1] == 0x25 {
                Ok(bool_to_datum(text::contains(t.as_slice(), &p.as_slice()[1..len - 1])))
            } else {
                Ok(bool_to_datum(text::ends_with(t.as_slice(), &p.as_slice()[1..len])))
            }
        } else if len > 0 && p[len - 1] == 0x25 {
            Ok(bool_to_datum(text::starts_with(t.as_slice(), &p.as_slice()[0..len - 1])))
        } else {
            Ok(bool_to_datum(text::bytes_eq(t.as_slice(), p.as_slice())))
        }
    }

    fn eval_two_children_as_bool(&mut self, expr: &Expr) -> (r: Result<
        (Option<bool>, Option<bool>),
        Error,
    >)
        ensures
            final(self)@ == old(self)@,
            r == spec_two_bools(old(self)@, expr@),
        decreases *expr, 1int,
    {
        let (left, right) = match self.eval_two_children(expr) {
            Ok(p) => p,
            Err(e) => return Err(e),
        };
        let left_bool = match eval_into_bool(left) {
            Ok(b) => b,
            Err(e) => return Err(e),
        };
        let right_bool = match eval_into_bool(right) {
            Ok(b) => b,
            Err(e) => return Err(e),
        };
        Ok((left_bool, right_bool))
    }

    fn eval_in(&mut self, expr: &Expr) -> (r: Result<Datum, Error>)
        requires
            expr@.tp is In,
        ensures
            final(self)@ == old(self)@,
            res_view(r) == spec_eval(old(self)@, expr@),
        decreases *expr, 2int,
    {
        proof {
            lemma_exprs_view(expr.children@);
        }
        let cnt = expr.children.len();
        if cnt != 2 {
            return Err(Error::Arity { expected: 2, got: cnt });
        }
        proof {
            assert(decreases_to!(*expr => expr.children));
            assert(decreases_to!(expr.children => expr.children@));
            assert(decreases_to!(expr.children@ => expr.children@[0int]));
        }
        let target = match self.eval(&expr.children[0]) {
            Ok(d) => d,
            Err(e) => return Err(e),
        };
        if target.is_null() {
            return Ok(Datum::Null);
        }
        let value_list_expr = &expr.children[1];
        if !matches!(value_list_expr.tp, ExprType::ValueList) {
            return Err(Error::NotValueList);
        }
        let idx = match self.decode_value_list(&value_list_expr.val) {
            Ok(i) => i,
            Err(e) => return Err(e),
        };
        let decoded = &self.cached_value_list[idx].1;
        let found = match check_in(&target, decoded) {
            Ok(b) => b,
            Err(e) => return Err(e),
        };
        if found {
            return Ok(Datum::I64(1));
        }
        if decoded.len() > 0 && decoded[0].is_null() {
            return Ok(Datum::Null);
        }
        Ok(Datum::I64(0))
    }
}

/// Null propagation through comparisons: when both children of a plain
/// comparison node evaluate and either value is the null value, the node
/// evaluates to the null value.
pub proof fn lemma_cmp_null_propagation(
    row: Map<i64, DatumView>,
    e: ExprView,
    a: DatumView,
    b: DatumView,
)
    requires
        is_cmp_kind(e.tp),
        e.children.len() == 2,
        spec_eval(row, e.children[0]) == Ok::<DatumView, Error>(a),
        spec_eval(row, e.children[1]) == Ok::<DatumView, Error>(b),
        a is Null || b is Null,
    ensures
        spec_eval(row, e) == Ok::<DatumView, Error>(DatumView::Null),
{
    reveal_with_fuel(spec_eval, 3);
    assert(spec_eval_two(row, e) == Ok::<(DatumView, DatumView), Error>((a, b)));
    assert(spec_cmp_children(row, e) == Ok::<Option<Ordering>, Error>(None));
}

/// Null-safe equality is total: when both children evaluate and their
/// values are comparable (or a side is null), `NullEQ` answers zero or
/// one, never null, and two nulls are equal.
pub proof fn lemma_null_eq_totality(
    row: Map<i64, DatumView>,
    e: ExprView,
    a: DatumView,
    b: DatumView,
)
    requires
        e.tp is NullEQ,
        e.children.len() == 2,
        spec_eval(row, e.children[0]) == Ok::<DatumView, Error>(a),
        spec_eval(row, e.children[1]) == Ok::<DatumView, Error>(b),
        a is Null || b is Null || spec_cmp(a, b) is Ok,
    ensures
        spec_eval(row, e) == Ok::<DatumView, Error>(DatumView::I64(0)) || spec_eval(row, e)
            == Ok::<DatumView, Error>(DatumView::I64(1)),
        a is Null && b is Null ==> spec_eval(row, e) == Ok::<DatumView, Error>(DatumView::I64(1)),
{
    reveal_with_fuel(spec_eval, 3);
    assert(spec_eval_two(row, e) == Ok::<(DatumView, DatumView), Error>((a, b)));
    assert(spec_eval(row, e) == spec_null_eq_combine(Ok::<(DatumView, DatumView), Error>((a, b))));
}

/// The Kleene conjunction table: when both children of an `And` node
/// evaluate and both values coerce, the node returns the conjunction of
/// the two truth values — true only with two truths, false as soon as a
/// side is false, unknown otherwise.
pub proof fn lemma_kleene_and(
    row: Map<i64, DatumView>,
    e: ExprView,
    a: DatumView,
    b: DatumView,
    ba: Option<bool>,
    bb: Option<bool>,
)
    requires
        e.tp is And,
        e.children.len() == 2,
        spec_eval(row, e.children[0]) == Ok::<DatumView, Error>(a),
        spec_eval(row, e.children[1]) == Ok::<DatumView, Error>(b),
        spec_bool3(a) == Ok::<Option<bool>, Error>(ba),
        spec_bool3(b) == Ok::<Option<bool>, Error>(bb),
    ensures
        spec_eval(row, e) == Ok::<DatumView, Error>(bool3_datum(spec_kleene_and(ba, bb))),
        ba == Some(true) && bb == Some(true) ==> spec_eval(row, e) == Ok::<DatumView, Error>(
            DatumView::I64(1),
        ),
        ba == Some(false) || bb == Some(false) ==> spec_eval(row, e) == Ok::<DatumView, Error>(
            DatumView::I64(0),
        ),
        (ba is None && bb != Some(false)) || (bb is None && ba != Some(false)) ==> spec_eval(
            row,
            e,
        ) == Ok::<DatumView, Error>(DatumView::Null),
{
    reveal_with_fuel(spec_eval, 3);
    assert(spec_eval_two(row, e) == Ok::<(DatumView, DatumView), Error>((a, b)));
    assert(spec_eval(row, e) == spec_logic_combine(e.tp, Ok::<(DatumView, DatumView), Error>((a, b))));
}

/// The Kleene disjunction table: when both children of an `Or` node
/// evaluate and both values coerce, the node returns the disjunction of
/// the two truth values — true as soon as a side is true, false only
/// with two falsities, unknown otherwise.
pub proof fn lemma_kleene_or(
    row: Map<i64, DatumView>,
    e: ExprView,
    a: DatumView,
    b: DatumView,
    ba: Option<bool>,
    bb: Option<bool>,
)
    requires
        e.tp is Or,
        e.children.len() == 2,
        spec_eval(row, e.children[0]) == Ok::<DatumView, Error>(a),
        spec_eval(row, e.children[1]) == Ok::<DatumView, Error>(b),
        spec_bool3(a) == Ok::<Option<bool>, Error>(ba),
        spec_bool3(b) == Ok::<Option<bool>, Error>(bb),
    ensures
        spec_eval(row, e) == Ok::<DatumView, Error>(bool3_datum(spec_kleene_or(ba, bb))),
        ba == Some(true) || bb == Some(true) ==> spec_eval(row, e) == Ok::<DatumView, Error>(
            DatumView::I64(1),
        ),
        ba == Some(false) && bb == Some(false) ==> spec_eval(row, e) == Ok::<DatumView, Error>(
            DatumView::I64(0),
        ),
        (ba is None && bb != Some(true)) || (bb is None && ba != Some(true)) ==> spec_eval(row, e)
            == Ok::<DatumView, Error>(DatumView::Null),
{
    reveal_with_fuel(spec_eval, 3);
    assert(spec_eval_two(row, e) == Ok::<(DatumView, DatumView), Error>((a, b)));
    assert(spec_eval(row, e) == spec_logic_combine(e.tp, Ok::<(DatumView, DatumView), Error>((a, b))));
}

/// Comparison antisymmetry: a `LT` node and a `GT` node over the same
/// two operands in swapped order agree, and so do `LE` and `GE`.
pub proof fn lemma_comparison_antisymmetry(
    row: Map<i64, DatumView>,
    e1: ExprView,
    e2: ExprView,
    a: DatumView,
    b: DatumView,
)
    requires
        (e1.tp is LT && e2.tp is GT) || (e1.tp is LE && e2.tp is GE),
        e1.children.len() == 2,
        e2.children.len() == 2,
        e2.children[0] == e1.children[1],
        e2.children[1] == e1.children[0],
        spec_eval(row, e1.children[0]) == Ok::<DatumView, Error>(a),
        spec_eval(row, e1.children[1]) == Ok::<DatumView, Error>(b),
    ensures
        spec_eval(row, e1) == spec_eval(row, e2),
{
    reveal_with_fuel(spec_eval, 3);
    crate::datum::lemma_cmp_antisym(a, b);
    assert(spec_eval_two(row, e1) == Ok::<(DatumView, DatumView), Error>((a, b)));
    assert(spec_eval_two(row, e2) == Ok::<(DatumView, DatumView), Error>((b, a)));
}

/// Whether every element of a decoded list sorts at or before every
/// later one, under the datum order.
pub open spec fn list_sorted(l: Seq<DatumView>) -> bool {
    forall|i: int, j: int|
        0 <= i < j < l.len() ==> (#[trigger] spec_cmp(l[i], l[j])) == Ok::<Ordering, Error>(
            Ordering::Less,
        ) || spec_cmp(l[i], l[j]) == Ok::<Ordering, Error>(Ordering::Equal)
}

/// Whether a list holds the null value anywhere.
pub open spec fn list_has_null(l: Seq<DatumView>) -> bool {
    exists|i: int| 0 <= i < l.len() && (#[trigger] l[i]) is Null
}

/// Whether every element of a list compares against the target without
/// error, with outcomes that never step back along the list.  This is
/// what a binary search needs of its probes; a list sorted in one class
/// (see [`lemma_sorted_integers_monotone`]) provides it.
pub open spec fn cmp_monotone(l: Seq<DatumView>, t: DatumView) -> bool {
    &&& forall|i: int| 0 <= i < l.len() ==> (#[trigger] spec_cmp(l[i], t)) is Ok
    &&& forall|i: int, j: int|
        0 <= i < j < l.len() ==> crate::datum::ord_rank((#[trigger] spec_cmp(l[i], t))->Ok_0)
            <= crate::datum::ord_rank((#[trigger] spec_cmp(l[j], t))->Ok_0)
}

/// A binary search over monotone probes finds a match exactly when one
/// exists, provided everything left of the range probes low and
/// everything right of it probes high.
proof fn lemma_bsearch_complete(l: Seq<DatumView>, t: DatumView, lo: int, hi: int)
    requires
        0 <= lo <= hi <= l.len(),
        cmp_monotone(l, t),
        forall|i: int| 0 <= i < lo ==> (#[trigger] spec_cmp(l[i], t))->Ok_0 is Less,
        forall|i: int| hi <= i < l.len() ==> (#[trigger] spec_cmp(l[i], t))->Ok_0 is Greater,
    ensures
        spec_bsearch(l, t, lo, hi) == Ok::<bool, Error>(
            exists|k: int|
                0 <= k < l.len() && (#[trigger] spec_cmp(l[k], t)) == Ok::<Ordering, Error>(
                    Ordering::Equal,
                ),
        ),
    decreases hi - lo,
{
    if lo >= hi {
        assert forall|k: int| 0 <= k < l.len() implies (#[trigger] spec_cmp(l[k], t))
            != Ok::<Ordering, Error>(Ordering::Equal) by {
            if k < lo {
                assert(spec_cmp(l[k], t)->Ok_0 is Less);
            } else {
                assert(spec_cmp(l[k], t)->Ok_0 is Greater);
            }
        }
    } else {
        let mid = lo + (hi - lo) / 2;
        assert(spec_cmp(l[mid], t) is Ok);
        let o = spec_cmp(l[mid], t)->Ok_0;
        if o is Less {
            assert forall|i: int| 0 <= i < mid + 1 implies (#[trigger] spec_cmp(l[i], t))->Ok_0
                is Less by {
                if lo <= i < mid {
                    assert(crate::datum::ord_rank(spec_cmp(l[i], t)->Ok_0)
                        <= crate::datum::ord_rank(spec_cmp(l[mid], t)->Ok_0));
                }
            }
            lemma_bsearch_complete(l, t, mid + 1, hi);
        } else if o is Greater {
            assert forall|i: int| mid <= i < l.len() implies (#[trigger] spec_cmp(l[i], t))->Ok_0
                is Greater by {
                if mid < i < hi {
                    assert(crate::datum::ord_rank(spec_cmp(l[mid], t)->Ok_0)
                        <= crate::datum::ord_rank(spec_cmp(l[i], t)->Ok_0));
                }
            }
            lemma_bsearch_complete(l, t, lo, mid);
        } else {
            assert(spec_cmp(l[mid], t) == Ok::<Ordering, Error>(Ordering::Equal));
        }
    }
}

/// A sorted list whose elements are integers or null probes monotonely
/// against an integer target.
pub proof fn lemma_sorted_integers_monotone(l: Seq<DatumView>, t: DatumView)
    requires
        list_sorted(l),
        t is I64 || t is U64,
        forall|i: int|
            0 <= i < l.len() ==> (#[trigger] l[i]) is Null || l[i] is I64 || l[i] is U64,
    ensures
        cmp_monotone(l, t),
{
    assert forall|i: int, j: int| 0 <= i < j < l.len() implies crate::datum::ord_rank(
        (#[trigger] spec_cmp(l[i], t))->Ok_0,
    ) <= crate::datum::ord_rank((#[trigger] spec_cmp(l[j], t))->Ok_0) by {
        assert(spec_cmp(l[i], l[j]) == Ok::<Ordering, Error>(Ordering::Less) || spec_cmp(
            l[i],
            l[j],
        ) == Ok::<Ordering, Error>(Ordering::Equal));
    }
}

/// A sorted list whose elements are byte strings or null probes
/// monotonely against a byte-string target.
pub proof fn lemma_sorted_bytes_monotone(l: Seq<DatumView>, t: DatumView)
    requires
        list_sorted(l),
        t is Bytes,
        forall|i: int| 0 <= i < l.len() ==> (#[trigger] l[i]) is Null || l[i] is Bytes,
    ensures
        cmp_monotone(l, t),
{
    assert forall|i: int, j: int| 0 <= i < j < l.len() implies crate::datum::ord_rank(
        (#[trigger] spec_cmp(l[i], t))->Ok_0,
    ) <= crate::datum::ord_rank((#[trigger] spec_cmp(l[j], t))->Ok_0) by {
        assert(spec_cmp(l[i], l[j]) == Ok::<Ordering, Error>(Ordering::Less) || spec_cmp(
            l[i],
            l[j],
        ) == Ok::<Ordering, Error>(Ordering::Equal));
        if l[i] is Bytes && l[j] is Bytes {
            crate::datum::lemma_cmp_bytes_rank_trans(l[i]->Bytes_0, l[j]->Bytes_0, t->Bytes_0);
        }
    }
}

/// Membership monotonicity of `In` over a sorted, comparable list: a
/// present target answers one; an absent target answers zero when the
/// list holds no null, and unknown when it does.
pub proof fn lemma_in_monotonicity(
    row: Map<i64, DatumView>,
    e: ExprView,
    t: DatumView,
    l: Seq<DatumView>,
)
    requires
        e.tp is In,
        e.children.len() == 2,
        spec_eval(row, e.children[0]) == Ok::<DatumView, Error>(t),
        !(t is Null),
        e.children[1].tp is ValueList,
        codec::spec_decode_datums(e.children[1].val) == Ok::<Seq<DatumView>, Error>(l),
        list_sorted(l),
        cmp_monotone(l, t),
    ensures
        (exists|k: int|
            0 <= k < l.len() && (#[trigger] spec_cmp(l[k], t)) == Ok::<Ordering, Error>(
                Ordering::Equal,
            )) ==> spec_eval(row, e) == Ok::<DatumView, Error>(DatumView::I64(1)),
        !(exists|k: int|
            0 <= k < l.len() && (#[trigger] spec_cmp(l[k], t)) == Ok::<Ordering, Error>(
                Ordering::Equal,
            )) && !list_has_null(l) ==> spec_eval(row, e) == Ok::<DatumView, Error>(
            DatumView::I64(0),
        ),
        !(exists|k: int|
            0 <= k < l.len() && (#[trigger] spec_cmp(l[k], t)) == Ok::<Ordering, Error>(
                Ordering::Equal,
            )) && list_has_null(l) ==> spec_eval(row, e) == Ok::<DatumView, Error>(
            DatumView::Null,
        ),
{
    reveal_with_fuel(spec_eval, 2);
    lemma_bsearch_complete(l, t, 0, l.len() as int);
    if list_has_null(l) {
        let k = choose|k: int| 0 <= k < l.len() && (#[trigger] l[k]) is Null;
        if k > 0 {
            assert(spec_cmp(l[0], l[k]) == Ok::<Ordering, Error>(Ordering::Less) || spec_cmp(
                l[0],
                l[k],
            ) == Ok::<Ordering, Error>(Ordering::Equal));
            assert(l[0] is Null);
        }
    }
}

/// An integer literal recovered: evaluating an `Int64` node whose
/// payload carries a value big-endian yields exactly that value.
pub proof fn lemma_int_literal_round_trip(row: Map<i64, DatumView>, v: i64, e: ExprView)
    requires
        e.tp is Int64,
        e.val.len() == 8,
        codec::be_value(e.val) == (v as u64) as nat,
    ensures
        spec_eval(row, e) == Ok::<DatumView, Error>(DatumView::I64(v)),
{
    reveal_with_fuel(spec_eval, 2);
    codec::lemma_i64_round_trip(v);
}

/// An unsigned integer literal recovered the same way.
pub proof fn lemma_uint_literal_round_trip(row: Map<i64, DatumView>, v: u64, e: ExprView)
    requires
        e.tp is Uint64,
        e.val.len() == 8,
        codec::be_value(e.val) == v as nat,
    ensures
        spec_eval(row, e) == Ok::<DatumView, Error>(DatumView::U64(v)),
{
    reveal_with_fuel(spec_eval, 2);
}

impl Default for Evaluator {
    /// The same as [`Evaluator::new`].
    fn default() -> (r: Evaluator)
        ensures
            r@ == Map::<i64, DatumView>::empty(),
    {
        Evaluator::new()
    }
}

} // verus!
