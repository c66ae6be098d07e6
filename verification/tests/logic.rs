use xeval::codec::{encode_datums, encode_i64};
use xeval::datum::Datum;
use xeval::error::{Error, ErrorKind};
use xeval::evaluator::Evaluator;
use xeval::expr::{Expr, ExprType};

fn datum_expr(datum: Datum) -> Expr {
    match datum {
        Datum::I64(i) => Expr { tp: ExprType::Int64, children: vec![], val: encode_i64(i) },
        Datum::U64(u) => {
            Expr { tp: ExprType::Uint64, children: vec![], val: xeval::codec::encode_u64(u) }
        }
        Datum::Bytes(bs) => Expr { tp: ExprType::Bytes, children: vec![], val: bs },
        _ => Expr { tp: ExprType::Null, children: vec![], val: vec![] },
    }
}

fn bin_expr(left: Datum, right: Datum, tp: ExprType) -> Expr {
    Expr { tp, children: vec![datum_expr(left), datum_expr(right)], val: vec![] }
}

fn eval_one(expr: &Expr) -> Result<Datum, Error> {
    let mut ev = Evaluator::new();
    ev.eval(expr)
}

// the three truth values, as datums
fn tv(i: usize) -> Datum {
    match i {
        0 => Datum::I64(0),
        1 => Datum::I64(1),
        _ => Datum::Null,
    }
}

#[test]
fn test_kleene_and_table() {
    // rows and columns run false, true, unknown
    let expected = [
        [tv(0), tv(0), tv(0)],
        [tv(0), tv(1), tv(2)],
        [tv(0), tv(2), tv(2)],
    ];
    for a in 0..3 {
        for b in 0..3 {
            let r = eval_one(&bin_expr(tv(a), tv(b), ExprType::And)).unwrap();
            assert_eq!(r, expected[a][b], "And({:?}, {:?})", tv(a), tv(b));
        }
    }
}

#[test]
fn test_kleene_or_table() {
    let expected = [
        [tv(0), tv(1), tv(2)],
        [tv(1), tv(1), tv(1)],
        [tv(2), tv(1), tv(2)],
    ];
    for a in 0..3 {
        for b in 0..3 {
            let r = eval_one(&bin_expr(tv(a), tv(b), ExprType::Or)).unwrap();
            assert_eq!(r, expected[a][b], "Or({:?}, {:?})", tv(a), tv(b));
        }
    }
}

#[test]
fn test_comparison_null_propagation() {
    let ops = [ExprType::LT, ExprType::LE, ExprType::EQ, ExprType::NE, ExprType::GE, ExprType::GT];
    for op in ops {
        let left = eval_one(&bin_expr(Datum::I64(7), Datum::Null, op)).unwrap();
        let right = eval_one(&bin_expr(Datum::Null, Datum::I64(7), op)).unwrap();
        assert_eq!(left, Datum::Null);
        assert_eq!(right, Datum::Null);
    }
}

#[test]
fn test_null_eq_totality() {
    assert_eq!(eval_one(&bin_expr(Datum::Null, Datum::Null, ExprType::NullEQ)).unwrap(), Datum::I64(1));
    assert_eq!(eval_one(&bin_expr(Datum::I64(1), Datum::Null, ExprType::NullEQ)).unwrap(), Datum::I64(0));
    assert_eq!(eval_one(&bin_expr(Datum::Null, Datum::I64(1), ExprType::NullEQ)).unwrap(), Datum::I64(0));
    assert_eq!(eval_one(&bin_expr(Datum::I64(1), Datum::I64(1), ExprType::NullEQ)).unwrap(), Datum::I64(1));
    assert_eq!(eval_one(&bin_expr(Datum::I64(1), Datum::U64(2), ExprType::NullEQ)).unwrap(), Datum::I64(0));
}

#[test]
fn test_comparison_antisymmetry() {
    let pairs = [
        (Datum::I64(1), Datum::I64(2)),
        (Datum::I64(2), Datum::I64(2)),
        (Datum::U64(3), Datum::I64(-4)),
        (Datum::Bytes(b"ab".to_vec()), Datum::Bytes(b"b".to_vec())),
    ];
    for (a, b) in pairs {
        let lt = eval_one(&bin_expr(a.clone(), b.clone(), ExprType::LT)).unwrap();
        let gt = eval_one(&bin_expr(b.clone(), a.clone(), ExprType::GT)).unwrap();
        assert_eq!(lt, gt);
        let le = eval_one(&bin_expr(a.clone(), b.clone(), ExprType::LE)).unwrap();
        let ge = eval_one(&bin_expr(b.clone(), a.clone(), ExprType::GE)).unwrap();
        assert_eq!(le, ge);
    }
}

fn in_expr_sorted(target: Datum, list: Vec<Datum>) -> Expr {
    // the caller passes the list already sorted in the datum order
    let val = encode_datums(&list).unwrap();
    let list_expr = Expr { tp: ExprType::ValueList, children: vec![], val };
    Expr { tp: ExprType::In, children: vec![datum_expr(target), list_expr], val: vec![] }
}

#[test]
fn test_in_monotonicity() {
    // present target answers one
    let e = in_expr_sorted(Datum::I64(3), vec![Datum::I64(1), Datum::I64(3), Datum::I64(9)]);
    assert_eq!(eval_one(&e).unwrap(), Datum::I64(1));
    // absent target, no null: zero
    let e = in_expr_sorted(Datum::I64(4), vec![Datum::I64(1), Datum::I64(3), Datum::I64(9)]);
    assert_eq!(eval_one(&e).unwrap(), Datum::I64(0));
    // absent target, null present: unknown
    let e = in_expr_sorted(Datum::I64(4), vec![Datum::Null, Datum::I64(1), Datum::I64(3)]);
    assert_eq!(eval_one(&e).unwrap(), Datum::Null);
    // present target wins even with a null in the list
    let e = in_expr_sorted(Datum::I64(3), vec![Datum::Null, Datum::I64(1), Datum::I64(3)]);
    assert_eq!(eval_one(&e).unwrap(), Datum::I64(1));
}

#[test]
fn test_int_literal_round_trip() {
    for v in [0i64, 1, -1, i64::MIN, i64::MAX] {
        assert_eq!(eval_one(&datum_expr(Datum::I64(v))).unwrap(), Datum::I64(v));
    }
    for v in [0u64, 1, u64::MAX] {
        assert_eq!(eval_one(&datum_expr(Datum::U64(v))).unwrap(), Datum::U64(v));
    }
}

#[test]
fn test_cache_stability() {
    // one evaluator, the same In tree evaluated many times, against a
    // fresh evaluator each round: the cached and the fresh decode agree
    let e = in_expr_sorted(Datum::I64(3), vec![Datum::Null, Datum::I64(1), Datum::I64(3)]);
    let mut cached = Evaluator::new();
    for _ in 0..5 {
        let fresh = eval_one(&e).unwrap();
        assert_eq!(cached.eval(&e).unwrap(), fresh);
    }
    // two distinct trees with equal payloads behave alike too
    let twin = in_expr_sorted(Datum::I64(3), vec![Datum::Null, Datum::I64(1), Datum::I64(3)]);
    assert_eq!(cached.eval(&twin).unwrap(), Datum::I64(1));
}

#[test]
fn test_column_ref() {
    let mut ev = Evaluator::new();
    ev.set_column(1, Datum::I64(100));
    let hit = Expr { tp: ExprType::ColumnRef, children: vec![], val: encode_i64(1) };
    assert_eq!(ev.eval(&hit).unwrap(), Datum::I64(100));
    let miss = Expr { tp: ExprType::ColumnRef, children: vec![], val: encode_i64(2) };
    let err = ev.eval(&miss).unwrap_err();
    assert_eq!(err, Error::ColumnNotFound(2));
    assert_eq!(err.kind(), ErrorKind::Eval);
    // rebinding replaces the value
    ev.set_column(1, Datum::I64(7));
    assert_eq!(ev.eval(&hit).unwrap(), Datum::I64(7));
    assert_eq!(ev.get_column(1), Some(&Datum::I64(7)));
    assert_eq!(ev.get_column(2), None);
}

#[test]
fn test_structural_errors() {
    let lone = Expr {
        tp: ExprType::And,
        children: vec![datum_expr(Datum::I64(1))],
        val: vec![],
    };
    assert_eq!(eval_one(&lone).unwrap_err(), Error::Arity { expected: 2, got: 1 });

    let crowded = Expr {
        tp: ExprType::Not,
        children: vec![datum_expr(Datum::I64(1)), datum_expr(Datum::I64(2))],
        val: vec![],
    };
    assert_eq!(eval_one(&crowded).unwrap_err(), Error::Arity { expected: 1, got: 2 });

    let not_list = Expr {
        tp: ExprType::In,
        children: vec![datum_expr(Datum::I64(1)), datum_expr(Datum::I64(2))],
        val: vec![],
    };
    let err = eval_one(&not_list).unwrap_err();
    assert_eq!(err, Error::NotValueList);
    assert_eq!(err.kind(), ErrorKind::Expr);

    let short_literal = Expr { tp: ExprType::Int64, children: vec![], val: vec![1, 2, 3] };
    assert_eq!(eval_one(&short_literal).unwrap_err(), Error::InvalidLength);
}

#[test]
fn test_in_decode_errors() {
    let list_expr = Expr { tp: ExprType::ValueList, children: vec![], val: vec![1u8, 0] };
    let e = Expr {
        tp: ExprType::In,
        children: vec![datum_expr(Datum::I64(1)), list_expr],
        val: vec![],
    };
    assert_eq!(eval_one(&e).unwrap_err(), Error::Truncated);
}

#[test]
fn test_coercion_errors() {
    // a non-numeric byte string cannot meet an integer
    let e = bin_expr(Datum::I64(1), Datum::Bytes(b"x".to_vec()), ExprType::LT);
    assert_eq!(eval_one(&e).unwrap_err(), Error::InvalidNumber);
    // And coerces both sides even when the left already decides
    let e = bin_expr(Datum::I64(0), Datum::Bytes(b"x".to_vec()), ExprType::And);
    assert_eq!(eval_one(&e).unwrap_err(), Error::InvalidNumber);
    // Like wants strings
    let e = bin_expr(Datum::I64(1), Datum::Bytes(b"%".to_vec()), ExprType::Like);
    let err = eval_one(&e).unwrap_err();
    assert_eq!(err, Error::NotString);
    assert_eq!(err.kind(), ErrorKind::Eval);
    // and valid UTF-8
    let e = bin_expr(
        Datum::Bytes(vec![0xff, 0xfe]),
        Datum::Bytes(b"%".to_vec()),
        ExprType::Like,
    );
    assert_eq!(eval_one(&e).unwrap_err(), Error::InvalidUtf8);
}

#[test]
fn test_float_literals_rejected() {
    let e = Expr { tp: ExprType::Float32, children: vec![], val: vec![] };
    assert_eq!(eval_one(&e).unwrap_err(), Error::Unimplemented);
    let e = Expr { tp: ExprType::Float64, children: vec![], val: vec![] };
    assert_eq!(eval_one(&e).unwrap_err(), Error::Unimplemented);
}

#[test]
fn test_lenient_kinds() {
    // a kind outside the supported set evaluates to the null value
    let e = Expr { tp: ExprType::Unknown, children: vec![], val: vec![7, 7] };
    assert_eq!(eval_one(&e).unwrap(), Datum::Null);
    // so does a bare value list
    let e = Expr { tp: ExprType::ValueList, children: vec![], val: vec![] };
    assert_eq!(eval_one(&e).unwrap(), Datum::Null);
}

#[test]
fn test_like_numeric_pattern_stays_exact() {
    // a pattern without letters folds nothing: the match is byte-exact
    let e = bin_expr(
        Datum::Bytes(b"12A".to_vec()),
        Datum::Bytes(b"12%".to_vec()),
        ExprType::Like,
    );
    assert_eq!(eval_one(&e).unwrap(), Datum::I64(1));
    let e = bin_expr(
        Datum::Bytes(b"12a".to_vec()),
        Datum::Bytes(b"12A%".to_vec()),
        ExprType::Like,
    );
    assert_eq!(eval_one(&e).unwrap(), Datum::I64(1));
    // null on either side of Like is unknown
    let e = Expr {
        tp: ExprType::Like,
        children: vec![datum_expr(Datum::Null), datum_expr(Datum::Bytes(b"%".to_vec()))],
        val: vec![],
    };
    assert_eq!(eval_one(&e).unwrap(), Datum::Null);
}
