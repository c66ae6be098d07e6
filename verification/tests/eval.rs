use std::cmp::Ordering;

use xeval::codec;
use xeval::datum::Datum;
use xeval::evaluator::Evaluator;
use xeval::expr::{Expr, ExprType};

fn datum_expr(datum: Datum) -> Expr {
    match datum {
        Datum::I64(i) => Expr { tp: ExprType::Int64, children: vec![], val: codec::encode_i64(i) },
        Datum::U64(u) => Expr { tp: ExprType::Uint64, children: vec![], val: codec::encode_u64(u) },
        Datum::Bytes(bs) => Expr { tp: ExprType::Bytes, children: vec![], val: bs },
        _ => Expr { tp: ExprType::Null, children: vec![], val: vec![] },
    }
}

fn col_expr(col_id: i64) -> Expr {
    Expr { tp: ExprType::ColumnRef, children: vec![], val: codec::encode_i64(col_id) }
}

fn bin_expr(left: Datum, right: Datum, tp: ExprType) -> Expr {
    bin_expr_r(datum_expr(left), datum_expr(right), tp)
}

fn bin_expr_r(left: Expr, right: Expr, tp: ExprType) -> Expr {
    Expr { tp, children: vec![left, right], val: vec![] }
}

fn not_expr(value: Datum) -> Expr {
    Expr { tp: ExprType::Not, children: vec![datum_expr(value)], val: vec![] }
}

fn like_expr(target: &'static str, pattern: &'static str) -> Expr {
    let target_expr = datum_expr(Datum::Bytes(target.as_bytes().to_vec()));
    let pattern_expr = datum_expr(Datum::Bytes(pattern.as_bytes().to_vec()));
    Expr { tp: ExprType::Like, children: vec![target_expr, pattern_expr], val: vec![] }
}

#[test]
fn test_eval() {
    let tests = vec![
        (datum_expr(Datum::I64(1)), Datum::I64(1)),
        (datum_expr(Datum::U64(1)), Datum::U64(1)),
        (datum_expr(Datum::Bytes(b"abc".to_vec())), Datum::Bytes(b"abc".to_vec())),
        (datum_expr(Datum::Null), Datum::Null),
        (col_expr(1), Datum::I64(100)),
        (bin_expr(Datum::I64(100), Datum::I64(1), ExprType::LT), Datum::I64(0)),
        (bin_expr(Datum::I64(1), Datum::I64(100), ExprType::LT), Datum::I64(1)),
        (bin_expr(Datum::I64(100), Datum::Null, ExprType::LT), Datum::Null),
        (bin_expr(Datum::I64(100), Datum::I64(1), ExprType::LE), Datum::I64(0)),
        (bin_expr(Datum::I64(1), Datum::I64(1), ExprType::LE), Datum::I64(1)),
        (bin_expr(Datum::I64(100), Datum::Null, ExprType::LE), Datum::Null),
        (bin_expr(Datum::I64(100), Datum::I64(1), ExprType::EQ), Datum::I64(0)),
        (bin_expr(Datum::I64(100), Datum::I64(100), ExprType::EQ), Datum::I64(1)),
        (bin_expr(Datum::I64(100), Datum::Null, ExprType::EQ), Datum::Null),
        (bin_expr(Datum::I64(100), Datum::I64(100), ExprType::NE), Datum::I64(0)),
        (bin_expr(Datum::I64(100), Datum::I64(1), ExprType::NE), Datum::I64(1)),
        (bin_expr(Datum::I64(100), Datum::Null, ExprType::NE), Datum::Null),
        (bin_expr(Datum::I64(1), Datum::I64(100), ExprType::GE), Datum::I64(0)),
        (bin_expr(Datum::I64(100), Datum::I64(100), ExprType::GE), Datum::I64(1)),
        (bin_expr(Datum::I64(100), Datum::Null, ExprType::GE), Datum::Null),
        (bin_expr(Datum::I64(100), Datum::I64(100), ExprType::GT), Datum::I64(0)),
        (bin_expr(Datum::I64(100), Datum::I64(1), ExprType::GT), Datum::I64(1)),
        (bin_expr(Datum::I64(100), Datum::Null, ExprType::GT), Datum::Null),
        (bin_expr(Datum::I64(1), Datum::Null, ExprType::NullEQ), Datum::I64(0)),
        (bin_expr(Datum::Null, Datum::Null, ExprType::NullEQ), Datum::I64(1)),
        // logic operation
        (bin_expr(Datum::I64(0), Datum::I64(1), ExprType::And), Datum::I64(0)),
        (bin_expr(Datum::I64(1), Datum::I64(1), ExprType::And), Datum::I64(1)),
        (bin_expr(Datum::I64(1), Datum::Null, ExprType::And), Datum::Null),
        (bin_expr(Datum::Null, Datum::I64(0), ExprType::And), Datum::I64(0)),
        (bin_expr(Datum::Null, Datum::Null, ExprType::And), Datum::Null),
        (bin_expr(Datum::I64(0), Datum::I64(0), ExprType::Or), Datum::I64(0)),
        (bin_expr(Datum::I64(0), Datum::I64(1), ExprType::Or), Datum::I64(1)),
        (bin_expr(Datum::I64(1), Datum::Null, ExprType::Or), Datum::I64(1)),
        (bin_expr(Datum::Null, Datum::Null, ExprType::Or), Datum::Null),
        (bin_expr(Datum::Null, Datum::I64(0), ExprType::Or), Datum::Null),
        (
            bin_expr_r(
                bin_expr(Datum::I64(1), Datum::I64(1), ExprType::EQ),
                bin_expr(Datum::I64(1), Datum::I64(1), ExprType::EQ),
                ExprType::And,
            ),
            Datum::I64(1),
        ),
        (not_expr(Datum::I64(1)), Datum::I64(0)),
        (not_expr(Datum::I64(0)), Datum::I64(1)),
        (not_expr(Datum::Null), Datum::Null),
        // like operation
        (like_expr("a", ""), Datum::I64(0)),
        (like_expr("a", "a"), Datum::I64(1)),
        (like_expr("a", "b"), Datum::I64(0)),
        (like_expr("aAb", "AaB"), Datum::I64(1)),
        (like_expr("a", "%"), Datum::I64(1)),
        (like_expr("aAD", "%d"), Datum::I64(1)),
        (like_expr("aAeD", "%e"), Datum::I64(0)),
        (like_expr("aAb", "Aa%"), Datum::I64(1)),
        (like_expr("abAb", "Aa%"), Datum::I64(0)),
        (like_expr("aAcb", "%C%"), Datum::I64(1)),
        (like_expr("aAb", "%C%"), Datum::I64(0)),
    ];

    let mut xevaluator = Evaluator::default();
    xevaluator.set_column(1, Datum::I64(100));
    for (expr, result) in tests {
        let res = xevaluator.eval(&expr);
        if res.is_err() {
            panic!("failed to eval {:?}: {:?}", expr, res);
        }
        let res = res.unwrap();
        if res != result {
            panic!("failed to eval {:?} expect {:?}, got {:?}", expr, result, res);
        }
    }
}

fn sort_datums(list: &mut Vec<Datum>) {
    let mut i = 1;
    while i < list.len() {
        let mut j = i;
        while j > 0 && list[j - 1].cmp(&list[j]).unwrap() == Ordering::Greater {
            list.swap(j - 1, j);
            j -= 1;
        }
        i += 1;
    }
}

fn in_expr(target: Datum, mut list: Vec<Datum>) -> Expr {
    let target_expr = datum_expr(target);
    sort_datums(&mut list);
    let val = codec::encode_datums(&list).unwrap();
    let list_expr = Expr { tp: ExprType::ValueList, children: vec![], val };
    Expr { tp: ExprType::In, children: vec![target_expr, list_expr], val: vec![] }
}

#[test]
fn test_where_in() {
    let cases = vec![
        (in_expr(Datum::I64(1), vec![Datum::I64(1), Datum::I64(2)]), Datum::I64(1)),
        (in_expr(Datum::I64(1), vec![Datum::I64(2), Datum::Null]), Datum::Null),
        (in_expr(Datum::Null, vec![Datum::I64(1), Datum::Null]), Datum::Null),
        (in_expr(Datum::I64(2), vec![Datum::I64(1), Datum::Null]), Datum::Null),
        (in_expr(Datum::I64(2), vec![]), Datum::I64(0)),
        (
            in_expr(
                Datum::Bytes(b"abc".to_vec()),
                vec![Datum::Bytes(b"abc".to_vec()), Datum::Bytes(b"ab".to_vec())],
            ),
            Datum::I64(1),
        ),
        (
            in_expr(
                Datum::Bytes(b"abc".to_vec()),
                vec![Datum::Bytes(b"aba".to_vec()), Datum::Bytes(b"bab".to_vec())],
            ),
            Datum::I64(0),
        ),
    ];

    let mut eval = Evaluator::default();
    for (expr, expect_res) in cases {
        let res = eval.eval(&expr);
        if res.is_err() {
            panic!("failed to execute {:?}: {:?}", expr, res);
        }
        let res = res.unwrap();
        if res != expect_res {
            panic!("wrong result {:?}, expect {:?} while executing {:?}", res, expect_res, expr);
        }
    }
}
