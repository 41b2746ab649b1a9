use kerf::arith::{int_fold, Fold};

fn ints(v: &[i64]) -> Vec<Option<i64>> {
    v.iter().map(|x| Some(*x)).collect()
}

#[test]
fn empty_arguments_use_the_identities() {
    assert_eq!(int_fold(Fold::Add, &vec![], "+", 0), Ok(0));
    assert_eq!(int_fold(Fold::Mul, &vec![], "*", 0), Ok(1));
    assert_eq!(int_fold(Fold::Sub, &vec![], "-", 1), Err("- 至少需要 1 个参数".to_string()));
    assert_eq!(int_fold(Fold::Div, &ints(&[4]), "/", 2), Err("/ 至少需要 2 个参数".to_string()));
}

#[test]
fn unary_minus_negates() {
    assert_eq!(int_fold(Fold::Sub, &ints(&[5]), "-", 1), Ok(-5));
    assert_eq!(int_fold(Fold::Sub, &ints(&[i64::MIN]), "-", 1), Err("整数减法溢出".to_string()));
}

#[test]
fn folds_from_the_left_with_truncating_division() {
    assert_eq!(int_fold(Fold::Sub, &ints(&[10, 3, 2]), "-", 1), Ok(5));
    assert_eq!(int_fold(Fold::Div, &ints(&[-7, 2]), "/", 2), Ok(-3));
    assert_eq!(int_fold(Fold::Mod, &ints(&[-7, 2]), "mod", 2), Ok(-1));
    assert_eq!(int_fold(Fold::Mod, &ints(&[7, -2]), "mod", 2), Ok(1));
    assert_eq!(int_fold(Fold::Mul, &ints(&[2, 3, 4]), "*", 0), Ok(24));
}

#[test]
fn overflow_and_zero_divisors_are_errors() {
    assert_eq!(int_fold(Fold::Add, &ints(&[i64::MAX, 1]), "+", 0), Err("整数加法溢出".to_string()));
    assert_eq!(int_fold(Fold::Sub, &ints(&[i64::MIN, 1]), "-", 1), Err("整数减法溢出".to_string()));
    assert_eq!(int_fold(Fold::Mul, &ints(&[i64::MAX, 2]), "*", 0), Err("整数乘法溢出".to_string()));
    assert_eq!(int_fold(Fold::Div, &ints(&[1, 0]), "/", 2), Err("整数除零".to_string()));
    assert_eq!(int_fold(Fold::Div, &ints(&[i64::MIN, -1]), "/", 2), Err("整数除法溢出".to_string()));
    assert_eq!(int_fold(Fold::Mod, &ints(&[1, 0]), "mod", 2), Err("整数取模除零".to_string()));
    assert_eq!(int_fold(Fold::Mod, &ints(&[i64::MIN, -1]), "mod", 2), Err("整数取模溢出".to_string()));
}

#[test]
fn a_non_integer_stops_the_fold_where_it_stands() {
    assert_eq!(int_fold(Fold::Add, &vec![Some(1), None], "+", 0), Err("+ 需要 int".to_string()));
    assert_eq!(int_fold(Fold::Add, &vec![Some(i64::MAX), Some(1), None], "+", 0), Err("整数加法溢出".to_string()));
    assert_eq!(int_fold(Fold::Sub, &vec![None], "-", 1), Err("- 需要 int".to_string()));
}
