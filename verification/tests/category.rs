use emnist_loader::category::{decode_predictions, DecodeError, Score};

/// Reduces a floating-point score to a `Score`: a non-finite value can
/// never win, and finite values get keys whose u64 order matches the
/// order of the floats (the usual monotone encoding of IEEE bits).
fn score(x: f64) -> Score {
    if x.is_finite() {
        let b = x.to_bits();
        let k = if x.is_sign_negative() { !b } else { b | 0x8000_0000_0000_0000 };
        Score::Finite(k)
    } else {
        Score::NonFinite
    }
}

fn rows(vals: &[&[f64]]) -> Vec<Vec<Score>> {
    vals.iter().map(|r| r.iter().map(|&x| score(x)).collect()).collect()
}

#[test]
fn tie_goes_to_the_first_column() {
    let scores = rows(&[&[0.1, 0.9, 0.9]]);
    for _ in 0..3 {
        assert_eq!(decode_predictions(&scores).unwrap(), vec![1]);
    }
}

#[test]
fn mixed_magnitudes() {
    let scores = rows(&[&[-5.0, 3.2, 0.0], &[2.0, 1.0, 9.0]]);
    assert_eq!(decode_predictions(&scores).unwrap(), vec![1, 2]);
}

#[test]
fn empty_batch_decodes_to_nothing() {
    let scores: Vec<Vec<Score>> = Vec::new();
    assert_eq!(decode_predictions(&scores).unwrap(), Vec::<u8>::new());
}

#[test]
fn empty_row_is_an_error() {
    let scores: Vec<Vec<Score>> = vec![Vec::new()];
    assert_eq!(decode_predictions(&scores).unwrap_err(), DecodeError::EmptyRow);
}

#[test]
fn all_nan_row_is_an_error() {
    let scores = rows(&[&[f64::NAN, f64::NAN]]);
    assert_eq!(decode_predictions(&scores).unwrap_err(), DecodeError::NoFiniteScore);
}

#[test]
fn nan_never_wins() {
    let scores = rows(&[&[f64::NAN, 1.0], &[2.0, f64::NAN, -1.0]]);
    assert_eq!(decode_predictions(&scores).unwrap(), vec![1, 0]);
}

#[test]
fn infinities_never_win() {
    let scores = rows(&[&[f64::INFINITY, 2.0, f64::NEG_INFINITY]]);
    assert_eq!(decode_predictions(&scores).unwrap(), vec![1]);
}

#[test]
fn negative_scores_order_correctly() {
    let scores = rows(&[&[-2.0, -1.0], &[-1.0, -3.0], &[-0.0, 0.5]]);
    assert_eq!(decode_predictions(&scores).unwrap(), vec![1, 0, 1]);
}

#[test]
fn first_failing_row_decides_the_error() {
    let scores = vec![Vec::new(), vec![Score::NonFinite]];
    assert_eq!(decode_predictions(&scores).unwrap_err(), DecodeError::EmptyRow);
    let scores = vec![vec![Score::NonFinite], Vec::new()];
    assert_eq!(decode_predictions(&scores).unwrap_err(), DecodeError::NoFiniteScore);
}
