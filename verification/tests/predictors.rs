use jpegxl_decode::predictors::{ch_zero, median3, Predictor};

#[test]
fn median_basic() {
    assert_eq!(median3(1, 2, 3), 2);
    assert_eq!(median3(3, 1, 2), 2);
    assert_eq!(median3(2, 2, 2), 2);
    assert_eq!(median3(-1, 5, 3), 3);
    assert_eq!(median3(10, 0, -5), 0);
}

#[test]
fn ch_zero_unsigned_channel() {
    assert_eq!(ch_zero(0, 255), 0);
}

#[test]
fn ch_zero_strictly_positive_channel() {
    assert_eq!(ch_zero(5, 100), 5);
}

#[test]
fn ch_zero_strictly_negative_channel() {
    assert_eq!(ch_zero(-100, -5), -5);
}

#[test]
fn ch_zero_straddles_zero() {
    assert_eq!(ch_zero(-128, 127), 0);
}

#[test]
fn predict_zero_returns_ch_zero() {
    assert_eq!(Predictor::Zero.predict(50, 60, 40, 7), 7);
}

#[test]
fn predict_left_top_obvious() {
    assert_eq!(Predictor::Left.predict(11, 22, 33, 0), 11);
    assert_eq!(Predictor::Top.predict(11, 22, 33, 0), 22);
}

#[test]
fn predict_average_rounds_floor() {
    assert_eq!(Predictor::Average.predict(3, 8, 0, 0), 5);
    assert_eq!(Predictor::Average.predict(-1, -3, 0, 0), -2);
}

#[test]
fn predict_gradient_clamps_via_median() {
    assert_eq!(Predictor::Gradient.predict(10, 20, 15, 0), 15);
    assert_eq!(Predictor::Gradient.predict(10, 20, 0, 0), 20);
    assert_eq!(Predictor::Gradient.predict(10, 20, 100, 0), 10);
}

#[test]
fn from_id_round_trips() {
    for (id, p) in [
        (0, Predictor::Zero),
        (1, Predictor::Average),
        (2, Predictor::Gradient),
        (3, Predictor::Left),
        (4, Predictor::Top),
    ] {
        assert_eq!(Predictor::from_id(id), Some(p));
    }
    assert_eq!(Predictor::from_id(5), None);
    assert_eq!(Predictor::from_id(99), None);
}

#[test]
fn gradient_prediction_lies_between_neighbours() {
    // The gradient prediction is clamped into [min(left, top), max(left, top)].
    for (l, t, tl) in [(0, 0, 0), (5, -5, 100), (-7, 3, -50), (1000, 2, 3)] {
        let p = Predictor::Gradient.predict(l, t, tl, 0);
        assert!(p >= l.min(t) && p <= l.max(t));
    }
}
