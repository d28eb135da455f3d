use rps_network::fx::ONE;
use rps_network::scalar::{exp_neg, tanh_fx};
use rps_network::softmax::softmax;

#[test]
fn softmax_of_equal_logits_is_uniform() {
    // Three equal logits: each share is ONE / 3 == 21845, and the rounding
    // remainder of 1 goes to the first maximal entry.
    let p = softmax(&vec![0, 0, 0]);
    assert_eq!(p, vec![21846, 21845, 21845]);
    let q = softmax(&vec![12345, 12345, 12345]);
    assert_eq!(q, vec![21846, 21845, 21845]);
}

#[test]
fn softmax_sums_to_one() {
    for logits in [
        vec![0],
        vec![ONE, 0],
        vec![-ONE, ONE, 3 * ONE],
        vec![1000000, -1000000, 0, 65536],
        vec![7, 7, 7, 7, 7],
    ] {
        let p = softmax(&logits);
        assert_eq!(p.iter().sum::<i64>(), ONE);
        assert!(p.iter().all(|v| *v >= 0 && *v <= ONE));
    }
}

#[test]
fn softmax_is_shift_invariant() {
    let base = vec![3 * ONE, -2 * ONE, ONE / 2, 0];
    let p = softmax(&base);
    for shift in [-5 * ONE, -1, 1, ONE, 123456] {
        let shifted: Vec<i64> = base.iter().map(|v| v + shift).collect();
        assert_eq!(softmax(&shifted), p);
    }
}

#[test]
fn softmax_prefers_the_largest_logit() {
    let p = softmax(&vec![0, 2 * ONE, -ONE]);
    assert!(p[1] > p[0]);
    assert!(p[0] > p[2]);
}

#[test]
fn exp_neg_endpoints() {
    assert_eq!(exp_neg(0), ONE);
    // Far below the cutoff the exponential flushes to zero.
    assert_eq!(exp_neg(-100 * ONE), 0);
    // exp(-1) is about 0.3679; the fixed-point value is within 0.5% of it.
    let e1 = exp_neg(-ONE);
    assert!((24000..24250).contains(&e1));
    // Monotone on a few sample points.
    assert!(exp_neg(-ONE / 2) > e1);
    assert!(e1 > exp_neg(-2 * ONE));
}

#[test]
fn tanh_is_odd_and_bounded() {
    assert_eq!(tanh_fx(0), 0);
    for x in [1, 100, ONE / 2, ONE, 3 * ONE, 20 * ONE] {
        let t = tanh_fx(x);
        assert_eq!(tanh_fx(-x), -t);
        assert!(t >= 0 && t <= ONE);
    }
    // tanh(1) is about 0.7616; the fixed-point value is close.
    let t1 = tanh_fx(ONE);
    assert!((49500..50350).contains(&t1));
    // Saturation far from zero.
    assert_eq!(tanh_fx(20 * ONE), ONE);
}
