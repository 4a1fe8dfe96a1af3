use commit_miner::score::{ge, total_key};

fn values() -> Vec<f64> {
    vec![
        0.0, -0.0, 1.0, -1.0, 0.5, 0.9, 0.95, 1e-310, -1e-310, f64::MIN_POSITIVE, f64::MAX,
        f64::MIN, f64::INFINITY, f64::NEG_INFINITY, f64::NAN, -f64::NAN, 0.1 + 0.2, 0.3,
    ]
}

#[test]
fn comparisons_follow_the_float_operators() {
    for a in values() {
        for b in values() {
            assert_eq!(ge(a.to_bits(), b.to_bits()), a >= b, "{a} >= {b}");
        }
    }
}

#[test]
fn keys_follow_the_total_order() {
    for a in values() {
        for b in values() {
            assert_eq!(total_key(a.to_bits()).cmp(&total_key(b.to_bits())), a.total_cmp(&b), "{a} {b}");
        }
    }
}
