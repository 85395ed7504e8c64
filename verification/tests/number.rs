use rlox::number::{
    count_number, negate, numbers_equal, numbers_less, whole_index, whole_part,
};

const VALUES: [f64; 17] = [
    0.0,
    -0.0,
    1.0,
    -1.0,
    1.5,
    -2.5,
    0.1,
    3.0,
    1e300,
    -1e300,
    f64::MIN_POSITIVE,
    5e-324,
    f64::INFINITY,
    f64::NEG_INFINITY,
    f64::NAN,
    9007199254740993.0,
    18446744073709549568.0,
];

#[test]
fn comparisons_and_negation_are_those_of_floats() {
    for a in VALUES {
        for b in VALUES {
            assert_eq!(numbers_less(a.to_bits(), b.to_bits()), a < b, "{a} < {b}");
            assert_eq!(numbers_equal(a.to_bits(), b.to_bits()), a == b, "{a} == {b}");
        }
        assert_eq!(negate(a.to_bits()), (-a).to_bits());
    }
}

#[test]
fn whole_parts_are_those_of_casts() {
    for a in VALUES {
        assert_eq!(whole_part(a.to_bits()), a.abs() as u64, "{a}");
    }
}

#[test]
fn indexes_are_whole_numbers_below_the_length() {
    for n in [0usize, 1, 2, 3, 100, 4095] {
        assert_eq!(whole_index((n as f64).to_bits(), 4096), Some(n));
        assert_eq!(whole_index((n as f64).to_bits(), n), None);
    }
    assert_eq!(whole_index((-0.0f64).to_bits(), 1), Some(0));
    for a in [-1.0, 0.5, 1.5, f64::NAN, f64::INFINITY, 1e300] {
        assert_eq!(whole_index(a.to_bits(), usize::MAX), None, "{a}");
    }
}

#[test]
fn counts_are_exact() {
    for n in [0u64, 1, 2, 3, 10, 255, 65_537, (1 << 53) - 1] {
        assert_eq!(count_number(n), Some((n as f64).to_bits()), "{n}");
    }
    assert_eq!(count_number(1 << 53), None);
}
