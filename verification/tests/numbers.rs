use cecile_vm::number;

fn samples() -> Vec<f64> {
    vec![
        0.0,
        -0.0,
        1.0,
        -1.0,
        0.5,
        1.5,
        -1.5,
        100.0,
        1e300,
        -1e300,
        f64::MIN_POSITIVE,
        5e-324,
        -5e-324,
        f64::MAX,
        f64::INFINITY,
        f64::NEG_INFINITY,
        f64::NAN,
        -f64::NAN,
        9007199254740993.0,
        4503599627370497.5,
        18446744073709551615.0,
        18446744073709549568.0,
    ]
}

#[test]
fn comparisons_are_those_of_doubles() {
    for a in samples() {
        for b in samples() {
            let (x, y) = (a.to_bits(), b.to_bits());
            assert_eq!(number::eq(x, y), a == b, "{} == {}", a, b);
            assert_eq!(number::lt(x, y), a < b, "{} < {}", a, b);
            assert_eq!(number::le(x, y), a <= b, "{} <= {}", a, b);
        }
    }
}

#[test]
fn negation_is_that_of_doubles() {
    for a in samples() {
        assert_eq!(number::neg(a.to_bits()), (-a).to_bits(), "-{}", a);
    }
    assert_eq!(number::neg(1.0f64.to_bits()), 0xbff0_0000_0000_0000);
}

#[test]
fn an_index_is_the_whole_part() {
    for a in samples() {
        assert_eq!(number::to_index(a.to_bits()), a as usize, "{}", a);
    }
    for n in 0..2000usize {
        assert_eq!(number::to_index((n as f64 + 0.75).to_bits()), n);
    }
    for shift in 0..64 {
        let n = 1u64 << shift;
        assert_eq!(number::to_index((n as f64).to_bits()), n as usize);
    }
}

#[test]
fn a_count_is_the_nearest_double() {
    let mut counts: Vec<u64> = (0..2000).collect();
    for shift in 0..64 {
        let n = 1u64 << shift;
        for near in [n.wrapping_sub(2), n.wrapping_sub(1), n, n.wrapping_add(1), n + n / 2] {
            counts.push(near);
        }
    }
    for low in 0..16u64 {
        counts.push(0x20_0000_0000_0000 + low);
        counts.push(0x40_0000_0000_0000 + low);
        counts.push(u64::MAX - low * 0x100);
    }
    for n in counts {
        assert_eq!(number::from_count(n), (n as f64).to_bits(), "{}", n);
    }
}

#[test]
fn a_count_comes_back_as_an_index() {
    for n in [0u64, 1, 100, 0xffff_ffff, 0x20_0000_0000_0000] {
        assert_eq!(number::to_index(number::from_count(n)), n as usize);
    }
}
