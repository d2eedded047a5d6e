use truth::float32::F32;

const SAMPLES: &[f32] = &[
    0.0,
    -0.0,
    1.0,
    -1.0,
    0.5,
    1.5,
    -2.75,
    1e-40,
    16777216.0,
    16777217.0,
    2147483520.0,
    2147483648.0,
    -2147483648.0,
    -3e9,
    1e30,
    f32::INFINITY,
    f32::NEG_INFINITY,
    f32::NAN,
    8388607.5,
];

#[test]
fn conversion_to_integers() {
    for x in SAMPLES {
        let n = F32::from_bits(x.to_bits());
        assert_eq!(n.to_bits(), x.to_bits());
        assert_eq!(n.to_i32(), *x as i32, "{}", x);
    }
}

#[test]
fn whole_numbers() {
    for x in SAMPLES {
        let n = F32::from_bits(x.to_bits());
        let whole = *x == x.trunc() || x.is_infinite();
        assert_eq!(n.is_integral(), whole, "{}", x);
    }
}

#[test]
fn conversion_from_integers() {
    let samples = [
        0,
        1,
        -1,
        7,
        16777215,
        16777216,
        16777217,
        16777219,
        -16777217,
        33554431,
        2147483647,
        -2147483648,
        123456789,
        -987654321,
    ];
    for n in samples {
        assert_eq!(F32::from_i32(n).to_bits(), (n as f32).to_bits(), "{}", n);
    }
}

#[test]
fn small_integers_survive() {
    for n in -2000..2000 {
        assert_eq!(F32::from_i32(n).to_i32(), n);
        assert!(F32::from_i32(n).is_integral());
    }
}
