use dnp3_master::analog::AnalogValue;

#[test]
fn comparison_agrees_with_f64() {
    let samples = [
        0.0f64,
        -0.0,
        1.0,
        -1.0,
        7.5,
        f64::MIN_POSITIVE,
        f64::MAX,
        f64::INFINITY,
        f64::NEG_INFINITY,
        f64::NAN,
        -f64::NAN,
    ];
    for a in samples {
        for b in samples {
            let x = AnalogValue::from_bits(a.to_bits());
            let y = AnalogValue::from_bits(b.to_bits());
            assert_eq!(x.same_value(y), a == b);
        }
        assert_eq!(AnalogValue::from_bits(a.to_bits()).is_nan(), a.is_nan());
    }
}
