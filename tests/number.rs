use choreo_flip::number::{reflect, Decimal};

fn d(s: &str) -> Decimal {
    Decimal::parse(s).unwrap()
}

#[test]
fn parse_reads_sign_digits_and_scale() {
    let x = d("-12.050");
    assert!(x.negative);
    assert_eq!(x.magnitude, 12050);
    assert_eq!(x.scale, 3);
    let y = d("7");
    assert!(!y.negative);
    assert_eq!((y.magnitude, y.scale), (7, 0));
}

#[test]
fn parse_rejects_other_forms() {
    for t in ["", "-", ".5", "5.", "1e5", "1.2.3", "+1", "a", "1-", "--1"] {
        assert!(Decimal::parse(t).is_none(), "{}", t);
    }
}

#[test]
fn parse_rejects_numbers_beyond_128_bits() {
    let big = "1".repeat(40);
    assert!(Decimal::parse(&big).is_none());
    let fits = "3".repeat(38);
    assert!(Decimal::parse(&fits).is_some());
}

#[test]
fn text_is_shortest_plain_form() {
    assert_eq!(d("16.548250").to_text(), "16.54825");
    assert_eq!(d("3.000").to_text(), "3");
    assert_eq!(d("-0.05").to_text(), "-0.05");
    assert_eq!(d("-0").to_text(), "-0");
    assert_eq!(d("0.0000001").to_text(), "0.0000001");
    assert_eq!(d("120").to_text(), "120");
}

#[test]
fn negation_keeps_zero_positive() {
    assert_eq!(d("0").negated().to_text(), "0");
    assert_eq!(d("-0").negated().to_text(), "0");
    assert!(!d("-0.0").negated().negative);
    assert_eq!(d("1.5").negated().to_text(), "-1.5");
    assert_eq!(d("-1.5").negated().to_text(), "1.5");
}

#[test]
fn reflection_is_exact() {
    let axis = d("8.051902");
    assert_eq!(reflect(axis, d("2")).unwrap().to_text(), "6.051902");
    assert_eq!(reflect(axis, d("-1.25")).unwrap().to_text(), "9.301902");
    assert_eq!(reflect(axis, d("10")).unwrap().to_text(), "-1.948098");
    assert_eq!(reflect(axis, d("8.051902")).unwrap().to_text(), "0");
    assert_eq!(reflect(axis, d("0.1")).unwrap().to_text(), "7.951902");
}

#[test]
fn reflection_twice_restores_value() {
    let axis = d("17.54825");
    for t in ["1", "0.000000000123", "-3.5", "20", "17.54825"] {
        let once = reflect(axis, d(t)).unwrap();
        let twice = reflect(axis, once).unwrap();
        assert_eq!(twice.to_text(), d(t).to_text());
    }
}

#[test]
fn reflection_that_does_not_fit_is_refused() {
    let axis = d("17.54825");
    let tiny = Decimal { negative: false, magnitude: 1, scale: 60 };
    assert!(reflect(axis, tiny).is_none());
}


#[test]
fn reflection_across_a_negative_axis() {
    let axis = d("-2.5");
    assert_eq!(reflect(axis, d("1")).unwrap().to_text(), "-3.5");
    assert_eq!(reflect(axis, d("-4")).unwrap().to_text(), "1.5");
    assert_eq!(reflect(axis, d("-1")).unwrap().to_text(), "-1.5");
    assert_eq!(reflect(axis, d("-2.5")).unwrap().to_text(), "0");
}
