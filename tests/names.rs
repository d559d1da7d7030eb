use choreo_flip::names::output_name_valid;

#[test]
fn ordinary_names_are_valid() {
    assert!(output_name_valid("Blue2"));
    assert!(output_name_valid("left side"));
    assert!(output_name_valid("COM"));
    assert!(output_name_valid("COM10"));
    assert!(output_name_valid("con"));
    assert!(output_name_valid("LPT0"));
}

#[test]
fn empty_name_is_invalid() {
    assert!(!output_name_valid(""));
}

#[test]
fn forbidden_characters_are_invalid() {
    for n in ["a.b", "a<b", "a>b", "a:b", "a\"b", "a/b", "a|b", "a?b", "a*b", "."] {
        assert!(!output_name_valid(n), "{}", n);
    }
}

#[test]
fn device_names_are_invalid() {
    for n in ["CON", "PRN", "AUX", "NUL", "COM1", "COM9", "LPT1", "LPT9"] {
        assert!(!output_name_valid(n), "{}", n);
    }
}
