use prsm::display::PrsmDisplay;

#[test]
fn usize_renders_in_decimal() {
    assert_eq!(0usize.render(), "0");
    assert_eq!(7usize.render(), "7");
    assert_eq!(10usize.render(), "10");
    assert_eq!(12345usize.render(), "12345");
}

#[test]
fn str_and_string_render_as_themselves() {
    assert_eq!("failed".render(), "failed");
    assert_eq!(String::from("reflect back").render(), "reflect back");
    assert_eq!("".render(), "");
}

#[test]
fn success_value_is_discarded() {
    let r: Result<usize, &'static str> = Ok(200);
    assert!(matches!(prsm::script::normalize(r), Ok(())));
}

#[test]
fn failure_keeps_its_rendering() {
    let r: Result<(), usize> = Err(41);
    assert!(matches!(prsm::script::normalize(r), Err(e) if e == "41"));
}
