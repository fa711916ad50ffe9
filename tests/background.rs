use spheres::background::Background;

#[test]
fn background_names_ignore_case_and_space() {
    assert_eq!(Background::from_arg_value("  Black "), Ok(Background::Black));
    assert_eq!(Background::from_arg_value("BLUE_gradient"), Ok(Background::BlueGradient));
    assert_eq!(Background::from_arg_value("Blue Gradient\n"), Ok(Background::BlueGradient));
    assert_eq!(Background::from_arg_value("bluegradient"), Ok(Background::BlueGradient));
}

#[test]
fn background_unknown_name_is_refused() {
    assert_eq!(
        Background::from_arg_value("red"),
        Err(String::from("invalid value for background function"))
    );
    assert_eq!(
        Background::from_arg_value("blue  gradient"),
        Err(String::from("invalid value for background function"))
    );
    assert!(Background::from_arg_value("").is_err());
}

#[test]
fn background_from_name_keeps_inner_space() {
    assert_eq!(Background::from_name("BLACK"), Some(Background::Black));
    assert_eq!(Background::from_name(" black"), None);
    assert_eq!(Background::from_name("blacK"), Some(Background::Black));
    assert_eq!(Background::from_name("ÄBLACK"), None);
}
