use disturbar::cli::{parse_mode, Mode};

#[test]
fn parse_mode_defaults_to_ui() {
    let result = parse_mode(Vec::<String>::new());
    assert!(matches!(result, Ok(Mode::Ui)));
}

#[test]
fn parse_mode_accepts_input_backend_flag() {
    let result = parse_mode(vec!["--input-backend".to_string()]);
    assert!(matches!(result, Ok(Mode::InputBackend)));
}

#[test]
fn parse_mode_rejects_unknown_args() {
    let result = parse_mode(vec!["--wat".to_string()]);
    assert!(matches!(result, Err(msg) if msg == "usage: disturbar [--input-backend]"));
}

#[test]
fn parse_mode_rejects_extra_args() {
    let result = parse_mode(vec!["--input-backend".to_string(), "extra".to_string()]);
    assert!(matches!(result, Err(msg) if msg == "usage: disturbar [--input-backend]"));
}

#[test]
fn parse_mode_rejects_flag_after_other_argument() {
    let result = parse_mode(vec!["extra".to_string(), "--input-backend".to_string()]);
    assert!(matches!(result, Err(msg) if msg == "usage: disturbar [--input-backend]"));
}
