use smol::format::{bold, error};

#[test]
fn error_is_bold_bright_red() {
    assert_eq!(error("error"), "\x1b[1;91merror\x1b[0m");
}

#[test]
fn bold_wraps_text() {
    assert_eq!(bold("main"), "\x1b[1mmain\x1b[0m");
    assert_eq!(bold(""), "\x1b[1m\x1b[0m");
}
