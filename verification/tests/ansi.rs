//! Stripping of ANSI escape sequences and control characters.
use command_stream::ansi::{AnsiConfig, AnsiUtils};

#[test]
fn ansi_test_strip_ansi() {
    let text = "\x1b[31mRed text\x1b[0m";
    assert_eq!(AnsiUtils::strip_ansi(text), "Red text");
}

#[test]
fn test_strip_ansi_multiple_codes() {
    let text = "\x1b[1m\x1b[32mBold Green\x1b[0m Normal";
    assert_eq!(AnsiUtils::strip_ansi(text), "Bold Green Normal");
}

#[test]
fn test_strip_ansi_basic() {
    let text = "\x1b[31mRed text\x1b[0m";
    assert_eq!(AnsiUtils::strip_ansi(text), "Red text");
}

#[test]
fn test_strip_ansi_multiple() {
    let text = "\x1b[1m\x1b[31mBold Red\x1b[0m normal";
    assert_eq!(AnsiUtils::strip_ansi(text), "Bold Red normal");
}

#[test]
fn test_strip_ansi_no_sequences() {
    let text = "plain text";
    assert_eq!(AnsiUtils::strip_ansi(text), "plain text");
}

#[test]
fn test_strip_ansi_unfinished_sequence_kept() {
    let text = "a\x1b[12";
    assert_eq!(AnsiUtils::strip_ansi(text), "a\x1b[12");
}

#[test]
fn ansi_test_strip_control_chars() {
    let text = "Hello\x00World\nNew line\tTab";
    assert_eq!(
        AnsiUtils::strip_control_chars(text),
        "HelloWorld\nNew line\tTab"
    );
}

#[test]
fn test_strip_control_chars_preserves_whitespace() {
    let text = "Line1\nLine2\r\nLine3\tTabbed";
    assert_eq!(
        AnsiUtils::strip_control_chars(text),
        "Line1\nLine2\r\nLine3\tTabbed"
    );
}

#[test]
fn test_strip_control_chars_basic() {
    let text = "Hello\x00World";
    assert_eq!(AnsiUtils::strip_control_chars(text), "HelloWorld");
}

#[test]
fn test_strip_control_chars_preserve_newline() {
    let text = "Line1\nLine2";
    assert_eq!(AnsiUtils::strip_control_chars(text), "Line1\nLine2");
}

#[test]
fn test_strip_control_chars_preserve_tab() {
    let text = "Col1\tCol2";
    assert_eq!(AnsiUtils::strip_control_chars(text), "Col1\tCol2");
}

#[test]
fn test_strip_control_chars_preserve_carriage_return() {
    let text = "Line1\r\nLine2";
    assert_eq!(AnsiUtils::strip_control_chars(text), "Line1\r\nLine2");
}

#[test]
fn ansi_test_strip_all() {
    let text = "\x1b[31mRed\x00text\x1b[0m";
    assert_eq!(AnsiUtils::strip_all(text), "Redtext");
}

#[test]
fn test_clean_for_processing() {
    let text = "\x1b[31mRed\x00text\x1b[0m\nNewline";
    assert_eq!(AnsiUtils::clean_for_processing(text), "Redtext\nNewline");
}

#[test]
fn ansi_test_ansi_config_default() {
    let config = AnsiConfig::default();
    assert!(config.preserve_ansi);
    assert!(config.preserve_control_chars);
    let text = "\x1b[31mRed\x00text\x1b[0m";
    assert_eq!(config.process_output(text), text);
}

#[test]
fn test_ansi_config_strip_all() {
    let config = AnsiConfig::strip_all();
    let text = "\x1b[31mRed\x00text\x1b[0m";
    assert_eq!(config.process_output(text), "Redtext");
}

#[test]
fn test_ansi_config_strip_ansi_only() {
    let config = AnsiConfig {
        preserve_ansi: false,
        preserve_control_chars: true,
    };
    let text = "\x1b[31mRed text\x1b[0m";
    assert_eq!(config.process_output(text), "Red text");
}

#[test]
fn test_ansi_config_strip_control_only() {
    let config = AnsiConfig {
        preserve_ansi: true,
        preserve_control_chars: false,
    };
    let text = "Hello\x00World";
    assert_eq!(config.process_output(text), "HelloWorld");
}

#[test]
fn test_ansi_config_process_preserve_all() {
    let config = AnsiConfig {
        preserve_ansi: true,
        preserve_control_chars: true,
    };
    let text = "\x1b[31mRed\x00text\x1b[0m";
    assert_eq!(config.process_output(text), text);
}

#[test]
fn test_ansi_config_process_strip_ansi_only() {
    let config = AnsiConfig {
        preserve_ansi: false,
        preserve_control_chars: true,
    };
    let text = "\x1b[31mRed text\x1b[0m";
    assert_eq!(config.process_output(text), "Red text");
}

#[test]
fn test_ansi_config_process_strip_control_only() {
    let config = AnsiConfig {
        preserve_ansi: true,
        preserve_control_chars: false,
    };
    let text = "Hello\x00World\nNewline";
    assert_eq!(config.process_output(text), "HelloWorld\nNewline");
}

#[test]
fn test_ansi_config_process_strip_all() {
    let config = AnsiConfig {
        preserve_ansi: false,
        preserve_control_chars: false,
    };
    let text = "\x1b[31mRed\x00text\x1b[0m";
    assert_eq!(config.process_output(text), "Redtext");
}
