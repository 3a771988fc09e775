use chat_relay::text::{
    chat_line, frame_line, is_own_line, join_line, leave_line, render_decimal, strip_line,
};

#[test]
fn decimal_of_zero() {
    assert_eq!(render_decimal(0), "0");
}

#[test]
fn decimal_of_several_digits() {
    assert_eq!(render_decimal(1234), "1234");
    assert_eq!(render_decimal(10), "10");
}

#[test]
fn decimal_of_largest() {
    assert_eq!(render_decimal(u64::MAX), "18446744073709551615");
}

#[test]
fn strip_removes_trailing_newline() {
    assert_eq!(strip_line("hello\n"), "hello");
}

#[test]
fn strip_keeps_line_without_newline() {
    assert_eq!(strip_line("hello"), "hello");
    assert_eq!(strip_line(""), "");
}

#[test]
fn strip_removes_only_one_delimiter() {
    assert_eq!(strip_line("a\n\n"), "a\n");
    assert_eq!(strip_line("\n"), "");
}

#[test]
fn frame_appends_newline() {
    assert_eq!(frame_line("x"), "x\n");
    assert_eq!(frame_line(""), "\n");
}

#[test]
fn chat_line_format() {
    assert_eq!(chat_line(3, "hello\n"), "Client #3: hello");
    assert_eq!(chat_line(12, "  spaced  \n"), "Client #12:   spaced  ");
}

#[test]
fn chat_line_non_ascii() {
    assert_eq!(chat_line(7, "héllo wörld\n"), "Client #7: héllo wörld");
}

#[test]
fn join_line_format() {
    assert_eq!(join_line(2), ">>> Client #2 has joined the chat!");
}

#[test]
fn leave_line_format() {
    assert_eq!(leave_line(2), "<<< Client #2 has left the chat.");
}

#[test]
fn own_lines_are_recognised() {
    assert!(is_own_line(1, ">>> Client #1 has joined the chat!"));
    assert!(is_own_line(1, "Client #1: hi"));
    assert!(is_own_line(1, "Client #1: "));
}

#[test]
fn lines_of_others_are_not_own() {
    assert!(!is_own_line(1, "Client #12: hi"));
    assert!(!is_own_line(1, "Client #2: Client #1: hi"));
    assert!(!is_own_line(1, ">>> Client #2 has joined the chat!"));
    assert!(!is_own_line(1, "<<< Client #1 has left the chat."));
    assert!(!is_own_line(1, "Client"));
    assert!(!is_own_line(1, ""));
}
