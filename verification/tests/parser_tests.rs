use zsh_history_to_fish::parser::parse_line;

#[test]
fn timestamped_line_is_parsed() {
    let e = parse_line(": 1700000000:0;echo hi").unwrap();
    assert_eq!(e.cmd, "echo hi");
    assert_eq!(e.when, 1700000000);
}

#[test]
fn colons_in_command_are_preserved() {
    let e = parse_line(": 1700000000:0;echo a:b;c").unwrap();
    assert_eq!(e.cmd, "echo a:b;c");
    assert_eq!(e.when, 1700000000);
}

#[test]
fn bad_timestamp_falls_back_to_plain() {
    let e = parse_line(": notdigits:0;echo hi").unwrap();
    assert_eq!(e.cmd, ": notdigits:0;echo hi");
    assert_eq!(e.when, 0);
}

#[test]
fn plain_line_gets_zero_timestamp() {
    let e = parse_line("ls -la").unwrap();
    assert_eq!(e.cmd, "ls -la");
    assert_eq!(e.when, 0);
}

#[test]
fn continuation_line_is_skipped() {
    assert!(parse_line("echo foo \\").is_none());
}

#[test]
fn timestamp_without_zero_semicolon_prefix() {
    let e = parse_line(": 123:restart").unwrap();
    assert_eq!(e.cmd, "restart");
    assert_eq!(e.when, 123);
}

#[test]
fn empty_command_after_zero_semicolon_keeps_it() {
    // With nothing after "0;", the anchored pattern can only match by
    // treating "0;" itself as the command.
    let e = parse_line(": 123:0;").unwrap();
    assert_eq!(e.cmd, "0;");
    assert_eq!(e.when, 123);
}

#[test]
fn surrounding_whitespace_is_trimmed() {
    let e = parse_line("  spaced out  \t").unwrap();
    assert_eq!(e.cmd, "spaced out");
    assert_eq!(e.when, 0);
}

#[test]
fn empty_line_yields_empty_command() {
    let e = parse_line("").unwrap();
    assert_eq!(e.cmd, "");
    assert_eq!(e.when, 0);
}

#[test]
fn largest_timestamp_is_accepted() {
    let e = parse_line(": 9223372036854775807:0;x").unwrap();
    assert_eq!(e.cmd, "x");
    assert_eq!(e.when, i64::MAX);
}

#[test]
fn overflowing_timestamp_falls_back_to_plain() {
    let e = parse_line(": 9223372036854775808:0;x").unwrap();
    assert_eq!(e.cmd, ": 9223372036854775808:0;x");
    assert_eq!(e.when, 0);
}

#[test]
fn missing_digits_fall_back_to_plain() {
    let e = parse_line(": :0;x").unwrap();
    assert_eq!(e.cmd, ": :0;x");
    assert_eq!(e.when, 0);
}
