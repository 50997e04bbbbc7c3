use zsh_history_to_fish::Entry;

#[test]
fn render_has_two_lines_and_no_trailing_punctuation() {
    let e = Entry { cmd: String::from("echo hi"), when: 1700000000 };
    assert_eq!(e.render(), "- cmd: echo hi\n  when: 1700000000");
}

#[test]
fn render_zero_timestamp() {
    let e = Entry { cmd: String::from("ls"), when: 0 };
    assert_eq!(e.render(), "- cmd: ls\n  when: 0");
}

#[test]
fn render_negative_timestamp() {
    let e = Entry { cmd: String::from("x"), when: -42 };
    assert_eq!(e.render(), "- cmd: x\n  when: -42");
}

#[test]
fn render_extreme_timestamps() {
    let e = Entry { cmd: String::from("x"), when: i64::MAX };
    assert_eq!(e.render(), "- cmd: x\n  when: 9223372036854775807");
    let e = Entry { cmd: String::from("x"), when: i64::MIN };
    assert_eq!(e.render(), "- cmd: x\n  when: -9223372036854775808");
}

#[test]
fn render_empty_command() {
    let e = Entry { cmd: String::new(), when: 5 };
    assert_eq!(e.render(), "- cmd: \n  when: 5");
}
