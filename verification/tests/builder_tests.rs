use zsh_history_to_fish::builder::build;
use zsh_history_to_fish::Converter;

#[test]
fn entries_come_out_in_source_order() {
    let entries = build(b": 1:0;a\nb\n: 2:0;c\n");
    assert_eq!(entries.len(), 3);
    assert_eq!(entries[0].cmd, "a");
    assert_eq!(entries[0].when, 1);
    assert_eq!(entries[1].cmd, "b");
    assert_eq!(entries[1].when, 0);
    assert_eq!(entries[2].cmd, "c");
    assert_eq!(entries[2].when, 2);
}

#[test]
fn empty_source_yields_no_entries() {
    let entries = build(b"");
    assert!(entries.is_empty());
}

#[test]
fn last_record_may_lack_a_terminator() {
    let entries = build(b"x\n: 5:0;y");
    assert_eq!(entries.len(), 2);
    assert_eq!(entries[0].cmd, "x");
    assert_eq!(entries[0].when, 0);
    assert_eq!(entries[1].cmd, "y");
    assert_eq!(entries[1].when, 5);
}

#[test]
fn continuation_records_leave_no_trace() {
    let entries = build(b"echo foo \\\nbar\n");
    assert_eq!(entries.len(), 1);
    assert_eq!(entries[0].cmd, "bar");
    assert_eq!(entries[0].when, 0);
}

#[test]
fn blank_record_yields_empty_command() {
    let entries = build(b"a\n\nb");
    assert_eq!(entries.len(), 3);
    assert_eq!(entries[0].cmd, "a");
    assert_eq!(entries[1].cmd, "");
    assert_eq!(entries[2].cmd, "b");
}

#[test]
fn carriage_return_is_trimmed() {
    let entries = build(b"cmd\r\n");
    assert_eq!(entries.len(), 1);
    assert_eq!(entries[0].cmd, "cmd");
}

#[test]
fn escaped_bytes_are_decoded_within_records() {
    // One record holding the zsh escape for "é", with a timestamp.
    let mut source: Vec<u8> = Vec::new();
    source.extend_from_slice(b": 7:0;echo ");
    source.extend_from_slice(&[0x83, 0xe3, 0x83, 0x89]);
    source.push(b'\n');
    let entries = build(&source);
    assert_eq!(entries.len(), 1);
    assert_eq!(entries[0].cmd, "echo \u{e9}");
    assert_eq!(entries[0].when, 7);
}

#[test]
fn converter_state_machine_converts() {
    let conv = Converter::from_bytes(b": 1:0;a\nb\n".to_vec());
    let entries = conv.convert();
    assert_eq!(entries.len(), 2);
    assert_eq!(entries[0].cmd, "a");
    assert_eq!(entries[0].when, 1);
    assert_eq!(entries[1].cmd, "b");
    assert_eq!(entries[1].when, 0);
}

#[test]
fn uninitialized_converter_remembers_its_path() {
    let conv = Converter::from_path(String::from("/home/u/.zsh_history"));
    assert_eq!(conv.path().as_str(), "/home/u/.zsh_history");
}
