use pac_windows::json::push_escaped;

fn escaped(s: &str) -> String {
    let mut out = String::new();
    push_escaped(&mut out, s);
    out
}

#[test]
fn plain_text_stays() {
    assert_eq!(escaped(""), "");
    assert_eq!(escaped("CPU_+5V_BULK_DRAM"), "CPU_+5V_BULK_DRAM");
    assert_eq!(escaped("\u{e9}\u{7f}\u{1F600}/"), "\u{e9}\u{7f}\u{1F600}/");
}

#[test]
fn marks_are_escaped() {
    assert_eq!(escaped("\""), "\\\"");
    assert_eq!(escaped("a\\b"), "a\\\\b");
    assert_eq!(escaped("\\\""), "\\\\\\\"");
}

#[test]
fn control_characters_are_numbered() {
    assert_eq!(escaped("\0"), "\\u0000");
    assert_eq!(escaped("\n\t"), "\\u000a\\u0009");
    assert_eq!(escaped("\u{1f} "), "\\u001f ");
}
