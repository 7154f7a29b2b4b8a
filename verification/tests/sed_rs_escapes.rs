//! How `sed_rs` reads `\xHH` and `\oNNN`: as plain text, in the pattern and
//! in the replacement of `s`. The placeholder for newlines is therefore
//! written into the instrumented script as the character itself.

#[test]
fn hex_escape_in_replacement_is_literal_text() {
    let out = sed_rs::eval("N; s/\\n/\\x02/g", "a\nb\n").unwrap();
    assert_eq!(out, "a\\x02b\n"); // backslash, x, 0, 2: not the byte
}

#[test]
fn octal_escape_in_replacement_is_literal_text() {
    let out = sed_rs::eval("N; s/\\n/\\o002/g", "a\nb\n").unwrap();
    assert_eq!(out, "a\\o002b\n");
}

#[test]
fn raw_byte_in_script_works_as_workaround() {
    // The control character itself in the script is handled as it should be.
    let out = sed_rs::eval("N; s/\\n/\u{2}/g", "a\nb\n").unwrap();
    assert_eq!(out, "a\u{2}b\n");
}
