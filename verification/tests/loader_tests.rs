// Reading files and standard input is done by the editor program around the
// library; these placeholders record where that is exercised.

#[test]
fn test_load_json_from_stdin_requires_actual_stdin() {
    // Reading standard input cannot be exercised from a unit test.
}

#[test]
fn test_load_json_file_integration() {
    // Loading files is exercised by the editor program itself.
}
