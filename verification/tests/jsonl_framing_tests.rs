use jsonquill::file::loader::jsonl_lines;

#[test]
fn each_line_is_numbered_from_one() {
    let text = "{\"id\":1,\"name\":\"Alice\"}\n{\"id\":2,\"name\":\"Bob\"}\n{\"id\":3,\"name\":\"Charlie\"}";
    let lines = jsonl_lines(text);
    assert_eq!(lines.len(), 3);
    assert_eq!(lines[0], (1, "{\"id\":1,\"name\":\"Alice\"}".to_string()));
    assert_eq!(lines[2], (3, "{\"id\":3,\"name\":\"Charlie\"}".to_string()));
}

#[test]
fn blank_lines_are_skipped_but_counted() {
    let lines = jsonl_lines("{\"id\":1}\n\n{\"id\":2}\n   \n{\"id\":3}");
    let numbers: Vec<usize> = lines.iter().map(|(n, _)| *n).collect();
    assert_eq!(numbers, vec![1, 3, 5]);
}

#[test]
fn carriage_returns_before_newlines_are_dropped_and_a_final_newline_adds_no_line() {
    let lines = jsonl_lines("[1]\r\n[2]\r\n");
    assert_eq!(lines, vec![(1, "[1]".to_string()), (2, "[2]".to_string())]);
    assert!(jsonl_lines("").is_empty());
    assert!(jsonl_lines("\n\n").is_empty());
}

#[test]
fn the_line_number_of_an_invalid_line_is_reported_by_its_position() {
    let lines = jsonl_lines("{\"id\":1}\n{invalid json}\n{\"id\":3}");
    assert_eq!(lines[1], (2, "{invalid json}".to_string()));
}
