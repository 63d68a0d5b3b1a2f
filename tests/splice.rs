use flavours::splice::{
    line_keys, marker, replace_delimiter, splice_lines, split_lines, split_segments, target_content, SpliceError,
    DEFAULT_END, DEFAULT_START,
};

#[test]
fn splices_between_markers() {
    let out = replace_delimiter("a\n# start\nold\n# end\nb\n", "# start", "# end", "new\n").unwrap();
    assert_eq!(out, "a\n# start\nnew\n# end\nb\n");
}

#[test]
fn splicing_twice_gives_the_same_file() {
    let content = "top\n  # Start Flavours \nold 1\nold 2\n# END flavours\nbottom\n";
    let start = marker(&None, DEFAULT_START);
    let end = marker(&None, DEFAULT_END);
    let once = replace_delimiter(content, &start, &end, "line 1\nline 2\n").unwrap();
    let twice = replace_delimiter(&once, &start, &end, "line 1\nline 2\n").unwrap();
    assert_eq!(once, twice);
    assert_eq!(once, "top\n  # Start Flavours \nline 1\nline 2\n# END flavours\nbottom\n");
}

#[test]
fn missing_start_marker() {
    let r = replace_delimiter("a\n# end\nb\n", "# start", "# end", "x\n");
    assert_eq!(r, Err(SpliceError::StartMarkerNotFound));
}

#[test]
fn missing_end_marker() {
    let r = replace_delimiter("a\n# start\nb\n", "# start", "# end", "x\n");
    assert_eq!(r, Err(SpliceError::EndMarkerNotFound));
    let r = replace_delimiter("# end\na\n# start\nb\n", "# start", "# end", "x\n");
    assert_eq!(r, Err(SpliceError::EndMarkerNotFound));
}

#[test]
fn outside_content_is_kept_whatever_was_between() {
    let a = replace_delimiter("1\n2\n# start\nA\nB\nC\n# end\n3\n", "# start", "# end", "new\n").unwrap();
    let b = replace_delimiter("1\n2\n# start\n# end\n3\n", "# start", "# end", "new\n").unwrap();
    assert_eq!(a, b);
    assert_eq!(a, "1\n2\n# start\nnew\n# end\n3\n");
}

#[test]
fn carriage_returns_and_missing_final_newline() {
    let out = replace_delimiter("a\r\n# start\r\nold\r\n# end\r\nb", "# start", "# end", "new\n").unwrap();
    assert_eq!(out, "a\r\n# start\r\nnew\n# end\r\nb");
}

#[test]
fn lines_are_copied_verbatim_and_splicing_again_keeps_them() {
    let content = "# start\n# end\n\r";
    let once = replace_delimiter(content, "# start", "# end", "").unwrap();
    assert_eq!(once, content);
    let twice = replace_delimiter(&once, "# start", "# end", "").unwrap();
    assert_eq!(twice, once);
    let content = "x \r\r\n# start\nold\n# end\ny\r";
    let once = replace_delimiter(content, "# start", "# end", "b\r\n").unwrap();
    assert_eq!(once, "x \r\r\n# start\nb\r\n# end\ny\r");
    assert_eq!(replace_delimiter(&once, "# start", "# end", "b\r\n").unwrap(), once);
}

#[test]
fn empty_block_and_only_first_markers() {
    let out = replace_delimiter("# start\nx\n# end\n# start\ny\n# end\n", "# start", "# end", "").unwrap();
    assert_eq!(out, "# start\n# end\n# start\ny\n# end\n");
}

#[test]
fn rewrite_mode_replaces_everything() {
    let out = target_content(true, "anything\n# start\n# end\n", "# start", "# end", "fresh").unwrap();
    assert_eq!(out, "fresh");
    let out = target_content(true, "", "# start", "# end", "").unwrap();
    assert_eq!(out, "");
}

#[test]
fn splice_mode_uses_markers() {
    let out = target_content(false, "# start\nold\n# end\n", "# start", "# end", "new\n").unwrap();
    assert_eq!(out, "# start\nnew\n# end\n");
    assert_eq!(
        target_content(false, "no markers\n", "# start", "# end", "new\n"),
        Err(SpliceError::StartMarkerNotFound)
    );
}

#[test]
fn markers_are_trimmed_and_lower_cased() {
    assert_eq!(marker(&None, DEFAULT_START), "# start flavours");
    assert_eq!(marker(&None, DEFAULT_END), "# end flavours");
    assert_eq!(marker(&Some(String::from("  // BEGIN Theme\t")), DEFAULT_START), "// begin theme");
}

fn chars(s: &str) -> Vec<char> {
    s.chars().collect()
}

#[test]
fn splicing_by_given_keys() {
    let lines: Vec<Vec<char>> = ["a\n", "S\n", "x\n", "E\n", "b\n"].iter().map(|l| chars(l)).collect();
    let keys: Vec<String> = ["a", "begin", "x", "stop", "b"].iter().map(|k| String::from(*k)).collect();
    assert_eq!(splice_lines(&lines, &keys, "begin", "stop", "new\n").unwrap(), "a\nS\nnew\nE\nb\n");
    assert_eq!(splice_lines(&lines, &keys, "S", "stop", "new\n"), Err(SpliceError::StartMarkerNotFound));
    assert_eq!(splice_lines(&lines, &keys, "x", "begin", "new\n"), Err(SpliceError::EndMarkerNotFound));
}

#[test]
fn lines_and_their_keys() {
    let lines = split_segments("One\r\n  TWO \n\nthree\r");
    let texts: Vec<String> = lines.iter().map(|l| l.iter().collect()).collect();
    assert_eq!(texts, vec!["One\r\n", "  TWO \n", "\n", "three\r"]);
    let keys = line_keys(&lines);
    assert_eq!(keys, vec!["one", "two", "", "three"]);
    assert!(split_segments("").is_empty());
    assert_eq!(split_segments("\n").len(), 1);
    let plain = split_lines("One\r\n  TWO \n\nthree\r");
    let texts: Vec<String> = plain.iter().map(|l| l.iter().collect()).collect();
    assert_eq!(texts, vec!["One", "  TWO ", "", "three\r"]);
}
