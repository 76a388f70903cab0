use lean_ctx::ranges::{extract_line_range, line_window, parse_disk_anchor_range, WindowReader};

fn numbered_text(n: usize) -> String {
    (1..=n)
        .map(|i| format!("line {i}"))
        .collect::<Vec<_>>()
        .join("\n")
}

#[test]
fn gh1759_tail_part_inside_multi_select() {
    let content = (1..=10)
        .map(|i| format!("line {i}\n"))
        .collect::<Vec<_>>()
        .concat();
    let out = extract_line_range(&content, "1-2,-2");
    let picked: Vec<&str> = out.lines().collect();
    assert_eq!(picked.len(), 4, "{out}");
    assert!(picked[0].contains("1| line 1"));
    assert!(picked[1].contains("2| line 2"));
    assert!(picked[2].contains("9| line 9"));
    assert!(picked[3].contains("10| line 10"));
}

#[test]
fn parse_disk_anchor_range_accepts_dash_form_only() {
    assert_eq!(parse_disk_anchor_range("5-10"), Some((5, 10)));
    assert_eq!(parse_disk_anchor_range("1-999999"), Some((1, 999_999)));
    assert_eq!(parse_disk_anchor_range("5"), None);
    assert_eq!(parse_disk_anchor_range("not-a-range"), None);
}

#[test]
fn read_line_window_streams_only_the_requested_span() {
    let body = numbered_text(50);
    let window = line_window(&format!("{body}\n"), 10, 12);
    assert_eq!(window.total_lines, 50);
    assert_eq!(window.start, 10);
    assert_eq!(window.end, 12);
    assert_eq!(window.body, "line 10\nline 11\nline 12");
}

#[test]
fn a_tail_is_the_last_lines() {
    let content = numbered_text(40);
    let tail = extract_line_range(&content, "-3");
    assert_eq!(tail, "  38| line 38\n  39| line 39\n  40| line 40");
    assert_eq!(extract_line_range(&content, "-100").lines().count(), 40);
    assert_eq!(extract_line_range(&content, "-0"), "");
    assert_eq!(extract_line_range("", "-3"), "");
}

#[test]
fn a_span_is_its_lines_and_no_others() {
    let content = numbered_text(2000);
    let out = extract_line_range(&content, "500-504");
    let picked: Vec<&str> = out.lines().collect();
    assert_eq!(picked.len(), 5);
    assert!(picked[0].contains("500| line 500"));
    assert_eq!(extract_line_range(&content, " 1999 - 3000 ").lines().count(), 2);
    assert_eq!(extract_line_range(&content, "0-1"), "   1| line 1");
    assert_eq!(extract_line_range(&content, "5-4"), "");
    assert_eq!(extract_line_range(&content, "x-4,y,-z"), "");
    assert_eq!(extract_line_range(&content, "2001"), "");
}

#[test]
fn a_line_window_is_clipped_to_the_text() {
    let window = line_window("a\nb\n", 0, 9);
    assert_eq!((window.total_lines, window.start, window.end), (2, 1, 2));
    assert_eq!(window.body, "a\nb");
    let beyond = line_window("a\nb\n", 7, 9);
    assert_eq!(beyond.body, "");
}

#[test]
fn a_reader_keeps_the_window_and_counts_the_rest() {
    let content = numbered_text(9);
    for (start, end) in [(0, 0), (0, 3), (2, 4), (9, 9), (5, 100), (12, 14), (4, 3)] {
        let mut reader = WindowReader::new(start, end);
        for line in content.lines() {
            reader.feed(line);
            assert!(reader.kept.len() <= end.saturating_sub(start) + 1);
        }
        let streamed = reader.finish();
        let whole = line_window(&content, start, end);
        assert_eq!(streamed.total_lines, 9);
        assert_eq!(
            (streamed.total_lines, streamed.start, streamed.end, &streamed.body),
            (whole.total_lines, whole.start, whole.end, &whole.body),
            "{start}-{end}"
        );
    }
    let mut reader = WindowReader::new(2, 3);
    for line in ["a", "b", "c", "d"] {
        reader.feed(line);
    }
    assert_eq!(reader.kept, vec!["b".to_string(), "c".to_string()]);
    assert_eq!(reader.finish().body, "b\nc");
}
