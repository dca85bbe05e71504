use editor_row::Row;

fn text(row: &Row) -> String {
    String::from_utf8(row.as_bytes().to_vec()).unwrap()
}

#[test]
fn edit_split_and_join_scenario() {
    let mut row = Row::from("");
    row.insert(0, 'h');
    row.insert(1, 'i');
    assert_eq!(text(&row), "hi");
    assert_eq!(row.len(), 2);
    let tail = row.split(1);
    assert_eq!(text(&row), "h");
    assert_eq!(row.len(), 1);
    assert_eq!(text(&tail), "i");
    assert_eq!(tail.len(), 1);
    row.append(tail);
    assert_eq!(text(&row), "hi");
    assert_eq!(row.len(), 2);
}

#[test]
fn render_replaces_tab_with_space() {
    let row = Row::from("a\tb");
    assert_eq!(row.len(), 3);
    assert_eq!(row.render(0, 3), "a b");
    assert_eq!(text(&row), "a\tb");
}

#[test]
fn render_clamps_range() {
    let row = Row::from("a\tb");
    assert_eq!(row.render(1, 5), " b");
    assert_eq!(row.render(4, 5), "");
    assert_eq!(row.render(2, 1), "");
    assert_eq!(row.render(0, 0), "");
    assert_eq!(row.render(1, 2), " ");
}

#[test]
fn render_counts_clusters_not_bytes() {
    let row = Row::from("e\u{301}\u{1F44D}\u{1F3FD}z");
    assert_eq!(row.len(), 3);
    assert_eq!(row.render(0, 1), "e\u{301}");
    assert_eq!(row.render(1, 2), "\u{1F44D}\u{1F3FD}");
    assert_eq!(row.render(2, 9), "z");
}

#[test]
fn len_counts_multi_code_point_clusters() {
    assert_eq!(Row::from("\u{1F44D}\u{1F3FD}").len(), 1);
    assert_eq!(Row::from("cafe\u{301}").len(), 4);
    assert_eq!(Row::from("a\r\nb").len(), 3);
}

#[test]
fn insert_in_middle_keeps_suffix() {
    let mut row = Row::from("abcde");
    row.insert(2, 'X');
    assert_eq!(text(&row), "abXcde");
    assert_eq!(row.len(), 6);
    assert_eq!(row.render(0, row.len()), "abXcde");
}

#[test]
fn insert_past_end_appends() {
    let mut row = Row::from("ab");
    row.insert(2, 'c');
    assert_eq!(text(&row), "abc");
    row.insert(100, 'd');
    assert_eq!(text(&row), "abcd");
    assert_eq!(row.len(), 4);
}

#[test]
fn insert_does_not_split_cluster() {
    let mut row = Row::from("e\u{301}x");
    row.insert(1, 'y');
    assert_eq!(text(&row), "e\u{301}yx");
    assert_eq!(row.len(), 3);
}

#[test]
fn insert_tab_renders_as_space() {
    let mut row = Row::from("ab");
    row.insert(1, '\t');
    assert_eq!(row.len(), 3);
    assert_eq!(row.render(0, 3), "a b");
    assert_eq!(text(&row), "a\tb");
}

#[test]
fn delete_removes_one_cluster() {
    let mut row = Row::from("abcde");
    row.delete(2);
    assert_eq!(text(&row), "abde");
    assert_eq!(row.len(), 4);
    row.delete(0);
    assert_eq!(text(&row), "bde");
    row.delete(2);
    assert_eq!(text(&row), "bd");
}

#[test]
fn delete_removes_whole_multi_code_point_cluster() {
    let mut row = Row::from("e\u{301}\u{1F44D}\u{1F3FD}z");
    row.delete(1);
    assert_eq!(text(&row), "e\u{301}z");
    assert_eq!(row.len(), 2);
    row.delete(0);
    assert_eq!(text(&row), "z");
    assert_eq!(row.len(), 1);
}

#[test]
fn delete_past_end_is_no_op() {
    let mut row = Row::from("ab");
    row.delete(2);
    assert_eq!(text(&row), "ab");
    assert_eq!(row.len(), 2);
    row.delete(50);
    assert_eq!(text(&row), "ab");
    let mut empty = Row::from("");
    empty.delete(0);
    assert!(empty.is_empty());
}

#[test]
fn split_then_append_round_trip() {
    for at in 0..6 {
        let original = "x\u{1F44D}\u{1F3FD}e\u{301}\ty";
        let mut row = Row::from(original);
        let tail = row.split(at);
        assert_eq!(row.len() + tail.len(), 5);
        row.append(tail);
        assert_eq!(text(&row), original);
        assert_eq!(row.len(), 5);
    }
}

#[test]
fn split_at_cluster_boundary() {
    let mut row = Row::from("e\u{301}xy");
    let tail = row.split(1);
    assert_eq!(text(&row), "e\u{301}");
    assert_eq!(text(&tail), "xy");
    assert_eq!(tail.len(), 2);
}

#[test]
fn split_past_end_returns_empty_row() {
    let mut row = Row::from("abc");
    let tail = row.split(7);
    assert_eq!(text(&row), "abc");
    assert!(tail.is_empty());
    assert_eq!(tail.len(), 0);
}

#[test]
fn insert_then_delete_restores() {
    for at in 0..4 {
        let mut row = Row::from("a\u{1F44D}\u{1F3FD}c");
        row.insert(at, 'Q');
        assert_eq!(row.len(), 4);
        row.delete(at);
        assert_eq!(text(&row), "a\u{1F44D}\u{1F3FD}c");
        assert_eq!(row.len(), 3);
    }
}

#[test]
fn append_sums_lengths() {
    let mut row = Row::from("ab");
    row.append(Row::from("c\u{301}d"));
    assert_eq!(text(&row), "abc\u{301}d");
    assert_eq!(row.len(), 4);
}

#[test]
fn empty_and_default_rows() {
    let row = Row::default();
    assert!(row.is_empty());
    assert_eq!(row.len(), 0);
    assert_eq!(row.as_bytes(), b"");
    assert!(!Row::from("a").is_empty());
}

#[test]
fn as_bytes_gives_utf8() {
    let row = Row::from("e\u{301}");
    assert_eq!(row.as_bytes(), &[0x65, 0xCC, 0x81]);
}

#[test]
fn from_trait_builds_row() {
    let row: Row = "a\u{1F44D}\u{1F3FD}".into();
    assert_eq!(row.len(), 2);
    assert_eq!(text(&row), "a\u{1F44D}\u{1F3FD}");
}

#[test]
fn split_at_zero_moves_everything() {
    let mut row = Row::from("abc");
    let tail = row.split(0);
    assert!(row.is_empty());
    assert_eq!(row.len(), 0);
    assert_eq!(text(&tail), "abc");
    assert_eq!(tail.len(), 3);
}
