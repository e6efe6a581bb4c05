use gdscript_ls::filedb::{ContentChange, FileDatabase};
use gdscript_ls::utils::{Position, Range};

fn change(start: (u32, u32), end: (u32, u32), text: &str) -> ContentChange {
    ContentChange {
        range: Some(Range {
            start: Position { line: start.0, character: start.1 },
            end: Position { line: end.0, character: end.1 },
        }),
        text: text.to_string(),
    }
}

fn statement_starts(db: &FileDatabase, path: &str) -> Vec<(String, usize)> {
    let file = db.get_file(path).expect("file is open");
    file.syntax
        .children
        .iter()
        .map(|c| (c.text.clone(), c.start_byte))
        .collect()
}

#[test]
fn open_change_close_round_trip() {
    let mut db = FileDatabase::new();
    db.file_opened("res://player.gd", "var a = 1\nvar b = 2\n".to_string());

    db.file_changed("res://player.gd", &vec![change((0, 8), (0, 9), "100")]);
    let file = db.get_file("res://player.gd").expect("file is open");
    let text = file.content.to_string();
    assert_eq!(text, "var a = 100\nvar b = 2\n");

    // Round-trip offsets: the byte offset of (line 1, column 0) computed
    // from the post-edit buffer matches the post-edit tree's boundary of
    // the statement on that line.
    let line1_byte = file.content.line_to_byte(1);
    assert_eq!(line1_byte, 12);
    let starts = statement_starts(&db, "res://player.gd");
    assert_eq!(starts[1], ("var b = 2".to_string(), 12));

    db.file_closed("res://player.gd");
    assert!(db.get_file("res://player.gd").is_none());
}

#[test]
fn batch_edits_apply_in_order() {
    let mut db = FileDatabase::new();
    db.file_opened("res://a.gd", "var a = 1\n".to_string());
    // The second edit's positions address the buffer as the first edit
    // left it.
    db.file_changed(
        "res://a.gd",
        &vec![change((0, 4), (0, 5), "speed"), change((0, 12), (0, 13), "42")],
    );
    let file = db.get_file("res://a.gd").expect("file is open");
    assert_eq!(file.content.to_string(), "var speed = 42\n");
    let starts = statement_starts(&db, "res://a.gd");
    assert_eq!(starts[0].0, "var speed = 42");
}

#[test]
fn multibyte_text_keeps_tree_in_step() {
    let mut db = FileDatabase::new();
    db.file_opened("res://u.gd", "var s = \"ä\"\nvar b = 2\n".to_string());
    // Columns are byte offsets: the closing quote sits at byte 11,
    // after the two-byte character.
    db.file_changed("res://u.gd", &vec![change((0, 11), (0, 11), "bc")]);
    let file = db.get_file("res://u.gd").expect("file is open");
    assert_eq!(file.content.to_string(), "var s = \"äbc\"\nvar b = 2\n");
    let line1_byte = file.content.line_to_byte(1);
    let starts = statement_starts(&db, "res://u.gd");
    assert_eq!(starts[1], ("var b = 2".to_string(), line1_byte));
    assert_eq!(line1_byte, 15);
}

#[test]
fn edit_inside_a_multibyte_character_is_dropped() {
    let mut db = FileDatabase::new();
    db.file_opened("res://m.gd", "var s = \"ä\"\n".to_string());
    // Byte 10 lies in the middle of the two-byte character: the edit
    // addresses no character boundary and is dropped whole.
    db.file_changed("res://m.gd", &vec![change((0, 10), (0, 10), "x")]);
    let file = db.get_file("res://m.gd").expect("file is open");
    assert_eq!(file.content.to_string(), "var s = \"ä\"\n");
}

#[test]
fn insertion_with_newlines_recounts_lines() {
    let mut db = FileDatabase::new();
    db.file_opened("res://n.gd", "var a = 1\n".to_string());
    db.file_changed("res://n.gd", &vec![change((1, 0), (1, 0), "var b = 2\nvar c = 3\n")]);
    let file = db.get_file("res://n.gd").expect("file is open");
    assert_eq!(file.content.to_string(), "var a = 1\nvar b = 2\nvar c = 3\n");
    let starts = statement_starts(&db, "res://n.gd");
    assert_eq!(starts.len(), 3);
    assert_eq!(starts[2], ("var c = 3".to_string(), file.content.line_to_byte(2)));
}

#[test]
fn edits_for_unopened_files_are_dropped() {
    let mut db = FileDatabase::new();
    db.file_changed("res://ghost.gd", &vec![change((0, 0), (0, 1), "x")]);
    assert!(db.get_file("res://ghost.gd").is_none());
}

#[test]
fn out_of_range_edit_is_dropped_whole() {
    let mut db = FileDatabase::new();
    db.file_opened("res://r.gd", "var a = 1\n".to_string());
    // Line 7 does not exist: the edit must change neither text nor tree.
    db.file_changed("res://r.gd", &vec![change((7, 0), (7, 3), "zzz")]);
    let file = db.get_file("res://r.gd").expect("file is open");
    assert_eq!(file.content.to_string(), "var a = 1\n");
    let starts = statement_starts(&db, "res://r.gd");
    assert_eq!(starts[0].0, "var a = 1");
}

#[test]
fn reopening_replaces_previous_content() {
    let mut db = FileDatabase::new();
    db.file_opened("res://p.gd", "var a = 1\n".to_string());
    db.file_opened("res://p.gd", "var b = 2\n".to_string());
    let file = db.get_file("res://p.gd").expect("file is open");
    assert_eq!(file.content.to_string(), "var b = 2\n");
    db.file_opened("res://q.gd", "var c = 3\n".to_string());
    assert!(db.get_file("res://p.gd").is_some());
    assert!(db.get_file("res://q.gd").is_some());
}

#[test]
fn deletion_edit_shrinks_buffer() {
    let mut db = FileDatabase::new();
    db.file_opened("res://d.gd", "var aa = 1\n".to_string());
    db.file_changed("res://d.gd", &vec![change((0, 4), (0, 5), "")]);
    let file = db.get_file("res://d.gd").expect("file is open");
    assert_eq!(file.content.to_string(), "var a = 1\n");
}
