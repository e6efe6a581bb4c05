use gdscript_ls::filedb::FileDatabase;
use gdscript_ls::inlay_hints::make_inlay_hints;
use gdscript_ls::typedb::{ClassEntry, TypeDatabase};
use gdscript_ls::utils::{range_contains, Position, Range};

fn empty_typedb() -> TypeDatabase {
    let entries: Vec<ClassEntry> = Vec::new();
    TypeDatabase::from_entries(&entries)
}

fn whole_file() -> Range {
    Range {
        start: Position { line: 0, character: 0 },
        end: Position { line: 1000, character: 0 },
    }
}

#[test]
fn hint_labels_inferred_types() {
    let typedb = empty_typedb();
    let mut filedb = FileDatabase::new();
    filedb.file_opened("res://h.gd", "func foo():\n\tvar i = 123\n".to_string());
    let hints = make_inlay_hints(whole_file(), "res://h.gd", &typedb, &filedb);
    assert_eq!(hints.len(), 1);
    assert_eq!(hints[0].label, ": int");
    assert_eq!(hints[0].position, Position { line: 1, character: 6 });
}

#[test]
fn annotated_and_unresolved_declarations_get_no_hint() {
    let typedb = empty_typedb();
    let mut filedb = FileDatabase::new();
    let source = "func foo():\n\tvar a: int = 1\n\tvar b = unknown_thing\n\tvar c = 2\n";
    filedb.file_opened("res://h2.gd", source.to_string());
    let hints = make_inlay_hints(whole_file(), "res://h2.gd", &typedb, &filedb);
    // `a` carries an annotation, `b` is unresolved: only `c` is labelled.
    assert_eq!(hints.len(), 1);
    assert_eq!(hints[0].label, ": int");
    assert_eq!(hints[0].position.line, 3);
}

#[test]
fn hints_outside_requested_range_are_filtered() {
    let typedb = empty_typedb();
    let mut filedb = FileDatabase::new();
    let source = "func foo():\n\tvar a = 1\nfunc bar():\n\tvar b = 2\n";
    filedb.file_opened("res://h3.gd", source.to_string());
    let narrow = Range {
        start: Position { line: 1, character: 0 },
        end: Position { line: 1, character: 100 },
    };
    let hints = make_inlay_hints(narrow, "res://h3.gd", &typedb, &filedb);
    for hint in &hints {
        assert!(range_contains(narrow, hint.position));
    }
    assert_eq!(hints.len(), 1);
    assert_eq!(hints[0].position.line, 1);
}

#[test]
fn no_hints_for_unopened_file() {
    let typedb = empty_typedb();
    let filedb = FileDatabase::new();
    let hints = make_inlay_hints(whole_file(), "res://missing.gd", &typedb, &filedb);
    assert!(hints.is_empty());
}

#[test]
fn range_membership_rule() {
    let range = Range {
        start: Position { line: 2, character: 4 },
        end: Position { line: 4, character: 2 },
    };
    assert!(range_contains(range, Position { line: 3, character: 0 }));
    assert!(range_contains(range, Position { line: 2, character: 4 }));
    assert!(range_contains(range, Position { line: 4, character: 1 }));
    assert!(!range_contains(range, Position { line: 1, character: 0 }));
    assert!(!range_contains(range, Position { line: 5, character: 0 }));
}
