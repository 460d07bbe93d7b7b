use rusty_ui::save::{
    autosave_file, eq_ignore_ascii_case, format_then_save, mark_written, pending_writes, record_written, save_file,
    GroupDocs, OpenDoc, ParkedTab, SaveRoute,
};

fn doc(path: &str, text: &str) -> OpenDoc {
    OpenDoc { path: path.to_string(), text: text.to_string(), read_only: false, expansion: false, language: None }
}

fn tab(path: &str, on_disk: &str, draft: &str) -> ParkedTab {
    ParkedTab { document: doc(path, on_disk), draft: draft.to_string() }
}

fn written(groups: &Vec<GroupDocs>) -> Vec<(String, String)> {
    pending_writes(groups).into_iter().map(|w| (w.path, w.text)).collect()
}

#[test]
fn every_unsaved_draft_is_written_once() {
    let groups = vec![
        GroupDocs {
            document: Some(doc("src/main.rs", "fn main() {}")),
            draft: "fn main() { run() }".to_string(),
            parked: vec![tab("src/lib.rs", "a", "b"), tab("src/util.rs", "same", "same")],
        },
        GroupDocs {
            // The same file on the other side: one draft, one write.
            document: Some(doc("src/main.rs", "fn main() {}")),
            draft: "fn main() { run() }".to_string(),
            parked: vec![tab("src/io.rs", "x", "y")],
        },
    ];
    assert_eq!(
        written(&groups),
        vec![
            ("src/main.rs".to_string(), "fn main() { run() }".to_string()),
            ("src/lib.rs".to_string(), "b".to_string()),
            ("src/io.rs".to_string(), "y".to_string()),
        ]
    );
}

#[test]
fn read_only_sources_and_expansions_are_never_written() {
    let mut library = doc("/registry/serde/src/lib.rs", "old");
    library.read_only = true;
    let mut expansion = doc("expansion://main.rs", "old");
    expansion.expansion = true;
    let groups = vec![GroupDocs {
        document: Some(library),
        draft: "new".to_string(),
        parked: vec![ParkedTab { document: expansion, draft: "new".to_string() }],
    }];
    assert!(written(&groups).is_empty());
    let empty = vec![GroupDocs { document: None, draft: String::new(), parked: vec![] }];
    assert!(written(&empty).is_empty());
}

#[test]
fn a_write_moves_every_copy_forward_and_leaves_the_drafts() {
    let mut groups = vec![
        GroupDocs {
            document: Some(doc("a.rs", "1")),
            draft: "2".to_string(),
            parked: vec![tab("b.rs", "x", "y")],
        },
        GroupDocs { document: Some(doc("b.rs", "x")), draft: "y".to_string(), parked: vec![tab("a.rs", "1", "2")] },
    ];
    record_written(&mut groups, "a.rs", "2");
    assert_eq!(groups[0].document.as_ref().map(|d| d.text.as_str()), Some("2"));
    assert_eq!(groups[0].draft, "2");
    assert_eq!(groups[0].parked[0].document.text, "x");
    assert_eq!(groups[1].document.as_ref().map(|d| d.text.as_str()), Some("x"));
    assert_eq!(groups[1].parked[0].document.text, "2");
    assert_eq!(groups[1].parked[0].draft, "2");
    // Nothing in front of `a.rs` wants writing any more.
    assert_eq!(written(&groups), vec![("b.rs".to_string(), "y".to_string())]);
}

#[test]
fn autosave_skips_what_is_already_on_disk() {
    assert!(autosave_file(&None, "text").is_none());
    assert!(autosave_file(&Some(doc("a.rs", "same")), "same").is_none());
    let mut library = doc("lib.rs", "old");
    library.read_only = true;
    assert!(autosave_file(&Some(library), "new").is_none());
    let w = autosave_file(&Some(doc("a.rs", "old")), "new").expect("a write");
    assert_eq!((w.path.as_str(), w.text.as_str()), ("a.rs", "new"));
}

#[test]
fn ctrl_s_writes_the_active_path_unless_it_is_a_dependency() {
    let w = save_file(&Some(doc("a.rs", "same")), Some("a.rs"), "same").expect("always written");
    assert_eq!((w.path.as_str(), w.text.as_str()), ("a.rs", "same"));
    assert!(save_file(&None, None, "x").is_none());
    let mut library = doc("lib.rs", "old");
    library.read_only = true;
    assert!(save_file(&Some(library), Some("lib.rs"), "new").is_none());
}

#[test]
fn rust_is_formatted_and_anything_else_is_saved_as_it_is() {
    assert_eq!(format_then_save(&Some(doc("src/main.rs", ""))), SaveRoute::FormatThenSave);
    let mut named = doc("build.script", "");
    named.language = Some("RUST".to_string());
    assert_eq!(format_then_save(&Some(named)), SaveRoute::FormatThenSave);
    assert_eq!(format_then_save(&Some(doc("Cargo.toml", ""))), SaveRoute::Save);
    let mut library = doc("lib.rs", "");
    library.read_only = true;
    assert_eq!(format_then_save(&Some(library)), SaveRoute::Nothing);
    assert_eq!(format_then_save(&None), SaveRoute::Nothing);
}

#[test]
fn case_is_ignored_for_ascii_letters_only() {
    assert!(eq_ignore_ascii_case("Rust", "rUST"));
    assert!(!eq_ignore_ascii_case("rust", "rusty"));
    assert!(!eq_ignore_ascii_case("É", "é"));
    let d = mark_written(doc("a.rs", "1"), "b.rs", "2");
    assert_eq!(d.text, "1");
}
