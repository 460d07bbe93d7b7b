use rusty_ui::calls::{Location, Place};
use rusty_ui::places::{
    ask_symbols, expand_macro, find_places, go_to, sort_places, word_around, Found, Jump, Opening, PlaceQuery,
};

fn place(path: &str, line: u32, col: u32, external: bool) -> Place {
    Place {
        location: Location { path: path.to_string(), line, col, external },
        end_col: col + 3,
        text: String::new(),
    }
}

fn spots(places: &[Place]) -> Vec<(String, u32, u32, bool)> {
    places.iter().map(|p| (p.location.path.clone(), p.location.line, p.location.col, p.location.external)).collect()
}

#[test]
fn the_word_around_a_position_is_the_identifier_it_touches() {
    let text = "fn main() {\n    let gpio_pin = 3;\n}";
    assert_eq!(word_around(text, 1, 10), "gpio_pin");
    // Just after it still names it.
    assert_eq!(word_around(text, 1, 16), "gpio_pin");
    assert_eq!(word_around(text, 0, 3), "main");
    // Past the line's end the column is held to it.
    assert_eq!(word_around(text, 0, 99), "");
    assert_eq!(word_around(text, 1, 99), "");
    // Past the last line there is nothing.
    assert_eq!(word_around(text, 7, 0), "");
    assert_eq!(word_around("héllo wörld", 0, 8), "wörld");
}

#[test]
fn places_are_listed_by_file_then_down_each_file_project_first() {
    let sorted = sort_places(vec![
        place("/registry/core/src/lib.rs", 1, 0, true),
        place("src/main.rs", 9, 4, false),
        place("src/lib.rs", 20, 1, false),
        place("src/main.rs", 2, 8, false),
        place("src/main.rs", 2, 1, false),
    ]);
    assert_eq!(
        spots(&sorted),
        vec![
            ("src/lib.rs".to_string(), 20, 1, false),
            ("src/main.rs".to_string(), 2, 1, false),
            ("src/main.rs".to_string(), 2, 8, false),
            ("src/main.rs".to_string(), 9, 4, false),
            ("/registry/core/src/lib.rs".to_string(), 1, 0, true),
        ]
    );
    assert!(sort_places(Vec::new()).is_empty());
}

#[test]
fn one_implementation_is_a_jump_and_references_are_always_a_list() {
    match find_places(PlaceQuery::Implementations, "Pin", vec![place("src/pin.rs", 3, 0, false)]) {
        Found::Jump(at) => assert_eq!((at.path.as_str(), at.line), ("src/pin.rs", 3)),
        Found::List { .. } => panic!("one implementation is a jump"),
    }
    match find_places(PlaceQuery::References, "Pin", vec![place("src/pin.rs", 3, 0, false)]) {
        Found::List { title, name, places } => {
            assert_eq!(title, "places.references");
            assert_eq!(name, "Pin");
            assert_eq!(places.len(), 1);
        }
        Found::Jump(_) => panic!("references are a list"),
    }
    match find_places(PlaceQuery::TypeDefinition, "x", Vec::new()) {
        Found::List { title, places, .. } => {
            assert_eq!(title, "places.type-definition");
            assert!(places.is_empty(), "none found says so");
        }
        Found::Jump(_) => panic!("nothing to jump to"),
    }
    match find_places(
        PlaceQuery::Implementations,
        "Trait",
        vec![place("src/b.rs", 1, 0, false), place("src/a.rs", 5, 0, false)],
    ) {
        Found::List { title, places, .. } => {
            assert_eq!(title, "places.implementations");
            assert_eq!(places[0].location.path, "src/a.rs");
        }
        Found::Jump(_) => panic!("two is a list"),
    }
}

#[test]
fn a_jump_brings_up_files_and_opens_what_is_not_in_front() {
    let inside = Location { path: "src/a.rs".to_string(), line: 1, col: 0, external: false };
    let outside = Location { path: "/registry/x.rs".to_string(), line: 1, col: 0, external: true };
    assert_eq!(go_to("git", Some("src/b.rs"), &inside), Jump { show_files: true, open: Some(Opening::Project) });
    assert_eq!(go_to("search", Some("src/a.rs"), &inside), Jump { show_files: false, open: None });
    assert_eq!(go_to("files", None, &outside), Jump { show_files: false, open: Some(Opening::External) });
}

#[test]
fn symbol_asks_are_kept_with_what_was_asked() {
    assert_eq!(ask_symbols(true, true, "gpio", None).as_deref(), Some("#gpio"));
    assert_eq!(ask_symbols(true, false, "", Some("src/main.rs")).as_deref(), Some("@src/main.rs"));
    assert_eq!(ask_symbols(true, false, "", Some("Cargo.toml")), None);
    assert_eq!(ask_symbols(false, true, "gpio", None), None);
    assert!(expand_macro(Some("src/main.rs"), true));
    assert!(!expand_macro(Some("src/main.rs"), false));
    assert!(!expand_macro(Some("README.md"), true));
    assert!(!expand_macro(None, true));
}
