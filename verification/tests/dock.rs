use rusty_ui::dock::{command_words, incremental_path};
use rusty_ui::lab::console_seed;

#[test]
fn a_typed_line_is_a_program_and_its_arguments() {
    let (program, args) = command_words("  cargo   build --release ").expect("a command");
    assert_eq!(program, "cargo");
    assert_eq!(args, ["build", "--release"]);
    assert!(command_words("   \t ").is_none());
    let (program, args) = command_words("ls").unwrap();
    assert_eq!(program, "ls");
    assert!(args.is_empty());
}

#[test]
fn the_incremental_caches_are_under_the_tree() {
    assert_eq!(incremental_path("/p/target/release"), "/p/target/release/incremental");
    assert_eq!(incremental_path("C:\\p\\target\\debug"), "C:\\p\\target\\debug\\incremental");
}

#[test]
fn each_axis_draws_its_own_noise() {
    assert_eq!(console_seed("", 0), 0xcbf2_9ce4_8422_2325);
    assert_eq!(console_seed("a", 0), 0xaf63_dc4c_8601_ec8c);
    assert_ne!(console_seed("accel", 0), console_seed("accel", 1));
    assert_eq!(console_seed("accel", 1), console_seed("accel", 0) ^ 1);
}
