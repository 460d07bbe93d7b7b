use rusty_ui::activity::{compiling, relevant, tally, test_result, Activity, Kind};

/// The lines are cargo's own, copied from a real build; the crate name is
/// what the bar shows, and nothing else in the line is.
#[test]
fn the_crate_being_compiled_is_read_off_cargo_s_line() {
    assert_eq!(compiling("   Compiling esp-hal v1.1.2").as_deref(), Some("esp-hal"));
    assert_eq!(
        compiling("   Compiling blinky v0.1.0 (E:\\work\\blinky)").as_deref(),
        Some("blinky"),
    );
    assert_eq!(compiling("    Finished `release` profile"), None);
    assert_eq!(compiling("error: Compiling is not a thing"), None);
}

#[test]
fn counts_come_from_cargo_s_own_summary_lines() {
    let unit = "`blinky` (bin \"blinky\")".to_string();
    assert_eq!(
        tally("warning: `blinky` (bin \"blinky\") generated 3 warnings"),
        Some((unit.clone(), 0, 3)),
    );
    assert_eq!(
        tally(
            "warning: `blinky` (bin \"blinky\") generated 1 warning (run `cargo fix \
             --bin \"blinky\"` to apply 1 suggestion)"
        ),
        Some((unit.clone(), 0, 1)),
    );
    assert_eq!(
        tally(
            "error: could not compile `blinky` (bin \"blinky\") due to 2 previous \
             errors; 3 warnings emitted"
        ),
        Some((unit.clone(), 2, 3)),
    );
    assert_eq!(
        tally("error: could not compile `blinky` (bin \"blinky\") due to 1 previous error"),
        Some((unit, 1, 0)),
    );
    assert_eq!(tally("warning: unused variable: `state`"), None);
    assert_eq!(tally("error[E0425]: cannot find value `x` in this scope"), None);
    assert_eq!(tally("warning: build failed, waiting for other jobs to finish..."), None);
}

/// A crate that fails says its warnings twice, and they are one set.
#[test]
fn a_failing_crate_s_warnings_are_counted_once() {
    let mut build = Activity::new(Kind::Build, 0);
    build.observe("warning: `blinky` (bin \"blinky\") generated 1 warning", 1);
    build.observe(
        "error: could not compile `blinky` (bin \"blinky\") due to 1 previous error; \
         1 warning emitted",
        2,
    );
    assert_eq!((build.errors, build.warnings), (1, 1));
}

#[test]
fn a_test_binary_s_closing_line_is_counted() {
    assert_eq!(
        test_result(
            "test result: ok. 12 passed; 0 failed; 0 ignored; 0 measured; 0 filtered \
             out; finished in 0.21s"
        ),
        Some((12, 0)),
    );
    assert_eq!(test_result("test result: FAILED. 3 passed; 1 failed; 0 ignored"), Some((3, 1)));
    assert_eq!(test_result("running 12 tests"), None);
}

/// A flash that goes on monitoring reports at the line that says so, and
/// carries on as a monitor of the same port.
#[test]
fn a_flash_that_monitors_reports_at_the_line_and_carries_on() {
    let mut activity = Activity::new(Kind::Flash, 1_000);
    activity.target = Some("COM3".into());
    assert_eq!(activity.observe("[00:00:01] Writing", 2_000), None);
    let done = activity.observe("Flashing has completed!", 9_500).expect("the line is the verdict");
    assert!(done.ok);
    assert_eq!(done.kind, Kind::Flash);
    assert_eq!(done.took_ms, 8_500);
    assert_eq!(done.target.as_deref(), Some("COM3"));
    assert_eq!(activity.kind, Kind::Monitor);
    assert_eq!(activity.started, 9_500);
    assert_eq!(activity.target.as_deref(), Some("COM3"));

    assert_eq!(activity.clone().finish(Some(0), 20_000), None);
    let lost = activity.finish(Some(1), 20_000).expect("a verdict");
    assert!(!lost.ok);
    assert_eq!(lost.kind, Kind::Monitor);
    assert_eq!(lost.code, Some(1));
}

#[test]
fn a_build_ends_with_what_it_counted() {
    let mut build = Activity::new(Kind::Build, 0);
    build.observe("   Compiling esp-hal v1.1.2", 100);
    assert_eq!(build.step.as_deref(), Some("esp-hal"));
    build.observe("warning: `esp-hal` (lib) generated 2 warnings", 200);
    build.observe(
        "error: could not compile `blinky` (bin \"blinky\") due to 1 previous error; \
         1 warning emitted",
        300,
    );
    let outcome = build.finish(Some(101), 12_400).expect("a verdict");
    assert!(!outcome.ok);
    assert_eq!((outcome.errors, outcome.warnings), (1, 3));
    assert_eq!(outcome.took_ms, 12_400);
    assert_eq!(outcome.code, Some(101));

    let clean = Activity::new(Kind::Build, 0).finish(Some(0), 3_000).expect("a build always has a verdict");
    assert!(clean.ok);
    assert_eq!(clean.code, None, "a clean exit names no code");
}

#[test]
fn a_command_s_success_and_a_closed_monitor_say_nothing() {
    assert_eq!(Activity::new(Kind::Command, 0).finish(Some(0), 1), None);
    assert_eq!(Activity::new(Kind::Simulate, 0).finish(None, 1), None);
    let failed = Activity::new(Kind::Command, 0).finish(Some(128), 1).expect("a failed command is worth saying");
    assert!(!failed.ok);
    assert_eq!(failed.code, Some(128));
}

/// Every line `observe` acts on passes the cheap look, and the lines a
/// firmware prints by the thousand do not.
#[test]
fn the_cheap_look_lets_through_exactly_what_observe_reads() {
    for line in [
        "   Compiling esp-hal v1.1.2",
        "    Finished `release` profile [optimized] target(s) in 12.34s",
        "warning: `app` (bin \"app\") generated 2 warnings",
        "error: could not compile `app` (bin \"app\") due to 1 previous error",
        "test result: ok. 3 passed; 0 failed",
        "Flashing has completed!",
        "Finished in 3.21s",
    ] {
        assert!(relevant(line), "{line}");
    }
    for line in ["[rusty:gpio@1234] 2=1", "I (952) boot: ESP-IDF", "hello from main"] {
        assert!(!relevant(line), "{line}");
    }
    let mut run = Activity::new(Kind::Simulate, 0);
    run.observe("   Compiling blinky v0.1.0", 1);
    assert_eq!(run.step.as_deref(), Some("blinky"));
    run.observe("    Finished `release` profile [optimized] target(s) in 1.0s", 2);
    assert_eq!(run.step, None, "the emulator is not a crate being compiled");
}

#[test]
fn channels_name_their_kind() {
    assert_eq!(Kind::of_channel("build"), Kind::Build);
    assert_eq!(Kind::of_channel("flash"), Kind::Flash);
    assert_eq!(Kind::of_channel("tools"), Kind::Install);
    assert_eq!(Kind::of_channel("commands"), Kind::Command);
    assert!(Kind::Monitor.open_ended());
    assert!(!Kind::Build.open_ended());
}

/// A line that is not about the activity leaves it as it was.
#[test]
fn an_irrelevant_line_changes_nothing() {
    let mut build = Activity::new(Kind::Build, 0);
    build.observe("   Compiling esp-hal v1.1.2", 100);
    let before = build.clone();
    assert_eq!(build.observe("hello from main", 200), None);
    assert_eq!(build, before);
}

/// A unit's counts are merged rather than summed: the same line twice is
/// counted once.
#[test]
fn the_same_summary_twice_counts_once() {
    let mut build = Activity::new(Kind::Build, 0);
    build.observe("warning: `a` (lib) generated 2 warnings", 1);
    build.observe("warning: `a` (lib) generated 2 warnings", 2);
    build.observe("warning: `b` (lib) generated 1 warning", 3);
    assert_eq!((build.errors, build.warnings), (0, 3));
}

/// Tests are summed over every test binary's closing line.
#[test]
fn test_counts_add_up_over_binaries() {
    let mut run = Activity::new(Kind::Test, 0);
    run.observe("test result: ok. 3 passed; 0 failed", 1);
    run.observe("test result: FAILED. 2 passed; 1 failed", 2);
    assert_eq!((run.passed, run.failed), (5, 1));
    let outcome = run.finish(Some(101), 50).expect("a test run has a verdict");
    assert!(!outcome.ok);
    assert_eq!((outcome.passed, outcome.failed), (5, 1));
}

#[test]
fn a_line_it_ignores_is_ignored_at_any_time() {
    let mut a = Activity::new(Kind::Flash, i64::MAX);
    assert!(a.observe("hello from main", i64::MIN).is_none());
    assert!(a.observe("I (952) boot: ESP-IDF", i64::MIN).is_none());
    assert_eq!(a.kind, Kind::Flash);
}

#[test]
fn counts_over_many_lines_never_go_down() {
    let mut a = Activity::new(Kind::Build, 0);
    a.observe("warning: `blinky` (bin \"blinky\") generated 3 warnings", 1);
    a.observe("warning: `blinky` (bin \"blinky\") generated 2 warnings", 2);
    assert_eq!(a.warnings, 3);
    a.observe("warning: `esp-hal` (lib) generated 1 warning", 3);
    assert_eq!(a.warnings, 4);
}
