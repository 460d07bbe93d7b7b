use rusty_ui::git::{
    abort_operation, checkout_args, checkout_branch, clone_repository, clone_target, commit,
    commit_file_sides, continue_operation, default_remote, delete_remote_branch, detail_file,
    diff_sides, discard, is_hash, open_clone_dialog, open_prompt, pick_remote, push, push_branch,
    push_current_to, push_tag, reveal_ref, select_step, set_identity, show_more, stash_apply,
    stash_save, submit_prompt, toggle_detail, Branch, CloneDraft, CommitBox, CommitCache,
    GitMode, GitOperation, ImageSource, LogView, PromptKind, PushStep, Remote, Submit, history_landed,
    open_git_panel, step_settled, HistoryLanded, after_stash_command, checkout_finished, close_prompt,
    push_after_remote,
};

fn names(list: &[&str]) -> Vec<String> {
    list.iter().map(|name| (*name).to_string()).collect()
}

/// Where a push goes: the upstream's remote, then `origin`, then any — and
/// nowhere at all when there is none.
#[test]
fn a_push_goes_to_the_remote_there_is_evidence_for() {
    assert_eq!(
        pick_remote(Some("fork/main"), &names(&["origin", "fork"])).as_deref(),
        Some("fork"),
        "the branch's own upstream decides first",
    );
    assert_eq!(
        pick_remote(Some("team/fw/main"), &names(&["team", "team/fw"])).as_deref(),
        Some("team/fw"),
        "the longest remote name that begins the upstream owns it",
    );
    assert_eq!(pick_remote(None, &names(&["upstream", "origin"])).as_deref(), Some("origin"));
    assert_eq!(pick_remote(None, &names(&["github"])).as_deref(), Some("github"));
    assert_eq!(pick_remote(None, &[]), None);
    assert_eq!(
        pick_remote(Some("origin/main"), &[]).as_deref(),
        Some("origin"),
        "an upstream is evidence of its remote before the list has arrived",
    );
}

fn checkout_cases() {
    assert_eq!(checkout_args("main", false, "main", true), ["checkout", "main"]);
    assert_eq!(
        checkout_args("origin/feature/x", true, "feature/x", true),
        ["checkout", "feature/x"],
        "the local branch of that name, when there is one"
    );
    assert_eq!(
        checkout_args("origin/feature/x", true, "feature/x", false),
        ["checkout", "--track", "origin/feature/x"],
        "a new one tracking it, when there is not — never a detached HEAD"
    );
}

#[test]
fn git_a_remote_branch_is_checked_out_through_a_local_one() {
    checkout_cases();
}

#[test]
fn mod_a_remote_branch_is_checked_out_through_a_local_one() {
    checkout_cases();
}

fn hash_cases() {
    assert!(is_hash("20d12f8de4db7a9000627bf3c1d8ca9ecc8500db"));
    assert!(!is_hash("20d12f8"), "a short hash can come to name two commits");
    assert!(!is_hash("stash@{0}"), "a stash's name moves with every push");
    assert!(!is_hash("HEAD"));
}

#[test]
fn git_only_a_full_hash_is_kept_as_a_name_for_one_content() {
    hash_cases();
}

#[test]
fn mod_only_a_full_hash_is_kept_as_a_name_for_one_content() {
    hash_cases();
}

fn branch(name: &str, local: &str, remote: bool, upstream: Option<&str>, remote_name: Option<&str>) -> Branch {
    Branch {
        name: name.to_string(),
        local_name: local.to_string(),
        remote,
        current: false,
        upstream: upstream.map(str::to_string),
        remote_name: remote_name.map(str::to_string),
    }
}

fn remote(name: &str) -> Remote {
    Remote { name: name.to_string(), url: format!("https://example.com/{name}.git") }
}

#[test]
fn a_remote_branch_is_checked_out_by_what_the_list_says() {
    let branches = vec![
        branch("main", "main", false, Some("origin/main"), None),
        branch("origin/feature/x", "feature/x", true, None, Some("origin")),
        branch("feature/x", "feature/x", false, None, None),
    ];
    assert_eq!(checkout_branch("origin/feature/x", true, &branches), ["checkout", "feature/x"]);
    assert_eq!(checkout_branch("main", false, &branches), ["checkout", "main"]);
    let only_remote = vec![branch("origin/y", "y", true, None, Some("origin"))];
    assert_eq!(checkout_branch("origin/y", true, &only_remote), ["checkout", "--track", "origin/y"]);
    assert_eq!(delete_remote_branch("origin/y", &only_remote), ["push", "origin", "--delete", "y"]);
    assert_eq!(delete_remote_branch("gone", &only_remote), ["push", "origin", "--delete", "gone"]);
}

/// Remote-tracking branches are evidence of a remote the config has not
/// been read for yet.
#[test]
fn the_default_remote_counts_the_branches_too() {
    let branches = vec![branch("fork/main", "main", true, None, Some("fork"))];
    assert_eq!(default_remote(None, &[], &branches).as_deref(), Some("fork"));
    assert_eq!(default_remote(None, &[remote("github")], &branches).as_deref(), Some("github"));
    assert_eq!(default_remote(None, &[], &[]), None);
}

#[test]
fn a_push_without_a_remote_asks_for_one() {
    match push(Some("main"), None, &[], &[]) {
        PushStep::AskForRemote { push } => assert!(push),
        PushStep::Run(_) => panic!("there is nowhere to push"),
    }
    match push(Some("main"), None, &[remote("origin")], &[]) {
        PushStep::Run(args) => assert_eq!(args, ["push", "-u", "origin", "main"]),
        _ => panic!("origin is there"),
    }
    match push(Some("main"), Some("origin/main"), &[], &[]) {
        PushStep::Run(args) => assert_eq!(args, ["push"]),
        _ => panic!("an upstream is enough"),
    }
    assert_eq!(push_current_to("origin", None, None), ["push"]);
}

#[test]
fn a_branch_is_pushed_to_its_own_upstream() {
    let branches = vec![
        branch("topic", "topic", false, Some("fork/topic"), None),
        branch("fresh", "fresh", false, None, None),
    ];
    match push_branch("topic", None, &[remote("origin")], &branches) {
        PushStep::Run(args) => assert_eq!(args, ["push", "fork", "topic"]),
        _ => panic!("it has an upstream"),
    }
    match push_branch("fresh", None, &[remote("origin")], &branches) {
        PushStep::Run(args) => assert_eq!(args, ["push", "-u", "origin", "fresh"]),
        _ => panic!("origin is there"),
    }
    match push_branch("fresh", None, &[], &[]) {
        PushStep::AskForRemote { push } => assert!(!push),
        _ => panic!("nowhere to push"),
    }
    match push_tag("v1.0", None, &[remote("origin")], &[]) {
        PushStep::Run(args) => assert_eq!(args, ["push", "origin", "refs/tags/v1.0"]),
        _ => panic!("origin is there"),
    }
}

#[test]
fn each_stopped_operation_has_its_way_on_and_back() {
    assert_eq!(continue_operation(Some(GitOperation::Merge)).unwrap(), ["commit", "--no-edit"]);
    assert_eq!(continue_operation(Some(GitOperation::Rebase)).unwrap(), ["rebase", "--continue"]);
    assert_eq!(continue_operation(None), None);
    assert_eq!(abort_operation(Some(GitOperation::CherryPick)).unwrap(), ["cherry-pick", "--abort"]);
    assert_eq!(abort_operation(None), None);
}

#[test]
fn a_file_is_discarded_back_to_where_it_came_from() {
    assert_eq!(discard("a.rs", false, true), ["clean", "-f", "--", "a.rs"]);
    assert_eq!(
        discard("a.rs", true, false),
        ["restore", "--source=HEAD", "--staged", "--worktree", "--", "a.rs"]
    );
    assert_eq!(discard("a.rs", false, false), ["restore", "--", "a.rs"]);
    assert_eq!(stash_apply(3), ["stash", "apply", "stash@{3}"]);
}

#[test]
fn the_identity_goes_everywhere_unless_local() {
    let (name, email) = set_identity("Ada", "ada@example.com", false);
    assert_eq!(name, ["config", "--global", "user.name", "Ada"]);
    assert_eq!(email, ["config", "--global", "user.email", "ada@example.com"]);
    let (name, _) = set_identity("Ada", "ada@example.com", true);
    assert_eq!(name, ["config", "user.name", "Ada"]);
}

#[test]
fn a_commit_needs_a_message_unless_it_amends() {
    let mut b = CommitBox { message: "  ".to_string(), amend: false, stash_note: String::new() };
    assert_eq!(commit(&b, None), None);
    b.amend = true;
    assert_eq!(commit(&b, None).unwrap(), ["commit", "--amend", "--no-edit"]);
    b.message = "fix\n\nthe long story".to_string();
    assert_eq!(commit(&b, Some(true)).unwrap(), ["commit", "--amend", "-m", "fix\n\nthe long story"]);
    assert_eq!(commit(&b, Some(false)), None, "no author, no commit");
    b.stash_note = "wip".to_string();
    assert_eq!(stash_save(&b), ["stash", "push", "--include-untracked", "-m", "wip"]);
}

fn log() -> LogView {
    LogView {
        mode: GitMode::Changes,
        rev: None,
        limit: 4000,
        selected: None,
        reveal: None,
        detail_hidden: false,
        split: false,
    }
}

#[test]
fn more_history_doubles_up_to_the_cap() {
    let mut l = log();
    show_more(&mut l);
    assert_eq!(l.limit, 8000);
    show_more(&mut l);
    assert_eq!(l.limit, 10000);
    toggle_detail(&mut l);
    assert!(l.detail_hidden);
}

#[test]
fn the_arrows_walk_the_log_and_stop_at_its_ends() {
    let rows = names(&["c3", "c2", "c1"]);
    let mut l = log();
    assert_eq!(select_step(&mut l, &rows, 1).as_deref(), Some("c3"), "nothing selected: the first row");
    assert_eq!(select_step(&mut l, &rows, 1).as_deref(), Some("c2"));
    assert_eq!(l.reveal.as_deref(), Some("c2"));
    assert_eq!(select_step(&mut l, &rows, 5).as_deref(), Some("c1"));
    assert_eq!(select_step(&mut l, &rows, 1), None, "already at the end");
    assert_eq!(select_step(&mut l, &rows, -9).as_deref(), Some("c3"));
    assert_eq!(select_step(&mut l, &[], 1), None);
    // Any step, however large, is held to the log.
    assert_eq!(select_step(&mut l, &rows, i64::MAX).as_deref(), Some("c1"));
    assert_eq!(select_step(&mut l, &rows, i64::MIN).as_deref(), Some("c3"));
    // Opened after the pause only while it is still the selection.
    assert!(step_settled(&l, "c3"));
    assert!(!step_settled(&l, "c1"));
}

#[test]
fn a_tip_outside_the_log_filters_it() {
    let rows = names(&["c3", "c2"]);
    let mut l = log();
    assert!(!reveal_ref(&mut l, "c2", Some("main".to_string()), &rows));
    assert_eq!(l.mode, GitMode::History);
    assert_eq!(l.selected.as_deref(), Some("c2"));
    assert!(reveal_ref(&mut l, "c9", Some("topic".to_string()), &rows));
    assert_eq!(l.rev.as_deref(), Some("topic"));
}

#[test]
fn an_opened_commit_keeps_the_file_that_was_showing() {
    let files = names(&["a.rs", "b.rs"]);
    assert_eq!(detail_file(Some("b.rs"), &files).as_deref(), Some("b.rs"));
    assert_eq!(detail_file(Some("z.rs"), &files).as_deref(), Some("a.rs"));
    assert_eq!(detail_file(None, &[]), None);
}

#[test]
fn the_commit_cache_keeps_the_newest_once() {
    let mut cache: CommitCache<u32> = CommitCache::new();
    for n in 0..40u32 {
        cache.remember(format!("{n:040}"), n);
    }
    assert_eq!(cache.entries.len(), 32);
    assert_eq!(cache.cached(&format!("{:040}", 39)), Some(&39));
    assert_eq!(cache.cached(&format!("{:040}", 0)), None, "the oldest went");
    cache.remember(format!("{:040}", 20), 99);
    assert_eq!(cache.entries.len(), 32);
    assert_eq!(cache.entries[0].detail, 99);
    assert_eq!(cache.cached(&format!("{:040}", 20)), Some(&99));
}

#[test]
fn image_sides_follow_the_change() {
    let (old, new) = diff_sides(true, false);
    assert!(matches!(old, Some(ImageSource::Rev(r)) if r == "HEAD"));
    assert!(matches!(new, Some(ImageSource::Rev(r)) if r == ":0"));
    let (old, new) = diff_sides(false, true);
    assert!(old.is_none());
    assert!(matches!(new, Some(ImageSource::Worktree)));
    let (old, new) = commit_file_sides(false, true, Some("p1"), "c9");
    assert!(matches!(old, Some(ImageSource::Rev(r)) if r == "p1"));
    assert!(new.is_none());
}

#[test]
fn a_clone_lands_beside_the_folder_it_was_pointed_at() {
    assert_eq!(clone_target("/home/me/", "blinky"), "/home/me/blinky");
    assert_eq!(clone_target("C:\\work\\", "blinky"), "C:\\work\\blinky");
    let mut draft: Option<CloneDraft> = None;
    open_clone_dialog(&mut draft);
    assert_eq!(clone_repository(&mut draft, Some("blinky")), None, "no folder yet");
    draft.as_mut().unwrap().into = Some("/w".to_string());
    assert_eq!(clone_repository(&mut draft, Some("blinky")).as_deref(), Some("/w/blinky"));
    assert!(draft.as_ref().unwrap().running);
    assert_eq!(clone_repository(&mut draft, Some("blinky")), None, "one clone at a time");
}

#[test]
fn the_name_field_opens_with_what_it_changes() {
    let remotes = vec![remote("upstream")];
    let p = open_prompt(PromptKind::Remote { push: true }, &remotes);
    assert_eq!(p.value, "origin");
    let p = open_prompt(PromptKind::Remote { push: true }, &[remote("origin")]);
    assert_eq!(p.value, "");
    let p = open_prompt(PromptKind::RemoteUrl { name: "upstream".to_string() }, &remotes);
    assert_eq!(p.value, "https://example.com/upstream.git");
    let mut p = open_prompt(PromptKind::Rename { from: "old".to_string() }, &remotes);
    assert_eq!(p.value, "old");
    assert!(matches!(submit_prompt(&p, false), Submit::Nothing), "a rename to the same name");
    p.value = " new ".to_string();
    match submit_prompt(&p, false) {
        Submit::Run(args) => assert_eq!(args, ["branch", "-m", "old", "new"]),
        _ => panic!("a rename"),
    }
    assert!(matches!(submit_prompt(&p, true), Submit::Nothing), "a refused value is not sent");
    let mut p = open_prompt(PromptKind::Remote { push: true }, &[]);
    p.url = " https://example.com/x.git ".to_string();
    match submit_prompt(&p, false) {
        Submit::AddRemote { args, name, push } => {
            assert_eq!(args, ["remote", "add", "--", "origin", "https://example.com/x.git"]);
            assert_eq!(name, "origin");
            assert!(push);
        },
        _ => panic!("a remote"),
    }
}

#[test]
fn a_log_answer_for_what_is_no_longer_asked_is_dropped_and_asked_again() {
    let mut view = log();
    assert_eq!(history_landed(&view, None, 4000, false), HistoryLanded { apply: true, again: false });
    assert_eq!(history_landed(&view, None, 4000, true), HistoryLanded { apply: true, again: true });
    assert_eq!(history_landed(&view, None, 2000, false), HistoryLanded { apply: false, again: true });
    view.rev = Some("main".to_string());
    assert_eq!(history_landed(&view, None, 4000, false), HistoryLanded { apply: false, again: true });
    assert_eq!(history_landed(&view, Some("main"), 4000, false), HistoryLanded { apply: true, again: false });
}

#[test]
fn a_panel_shown_before_is_only_probed() {
    assert!(open_git_panel(Some("/p"), "/p", true));
    assert!(!open_git_panel(Some("/p"), "/p", false));
    assert!(!open_git_panel(Some("/p"), "/q", true));
    assert!(!open_git_panel(None, "/p", true));
}

#[test]
fn a_branch_is_pushed_to_the_longest_remote_that_owns_its_upstream() {
    let branches = vec![branch("fw-work", "fw-work", false, Some("team/fw/main"), None)];
    match push_branch("fw-work", None, &[remote("team"), remote("team/fw")], &branches) {
        PushStep::Run(args) => assert_eq!(args, ["push", "team/fw", "fw-work"]),
        _ => panic!("it has an upstream"),
    }
}

#[test]
fn what_follows_a_checkout_a_stash_and_a_new_remote() {
    let mut view = log();
    view.rev = Some("main".to_string());
    view.selected = Some("c1".to_string());
    checkout_finished(&mut view);
    assert_eq!(view.rev, None);
    assert_eq!(view.selected.as_deref(), Some("c1"));
    let mut detail = Some("commit c1");
    after_stash_command(&mut view, &mut detail);
    assert_eq!(view.selected, None);
    assert_eq!(detail, None);
    assert!(push_after_remote(true, Some(0)));
    assert!(!push_after_remote(true, Some(128)));
    assert!(!push_after_remote(true, None));
    assert!(!push_after_remote(false, Some(0)));
}

#[test]
fn a_submitted_field_closes_unless_refused() {
    let mut prompt = Some(open_prompt(PromptKind::Tag { at: "c1".to_string() }, &[]));
    close_prompt(&mut prompt, true);
    assert!(prompt.is_some());
    close_prompt(&mut prompt, false);
    assert!(prompt.is_none());
}
