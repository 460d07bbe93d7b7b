//! The repository panel's decisions: which `git` line each button runs,
//! where a push goes, what a prompt starts with, and how the history pane
//! moves through the log.
//!
//! Reads and writes of the repository are the caller's: these functions
//! say what to run and what the panel shows, given what was read.

use vstd::prelude::*;

use crate::text::{
    chars_of, concat, decimal, decimal_of, find, find_in, is_blank, joined, owned, same,
    same_text, slice_of, starts_with, string_of, text_of, texts, trim, trim_text,
};

verus! {

// ---------------------------------------------------------------------------
// Command lines
// ---------------------------------------------------------------------------

/// The words of a command line, one string each.
fn words(parts: &[&str]) -> (out: Vec<String>)
    ensures
        texts(out@) == parts@.map_values(|p: &str| p@),
{
    let mut out: Vec<String> = Vec::new();
    let mut i: usize = 0;
    while i < parts.len()
        invariant
            i <= parts.len(),
            texts(out@) == parts@.take(i as int).map_values(|p: &str| p@),
        decreases parts.len() - i,
    {
        let ghost before = out@;
        let word = owned(parts[i]);
        out.push(word);
        proof {
            assert(parts@.take(i + 1) =~= parts@.take(i as int).push(parts@[i as int]));
            assert(texts(out@) =~= texts(before).push(parts@[i as int]@));
        }
        i = i + 1;
    }
    assert(parts@.take(parts.len() as int) =~= parts@);
    out
}

/// `line` with `word` added at its end.
fn push_word(line: &mut Vec<String>, word: &str)
    ensures
        texts(final(line)@) == texts(old(line)@).push(word@),
{
    line.push(owned(word));
    assert(texts(final(line)@) =~= texts(old(line)@).push(word@));
}

/// Check a commit or a tag out: a detached HEAD, said so in the dock.
pub fn checkout_commit(id: &str) -> (args: Vec<String>)
    ensures
        texts(args@) == seq!["checkout"@, "--detach"@, id@],
{
    let args = words(&["checkout", "--detach", id]);
    assert(texts(args@) =~= seq!["checkout"@, "--detach"@, id@]);
    args
}

/// Apply one commit's change on top of the current branch.
pub fn cherry_pick(id: &str) -> (args: Vec<String>)
    ensures
        texts(args@) == seq!["cherry-pick"@, id@],
{
    let args = words(&["cherry-pick", id]);
    assert(texts(args@) =~= seq!["cherry-pick"@, id@]);
    args
}

/// A new commit undoing an old one, with git's own message: an editor
/// would open on a terminal nobody is watching.
pub fn revert_commit(id: &str) -> (args: Vec<String>)
    ensures
        texts(args@) == seq!["revert"@, "--no-edit"@, id@],
{
    let args = words(&["revert", "--no-edit", id]);
    assert(texts(args@) =~= seq!["revert"@, "--no-edit"@, id@]);
    args
}

/// Merge a branch into the one checked out, with git's own message.
pub fn merge_into_current(name: &str) -> (args: Vec<String>)
    ensures
        texts(args@) == seq!["merge"@, "--no-edit"@, name@],
{
    let args = words(&["merge", "--no-edit", name]);
    assert(texts(args@) =~= seq!["merge"@, "--no-edit"@, name@]);
    args
}

/// Rebase the branch checked out onto another.
pub fn rebase_onto(name: &str) -> (args: Vec<String>)
    ensures
        texts(args@) == seq!["rebase"@, name@],
{
    let args = words(&["rebase", name]);
    assert(texts(args@) =~= seq!["rebase"@, name@]);
    args
}

/// Delete a local branch the safe way: `-d` refuses one whose work is not
/// merged anywhere.
pub fn delete_branch(name: &str) -> (args: Vec<String>)
    ensures
        texts(args@) == seq!["branch"@, "-d"@, name@],
{
    let args = words(&["branch", "-d", name]);
    assert(texts(args@) =~= seq!["branch"@, "-d"@, name@]);
    args
}

/// Delete a tag here; a pushed one stays on its remote.
pub fn delete_tag(name: &str) -> (args: Vec<String>)
    ensures
        texts(args@) == seq!["tag"@, "-d"@, name@],
{
    let args = words(&["tag", "-d", name]);
    assert(texts(args@) =~= seq!["tag"@, "-d"@, name@]);
    args
}

/// Fetch one remote, dropping the branches it no longer has.
pub fn fetch_remote(name: &str) -> (args: Vec<String>)
    ensures
        texts(args@) == seq!["fetch"@, "--prune"@, "--"@, name@],
{
    let args = words(&["fetch", "--prune", "--", name]);
    assert(texts(args@) =~= seq!["fetch"@, "--prune"@, "--"@, name@]);
    args
}

/// Remove a remote: this repository's copies of its branches go with it.
pub fn remove_remote(name: &str) -> (args: Vec<String>)
    ensures
        texts(args@) == seq!["remote"@, "remove"@, "--"@, name@],
{
    let args = words(&["remote", "remove", "--", name]);
    assert(texts(args@) =~= seq!["remote"@, "remove"@, "--"@, name@]);
    args
}

/// Fetch every remote.
pub fn fetch() -> (args: Vec<String>)
    ensures
        texts(args@) == seq!["fetch"@, "--all"@, "--prune"@],
{
    let args = words(&["fetch", "--all", "--prune"]);
    assert(texts(args@) =~= seq!["fetch"@, "--all"@, "--prune"@]);
    args
}

/// Pull into the branch checked out.
pub fn pull() -> (args: Vec<String>)
    ensures
        texts(args@) == seq!["pull"@],
{
    let args = words(&["pull"]);
    assert(texts(args@) =~= seq!["pull"@]);
    args
}

/// Start keeping history in the project.
pub fn git_init() -> (args: Vec<String>)
    ensures
        texts(args@) == seq!["init"@],
{
    let args = words(&["init"]);
    assert(texts(args@) =~= seq!["init"@]);
    args
}

/// One file into a stash, index and tree both, untracked included.
pub fn stash_file(path: &str) -> (args: Vec<String>)
    ensures
        texts(args@) == seq!["stash"@, "push"@, "--include-untracked"@, "--"@, path@],
{
    let args = words(&["stash", "push", "--include-untracked", "--", path]);
    assert(texts(args@) =~= seq!["stash"@, "push"@, "--include-untracked"@, "--"@, path@]);
    args
}

/// Throw a file's changes away: an untracked file is deleted, a staged one
/// goes back to the last commit in index and tree, an unstaged one goes
/// back to the index.
pub fn discard(path: &str, staged: bool, untracked: bool) -> (args: Vec<String>)
    ensures
        texts(args@) == (if untracked {
            seq!["clean"@, "-f"@, "--"@, path@]
        } else if staged {
            seq!["restore"@, "--source=HEAD"@, "--staged"@, "--worktree"@, "--"@, path@]
        } else {
            seq!["restore"@, "--"@, path@]
        }),
{
    if untracked {
        let args = words(&["clean", "-f", "--", path]);
        assert(texts(args@) =~= seq!["clean"@, "-f"@, "--"@, path@]);
        args
    } else if staged {
        let args = words(&["restore", "--source=HEAD", "--staged", "--worktree", "--", path]);
        assert(texts(args@) =~= seq![
            "restore"@,
            "--source=HEAD"@,
            "--staged"@,
            "--worktree"@,
            "--"@,
            path@,
        ]);
        args
    } else {
        let args = words(&["restore", "--", path]);
        assert(texts(args@) =~= seq!["restore"@, "--"@, path@]);
        args
    }
}

/// The name a stash has in a command: `stash@{index}`.
pub open spec fn stash_name(index: u32) -> Seq<char> {
    "stash@{"@ + decimal(index as nat) + "}"@
}

/// A verb on the stash at `index`.
fn stash_command(verb: &str, index: u32) -> (args: Vec<String>)
    ensures
        texts(args@) == seq!["stash"@, verb@, stash_name(index)],
{
    let number = decimal_of(index as u64);
    let opening = chars_of("stash@{");
    let closing = chars_of("}");
    let name = string_of(&joined(&joined(&opening, &number), &closing));
    assert(name@ == stash_name(index));
    let mut args = words(&["stash", verb]);
    let ghost before = args@;
    args.push(name);
    assert(texts(args@) =~= texts(before).push(stash_name(index)));
    assert(texts(args@) =~= seq!["stash"@, verb@, stash_name(index)]);
    args
}

/// Apply a stash and keep it.
pub fn stash_apply(index: u32) -> (args: Vec<String>)
    ensures
        texts(args@) == seq!["stash"@, "apply"@, stash_name(index)],
{
    stash_command("apply", index)
}

/// Apply a stash and drop it.
pub fn stash_pop(index: u32) -> (args: Vec<String>)
    ensures
        texts(args@) == seq!["stash"@, "pop"@, stash_name(index)],
{
    stash_command("pop", index)
}

/// Drop a stash.
pub fn stash_drop(index: u32) -> (args: Vec<String>)
    ensures
        texts(args@) == seq!["stash"@, "drop"@, stash_name(index)],
{
    stash_command("drop", index)
}

/// The operation a repository stopped halfway through.
#[derive(Clone, Copy, PartialEq, Eq, Debug, Structural)]
pub enum GitOperation {
    Merge,
    Rebase,
    CherryPick,
    Revert,
}

/// Carry on with the operation that stopped, once its conflicts are
/// resolved and staged; nothing when none did.
pub fn continue_operation(operation: Option<GitOperation>) -> (args: Option<Vec<String>>)
    ensures
        match operation {
            None => args is None,
            Some(op) => args matches Some(a) && texts(a@) == match op {
                GitOperation::Merge => seq!["commit"@, "--no-edit"@],
                GitOperation::Rebase => seq!["rebase"@, "--continue"@],
                GitOperation::CherryPick => seq!["cherry-pick"@, "--continue"@],
                GitOperation::Revert => seq!["revert"@, "--continue"@],
            },
        },
{
    match operation {
        Some(GitOperation::Merge) => {
            let a = words(&["commit", "--no-edit"]);
            assert(texts(a@) =~= seq!["commit"@, "--no-edit"@]);
            Some(a)
        },
        Some(GitOperation::Rebase) => {
            let a = words(&["rebase", "--continue"]);
            assert(texts(a@) =~= seq!["rebase"@, "--continue"@]);
            Some(a)
        },
        Some(GitOperation::CherryPick) => {
            let a = words(&["cherry-pick", "--continue"]);
            assert(texts(a@) =~= seq!["cherry-pick"@, "--continue"@]);
            Some(a)
        },
        Some(GitOperation::Revert) => {
            let a = words(&["revert", "--continue"]);
            assert(texts(a@) =~= seq!["revert"@, "--continue"@]);
            Some(a)
        },
        None => None,
    }
}

/// The verb of an operation, as git spells it.
pub open spec fn operation_verb(op: GitOperation) -> Seq<char> {
    match op {
        GitOperation::Merge => "merge"@,
        GitOperation::Rebase => "rebase"@,
        GitOperation::CherryPick => "cherry-pick"@,
        GitOperation::Revert => "revert"@,
    }
}

/// Go back to before the operation started; nothing when none is under way.
pub fn abort_operation(operation: Option<GitOperation>) -> (args: Option<Vec<String>>)
    ensures
        match operation {
            None => args is None,
            Some(op) => args matches Some(a) && texts(a@) == seq![operation_verb(op), "--abort"@],
        },
{
    let verb = match operation {
        Some(GitOperation::Merge) => "merge",
        Some(GitOperation::Rebase) => "rebase",
        Some(GitOperation::CherryPick) => "cherry-pick",
        Some(GitOperation::Revert) => "revert",
        None => {
            return None;
        },
    };
    let a = words(&[verb, "--abort"]);
    assert(texts(a@) =~= seq![verb@, "--abort"@]);
    Some(a)
}

/// `git config user.name` and then `user.email`: for every repository
/// unless `local`.
pub fn set_identity(name: &str, email: &str, local: bool) -> (lines: (Vec<String>, Vec<String>))
    ensures
        texts(lines.0@) == (if local {
            seq!["config"@, "user.name"@, name@]
        } else {
            seq!["config"@, "--global"@, "user.name"@, name@]
        }),
        texts(lines.1@) == (if local {
            seq!["config"@, "user.email"@, email@]
        } else {
            seq!["config"@, "--global"@, "user.email"@, email@]
        }),
{
    if local {
        let a = words(&["config", "user.name", name]);
        let b = words(&["config", "user.email", email]);
        assert(texts(a@) =~= seq!["config"@, "user.name"@, name@]);
        assert(texts(b@) =~= seq!["config"@, "user.email"@, email@]);
        (a, b)
    } else {
        let a = words(&["config", "--global", "user.name", name]);
        let b = words(&["config", "--global", "user.email", email]);
        assert(texts(a@) =~= seq!["config"@, "--global"@, "user.name"@, name@]);
        assert(texts(b@) =~= seq!["config"@, "--global"@, "user.email"@, email@]);
        (a, b)
    }
}

// ---------------------------------------------------------------------------
// Names
// ---------------------------------------------------------------------------

/// A hexadecimal digit, either case.
pub open spec fn is_hex(c: char) -> bool {
    ('0' <= c && c <= '9') || ('a' <= c && c <= 'f') || ('A' <= c && c <= 'F')
}

/// A full hash: forty or sixty-four hexadecimal digits.
pub open spec fn is_full_hash(id: Seq<char>) -> bool {
    (id.len() == 40 || id.len() == 64) && forall|k: int| 0 <= k < id.len() ==> is_hex(#[trigger] id[k])
}

/// Whether a name is a full hash, which names one content for ever — the
/// only kind of name an opened commit is kept under. `stash@{0}` names a
/// different stash after every push or pop.
pub fn is_hash(id: &str) -> (b: bool)
    ensures
        b == is_full_hash(id@),
{
    let chars = chars_of(id);
    if chars.len() != 40 && chars.len() != 64 {
        return false;
    }
    let mut k: usize = 0;
    while k < chars.len()
        invariant
            k <= chars.len(),
            chars@ == id@,
            forall|j: int| 0 <= j < k ==> is_hex(#[trigger] chars@[j]),
        decreases chars.len() - k,
    {
        let c = chars[k];
        if !(('0' <= c && c <= '9') || ('a' <= c && c <= 'f') || ('A' <= c && c <= 'F')) {
            return false;
        }
        k = k + 1;
    }
    true
}


// ---------------------------------------------------------------------------
// Remotes
// ---------------------------------------------------------------------------

/// A remote the repository's config names.
pub struct Remote {
    pub name: String,
    pub url: String,
}

/// A branch as the panel lists it. `local_name` is the name a local branch
/// of it has: the name itself for a local one, the name without its
/// remote for a remote-tracking one.
pub struct Branch {
    pub name: String,
    pub local_name: String,
    pub remote: bool,
    pub current: bool,
    pub upstream: Option<String>,
    pub remote_name: Option<String>,
}

/// The characters of a string slice that may be missing.
pub open spec fn str_of(o: Option<&str>) -> Option<Seq<char>> {
    match o {
        Some(s) => Some(s@),
        None => None,
    }
}

/// Whether the remote `name` owns the remote-tracking name `upstream`: it
/// begins it, followed by a `/`.
pub open spec fn owns(name: Seq<char>, upstream: Seq<char>) -> bool {
    &&& name.len() < upstream.len()
    &&& name.is_prefix_of(upstream)
    &&& upstream[name.len() as int] == '/'
}

/// The longest known name that owns `upstream`: a remote may be called
/// `team` and another `team/fw`, and `team/fw/main` is the second's.
pub open spec fn is_owner_of(known: Seq<Seq<char>>, upstream: Seq<char>, o: Seq<char>) -> bool {
    &&& known.contains(o)
    &&& owns(o, upstream)
    &&& forall|k: int|
        0 <= k < known.len() && owns(#[trigger] known[k], upstream) ==> known[k].len() <= o.len()
}

/// What comes before the first `/`, or all of it when there is none: the
/// first piece `split('/')` yields.
pub open spec fn first_segment(s: Seq<char>) -> Seq<char> {
    match find(s, "/"@) {
        Some(i) => s.take(i),
        None => s,
    }
}

/// The remote a push or a new upstream goes to. With an upstream, the
/// known remote that owns it, or else the upstream's first segment; with
/// none, `origin`, or else the first known remote; `None` when nothing is
/// known.
pub open spec fn remote_for(upstream: Option<Seq<char>>, known: Seq<Seq<char>>) -> Option<Seq<char>> {
    match upstream {
        Some(u) => if exists|o: Seq<char>| is_owner_of(known, u, o) {
            Some(choose|o: Seq<char>| is_owner_of(known, u, o))
        } else {
            Some(first_segment(u))
        },
        None => if known.contains("origin"@) {
            Some("origin"@)
        } else if known.len() > 0 {
            Some(known[0])
        } else {
            None
        },
    }
}

/// Two longest owners are the same name.
pub proof fn lemma_owner_unique(known: Seq<Seq<char>>, upstream: Seq<char>, a: Seq<char>, b: Seq<char>)
    requires
        is_owner_of(known, upstream, a),
        is_owner_of(known, upstream, b),
    ensures
        a == b,
{
    let ka = choose|k: int| 0 <= k < known.len() && known[k] == a;
    let kb = choose|k: int| 0 <= k < known.len() && known[k] == b;
    assert(known[ka].len() <= b.len());
    assert(known[kb].len() <= a.len());
    assert(a =~= upstream.subrange(0, a.len() as int));
    assert(b =~= upstream.subrange(0, b.len() as int));
}

fn owns_exec(name: &Vec<char>, upstream: &Vec<char>) -> (b: bool)
    ensures
        b == owns(name@, upstream@),
{
    name.len() < upstream.len() && starts_with(upstream, name) && upstream[name.len()] == '/'
}

/// Whether a list holds a string.
fn holds(list: &[String], s: &str) -> (b: bool)
    ensures
        b == texts(list@).contains(s@),
{
    let mut i: usize = 0;
    while i < list.len()
        invariant
            i <= list.len(),
            forall|k: int| 0 <= k < i ==> list@[k]@ != s@,
        decreases list.len() - i,
    {
        if same_text(list[i].as_str(), s) {
            assert(texts(list@)[i as int] == s@);
            return true;
        }
        i = i + 1;
    }
    assert forall|k: int| 0 <= k < texts(list@).len() implies texts(list@)[k] != s@ by {
        assert(texts(list@)[k] == list@[k]@);
    }
    false
}

fn first_segment_of(u: &str) -> (out: String)
    ensures
        out@ == first_segment(u@),
{
    let chars = chars_of(u);
    let slash = chars_of("/");
    match find_in(&chars, &slash) {
        Some(i) => {
            let head = slice_of(&chars, 0, i);
            assert(head@ =~= u@.take(i as int));
            string_of(&head)
        },
        None => string_of(&chars),
    }
}

/// The remote a push or a new upstream goes to — `None` when the
/// repository has none, which is the case a push has to stop and ask
/// about. `known` is every remote name there is evidence of.
pub fn pick_remote(upstream: Option<&str>, known: &[String]) -> (r: Option<String>)
    ensures
        text_of(r) == remote_for(str_of(upstream), texts(known@)),
{
    let ghost names = texts(known@);
    match upstream {
        Some(u) => {
            let up = chars_of(u);
            let mut best: Option<usize> = None;
            let mut i: usize = 0;
            while i < known.len()
                invariant
                    up@ == u@,
                    i <= known.len(),
                    names == texts(known@),
                    best matches Some(b) ==> {
                        &&& b < i
                        &&& owns(names[b as int], u@)
                        &&& forall|k: int|
                            0 <= k < i && owns(#[trigger] names[k], u@) ==> names[k].len()
                                <= names[b as int].len()
                    },
                    best is None ==> forall|k: int| 0 <= k < i ==> !owns(#[trigger] names[k], u@),
                decreases known.len() - i,
            {
                let name = chars_of(known[i].as_str());
                assert(names[i as int] == name@);
                if owns_exec(&name, &up) {
                    let better = match best {
                        Some(b) => chars_of(known[b].as_str()).len() <= name.len(),
                        None => true,
                    };
                    if better {
                        best = Some(i);
                    }
                }
                i = i + 1;
            }
            match best {
                Some(b) => {
                    let out = owned(known[b].as_str());
                    proof {
                        assert(names[b as int] == known@[b as int]@);
                        assert(is_owner_of(names, u@, out@));
                        let c = choose|o: Seq<char>| is_owner_of(names, u@, o);
                        lemma_owner_unique(names, u@, out@, c);
                    }
                    Some(out)
                },
                None => {
                    proof {
                        assert forall|o: Seq<char>| !is_owner_of(names, u@, o) by {
                            if is_owner_of(names, u@, o) {
                                let k = choose|k: int| 0 <= k < names.len() && names[k] == o;
                                assert(!owns(names[k], u@));
                            }
                        }
                    }
                    Some(first_segment_of(u))
                },
            }
        },
        None => {
            if holds(known, "origin") {
                Some(owned("origin"))
            } else if known.len() > 0 {
                Some(owned(known[0].as_str()))
            } else {
                None
            }
        },
    }
}

/// The names of the remotes, in order.
pub open spec fn remote_names(remotes: Seq<Remote>) -> Seq<Seq<char>> {
    remotes.map_values(|r: Remote| r.name@)
}

/// Every remote name there is evidence of: the config's, then each one a
/// remote-tracking branch names that the config does not.
pub open spec fn known_remotes(remotes: Seq<Remote>, branches: Seq<Branch>) -> Seq<Seq<char>>
    decreases branches.len(),
{
    if branches.len() == 0 {
        remote_names(remotes)
    } else {
        let before = known_remotes(remotes, branches.drop_last());
        match branches.last().remote_name {
            Some(n) => if before.contains(n@) {
                before
            } else {
                before.push(n@)
            },
            None => before,
        }
    }
}

fn gather_remotes(remotes: &[Remote], branches: &[Branch]) -> (known: Vec<String>)
    ensures
        texts(known@) == known_remotes(remotes@, branches@),
{
    let mut known: Vec<String> = Vec::new();
    let mut i: usize = 0;
    while i < remotes.len()
        invariant
            i <= remotes.len(),
            texts(known@) == remote_names(remotes@.take(i as int)),
        decreases remotes.len() - i,
    {
        let ghost before = known@;
        known.push(owned(remotes[i].name.as_str()));
        proof {
            assert(texts(known@) =~= texts(before).push(remotes@[i as int].name@));
            assert(remotes@.take(i + 1) =~= remotes@.take(i as int).push(remotes@[i as int]));
            assert(texts(known@) =~= remote_names(remotes@.take(i + 1)));
        }
        i = i + 1;
    }
    assert(remotes@.take(remotes.len() as int) =~= remotes@);
    assert(known_remotes(remotes@, branches@.take(0)) == remote_names(remotes@));
    let mut j: usize = 0;
    while j < branches.len()
        invariant
            j <= branches.len(),
            texts(known@) == known_remotes(remotes@, branches@.take(j as int)),
        decreases branches.len() - j,
    {
        proof {
            assert(branches@.take(j + 1).drop_last() =~= branches@.take(j as int));
            assert(branches@.take(j + 1).last() == branches@[j as int]);
        }
        match &branches[j].remote_name {
            Some(n) => {
                if !holds(&known, n.as_str()) {
                    let ghost before = known@;
                    known.push(owned(n.as_str()));
                    assert(texts(known@) =~= texts(before).push(n@));
                }
            },
            None => {},
        }
        j = j + 1;
    }
    assert(branches@.take(branches.len() as int) =~= branches@);
    known
}

/// The remote a push goes to when the branch names none: the owner of the
/// status's upstream, `origin`, or the first remote there is evidence of.
pub fn default_remote(upstream: Option<&str>, remotes: &[Remote], branches: &[Branch]) -> (r: Option<String>)
    ensures
        text_of(r) == remote_for(str_of(upstream), known_remotes(remotes@, branches@)),
{
    let known = gather_remotes(remotes, branches);
    pick_remote(upstream, &known)
}

// ---------------------------------------------------------------------------
// Branches
// ---------------------------------------------------------------------------

/// The arguments that check out `name`: a local branch by name; a remote
/// one through the local branch of the same name when there is one, and a
/// new local branch tracking it otherwise — never a detached HEAD.
pub open spec fn checkout_line(name: Seq<char>, remote: bool, local: Seq<char>, local_exists: bool) -> Seq<Seq<char>> {
    if !remote {
        seq!["checkout"@, name]
    } else if local_exists {
        seq!["checkout"@, local]
    } else {
        seq!["checkout"@, "--track"@, name]
    }
}

/// The arguments that check out `name`.
pub fn checkout_args(name: &str, remote: bool, local: &str, local_exists: bool) -> (args: Vec<String>)
    ensures
        texts(args@) == checkout_line(name@, remote, local@, local_exists),
{
    if !remote {
        let a = words(&["checkout", name]);
        assert(texts(a@) =~= seq!["checkout"@, name@]);
        a
    } else if local_exists {
        let a = words(&["checkout", local]);
        assert(texts(a@) =~= seq!["checkout"@, local@]);
        a
    } else {
        let a = words(&["checkout", "--track", name]);
        assert(texts(a@) =~= seq!["checkout"@, "--track"@, name@]);
        a
    }
}

/// The first branch at or after `k` called `name`.
pub open spec fn named_from(branches: Seq<Branch>, name: Seq<char>, k: int) -> Option<int>
    decreases branches.len() - k,
{
    if k < 0 || k >= branches.len() {
        None
    } else if branches[k].name@ == name {
        Some(k)
    } else {
        named_from(branches, name, k + 1)
    }
}

/// The first branch called `name`.
pub open spec fn named(branches: Seq<Branch>, name: Seq<char>) -> Option<int> {
    named_from(branches, name, 0)
}

proof fn lemma_named_from(branches: Seq<Branch>, name: Seq<char>, k: int)
    requires
        0 <= k,
    ensures
        named_from(branches, name, k) matches Some(i) ==> k <= i < branches.len()
            && branches[i].name@ == name,
    decreases branches.len() - k,
{
    if k < branches.len() && branches[k].name@ != name {
        lemma_named_from(branches, name, k + 1);
    }
}

fn find_named(branches: &[Branch], name: &str) -> (r: Option<usize>)
    ensures
        match r {
            Some(i) => named(branches@, name@) == Some(i as int) && i < branches.len(),
            None => named(branches@, name@) is None,
        },
{
    proof {
        lemma_named_from(branches@, name@, 0);
    }
    let mut i: usize = 0;
    while i < branches.len()
        invariant
            i <= branches.len(),
            named(branches@, name@) == named_from(branches@, name@, i as int),
        decreases branches.len() - i,
    {
        if same_text(branches[i].name.as_str(), name) {
            return Some(i);
        }
        i = i + 1;
    }
    None
}

/// The name a branch called `name` has locally: its own when none is
/// listed by that name.
pub open spec fn local_for(branches: Seq<Branch>, name: Seq<char>) -> Seq<char> {
    match named(branches, name) {
        Some(i) => branches[i].local_name@,
        None => name,
    }
}

/// Whether a local branch called `local` is listed.
pub open spec fn has_local(branches: Seq<Branch>, local: Seq<char>) -> bool {
    exists|k: int| 0 <= k < branches.len() && !branches[k].remote && #[trigger] branches[k].name@ == local
}

/// Check a branch out, through the local branch of its name when there is
/// one.
pub fn checkout_branch(name: &str, remote: bool, branches: &[Branch]) -> (args: Vec<String>)
    ensures
        texts(args@) == checkout_line(
            name@,
            remote,
            local_for(branches@, name@),
            has_local(branches@, local_for(branches@, name@)),
        ),
{
    let local = match find_named(branches, name) {
        Some(i) => owned(branches[i].local_name.as_str()),
        None => owned(name),
    };
    let mut exists = false;
    let mut k: usize = 0;
    while k < branches.len()
        invariant
            k <= branches.len(),
            exists == exists|j: int| 0 <= j < k && !branches@[j].remote && #[trigger] branches@[j].name@ == local@,
        decreases branches.len() - k,
    {
        if !branches[k].remote && same_text(branches[k].name.as_str(), local.as_str()) {
            exists = true;
        }
        k = k + 1;
    }
    checkout_args(name, remote, local.as_str(), exists)
}

/// Delete a branch on its remote: `git push <remote> --delete <branch>`,
/// with the listed branch's remote and local name, `origin` and the name
/// itself when it is not listed.
pub fn delete_remote_branch(name: &str, branches: &[Branch]) -> (args: Vec<String>)
    ensures
        texts(args@) == match named(branches@, name@) {
            Some(i) => seq![
                "push"@,
                match branches@[i].remote_name {
                    Some(r) => r@,
                    None => "origin"@,
                },
                "--delete"@,
                branches@[i].local_name@,
            ],
            None => seq!["push"@, "origin"@, "--delete"@, name@],
        },
{
    match find_named(branches, name) {
        Some(i) => {
            let b = &branches[i];
            let remote = match &b.remote_name {
                Some(r) => r.as_str(),
                None => "origin",
            };
            let a = words(&["push", remote, "--delete", b.local_name.as_str()]);
            assert(texts(a@) =~= seq!["push"@, remote@, "--delete"@, b.local_name@]);
            a
        },
        None => {
            let a = words(&["push", "origin", "--delete", name]);
            assert(texts(a@) =~= seq!["push"@, "origin"@, "--delete"@, name@]);
            a
        },
    }
}

/// The branch checked out, by name; empty when none is marked current.
pub open spec fn current_branch_of(branches: Seq<Branch>) -> Seq<char>
    decreases branches.len(),
{
    if branches.len() == 0 {
        Seq::empty()
    } else if branches[0].current {
        branches[0].name@
    } else {
        current_branch_of(branches.drop_first())
    }
}

/// The branch checked out, as a rebase's question names it.
pub fn current_branch(branches: &[Branch]) -> (name: String)
    ensures
        name@ == current_branch_of(branches@),
{
    let mut i: usize = 0;
    assert(branches@.skip(0) =~= branches@);
    while i < branches.len()
        invariant
            i <= branches.len(),
            current_branch_of(branches@) == current_branch_of(branches@.skip(i as int)),
        decreases branches.len() - i,
    {
        assert(branches@.skip(i as int).drop_first() =~= branches@.skip(i + 1));
        if branches[i].current {
            return owned(branches[i].name.as_str());
        }
        i = i + 1;
    }
    String::new()
}

// ---------------------------------------------------------------------------
// Pushing
// ---------------------------------------------------------------------------

/// What a push button does: run a line, or first ask for a remote to push
/// to — carrying on with the push once it is added when `push` says so.
pub enum PushStep {
    Run(Vec<String>),
    AskForRemote { push: bool },
}

/// The first local branch at or after `k` called `name`.
pub open spec fn local_named_from(branches: Seq<Branch>, name: Seq<char>, k: int) -> Option<int>
    decreases branches.len() - k,
{
    if k < 0 || k >= branches.len() {
        None
    } else if !branches[k].remote && branches[k].name@ == name {
        Some(k)
    } else {
        local_named_from(branches, name, k + 1)
    }
}

/// The upstream of the local branch called `name`, when it has one.
pub open spec fn upstream_of(branches: Seq<Branch>, name: Seq<char>) -> Option<Seq<char>> {
    match local_named_from(branches, name, 0) {
        Some(i) => text_of(branches[i].upstream),
        None => None,
    }
}

proof fn lemma_local_named_from(branches: Seq<Branch>, name: Seq<char>, k: int)
    requires
        0 <= k,
    ensures
        local_named_from(branches, name, k) matches Some(i) ==> k <= i < branches.len(),
    decreases branches.len() - k,
{
    if k < branches.len() && !(!branches[k].remote && branches[k].name@ == name) {
        lemma_local_named_from(branches, name, k + 1);
    }
}

fn upstream_of_local(branches: &[Branch], name: &str) -> (r: Option<String>)
    ensures
        text_of(r) == upstream_of(branches@, name@),
{
    proof {
        lemma_local_named_from(branches@, name@, 0);
    }
    let mut i: usize = 0;
    while i < branches.len()
        invariant
            i <= branches.len(),
            local_named_from(branches@, name@, 0) == local_named_from(branches@, name@, i as int),
        decreases branches.len() - i,
    {
        if !branches[i].remote && same_text(branches[i].name.as_str(), name) {
            return match &branches[i].upstream {
                Some(u) => Some(owned(u.as_str())),
                None => None,
            };
        }
        i = i + 1;
    }
    None
}

/// Push a local branch that is not the one checked out: to its upstream's
/// remote, or with `-u` to the default remote when it has none yet, or ask
/// for a remote when there is none at all.
pub fn push_branch(
    name: &str,
    status_upstream: Option<&str>,
    remotes: &[Remote],
    branches: &[Branch],
) -> (step: PushStep)
    ensures
        match upstream_of(branches@, name@) {
            Some(u) => remote_for(Some(u), known_remotes(remotes@, branches@)) matches Some(r)
                && step matches PushStep::Run(a) && texts(a@) == seq!["push"@, r, name@],
            None => match remote_for(str_of(status_upstream), known_remotes(remotes@, branches@)) {
                Some(r) => step matches PushStep::Run(a) && texts(a@) == seq![
                    "push"@,
                    "-u"@,
                    r,
                    name@,
                ],
                None => step matches PushStep::AskForRemote { push } && !push,
            },
        },
{
    match upstream_of_local(branches, name) {
        Some(u) => match default_remote(Some(u.as_str()), remotes, branches) {
            Some(remote) => {
                let a = words(&["push", remote.as_str(), name]);
                assert(texts(a@) =~= seq!["push"@, remote@, name@]);
                PushStep::Run(a)
            },
            None => PushStep::AskForRemote { push: false },
        },
        None => match default_remote(status_upstream, remotes, branches) {
            Some(remote) => {
                let a = words(&["push", "-u", remote.as_str(), name]);
                assert(texts(a@) =~= seq!["push"@, "-u"@, remote@, name@]);
                PushStep::Run(a)
            },
            None => PushStep::AskForRemote { push: false },
        },
    }
}

/// Push the branch checked out to `remote` and make it the upstream — or a
/// plain push when an upstream already exists.
pub open spec fn push_current_line(remote: Seq<char>, head: Option<Seq<char>>, upstream: Option<Seq<char>>) -> Seq<Seq<char>> {
    match (upstream, head) {
        (None, Some(h)) => seq!["push"@, "-u"@, remote, h],
        _ => seq!["push"@],
    }
}

/// The line that pushes the branch checked out to `remote`.
pub fn push_current_to(remote: &str, head: Option<&str>, upstream: Option<&str>) -> (args: Vec<String>)
    ensures
        texts(args@) == push_current_line(remote@, str_of(head), str_of(upstream)),
{
    match (upstream, head) {
        (None, Some(h)) => {
            let a = words(&["push", "-u", remote, h]);
            assert(texts(a@) =~= seq!["push"@, "-u"@, remote@, h@]);
            a
        },
        _ => {
            let a = words(&["push"]);
            assert(texts(a@) =~= seq!["push"@]);
            a
        },
    }
}

/// Push the branch checked out. With an upstream, a plain push; with none
/// yet, set one on the default remote; with no remote at all, ask for one
/// and carry on with the push once it is added.
pub fn push(head: Option<&str>, upstream: Option<&str>, remotes: &[Remote], branches: &[Branch]) -> (step: PushStep)
    ensures
        upstream is Some ==> (step matches PushStep::Run(a) && texts(a@) == seq!["push"@]),
        upstream is None ==> match remote_for(None, known_remotes(remotes@, branches@)) {
            Some(r) => step matches PushStep::Run(a) && texts(a@) == push_current_line(
                r,
                str_of(head),
                None,
            ),
            None => step matches PushStep::AskForRemote { push } && push,
        },
{
    if upstream.is_some() {
        let a = words(&["push"]);
        assert(texts(a@) =~= seq!["push"@]);
        return PushStep::Run(a);
    }
    match default_remote(None, remotes, branches) {
        Some(remote) => PushStep::Run(push_current_to(remote.as_str(), head, None)),
        None => PushStep::AskForRemote { push: true },
    }
}

/// Push one tag, by its full name since a branch may share it.
pub fn push_tag(name: &str, status_upstream: Option<&str>, remotes: &[Remote], branches: &[Branch]) -> (step: PushStep)
    ensures
        match remote_for(str_of(status_upstream), known_remotes(remotes@, branches@)) {
            Some(r) => step matches PushStep::Run(a) && texts(a@) == seq![
                "push"@,
                r,
                "refs/tags/"@ + name@,
            ],
            None => step matches PushStep::AskForRemote { push } && !push,
        },
{
    match default_remote(status_upstream, remotes, branches) {
        Some(remote) => {
            let full = concat("refs/tags/", name);
            let a = words(&["push", remote.as_str(), full.as_str()]);
            assert(texts(a@) =~= seq!["push"@, remote@, "refs/tags/"@ + name@]);
            PushStep::Run(a)
        },
        None => PushStep::AskForRemote { push: false },
    }
}

// ---------------------------------------------------------------------------
// The name field
// ---------------------------------------------------------------------------

/// What the name field is for.
#[allow(inconsistent_fields)]
pub enum PromptKind {
    /// A new branch, from `from` or from HEAD.
    Branch { from: Option<String> },
    Rename { from: String },
    Tag { at: String },
    /// A new remote; `push` carries on with the push that asked for it.
    Remote { push: bool },
    RenameRemote { from: String },
    RemoteUrl { name: String },
}

/// The name field, open.
pub struct RefPrompt {
    pub kind: PromptKind,
    pub value: String,
    pub url: String,
}

/// The first remote at or after `k` called `name`.
pub open spec fn remote_named(remotes: Seq<Remote>, name: Seq<char>, k: int) -> Option<int>
    decreases remotes.len() - k,
{
    if k < 0 || k >= remotes.len() {
        None
    } else if remotes[k].name@ == name {
        Some(k)
    } else {
        remote_named(remotes, name, k + 1)
    }
}

/// What the field opens with: what is being renamed; `origin` for a new
/// remote while the repository has none by that name; the URL a remote
/// has, for a new one; nothing otherwise.
pub open spec fn prompt_value(kind: PromptKind, remotes: Seq<Remote>) -> Seq<char> {
    match kind {
        PromptKind::Rename { from } => from@,
        PromptKind::RenameRemote { from } => from@,
        PromptKind::Remote { .. } => if remote_names(remotes).contains("origin"@) {
            Seq::empty()
        } else {
            "origin"@
        },
        PromptKind::RemoteUrl { name } => match remote_named(remotes, name@, 0) {
            Some(i) => remotes[i].url@,
            None => Seq::empty(),
        },
        _ => Seq::empty(),
    }
}

fn url_of(remotes: &[Remote], name: &str) -> (url: String)
    ensures
        url@ == match remote_named(remotes@, name@, 0) {
            Some(i) => remotes@[i].url@,
            None => Seq::empty(),
        },
{
    let mut i: usize = 0;
    while i < remotes.len()
        invariant
            i <= remotes.len(),
            remote_named(remotes@, name@, 0) == remote_named(remotes@, name@, i as int),
        decreases remotes.len() - i,
    {
        if same_text(remotes[i].name.as_str(), name) {
            return owned(remotes[i].url.as_str());
        }
        i = i + 1;
    }
    String::new()
}

/// Open the name field for `kind`.
pub fn open_prompt(kind: PromptKind, remotes: &[Remote]) -> (prompt: RefPrompt)
    ensures
        prompt.kind == kind,
        prompt.value@ == prompt_value(kind, remotes@),
        prompt.url@ == Seq::<char>::empty(),
{
    let value = match &kind {
        PromptKind::Rename { from } => owned(from.as_str()),
        PromptKind::RenameRemote { from } => owned(from.as_str()),
        PromptKind::Remote { .. } => {
            let ghost names = remote_names(remotes@);
            let mut has_origin = false;
            let mut i: usize = 0;
            while i < remotes.len()
                invariant
                    i <= remotes.len(),
                    names == remote_names(remotes@),
                    has_origin == exists|k: int| 0 <= k < i && #[trigger] names[k] == "origin"@,
                decreases remotes.len() - i,
            {
                assert(names[i as int] == remotes@[i as int].name@);
                if same_text(remotes[i].name.as_str(), "origin") {
                    has_origin = true;
                }
                i = i + 1;
            }
            if has_origin {
                String::new()
            } else {
                owned("origin")
            }
        },
        PromptKind::RemoteUrl { name } => url_of(remotes, name.as_str()),
        _ => String::new(),
    };
    RefPrompt { kind, value, url: String::new() }
}

/// What carrying out the field runs.
pub enum Submit {
    /// Nothing: a rename to the name something already has, or a field
    /// whose value git would refuse.
    Nothing,
    /// A new branch, checked out; the log then shows every branch.
    NewBranch(Vec<String>),
    Run(Vec<String>),
    /// A remote added; when `push`, the branch checked out is pushed to
    /// `name` once git has said yes.
    AddRemote { args: Vec<String>, name: String, push: bool },
}

/// Carry out the field: make the branch, rename one, make the tag, or add,
/// rename or re-point a remote. The value is trimmed. `refused` is the
/// field's own verdict on the value: a value git would refuse is not sent.
/// The remote commands put `--` before what was typed.
pub fn submit_prompt(prompt: &RefPrompt, refused: bool) -> (r: Submit)
    ensures
        refused ==> r is Nothing,
        !refused ==> match prompt.kind {
            PromptKind::Branch { from } => r matches Submit::NewBranch(a) && texts(a@) == seq![
                "checkout"@,
                "-b"@,
                trim(prompt.value@),
            ] + match from {
                Some(f) => seq![f@],
                None => Seq::empty(),
            },
            PromptKind::Rename { from } => if from@ == trim(prompt.value@) {
                r is Nothing
            } else {
                r matches Submit::Run(a) && texts(a@) == seq![
                    "branch"@,
                    "-m"@,
                    from@,
                    trim(prompt.value@),
                ]
            },
            PromptKind::Tag { at } => r matches Submit::Run(a) && texts(a@) == seq![
                "tag"@,
                trim(prompt.value@),
                at@,
            ],
            PromptKind::Remote { push } => r matches Submit::AddRemote { args, name, push: p } && texts(
                args@,
            ) == seq!["remote"@, "add"@, "--"@, trim(prompt.value@), trim(prompt.url@)] && name@
                == trim(prompt.value@) && p == push,
            PromptKind::RenameRemote { from } => if from@ == trim(prompt.value@) {
                r is Nothing
            } else {
                r matches Submit::Run(a) && texts(a@) == seq![
                    "remote"@,
                    "rename"@,
                    "--"@,
                    from@,
                    trim(prompt.value@),
                ]
            },
            PromptKind::RemoteUrl { name: remote } => r matches Submit::Run(a) && texts(a@) == seq![
                "remote"@,
                "set-url"@,
                "--"@,
                remote@,
                trim(prompt.value@),
            ],
        },
{
    if refused {
        return Submit::Nothing;
    }
    let name = trim_text(prompt.value.as_str());
    match &prompt.kind {
        PromptKind::Branch { from } => {
            let mut a = words(&["checkout", "-b", name.as_str()]);
            assert(texts(a@) =~= seq!["checkout"@, "-b"@, name@]);
            match from {
                Some(f) => {
                    push_word(&mut a, f.as_str());
                    assert(texts(a@) =~= seq!["checkout"@, "-b"@, name@] + seq![f@]);
                },
                None => {
                    assert(texts(a@) =~= seq!["checkout"@, "-b"@, name@] + Seq::empty());
                },
            }
            Submit::NewBranch(a)
        },
        PromptKind::Rename { from } => {
            if same_text(from.as_str(), name.as_str()) {
                Submit::Nothing
            } else {
                let a = words(&["branch", "-m", from.as_str(), name.as_str()]);
                assert(texts(a@) =~= seq!["branch"@, "-m"@, from@, name@]);
                Submit::Run(a)
            }
        },
        PromptKind::Tag { at } => {
            let a = words(&["tag", name.as_str(), at.as_str()]);
            assert(texts(a@) =~= seq!["tag"@, name@, at@]);
            Submit::Run(a)
        },
        PromptKind::Remote { push } => {
            let url = trim_text(prompt.url.as_str());
            let a = words(&["remote", "add", "--", name.as_str(), url.as_str()]);
            assert(texts(a@) =~= seq!["remote"@, "add"@, "--"@, name@, url@]);
            Submit::AddRemote { args: a, name, push: *push }
        },
        PromptKind::RenameRemote { from } => {
            if same_text(from.as_str(), name.as_str()) {
                Submit::Nothing
            } else {
                let a = words(&["remote", "rename", "--", from.as_str(), name.as_str()]);
                assert(texts(a@) =~= seq!["remote"@, "rename"@, "--"@, from@, name@]);
                Submit::Run(a)
            }
        },
        PromptKind::RemoteUrl { name: remote } => {
            let a = words(&["remote", "set-url", "--", remote.as_str(), name.as_str()]);
            assert(texts(a@) =~= seq!["remote"@, "set-url"@, "--"@, remote@, name@]);
            Submit::Run(a)
        },
    }
}

// ---------------------------------------------------------------------------
// The history pane
// ---------------------------------------------------------------------------

/// The largest log asked for.
pub const LOG_CAP: usize = 10000;

/// Which half of the panel is showing.
#[derive(Clone, Copy, PartialEq, Eq, Debug, Structural)]
pub enum GitMode {
    History,
    Changes,
}

/// The log on screen: which branch's, how long, and where the selection is.
pub struct LogView {
    pub mode: GitMode,
    /// The branch the log is filtered to; every branch when `None`.
    pub rev: Option<String>,
    pub limit: usize,
    pub selected: Option<String>,
    /// The row the log scrolls to.
    pub reveal: Option<String>,
    pub detail_hidden: bool,
    /// Diffs side by side rather than in one column.
    pub split: bool,
}

/// What a log answer comes to.
#[derive(Clone, Copy, PartialEq, Eq, Debug, Structural)]
pub struct HistoryLanded {
    /// The answer is for the filter and length still asked for: show it.
    pub apply: bool,
    /// Ask again: the filter or the length moved while it was out, or
    /// another read was asked for meanwhile.
    pub again: bool,
}

/// A log answer landed for the filter `asked_rev` and the length
/// `asked_limit`; one for a filter or a length no longer asked for is
/// dropped and asked again.
pub fn history_landed(
    log: &LogView,
    asked_rev: Option<&str>,
    asked_limit: usize,
    asked_meanwhile: bool,
) -> (h: HistoryLanded)
    ensures
        h.apply == (text_of(log.rev) == (match asked_rev {
            Some(r) => Some(r@),
            None => None,
        }) && log.limit == asked_limit),
        h.again == (asked_meanwhile || !h.apply),
{
    let same_rev = match (&log.rev, asked_rev) {
        (Some(a), Some(b)) => same_text(a.as_str(), b),
        (None, None) => true,
        _ => false,
    };
    let apply = same_rev && log.limit == asked_limit;
    HistoryLanded { apply, again: asked_meanwhile || !apply }
}

/// The panel was mounted: a project it has shown before, and read, is
/// only probed for what moved; any other starts clean and reads it all.
pub fn open_git_panel(shown: Option<&str>, root: &str, loaded: bool) -> (probe_only: bool)
    ensures
        probe_only == (loaded && (shown matches Some(s) && s@ == root@)),
{
    let known = match shown {
        Some(s) => same_text(s, root),
        None => false,
    };
    known && loaded
}

/// Show one branch's history, or every branch's when `rev` is `None`.
pub fn show_rev(log: &mut LogView, rev: Option<String>)
    ensures
        *final(log) == (LogView { rev: rev, ..*old(log) }),
{
    log.rev = rev;
}

/// Ask for older commits: twice as many as now, up to the cap.
pub fn show_more(log: &mut LogView)
    requires
        old(log).limit <= usize::MAX / 2,
    ensures
        *final(log) == (LogView {
            limit: if old(log).limit * 2 < LOG_CAP {
                (old(log).limit * 2) as usize
            } else {
                LOG_CAP
            },
            ..*old(log)
        }),
{
    let doubled = log.limit * 2;
    log.limit = if doubled < LOG_CAP {
        doubled
    } else {
        LOG_CAP
    };
}

/// Asking for more never shrinks the log, and never takes it past the cap
/// once it is within it.
pub proof fn lemma_more_is_more_within_the_cap(limit: usize)
    requires
        limit <= LOG_CAP,
    ensures
        ({
            let next = if limit * 2 < LOG_CAP {
                limit * 2
            } else {
                LOG_CAP as int
            };
            limit <= next <= LOG_CAP
        }),
{
}

/// Side by side or one column, for every diff the panel shows.
pub fn set_split(log: &mut LogView, on: bool)
    ensures
        *final(log) == (LogView { split: on, ..*old(log) }),
{
    log.split = on;
}

/// Fold the opened commit's pane down to a strip, or bring it back.
pub fn toggle_detail(log: &mut LogView)
    ensures
        *final(log) == (LogView { detail_hidden: !old(log).detail_hidden, ..*old(log) }),
{
    log.detail_hidden = !log.detail_hidden;
}

/// The first index at or after `k` where `rows` holds `id`.
pub open spec fn position_from(rows: Seq<Seq<char>>, id: Seq<char>, k: int) -> Option<int>
    decreases rows.len() - k,
{
    if k < 0 || k >= rows.len() {
        None
    } else if rows[k] == id {
        Some(k)
    } else {
        position_from(rows, id, k + 1)
    }
}

proof fn lemma_position_from(rows: Seq<Seq<char>>, id: Seq<char>, k: int)
    requires
        0 <= k,
    ensures
        position_from(rows, id, k) matches Some(i) ==> k <= i < rows.len() && rows[i] == id,
        position_from(rows, id, k) is None ==> forall|j: int| k <= j < rows.len() ==> rows[j] != id,
    decreases rows.len() - k,
{
    if k < rows.len() && rows[k] != id {
        lemma_position_from(rows, id, k + 1);
    }
}

fn position_of(rows: &[String], id: &str) -> (r: Option<usize>)
    ensures
        match r {
            Some(i) => position_from(texts(rows@), id@, 0) == Some(i as int) && i < rows.len(),
            None => position_from(texts(rows@), id@, 0) is None,
        },
{
    proof {
        lemma_position_from(texts(rows@), id@, 0);
    }
    let mut i: usize = 0;
    while i < rows.len()
        invariant
            i <= rows.len(),
            position_from(texts(rows@), id@, 0) == position_from(texts(rows@), id@, i as int),
        decreases rows.len() - i,
    {
        assert(texts(rows@)[i as int] == rows@[i as int]@);
        if same_text(rows[i].as_str(), id) {
            return Some(i);
        }
        i = i + 1;
    }
    None
}

/// `v` held to `lo..=hi`.
pub open spec fn clamp(v: int, lo: int, hi: int) -> int {
    if v < lo {
        lo
    } else if v > hi {
        hi
    } else {
        v
    }
}

/// The row `step` rows from the selected one, held to the log; the first
/// row when the selection is not in it.
pub open spec fn step_target(rows: Seq<Seq<char>>, selected: Option<Seq<char>>, step: int) -> int {
    match selected {
        Some(id) => match position_from(rows, id, 0) {
            Some(at) => clamp(at + step, 0, rows.len() - 1),
            None => 0,
        },
        None => 0,
    }
}

/// The row a step lands on is a row of the log.
pub proof fn lemma_step_stays_in_log(rows: Seq<Seq<char>>, selected: Option<Seq<char>>, step: int)
    requires
        rows.len() > 0,
    ensures
        0 <= step_target(rows, selected, step) < rows.len(),
{
    if let Some(id) = selected {
        lemma_position_from(rows, id, 0);
    }
}

/// A step of nothing from a row of the log stays on it.
pub proof fn lemma_no_step_stays(rows: Seq<Seq<char>>, id: Seq<char>)
    requires
        rows.contains(id),
    ensures
        rows[step_target(rows, Some(id), 0)] == id,
{
    lemma_position_from(rows, id, 0);
    let k = choose|k: int| 0 <= k < rows.len() && rows[k] == id;
    assert(rows[k] == id);
}

/// Whether the row a step selected is still the selection once the keys
/// have paused — only then is it opened.
pub fn step_settled(log: &LogView, id: &str) -> (open: bool)
    ensures
        open == (text_of(log.selected) == Some(id@)),
{
    match &log.selected {
        Some(s) => same_text(s.as_str(), id),
        None => false,
    }
}

/// Move the selection `step` rows through the log — the arrow keys. The
/// row is selected and scrolled to; its id comes back to be opened once the
/// keys stop. Nothing happens, and nothing comes back, on an empty log or
/// when the selection does not move.
pub fn select_step(log: &mut LogView, rows: &[String], step: i64) -> (open: Option<String>)
    requires
        rows@.len() <= i64::MAX,
    ensures
        rows@.len() == 0 ==> open is None && *final(log) == *old(log),
        rows@.len() > 0 ==> {
            let id = texts(rows@)[step_target(texts(rows@), text_of(old(log).selected), step as int)];
            if text_of(old(log).selected) == Some(id) {
                open is None && *final(log) == *old(log)
            } else {
                &&& text_of(open) == Some(id)
                &&& text_of(final(log).selected) == Some(id)
                &&& text_of(final(log).reveal) == Some(id)
                &&& *final(log) == (LogView {
                    selected: final(log).selected,
                    reveal: final(log).reveal,
                    ..*old(log)
                })
            }
        },
{
    if rows.len() == 0 {
        return None;
    }
    let ghost names = texts(rows@);
    let at = match &log.selected {
        Some(id) => position_of(rows, id.as_str()),
        None => None,
    };
    let target: usize = match at {
        Some(at) => {
            let last = rows.len() as i64 - 1;
            let here = at as i64;
            if step >= 0 {
                if step > last - here {
                    last as usize
                } else {
                    (here + step) as usize
                }
            } else {
                let v = here + step;
                if v < 0 {
                    0
                } else {
                    v as usize
                }
            }
        },
        None => 0,
    };
    assert(target as int == step_target(names, text_of(old(log).selected), step as int));
    assert(names[target as int] == rows@[target as int]@);
    let same_row = match &log.selected {
        Some(s) => same_text(s.as_str(), rows[target].as_str()),
        None => false,
    };
    if same_row {
        return None;
    }
    log.selected = Some(owned(rows[target].as_str()));
    log.reveal = Some(owned(rows[target].as_str()));
    Some(owned(rows[target].as_str()))
}

/// Go to the commit a branch or a tag names: the history half, the row
/// selected and scrolled to. A tip the loaded rows do not hold is shown by
/// filtering the log to `rev`; the answer says whether the log must be read
/// again for it.
pub fn reveal_ref(log: &mut LogView, id: &str, rev: Option<String>, rows: &[String]) -> (reload: bool)
    ensures
        reload == (!texts(rows@).contains(id@) && rev is Some),
        reload ==> final(log).rev == rev,
        !reload ==> final(log).rev == old(log).rev,
        text_of(final(log).reveal) == Some(id@),
        text_of(final(log).selected) == Some(id@),
        *final(log) == (LogView {
            mode: GitMode::History,
            rev: final(log).rev,
            selected: final(log).selected,
            reveal: final(log).reveal,
            ..*old(log)
        }),
{
    log.mode = GitMode::History;
    let loaded = holds(rows, id);
    let reload = !loaded && rev.is_some();
    if reload {
        log.rev = rev;
    }
    log.reveal = Some(owned(id));
    log.selected = Some(owned(id));
    reload
}

/// The file to show of a newly opened commit: the one showing, when the
/// commit touched it too, or else its first.
pub open spec fn detail_file_of(showing: Option<Seq<char>>, files: Seq<Seq<char>>) -> Option<Seq<char>> {
    match showing {
        Some(p) if files.contains(p) => Some(p),
        _ => if files.len() > 0 {
            Some(files[0])
        } else {
            None
        },
    }
}

/// The file to show of a newly opened commit.
pub fn detail_file(showing: Option<&str>, files: &[String]) -> (file: Option<String>)
    ensures
        text_of(file) == detail_file_of(str_of(showing), texts(files@)),
{
    match showing {
        Some(p) => {
            if holds(files, p) {
                return Some(owned(p));
            }
        },
        None => {},
    }
    if files.len() > 0 {
        Some(owned(files[0].as_str()))
    } else {
        None
    }
}

/// Where one side of an image comes from: the working tree, or a revision.
pub enum ImageSource {
    Worktree,
    Rev(String),
}

/// An image side as the contracts speak of it: absent, the working tree
/// (`Some(None)`), or a revision.
pub open spec fn side_of(s: Option<ImageSource>) -> Option<Option<Seq<char>>> {
    match s {
        None => None,
        Some(ImageSource::Worktree) => Some(None),
        Some(ImageSource::Rev(r)) => Some(Some(r@)),
    }
}

/// The two sides of a working-tree image's diff: what was committed
/// against the index for a staged change, the index against the disk for
/// an unstaged one, and no old side for a file git has never seen.
pub fn diff_sides(staged: bool, untracked: bool) -> (sides: (Option<ImageSource>, Option<ImageSource>))
    ensures
        side_of(sides.0) == (if staged {
            Some(Some("HEAD"@))
        } else if untracked {
            None
        } else {
            Some(Some(":0"@))
        }),
        side_of(sides.1) == (if staged {
            Some(Some(":0"@))
        } else {
            Some(None)
        }),
{
    if staged {
        (Some(ImageSource::Rev(owned("HEAD"))), Some(ImageSource::Rev(owned(":0"))))
    } else if untracked {
        (None, Some(ImageSource::Worktree))
    } else {
        (Some(ImageSource::Rev(owned(":0"))), Some(ImageSource::Worktree))
    }
}

/// The two sides of an image in an opened commit: its first parent and the
/// commit itself, less the side an added or a deleted file does not have.
pub fn commit_file_sides(added: bool, deleted: bool, first_parent: Option<&str>, id: &str) -> (sides: (
    Option<ImageSource>,
    Option<ImageSource>,
))
    ensures
        side_of(sides.0) == (if added {
            None
        } else {
            match first_parent {
                Some(p) => Some(Some(p@)),
                None => None,
            }
        }),
        side_of(sides.1) == (if deleted {
            None
        } else {
            Some(Some(id@))
        }),
{
    let old = if added {
        None
    } else {
        match first_parent {
            Some(p) => Some(ImageSource::Rev(owned(p))),
            None => None,
        }
    };
    let new = if deleted {
        None
    } else {
        Some(ImageSource::Rev(owned(id)))
    };
    (old, new)
}

// ---------------------------------------------------------------------------
// Commits seen before
// ---------------------------------------------------------------------------

/// How many opened commits are kept for a second look.
pub const CACHED_COMMITS: usize = 32;

/// An opened commit, under its full hash.
pub struct Cached<D> {
    pub id: String,
    pub detail: D,
}

/// The commits opened lately, newest first.
pub struct CommitCache<D> {
    pub entries: Vec<Cached<D>>,
}

/// Whether an entry is kept under a name other than `id`.
pub open spec fn other_id<D>(id: Seq<char>) -> spec_fn(Cached<D>) -> bool {
    |e: Cached<D>| e.id@ != id
}

/// The cache after `fresh` is remembered: it first, every other commit as
/// it was, the oldest past the limit dropped.
pub open spec fn remembered<D>(entries: Seq<Cached<D>>, fresh: Cached<D>) -> Seq<Cached<D>> {
    let s = seq![fresh] + entries.filter(other_id(fresh.id@));
    if s.len() <= CACHED_COMMITS {
        s
    } else {
        s.take(CACHED_COMMITS as int)
    }
}

/// The first entry at or after `k` kept under `id`.
pub open spec fn cache_index<D>(entries: Seq<Cached<D>>, id: Seq<char>, k: int) -> Option<int>
    decreases entries.len() - k,
{
    if k < 0 || k >= entries.len() {
        None
    } else if entries[k].id@ == id {
        Some(k)
    } else {
        cache_index(entries, id, k + 1)
    }
}

impl<D> CommitCache<D> {
    /// An empty cache.
    pub fn new() -> (c: Self)
        ensures
            c.entries@.len() == 0,
    {
        CommitCache { entries: Vec::new() }
    }

    /// Keep an opened commit: in front, once, and no more than the limit.
    pub fn remember(&mut self, id: String, detail: D)
        ensures
            final(self).entries@ == remembered(old(self).entries@, Cached { id: id, detail: detail }),
    {
        let ghost old_entries = self.entries@;
        let ghost keep = other_id::<D>(id@);
        let mut i: usize = 0;
        let ghost mut j: int = 0;
        while i < self.entries.len()
            invariant
                0 <= j <= old_entries.len(),
                keep == other_id::<D>(id@),
                self.entries@ == old_entries.take(j).filter(keep) + old_entries.skip(j),
                i == old_entries.take(j).filter(keep).len(),
            decreases self.entries.len() - i,
        {
            proof {
                assert(old_entries.take(j + 1).drop_last() =~= old_entries.take(j));
                assert(old_entries.take(j + 1).last() == old_entries[j]);
                old_entries.take(j).lemma_filter_push(old_entries[j], keep);
                assert(old_entries.take(j).push(old_entries[j]) =~= old_entries.take(j + 1));
                assert(self.entries@[i as int] == old_entries[j]);
            }
            if same_text(self.entries[i].id.as_str(), id.as_str()) {
                let ghost before = self.entries@;
                self.entries.remove(i);
                proof {
                    assert(old_entries.skip(j).drop_first() =~= old_entries.skip(j + 1));
                    assert(self.entries@ =~= old_entries.take(j + 1).filter(keep) + old_entries.skip(j + 1));
                    j = j + 1;
                }
            } else {
                proof {
                    assert(old_entries.skip(j).drop_first() =~= old_entries.skip(j + 1));
                    assert(self.entries@ =~= old_entries.take(j + 1).filter(keep) + old_entries.skip(j + 1));
                    j = j + 1;
                }
                i = i + 1;
            }
        }
        proof {
            assert(old_entries.skip(j).len() == 0);
            assert(old_entries.take(j) =~= old_entries);
            assert(self.entries@ =~= old_entries.filter(keep));
        }
        let fresh = Cached { id, detail };
        let ghost fresh_view = fresh;
        self.entries.insert(0, fresh);
        assert(self.entries@ =~= seq![fresh_view] + old_entries.filter(keep));
        if self.entries.len() > CACHED_COMMITS {
            self.entries.truncate(CACHED_COMMITS);
        }
    }

    /// A commit opened before, by its full hash.
    pub fn cached(&self, id: &str) -> (r: Option<&D>)
        ensures
            match cache_index(self.entries@, id@, 0) {
                Some(i) => r == Some(&self.entries@[i].detail),
                None => r is None,
            },
    {
        let mut i: usize = 0;
        while i < self.entries.len()
            invariant
                i <= self.entries.len(),
                cache_index(self.entries@, id@, 0) == cache_index(self.entries@, id@, i as int),
            decreases self.entries.len() - i,
        {
            if same_text(self.entries[i].id.as_str(), id) {
                return Some(&self.entries[i].detail);
            }
            i = i + 1;
        }
        None
    }
}

/// What was just remembered is what a second look finds, and the cache
/// never holds more than its limit.
pub proof fn lemma_remembered_is_found<D>(entries: Seq<Cached<D>>, fresh: Cached<D>)
    ensures
        cache_index(remembered(entries, fresh), fresh.id@, 0) == Some(0int),
        remembered(entries, fresh)[0] == fresh,
        remembered(entries, fresh).len() <= CACHED_COMMITS,
{
    let s = seq![fresh] + entries.filter(other_id(fresh.id@));
    assert(s[0] == fresh);
    if s.len() > CACHED_COMMITS {
        assert(s.take(CACHED_COMMITS as int)[0] == fresh);
    }
}

/// Remembering keeps every name in the cache once.
pub proof fn lemma_remembered_once<D>(entries: Seq<Cached<D>>, fresh: Cached<D>)
    requires
        forall|a: int, b: int|
            0 <= a < b < entries.len() ==> #[trigger] entries[a].id@ != #[trigger] entries[b].id@,
    ensures
        forall|a: int, b: int|
            0 <= a < b < remembered(entries, fresh).len() ==> #[trigger] remembered(entries, fresh)[a].id@
                != #[trigger] remembered(entries, fresh)[b].id@,
{
    let keep = other_id::<D>(fresh.id@);
    let f = entries.filter(keep);
    lemma_filter_keeps_distinct(entries, keep);
    let s = seq![fresh] + f;
    assert forall|a: int, b: int| 0 <= a < b < s.len() implies #[trigger] s[a].id@ != #[trigger] s[b].id@ by {
        if a == 0 {
            assert(s[b] == f[b - 1]);
            entries.lemma_filter_pred(keep, b - 1);
        } else {
            assert(s[a] == f[a - 1]);
            assert(s[b] == f[b - 1]);
        }
    }
    if s.len() > CACHED_COMMITS {
        let t = s.take(CACHED_COMMITS as int);
        assert forall|a: int, b: int| 0 <= a < b < t.len() implies #[trigger] t[a].id@ != #[trigger] t[b].id@ by {
            assert(t[a] == s[a]);
            assert(t[b] == s[b]);
        }
    }
}

proof fn lemma_filter_keeps_distinct<D>(entries: Seq<Cached<D>>, keep: spec_fn(Cached<D>) -> bool)
    requires
        forall|a: int, b: int|
            0 <= a < b < entries.len() ==> #[trigger] entries[a].id@ != #[trigger] entries[b].id@,
    ensures
        forall|a: int, b: int|
            0 <= a < b < entries.filter(keep).len() ==> #[trigger] entries.filter(keep)[a].id@
                != #[trigger] entries.filter(keep)[b].id@,
    decreases entries.len(),
{
    reveal(Seq::filter);
    if entries.len() > 0 {
        let rest = entries.drop_last();
        assert forall|a: int, b: int| 0 <= a < b < rest.len() implies #[trigger] rest[a].id@ != #[trigger] rest[b].id@ by {
            assert(rest[a] == entries[a]);
            assert(rest[b] == entries[b]);
        }
        lemma_filter_keeps_distinct(rest, keep);
        let fr = rest.filter(keep);
        if keep(entries.last()) {
            let f = fr.push(entries.last());
            assert forall|a: int, b: int| 0 <= a < b < f.len() implies #[trigger] f[a].id@ != #[trigger] f[b].id@ by {
                if b == f.len() - 1 {
                    lemma_filter_member(rest, keep, a);
                    assert(fr[a] == f[a]);
                    let k = choose|k: int| 0 <= k < rest.len() && rest[k] == f[a];
                    assert(entries[k] == rest[k]);
                    assert(entries[entries.len() - 1] == entries.last());
                    assert(f[b] == entries.last());
                } else {
                    assert(f[a] == fr[a]);
                    assert(f[b] == fr[b]);
                }
            }
        }
    }
}

proof fn lemma_filter_member<A>(s: Seq<A>, keep: spec_fn(A) -> bool, i: int)
    requires
        0 <= i < s.filter(keep).len(),
    ensures
        s.contains(s.filter(keep)[i]),
    decreases s.len(),
{
    reveal(Seq::filter);
    if s.len() > 0 {
        let rest = s.drop_last();
        if keep(s.last()) && i == rest.filter(keep).len() {
            assert(s[s.len() - 1] == s.last());
        } else {
            lemma_filter_member(rest, keep, i);
            let k = choose|k: int| 0 <= k < rest.len() && rest[k] == rest.filter(keep)[i];
            assert(s[k] == rest[k]);
        }
    }
}

// ---------------------------------------------------------------------------
// The commit box and the stash note
// ---------------------------------------------------------------------------

/// What is being written below the changes.
pub struct CommitBox {
    pub message: String,
    pub amend: bool,
    pub stash_note: String,
}

/// The commit line: `--amend` when amending; the message as one argument,
/// however many lines it has; an amend with no message keeps the one it
/// has. A new commit with no message is not made.
pub open spec fn commit_line(message: Seq<char>, amend: bool) -> Option<Seq<Seq<char>>> {
    let base = if amend {
        seq!["commit"@, "--amend"@]
    } else {
        seq!["commit"@]
    };
    if trim(message).len() == 0 {
        if amend {
            Some(base.push("--no-edit"@))
        } else {
            None
        }
    } else {
        Some(base + seq!["-m"@, message])
    }
}

/// Commit what is staged with the message being written, or amend the last
/// commit with it. Nothing while the identity is known to be incomplete: git
/// would refuse with "Author identity unknown".
pub fn commit(commit_box: &CommitBox, identity_complete: Option<bool>) -> (args: Option<Vec<String>>)
    ensures
        identity_complete == Some(false) ==> args is None,
        identity_complete != Some(false) ==> match commit_line(commit_box.message@, commit_box.amend) {
            Some(line) => args matches Some(a) && texts(a@) == line,
            None => args is None,
        },
{
    if identity_complete == Some(false) {
        return None;
    }
    let mut args = words(&["commit"]);
    if commit_box.amend {
        push_word(&mut args, "--amend");
    }
    if is_blank(commit_box.message.as_str()) {
        if !commit_box.amend {
            return None;
        }
        push_word(&mut args, "--no-edit");
    } else {
        push_word(&mut args, "-m");
        push_word(&mut args, commit_box.message.as_str());
    }
    assert(texts(args@) =~= commit_line(commit_box.message@, commit_box.amend)->0);
    Some(args)
}

/// A commit that git made empties the box and ends the amend.
pub fn after_commit(commit_box: &mut CommitBox, code: Option<i32>)
    ensures
        code == Some(0i32) ==> final(commit_box).message@.len() == 0 && !final(commit_box).amend
            && final(commit_box).stash_note == old(commit_box).stash_note,
        code != Some(0i32) ==> *final(commit_box) == *old(commit_box),
{
    if code == Some(0) {
        commit_box.message = String::new();
        commit_box.amend = false;
    }
}

/// Turn amending on or off. The answer says whether HEAD's whole message
/// should be fetched to fill the box: amending, over an empty box.
pub fn amend_toggle(commit_box: &mut CommitBox, on: bool) -> (fetch_message: bool)
    ensures
        *final(commit_box) == (CommitBox { amend: on, ..*old(commit_box) }),
        fetch_message == (on && trim(old(commit_box).message@).len() == 0),
{
    commit_box.amend = on;
    on && is_blank(commit_box.message.as_str())
}

/// HEAD's message arrived: it fills the box when still amending and nothing
/// was typed meanwhile.
pub fn head_message_arrived(commit_box: &mut CommitBox, body: String)
    ensures
        old(commit_box).amend && trim(old(commit_box).message@).len() == 0 ==> *final(commit_box) == (
        CommitBox { message: body, ..*old(commit_box) }),
        !(old(commit_box).amend && trim(old(commit_box).message@).len() == 0) ==> *final(commit_box)
            == *old(commit_box),
{
    if commit_box.amend && is_blank(commit_box.message.as_str()) {
        commit_box.message = body;
    }
}

/// Stash the working tree, untracked files included, with the note if one
/// was written.
pub fn stash_save(commit_box: &CommitBox) -> (args: Vec<String>)
    ensures
        texts(args@) == seq!["stash"@, "push"@, "--include-untracked"@] + (if trim(
            commit_box.stash_note@,
        ).len() == 0 {
            Seq::empty()
        } else {
            seq!["-m"@, commit_box.stash_note@]
        }),
{
    let mut args = words(&["stash", "push", "--include-untracked"]);
    if !is_blank(commit_box.stash_note.as_str()) {
        push_word(&mut args, "-m");
        push_word(&mut args, commit_box.stash_note.as_str());
    }
    assert(texts(args@) =~= seq!["stash"@, "push"@, "--include-untracked"@] + (if trim(
        commit_box.stash_note@,
    ).len() == 0 {
        Seq::empty()
    } else {
        seq!["-m"@, commit_box.stash_note@]
    }));
    args
}

/// A stash git made empties the note.
pub fn after_stash_save(commit_box: &mut CommitBox, code: Option<i32>)
    ensures
        code == Some(0i32) ==> final(commit_box).stash_note@.len() == 0 && final(commit_box).message
            == old(commit_box).message && final(commit_box).amend == old(commit_box).amend,
        code != Some(0i32) ==> *final(commit_box) == *old(commit_box),
{
    if code == Some(0) {
        commit_box.stash_note = String::new();
    }
}

// ---------------------------------------------------------------------------
// Clone
// ---------------------------------------------------------------------------

/// The clone dialog.
pub struct CloneDraft {
    pub url: String,
    pub into: Option<String>,
    pub running: bool,
}

/// Open the clone dialog, empty.
pub fn open_clone_dialog(clone: &mut Option<CloneDraft>)
    ensures
        *final(clone) matches Some(d) && d.url@.len() == 0 && d.into is None && !d.running,
{
    *clone = Some(CloneDraft { url: String::new(), into: None, running: false });
}

/// A folder without the separators it ends with.
pub open spec fn without_trailing_separators(s: Seq<char>) -> Seq<char>
    decreases s.len(),
{
    if s.len() > 0 && (s.last() == '/' || s.last() == '\\') {
        without_trailing_separators(s.drop_last())
    } else {
        s
    }
}

/// Where a clone lands: `<folder>/<name>`, with the folder's own separator
/// when it uses only backslashes.
pub open spec fn clone_target_of(folder: Seq<char>, name: Seq<char>) -> Seq<char> {
    let separator = if folder.contains('\\') && !folder.contains('/') {
        '\\'
    } else {
        '/'
    };
    without_trailing_separators(folder).push(separator) + name
}

fn has_char(v: &Vec<char>, c: char) -> (b: bool)
    ensures
        b == v@.contains(c),
{
    let mut i: usize = 0;
    while i < v.len()
        invariant
            i <= v.len(),
            forall|k: int| 0 <= k < i ==> v@[k] != c,
        decreases v.len() - i,
    {
        if v[i] == c {
            return true;
        }
        i = i + 1;
    }
    false
}

/// Where a clone of `name` into `folder` lands.
pub fn clone_target(folder: &str, name: &str) -> (into: String)
    ensures
        into@ == clone_target_of(folder@, name@),
{
    let chars = chars_of(folder);
    let separator = if has_char(&chars, '\\') && !has_char(&chars, '/') {
        '\\'
    } else {
        '/'
    };
    let mut end = chars.len();
    assert(folder@.take(end as int) =~= folder@);
    while end > 0 && (chars[end - 1] == '/' || chars[end - 1] == '\\')
        invariant
            end <= chars.len(),
            chars@ == folder@,
            without_trailing_separators(folder@) == without_trailing_separators(
                folder@.take(end as int),
            ),
        decreases end,
    {
        assert(folder@.take(end as int).drop_last() =~= folder@.take(end - 1));
        end = end - 1;
    }
    let mut out = slice_of(&chars, 0, end);
    assert(out@ =~= folder@.take(end as int));
    out.push(separator);
    let whole = joined(&out, &chars_of(name));
    string_of(&whole)
}

/// Run the clone the dialog describes, into `<folder>/<name>` where `name`
/// is what `git clone` would pick for its URL. Not while one runs, nor
/// without a folder or a name; the dialog stays up, marked running.
pub fn clone_repository(clone: &mut Option<CloneDraft>, name: Option<&str>) -> (into: Option<String>)
    ensures
        match (*old(clone), name) {
            (Some(d), Some(n)) if d.into is Some && !d.running => {
                &&& into matches Some(t) && t@ == clone_target_of(d.into->0@, n@)
                &&& *final(clone) matches Some(e) && e.running && e.url == d.url && e.into == d.into
            },
            _ => into is None && *final(clone) == *old(clone),
        },
{
    match clone {
        Some(draft) => {
            if draft.running {
                return None;
            }
            let target = match (&draft.into, name) {
                (Some(folder), Some(n)) => clone_target(folder.as_str(), n),
                _ => {
                    return None;
                },
            };
            draft.running = true;
            Some(target)
        },
        None => None,
    }
}

/// The clone ended: the dialog closes on success and is free again
/// otherwise.
pub fn clone_finished(clone: &mut Option<CloneDraft>, code: Option<i32>)
    ensures
        code == Some(0i32) ==> *final(clone) is None,
        code != Some(0i32) ==> match *old(clone) {
            Some(d) => *final(clone) matches Some(e) && !e.running && e.url == d.url && e.into == d.into,
            None => *final(clone) is None,
        },
{
    if code == Some(0) {
        *clone = None;
    } else {
        match clone {
            Some(draft) => {
                draft.running = false;
            },
            None => {},
        }
    }
}

// ---------------------------------------------------------------------------
// What a command leaves behind
// ---------------------------------------------------------------------------

/// Open a file named by the panel in the editor: the editor's half of the
/// window comes forward.
pub fn open_from_git(panel: &mut String)
    ensures
        final(panel)@ == "files"@,
{
    *panel = owned("files");
}

/// The working-tree path whose diff is showing, and from which side.
pub struct DiffKey {
    pub path: String,
    pub staged: bool,
}

/// The diff pane shows one path; if that path is about to stop being a
/// change, the pane must not keep describing it. The answer says whether
/// it was showing.
pub fn forget_diff_of(diff_for: &mut Option<DiffKey>, path: &str) -> (forgot: bool)
    ensures
        forgot == (*old(diff_for) matches Some(d) && d.path@ == path@),
        forgot ==> *final(diff_for) is None,
        !forgot ==> *final(diff_for) == *old(diff_for),
{
    let showing = match diff_for {
        Some(d) => same_text(d.path.as_str(), path),
        None => false,
    };
    if showing {
        *diff_for = None;
    }
    showing
}

/// A deleted branch the log was filtered to leaves the log showing every
/// branch.
pub fn forget_branch_filter(log: &mut LogView, name: &str)
    ensures
        text_of(old(log).rev) == Some(name@) ==> *final(log) == (LogView { rev: None, ..*old(log) }),
        text_of(old(log).rev) != Some(name@) ==> *final(log) == *old(log),
{
    let filtered = match &log.rev {
        Some(rev) => same_text(rev.as_str(), name),
        None => false,
    };
    if filtered {
        log.rev = None;
    }
}

/// A removed remote takes its branches with it: a log filtered to one of
/// them shows every branch again.
pub fn forget_remote_filter(log: &mut LogView, name: &str)
    ensures
        (old(log).rev matches Some(r) && (name@ + "/"@).is_prefix_of(r@)) ==> *final(log) == (
        LogView { rev: None, ..*old(log) }),
        !(old(log).rev matches Some(r) && (name@ + "/"@).is_prefix_of(r@)) ==> *final(log)
            == *old(log),
{
    let prefix = chars_of(concat(name, "/").as_str());
    let filtered = match &log.rev {
        Some(rev) => starts_with(&chars_of(rev.as_str()), &prefix),
        None => false,
    };
    if filtered {
        log.rev = None;
    }
}

/// A stash applied, popped or dropped, whatever its exit: `stash@{0}` may
/// now name another stash, or none, so nothing stays selected and no
/// commit stays opened.
pub fn after_stash_command<D>(log: &mut LogView, detail: &mut Option<D>)
    ensures
        *final(log) == (LogView { selected: None, ..*old(log) }),
        *final(detail) is None,
{
    log.selected = None;
    *detail = None;
}

/// A checkout ended, whatever its exit: the filter was the branch left or
/// the one arrived at, so the log shows every branch again. So does a new
/// branch's checkout.
pub fn checkout_finished(log: &mut LogView)
    ensures
        *final(log) == (LogView { rev: None, ..*old(log) }),
{
    log.rev = None;
}

/// The field was submitted: it closes, unless its value was refused, when
/// it stays to say why.
pub fn close_prompt(prompt: &mut Option<RefPrompt>, refused: bool)
    ensures
        refused ==> *final(prompt) == *old(prompt),
        !refused ==> *final(prompt) is None,
{
    if !refused {
        *prompt = None;
    }
}

/// A remote was added: the branch checked out is pushed to it when that
/// was asked for, and only once git said yes.
pub fn push_after_remote(push: bool, code: Option<i32>) -> (go: bool)
    ensures
        go == (push && code == Some(0i32)),
{
    push && match code {
        Some(c) => c == 0,
        None => false,
    }
}

/// A new commit never rewrites the last one: without amending, the line is
/// exactly `commit -m <message>`, and no word of it is `--amend`; amending,
/// `--amend` comes right after `commit`.
pub proof fn lemma_only_amend_rewrites(message: Seq<char>, amend: bool)
    ensures
        !amend && trim(message).len() > 0 ==> commit_line(message, amend) == Some(seq!["commit"@, "-m"@, message]),
        !amend ==> (commit_line(message, amend) matches Some(line) ==> forall|i: int|
            0 <= i < line.len() && #[trigger] line[i] == "--amend"@ ==> line[i] == message),
        amend ==> (commit_line(message, amend) matches Some(line) && line.len() >= 2 && line[0] == "commit"@ && line[1]
            == "--amend"@),
{
    if !amend && trim(message).len() > 0 {
        assert(seq!["commit"@] + seq!["-m"@, message] =~= seq!["commit"@, "-m"@, message]);
    }
    if !amend {
        if let Some(line) = commit_line(message, amend) {
            reveal_strlit("--amend");
            reveal_strlit("commit");
            reveal_strlit("-m");
            assert(line =~= seq!["commit"@, "-m"@, message]);
            assert forall|i: int| 0 <= i < line.len() && #[trigger] line[i] == "--amend"@ implies line[i] == message by {
                if i == 0 {
                    assert("commit"@.len() != "--amend"@.len());
                } else if i == 1 {
                    assert("-m"@.len() != "--amend"@.len());
                }
            }
        }
    } else {
        let line = commit_line(message, amend)->0;
        if trim(message).len() == 0 {
            assert(line =~= seq!["commit"@, "--amend"@, "--no-edit"@]);
        } else {
            assert(line =~= seq!["commit"@, "--amend"@, "-m"@, message]);
        }
    }
}

} // verus!
