//! The Crates panel: what the workspace holds, against what crates.io has.

use vstd::prelude::*;

use crate::devices::CommandPlan;
use crate::text::{concat, owned};

verus! {

/// `name@version`, as `cargo add` takes it.
pub open spec fn pinned(name: Seq<char>, version: Seq<char>) -> Seq<char> {
    name + "@"@ + version
}

/// `cargo add name@version`, through the shared session slot — nothing
/// while another tool holds the slot, or with no version to go to. Its
/// rationale is a translation key.
pub fn upgrade_crate(name: &str, version: &str, session_running: bool) -> (plan: Option<CommandPlan>)
    ensures
        (session_running || version@.len() == 0) ==> plan is None,
        !(session_running || version@.len() == 0) ==> (plan matches Some(p)
            && p.program@ == "cargo"@
            && p.args@.len() == 2 && p.args@[0]@ == "add"@ && p.args@[1]@ == pinned(name@, version@)
            && p.display@ == "cargo add "@ + pinned(name@, version@)
            && p.rationale@ == "crates.upgrade-rationale"@
            && p.warning is None),
{
    if session_running || version.is_empty() {
        return None;
    }
    let at = concat(concat(name, "@").as_str(), version);
    let display = concat("cargo add ", at.as_str());
    let mut args: Vec<String> = Vec::new();
    args.push(owned("add"));
    args.push(at);
    Some(CommandPlan {
        program: owned("cargo"),
        args,
        display,
        rationale: owned("crates.upgrade-rationale"),
        warning: None,
    })
}

/// Whether an upgrade's exit asks for the project and the report again:
/// only a clean one — the manifest changed, so the old graph and the old
/// rows are both stale.
pub fn upgrade_finished(code: Option<i32>) -> (refresh: bool)
    ensures
        refresh == (code == Some(0i32)),
{
    match code {
        Some(c) => c == 0,
        None => false,
    }
}

} // verus!
