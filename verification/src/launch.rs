use vstd::prelude::*;

use crate::config::view_aliases;
use crate::text::{ci_eq, str_ci_eq};

verus! {

/// The action a launch request resolves to.
#[derive(Debug, Clone, PartialEq)]
pub enum LaunchAction {
    /// Run this alias command through the shell.
    RunAlias(String),
    /// Open this bundle path through the platform opener.
    OpenPath(String),
    /// Do nothing and report this failure message.
    Fail(String),
}

pub ghost enum LaunchActionV {
    RunAlias(Seq<char>),
    OpenPath(Seq<char>),
    Fail(Seq<char>),
}

impl View for LaunchAction {
    type V = LaunchActionV;

    open spec fn view(&self) -> LaunchActionV {
        match self {
            LaunchAction::RunAlias(c) => LaunchActionV::RunAlias(c@),
            LaunchAction::OpenPath(p) => LaunchActionV::OpenPath(p@),
            LaunchAction::Fail(m) => LaunchActionV::Fail(m@),
        }
    }
}

/// The command of the first alias entry whose name matches the requested
/// name up to ASCII case, if any does.
pub open spec fn first_alias(al: Seq<(Seq<char>, Seq<char>)>, name: Seq<char>) -> Option<Seq<char>>
    decreases al.len(),
{
    if al.len() == 0 {
        None
    } else if ci_eq(al[0].0, name) {
        Some(al[0].1)
    } else {
        first_alias(al.drop_first(), name)
    }
}

/// Looks the requested name up among the alias entries, first match wins,
/// names compared ignoring ASCII case.
pub fn find_alias(aliases: &Vec<(String, String)>, name: &str) -> (r: Option<String>)
    ensures
        match first_alias(view_aliases(aliases@), name@) {
            Some(cmd) => r matches Some(c) && c@ == cmd,
            None => r is None,
        },
{
    let ghost av = view_aliases(aliases@);
    let mut i: usize = 0;
    proof {
        assert(av.skip(0) =~= av);
    }
    while i < aliases.len()
        invariant
            i <= aliases@.len(),
            av == view_aliases(aliases@),
            av.len() == aliases@.len(),
            first_alias(av, name@) == first_alias(av.skip(i as int), name@),
        decreases aliases@.len() - i,
    {
        let entry = &aliases[i];
        proof {
            assert(av.skip(i as int)[0] == av[i as int]);
            assert(av[i as int] == (aliases@[i as int].0@, aliases@[i as int].1@));
        }
        if str_ci_eq(entry.0.as_str(), name) {
            return Some(entry.1.clone());
        }
        proof {
            assert(av.skip(i as int).drop_first() =~= av.skip(i + 1));
        }
        i = i + 1;
    }
    proof {
        assert(av.skip(i as int).len() == 0);
    }
    None
}

/// The failure message for a bundle path that is not on disk.
pub open spec fn not_found_message(path: Seq<char>) -> Seq<char> {
    "App not found at '"@ + path + "'"@
}

/// What a launch request resolves to: the first matching alias command if
/// the configuration has one — the path argument plays no part in that case
/// — else a failure when the path does not exist, else opening the path.
pub open spec fn spec_plan(
    aliases: Option<Seq<(Seq<char>, Seq<char>)>>,
    name: Seq<char>,
    path: Seq<char>,
    path_exists: bool,
) -> LaunchActionV {
    let m = match aliases {
        Some(al) => first_alias(al, name),
        None => None,
    };
    match m {
        Some(cmd) => LaunchActionV::RunAlias(cmd),
        None => if !path_exists {
            LaunchActionV::Fail(not_found_message(path))
        } else {
            LaunchActionV::OpenPath(path)
        },
    }
}

pub open spec fn aliases_view(a: Option<&Vec<(String, String)>>) -> Option<
    Seq<(Seq<char>, Seq<char>)>,
> {
    match a {
        Some(al) => Some(view_aliases(al@)),
        None => None,
    }
}

/// Decides what a launch request does. `path_exists` reports whether
/// anything is on disk at `app_path`; it is consulted only when no alias
/// matches.
pub fn plan_launch(
    aliases: Option<&Vec<(String, String)>>,
    app_name: &str,
    app_path: &str,
    path_exists: bool,
) -> (r: LaunchAction)
    ensures
        r@ == spec_plan(aliases_view(aliases), app_name@, app_path@, path_exists),
{
    match aliases {
        Some(al) => match find_alias(al, app_name) {
            Some(cmd) => {
                return LaunchAction::RunAlias(cmd);
            },
            None => {},
        },
        None => {},
    }
    if !path_exists {
        let mut msg = "App not found at '".to_owned();
        msg.append(app_path);
        msg.append("'");
        LaunchAction::Fail(msg)
    } else {
        LaunchAction::OpenPath(app_path.to_owned())
    }
}

/// A matching alias always wins and the path argument is never consulted:
/// the resolved action is the alias command, identical for any two path
/// arguments and any two states of the disk.
pub proof fn lemma_alias_ignores_path(
    al: Seq<(Seq<char>, Seq<char>)>,
    name: Seq<char>,
    p1: Seq<char>,
    p2: Seq<char>,
    e1: bool,
    e2: bool,
)
    requires
        first_alias(al, name) is Some,
    ensures
        spec_plan(Some(al), name, p1, e1) == LaunchActionV::RunAlias(
            first_alias(al, name)->Some_0,
        ),
        spec_plan(Some(al), name, p1, e1) == spec_plan(Some(al), name, p2, e2),
{
}

/// A request whose name matches no alias and whose path is not on disk
/// fails, and the failure message names the missing path.
pub proof fn lemma_missing_path_fails(
    aliases: Option<Seq<(Seq<char>, Seq<char>)>>,
    name: Seq<char>,
    path: Seq<char>,
)
    requires
        match aliases {
            Some(al) => first_alias(al, name) is None,
            None => true,
        },
    ensures
        spec_plan(aliases, name, path, false) == LaunchActionV::Fail(
            "App not found at '"@ + path + "'"@,
        ),
{
}

/// What became of the one launcher subprocess a request spawns.
#[derive(Debug, Clone, PartialEq)]
pub enum SpawnOutcome {
    /// The process ran; the flag says whether it exited successfully.
    Exited(bool),
    /// The process could not be spawned; the OS error text.
    SpawnFailed(String),
}

/// The result reported after running an alias command: success, a non-zero
/// exit, or a spawn failure carrying the OS error text.
pub fn alias_outcome(outcome: &SpawnOutcome) -> (r: Result<String, String>)
    ensures
        match *outcome {
            SpawnOutcome::Exited(true) => r matches Ok(m) && m@
                == "Command executed successfully"@,
            SpawnOutcome::Exited(false) => r matches Err(m) && m@
                == "Alias command failed: exited with non-zero code"@,
            SpawnOutcome::SpawnFailed(e) => r matches Err(m) && m@
                == "Failed to run alias command: "@ + e@,
        },
{
    match outcome {
        SpawnOutcome::Exited(true) => Ok("Command executed successfully".to_owned()),
        SpawnOutcome::Exited(false) => Err(
            "Alias command failed: exited with non-zero code".to_owned(),
        ),
        SpawnOutcome::SpawnFailed(e) => {
            let mut msg = "Failed to run alias command: ".to_owned();
            msg.append(e.as_str());
            Err(msg)
        },
    }
}

/// The result reported after opening a bundle path: success, a non-zero
/// exit, or a spawn failure carrying the OS error text.
pub fn open_outcome(outcome: &SpawnOutcome) -> (r: Result<String, String>)
    ensures
        match *outcome {
            SpawnOutcome::Exited(true) => r matches Ok(m) && m@ == "App opened successfully"@,
            SpawnOutcome::Exited(false) => r matches Err(m) && m@
                == "Failed to open app: exited with non-zero code"@,
            SpawnOutcome::SpawnFailed(e) => r matches Err(m) && m@
                == "Failed to launch app: "@ + e@,
        },
{
    match outcome {
        SpawnOutcome::Exited(true) => Ok("App opened successfully".to_owned()),
        SpawnOutcome::Exited(false) => Err("Failed to open app: exited with non-zero code".to_owned()),
        SpawnOutcome::SpawnFailed(e) => {
            let mut msg = "Failed to launch app: ".to_owned();
            msg.append(e.as_str());
            Err(msg)
        },
    }
}

} // verus!
