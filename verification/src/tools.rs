//! Optional helper programs: where they are looked for, and when they run.
use crate::paths::{join_path, path_joined};
use vstd::prelude::*;
use vstd::string::*;

verus! {

/// What to do about an optional helper program.
#[derive(Debug, Clone, Copy, PartialEq, Eq, Structural)]
pub enum ToolPlan {
    /// It was not asked for.
    Skip,
    /// It was asked for and is not installed.
    Missing,
    /// It was asked for and can run.
    Invoke,
}

/// What a helper program left behind when it ended.
#[derive(Debug, PartialEq, Eq)]
pub struct ToolOutput {
    pub success: bool,
    pub stdout: String,
    pub stderr: String,
}

/// What to do about a program that is asked for or not, and installed or not.
pub open spec fn tool_plan(enabled: bool, installed: bool) -> ToolPlan {
    if !enabled {
        ToolPlan::Skip
    } else if !installed {
        ToolPlan::Missing
    } else {
        ToolPlan::Invoke
    }
}

/// What to do about a program that is asked for or not, and installed or not.
pub fn plan(enabled: bool, installed: bool) -> (r: ToolPlan)
    ensures
        r == tool_plan(enabled, installed),
{
    if !enabled {
        ToolPlan::Skip
    } else if !installed {
        ToolPlan::Missing
    } else {
        ToolPlan::Invoke
    }
}

/// Whether entry `i` of a search path holds the program.
pub open spec fn found_at(dirs: Seq<String>, present: Seq<bool>, i: int) -> bool {
    0 <= i < dirs.len() && i < present.len() && present[i]
}

/// Where a program called `name` would be in a search directory.
pub fn candidate(dir: &str, name: &str) -> (r: String)
    ensures
        r@ == path_joined(dir@, name@),
{
    join_path(dir, name)
}

/// The first entry of a search path that holds `name`, given for each
/// directory whether the candidate there is a file.
pub fn which(name: &str, dirs: &Vec<String>, present: &Vec<bool>) -> (r: Option<String>)
    ensures
        match r {
            Some(p) => exists|i: int|
                found_at(dirs@, present@, i) && p@ == path_joined((#[trigger] dirs@[i])@, name@)
                    && forall|j: int| 0 <= j < i ==> !found_at(dirs@, present@, j),
            None => forall|i: int| !found_at(dirs@, present@, i),
        },
{
    let mut i: usize = 0;
    while i < dirs.len() && i < present.len()
        invariant
            i <= dirs@.len(),
            i <= present@.len(),
            forall|j: int| 0 <= j < i ==> !found_at(dirs@, present@, j),
        decreases dirs@.len() - i,
    {
        if present[i] {
            proof {
                assert(found_at(dirs@, present@, i as int));
            }
            return Some(candidate(dirs[i].as_str(), name));
        }
        i = i + 1;
    }
    None
}

/// Whether some directory of a search path holds `name`.
pub open spec fn installed(dirs: Seq<String>, present: Seq<bool>) -> bool {
    exists|i: int| found_at(dirs, present, i)
}

/// A program runs just where it is asked for and installed; where it is asked
/// for and not installed, it is missing; else nothing is said of it.
pub proof fn programs_run_where_asked_for_and_installed(enabled: bool, installed: bool)
    ensures
        tool_plan(enabled, installed) is Invoke <==> enabled && installed,
        tool_plan(enabled, installed) is Missing <==> enabled && !installed,
        tool_plan(enabled, installed) is Skip <==> !enabled,
{
}

/// A program is installed just where one of the directories has it.
pub proof fn programs_are_installed_where_one_directory_has_them(
    dirs: Seq<String>,
    present: Seq<bool>,
)
    requires
        dirs.len() == present.len(),
    ensures
        installed(dirs, present) <==> present.contains(true),
        forall|i: int| #[trigger]
            found_at(dirs, present, i) <==> 0 <= i < present.len() && present[i],
{
    if present.contains(true) {
        let i = present.index_of(true);
        assert(found_at(dirs, present, i));
    }
    if installed(dirs, present) {
        let i = choose|i: int| found_at(dirs, present, i);
        assert(present[i]);
    }
}

/// Directories of which it is not known whether they have a program do not
/// count.
pub proof fn unknown_directories_do_not_count(dirs: Seq<String>, present: Seq<bool>, i: int)
    requires
        i >= dirs.len() || i >= present.len() || i < 0,
    ensures
        !found_at(dirs, present, i),
{
}

} // verus!
