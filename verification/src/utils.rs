//! Where to look for the tools that are run, and when the file that holds
//! the configuration is open to others.

use crate::text::views;
use vstd::prelude::*;

verus! {

/// The directories in which Homebrew installs its tools.
pub open spec fn homebrew_dirs() -> Seq<Seq<char>> {
    seq!["/opt/homebrew/bin"@, "/usr/local/bin"@]
}

/// The places where a tool may be installed, in the order in which they
/// are tried.
pub open spec fn candidates_for(name: Seq<char>) -> Seq<Seq<char>> {
    homebrew_dirs().map_values(|dir: Seq<char>| dir + "/"@ + name)
}

/// The places where the tool `name` may be installed, in the order in which
/// they are tried.
pub fn candidate_paths(name: &str) -> (paths: Vec<String>)
    ensures
        views(paths@) == candidates_for(name@),
{
    let mut paths: Vec<String> = Vec::new();
    let mut first = String::from_str("/opt/homebrew/bin");
    first.append("/");
    first.append(name);
    paths.push(first);
    let mut second = String::from_str("/usr/local/bin");
    second.append("/");
    second.append(name);
    paths.push(second);
    assert(views(paths@) =~= candidates_for(name@));
    paths
}

/// The position of the first candidate that is present, if any.
pub open spec fn first_present(present: Seq<bool>) -> Option<int>
    decreases present.len(),
{
    if present.len() == 0 {
        None
    } else {
        match first_present(present.drop_last()) {
            Some(i) => Some(i),
            None => if present.last() {
                Some(present.len() - 1)
            } else {
                None
            },
        }
    }
}

/// The command to run for a tool: the first candidate that is present, or
/// the bare name, to be looked up along the search path.
pub open spec fn chosen_command(name: Seq<char>, present: Seq<bool>) -> Seq<char> {
    let known = if present.len() < candidates_for(name).len() {
        present
    } else {
        present.take(candidates_for(name).len() as int)
    };
    match first_present(known) {
        Some(i) => candidates_for(name)[i],
        None => name,
    }
}

/// The command to run for the tool `name`, given for every candidate path,
/// in order, whether a file is there. Flags beyond the number of candidates
/// are passed over; candidates without a flag count as absent.
pub fn find_command(name: &str, present: &[bool]) -> (command: String)
    ensures
        command@ == chosen_command(name@, present@),
{
    let paths = candidate_paths(name);
    let ghost flags = if present@.len() < candidates_for(name@).len() {
        present@
    } else {
        present@.take(candidates_for(name@).len() as int)
    };
    let mut i: usize = 0;
    assert(flags.take(0) =~= Seq::<bool>::empty());
    while i < paths.len() && i < present.len()
        invariant
            i <= paths.len(),
            i <= present.len(),
            paths.len() == candidates_for(name@).len(),
            views(paths@) == candidates_for(name@),
            flags == (if present@.len() < candidates_for(name@).len() {
                present@
            } else {
                present@.take(candidates_for(name@).len() as int)
            }),
            flags.len() <= paths.len(),
            flags.len() <= present.len(),
            flags.len() == paths.len() || flags.len() == present.len(),
            forall|k: int| 0 <= k < flags.len() ==> flags[k] == present@[k],
            first_present(flags.take(i as int)).is_none(),
        decreases paths.len() - i,
    {
        proof {
            assert(flags.take(i + 1).drop_last() =~= flags.take(i as int));
            assert(flags.take(i + 1).last() == present@[i as int]);
        }
        if present[i] {
            proof {
                lemma_first_present_stays(flags, i as int);
                assert(views(paths@)[i as int] == paths@[i as int]@);
            }
            return paths[i].clone();
        }
        i = i + 1;
    }
    assert(flags.take(i as int) =~= flags);
    String::from_str(name)
}

proof fn lemma_first_present_stays(present: Seq<bool>, i: int)
    requires
        0 <= i < present.len(),
        first_present(present.take(i + 1)) == Some(i),
    ensures
        first_present(present) == Some(i),
    decreases present.len(),
{
    if present.len() > i + 1 {
        assert(present.drop_last().take(i + 1) =~= present.take(i + 1));
        lemma_first_present_stays(present.drop_last(), i);
    } else {
        assert(present.take(i + 1) =~= present);
    }
}

/// Whether a file with the given permission bits can be read, written or
/// run by anyone but its owner.
pub open spec fn open_to_others(mode: u32) -> bool {
    mode & 0o077 != 0
}

/// Whether the permissions of the configuration file must be tightened:
/// whenever anyone but the owner has any access.
pub fn has_insecure_permissions(mode: u32) -> (insecure: bool)
    ensures
        insecure == open_to_others(mode),
{
    mode & 0o077 != 0
}

/// Whether Windows shows applications in dark mode, by the value of the
/// setting `AppsUseLightTheme`: 0 means dark. A setting that could not be
/// read counts as light.
pub fn is_windows_dark_mode(apps_use_light_theme: Option<u32>) -> (dark: bool)
    ensures
        dark == (apps_use_light_theme == Some(0u32)),
{
    match apps_use_light_theme {
        Some(value) => value == 0,
        None => false,
    }
}


} // verus!
