//! Finding out which project a process belongs to: reading the working
//! directory of a process from the output of a tool, deciding whether a
//! directory may be looked into, and naming the project.

use crate::model::{Platform, ToolReport};
use crate::text::{
    chars_equal_str, from_chars, has_substring, lowercase, pieces, split, split_chars,
    string_of_range, strip_prefix, to_chars, to_lowercase, trim, trim_range, contains_str,
};
use vstd::prelude::*;

verus! {

/// Whether `c` separates the parts of a path on the given platform.
pub open spec fn is_separator(c: char, platform: Platform) -> bool {
    c == '/' || (platform == Platform::Windows && c == '\\')
}

/// The parts of a path: its longest runs of characters that are no
/// separators, in order.
pub open spec fn components(path: Seq<char>, platform: Platform) -> Seq<Seq<char>>
    decreases path.len(),
{
    if path.len() == 0 {
        Seq::<Seq<char>>::empty()
    } else if is_separator(path.last(), platform) {
        components(path.drop_last(), platform)
    } else {
        let before = components(path.drop_last(), platform);
        if path.len() >= 2 && !is_separator(path[path.len() - 2], platform) {
            before.drop_last().push(before.last().push(path.last()))
        } else {
            before.push(seq![path.last()])
        }
    }
}

/// Whether a path begins at the root.
pub open spec fn is_rooted(path: Seq<char>, platform: Platform) -> bool {
    path.len() > 0 && is_separator(path[0], platform)
}

/// Whether `path` lies at or below `base`: both begin at the root or
/// neither does, and the parts of `base` are the first parts of `path`.
/// Parts are compared whole, so `/home/ann` is not below `/home/an`.
pub open spec fn lies_under(path: Seq<char>, base: Seq<char>, platform: Platform) -> bool {
    is_rooted(path, platform) == is_rooted(base, platform) && components(
        base,
        platform,
    ).is_prefix_of(components(path, platform))
}

/// The last part of a path, unless there is none or it is `..`.
pub open spec fn last_component(path: Seq<char>, platform: Platform) -> Option<Seq<char>> {
    let parts = components(path, platform);
    if parts.len() == 0 || parts.last() == ".."@ {
        None
    } else {
        Some(parts.last())
    }
}

fn char_separates(c: char, platform: Platform) -> (b: bool)
    ensures
        b == is_separator(c, platform),
{
    c == '/' || (match platform {
        Platform::Windows => c == '\\',
        Platform::MacOs => false,
    })
}

/// The parts of a path.
pub fn path_components(path: &Vec<char>, platform: Platform) -> (parts: Vec<Vec<char>>)
    ensures
        pieces(parts@) == components(path@, platform),
{
    let mut parts: Vec<Vec<char>> = Vec::new();
    let mut i: usize = 0;
    proof {
        assert(path@.take(0) =~= Seq::<char>::empty());
        assert(pieces(parts@) =~= Seq::<Seq<char>>::empty());
    }
    while i < path.len()
        invariant
            i <= path.len(),
            pieces(parts@) == components(path@.take(i as int), platform),
        decreases path.len() - i,
    {
        let c = path[i];
        let ghost done = path@.take(i as int);
        let ghost next = path@.take(i + 1);
        proof {
            assert(next.drop_last() =~= done);
            assert(next.last() == c);
            if i > 0 {
                assert(next[next.len() - 2] == path@[i - 1]);
            }
        }
        if !char_separates(c, platform) {
            if i > 0 && !char_separates(path[i - 1], platform) {
                proof {
                    lemma_open_part(done, platform);
                }
                let mut last = parts.pop().unwrap();
                let ghost kept = pieces(parts@);
                let ghost word = last@;
                last.push(c);
                parts.push(last);
                assert(pieces(parts@) =~= kept.push(word.push(c)));
                assert(kept =~= components(done, platform).drop_last());
            } else {
                let mut word: Vec<char> = Vec::new();
                word.push(c);
                let ghost kept = pieces(parts@);
                parts.push(word);
                assert(pieces(parts@) =~= kept.push(seq![c]));
            }
        }
        i = i + 1;
    }
    assert(path@.take(path.len() as int) =~= path@);
    parts
}

/// A path that ends in a character that is no separator has a last part.
proof fn lemma_open_part(path: Seq<char>, platform: Platform)
    requires
        path.len() > 0,
        !is_separator(path.last(), platform),
    ensures
        components(path, platform).len() > 0,
    decreases path.len(),
{
    if path.len() >= 2 && !is_separator(path[path.len() - 2], platform) {
        assert(path.drop_last().last() == path[path.len() - 2]);
        lemma_open_part(path.drop_last(), platform);
    }
}

/// Whether `path` lies at or below `base`.
pub fn path_starts_with(path: &str, base: &str, platform: Platform) -> (under: bool)
    ensures
        under == lies_under(path@, base@, platform),
{
    let whole = to_chars(path);
    let start = to_chars(base);
    let rooted = whole.len() > 0 && char_separates(whole[0], platform);
    let base_rooted = start.len() > 0 && char_separates(start[0], platform);
    if rooted != base_rooted {
        return false;
    }
    let parts = path_components(&whole, platform);
    let first = path_components(&start, platform);
    if first.len() > parts.len() {
        return false;
    }
    let mut i: usize = 0;
    while i < first.len()
        invariant
            i <= first.len() <= parts.len(),
            pieces(parts@) == components(path@, platform),
            pieces(first@) == components(base@, platform),
            is_rooted(path@, platform) == is_rooted(base@, platform),
            forall|k: int| 0 <= k < i ==> pieces(first@)[k] == pieces(parts@)[k],
        decreases first.len() - i,
    {
        assert(pieces(first@)[i as int] == first@[i as int]@);
        assert(pieces(parts@)[i as int] == parts@[i as int]@);
        if !crate::text::chars_equal(&first[i], &parts[i]) {
            assert(pieces(parts@).subrange(0, pieces(first@).len() as int)[i as int] != pieces(
                first@,
            )[i as int]);
            return false;
        }
        i = i + 1;
    }
    assert(pieces(first@) =~= pieces(parts@).subrange(0, pieces(first@).len() as int));
    true
}

/// The last part of a path, such as the name of a directory; `None` for a
/// path without parts and for one that ends in `..`.
pub fn dir_name(path: &str, platform: Platform) -> (name: Option<String>)
    ensures
        last_component(path@, platform) == (match name {
            Some(text) => Some(text@),
            None => None,
        }),
{
    let whole = to_chars(path);
    let parts = path_components(&whole, platform);
    if parts.len() == 0 {
        return None;
    }
    let last = &parts[parts.len() - 1];
    assert(pieces(parts@).last() == last@);
    if chars_equal_str(last, "..") {
        None
    } else {
        Some(from_chars(last))
    }
}

/// The directories below which projects are looked for.
#[derive(Clone, Debug)]
pub struct SafeRoots {
    /// The user's home directory, where it is known.
    pub home: Option<String>,
    /// The directory for temporary files, where it is known.
    pub temp: Option<String>,
}

/// Whether some root is known and `path` lies under it.
pub open spec fn under_root(path: Seq<char>, root: Option<String>, platform: Platform) -> bool {
    match root {
        Some(base) => lies_under(path, base@, platform),
        None => false,
    }
}

/// Whether a directory may be looked into, given its resolved path.
///
/// On macOS: under the home directory, or under one of the directories for
/// temporary files. On Windows: under the user's profile or the directory
/// for temporary files, or anywhere below a directory named like a place
/// for documents or source code, whatever its case.
pub open spec fn safe_path(
    path: Seq<char>,
    lower: Seq<char>,
    roots: SafeRoots,
    platform: Platform,
) -> bool {
    match platform {
        Platform::MacOs => under_root(path, roots.home, platform) || lies_under(
            path,
            "/tmp"@,
            platform,
        ) || lies_under(path, "/private/tmp"@, platform) || lies_under(
            path,
            "/var/folders"@,
            platform,
        ) || lies_under(path, "/private/var/folders"@, platform),
        Platform::Windows => under_root(path, roots.home, platform) || has_substring(
            lower,
            "\\documents\\"@,
        ) || has_substring(lower, "\\projects\\"@) || has_substring(lower, "\\source\\repos\\"@)
            || has_substring(lower, "\\dev\\"@) || has_substring(lower, "\\code\\"@) || under_root(
            path,
            roots.temp,
            platform,
        ),
    }
}

fn is_under_root(path: &str, root: &Option<String>, platform: Platform) -> (under: bool)
    ensures
        under == under_root(path@, *root, platform),
{
    match root {
        Some(base) => path_starts_with(path, base.as_str(), platform),
        None => false,
    }
}

/// Whether a directory may be looked into, given its resolved path and the
/// same path in lowercase.
pub fn path_is_safe(canonical: &str, lower: &Vec<char>, roots: &SafeRoots, platform: Platform) -> (safe:
    bool)
    ensures
        safe == safe_path(canonical@, lower@, *roots, platform),
{
    match platform {
        Platform::MacOs => {
            is_under_root(canonical, &roots.home, platform) || path_starts_with(
                canonical,
                "/tmp",
                platform,
            ) || path_starts_with(canonical, "/private/tmp", platform) || path_starts_with(
                canonical,
                "/var/folders",
                platform,
            ) || path_starts_with(canonical, "/private/var/folders", platform)
        },
        Platform::Windows => {
            is_under_root(canonical, &roots.home, platform) || contains_str(
                lower,
                "\\documents\\",
            ) || contains_str(lower, "\\projects\\") || contains_str(lower, "\\source\\repos\\")
                || contains_str(lower, "\\dev\\") || contains_str(lower, "\\code\\")
                || is_under_root(canonical, &roots.temp, platform)
        },
    }
}

/// Whether a directory may be looked into for a project, given its
/// resolved path.
pub fn is_safe_path(canonical: &str, roots: &SafeRoots, platform: Platform) -> (safe: bool)
    ensures
        safe == safe_path(canonical@, lowercase(canonical@), *roots, platform),
{
    let lower = to_lowercase(canonical);
    let chars = to_chars(lower.as_str());
    path_is_safe(canonical, &chars, roots, platform)
}

/// The position of the first line that begins with `prefix`, or the number
/// of lines when there is none.
pub open spec fn first_line_with(lines: Seq<Seq<char>>, prefix: Seq<char>) -> nat
    decreases lines.len(),
{
    if lines.len() == 0 || prefix.is_prefix_of(lines[0]) {
        0
    } else {
        1 + first_line_with(lines.drop_first(), prefix)
    }
}

/// What follows `prefix` on the first line that begins with it.
pub open spec fn value_after(text: Seq<char>, prefix: Seq<char>) -> Option<Seq<char>> {
    let lines = split(text, '\n');
    let at = first_line_with(lines, prefix) as int;
    if at < lines.len() {
        Some(lines[at].skip(prefix.len() as int))
    } else {
        None
    }
}

fn find_value(text: &str, prefix: &str) -> (found: Option<Vec<char>>)
    ensures
        value_after(text@, prefix@) == (match found {
            Some(value) => Some(value@),
            None => None,
        }),
{
    let chars = to_chars(text);
    let lines = split_chars(&chars, '\n');
    let ghost all = pieces(lines@);
    let mut i: usize = 0;
    assert(all.skip(0) =~= all);
    while i < lines.len()
        invariant
            i <= lines.len(),
            all == pieces(lines@),
            all == split(text@, '\n'),
            first_line_with(all, prefix@) == i + first_line_with(all.skip(i as int), prefix@),
        decreases lines.len() - i,
    {
        let ghost rest = all.skip(i as int);
        proof {
            assert(rest[0] == lines@[i as int]@);
            assert(rest.drop_first() =~= all.skip(i + 1));
        }
        match strip_prefix(&lines[i], prefix) {
            Some(from) => {
                assert(all[i as int] == lines@[i as int]@);
                return Some(crate::text::tail_chars(&lines[i], from));
            },
            None => {},
        }
        i = i + 1;
    }
    assert(all.skip(lines.len() as int) =~= Seq::<Seq<char>>::empty());
    None
}

/// The working directory that a report of `lsof` for one process names: what
/// follows the `n` on the first line that begins with it. `None` when the
/// tool did not run, failed, or named none.
pub open spec fn named_directory(report: ToolReport) -> Option<Seq<char>> {
    match report {
        ToolReport::NotStarted { reason } => None,
        ToolReport::Exited { success, stdout, stderr } => if success {
            value_after(stdout@, "n"@)
        } else {
            None
        },
    }
}

/// The working directory of a process, by the report of `lsof` for its
/// `cwd` entry.
pub fn get_process_cwd(report: &ToolReport) -> (directory: Option<String>)
    ensures
        named_directory(*report) == (match directory {
            Some(path) => Some(path@),
            None => None,
        }),
{
    match report {
        ToolReport::NotStarted { reason } => None,
        ToolReport::Exited { success, stdout, stderr } => {
            if !*success {
                return None;
            }
            match find_value(stdout.as_str(), "n") {
                Some(value) => Some(from_chars(&value)),
                None => None,
            }
        },
    }
}

/// The path of the program that a report of `wmic` names: what follows
/// `ExecutablePath=` on the first line that begins with it, trimmed.
pub open spec fn named_executable(report: ToolReport) -> Option<Seq<char>> {
    match report {
        ToolReport::NotStarted { reason } => None,
        ToolReport::Exited { success, stdout, stderr } => if success {
            match value_after(stdout@, "ExecutablePath="@) {
                Some(value) => Some(trim(value)),
                None => None,
            }
        } else {
            None
        },
    }
}

/// The path of the program of a process, by the report of `wmic` for it.
/// Its directory stands in for the working directory of the process.
pub fn get_process_executable(report: &ToolReport) -> (program: Option<String>)
    ensures
        named_executable(*report) == (match program {
            Some(path) => Some(path@),
            None => None,
        }),
{
    match report {
        ToolReport::NotStarted { reason } => None,
        ToolReport::Exited { success, stdout, stderr } => {
            if !*success {
                return None;
            }
            match find_value(stdout.as_str(), "ExecutablePath=") {
                Some(value) => {
                    let (from, to) = trim_range(&value, 0, value.len());
                    assert(value@.subrange(0, value.len() as int) =~= value@);
                    Some(string_of_range(&value, from, to))
                },
                None => None,
            }
        },
    }
}

/// The name of the repository whose top directory a report of
/// `git rev-parse --show-toplevel` names: the last part of the path it
/// printed.
pub open spec fn named_repository(report: ToolReport, platform: Platform) -> Option<Seq<char>> {
    match report {
        ToolReport::NotStarted { reason } => None,
        ToolReport::Exited { success, stdout, stderr } => if success {
            last_component(trim(stdout@), platform)
        } else {
            None
        },
    }
}

/// The name of the git repository that a directory belongs to, by the
/// report of `git rev-parse --show-toplevel` run in it.
pub fn get_git_repo_name(report: &ToolReport, platform: Platform) -> (name: Option<String>)
    ensures
        named_repository(*report, platform) == (match name {
            Some(text) => Some(text@),
            None => None,
        }),
{
    match report {
        ToolReport::NotStarted { reason } => None,
        ToolReport::Exited { success, stdout, stderr } => {
            if !*success {
                return None;
            }
            let printed = to_chars(stdout.as_str());
            let (from, to) = trim_range(&printed, 0, printed.len());
            assert(printed@.subrange(0, printed.len() as int) =~= printed@);
            let top = string_of_range(&printed, from, to);
            dir_name(top.as_str(), platform)
        },
    }
}

/// The name of a project: that of its repository, else that of its
/// directory, else `(unknown)`.
pub fn project_name(repository: Option<String>, directory: Option<String>) -> (name: String)
    ensures
        name@ == (match repository {
            Some(text) => text@,
            None => match directory {
                Some(text) => text@,
                None => "(unknown)"@,
            },
        }),
{
    match repository {
        Some(text) => text,
        None => match directory {
            Some(text) => text,
            None => String::from_str("(unknown)"),
        },
    }
}

} // verus!
