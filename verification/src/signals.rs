//! Request signals the normalizer extracts for routing.
//!
//! Pure, deterministic readers over the workspace snapshot and the attached
//! skills: the available context kinds a rule's `requires_any_context`
//! matches, the files the task touches, and the skills relevant to the prompt.

use vstd::prelude::*;
use crate::fuzzy::{spec_token_matches, spec_tokenize, token_matches, tokenize};
use crate::resolver::Workspace;
use crate::text::{
    chars_of, find_chars, first_occurrence, lines, paths_equal, same_path, spec_lines,
    starts_with, starts_with_exec, string_from,
};
use crate::types::Skill;

verus! {

/// The available context kinds of a workspace, in a fixed order: each present
/// part of the snapshot contributes one named kind.
pub open spec fn spec_context_kinds(workspace: Workspace) -> Seq<Seq<char>> {
    let diff = if workspace.git_diff is Some { seq!["git_diff"@] } else { Seq::empty() };
    let branch = if workspace.git_branch is Some { seq!["git_branch"@] } else { Seq::empty() };
    let active = if workspace.active_file is Some { seq!["active_file"@] } else { Seq::empty() };
    let referenced = if workspace.referenced_paths.len() > 0 {
        seq!["referenced_paths"@]
    } else {
        Seq::empty()
    };
    diff + branch + active + referenced
}

/// The path a unified-diff header line names, if the line is a
/// `diff --git a/… b/…` header: what follows the first ` b/`.
pub open spec fn diff_header_path(line: Seq<char>) -> Option<Seq<char>> {
    let prefix = "diff --git "@;
    if starts_with(line, prefix) {
        let rest = line.subrange(prefix.len() as int, line.len() as int);
        match first_occurrence(rest, " b/"@) {
            Some(i) => Some(rest.subrange(i + (" b/"@).len(), rest.len() as int)),
            None => None,
        }
    } else {
        None
    }
}

/// The header paths of `lines`, in order.
pub open spec fn header_paths(lines: Seq<Seq<char>>) -> Seq<Seq<char>>
    decreases lines.len(),
{
    if lines.len() == 0 {
        Seq::empty()
    } else {
        let rest = header_paths(lines.drop_last());
        match diff_header_path(lines.last()) {
            Some(path) => rest.push(path),
            None => rest,
        }
    }
}

/// The target paths named in the headers of a unified diff.
pub open spec fn spec_diff_paths(diff: Seq<char>) -> Seq<Seq<char>> {
    header_paths(spec_lines(diff))
}

/// Whether `kept` already holds a path equal to `path`.
pub open spec fn holds_path(kept: Seq<Seq<char>>, path: Seq<char>) -> bool {
    exists|k: int| 0 <= k < kept.len() && same_path(#[trigger] kept[k], path)
}

/// The paths in order, keeping only the first of each set of equal paths.
pub open spec fn dedup_paths(paths: Seq<Seq<char>>) -> Seq<Seq<char>>
    decreases paths.len(),
{
    if paths.len() == 0 {
        Seq::empty()
    } else {
        let kept = dedup_paths(paths.drop_last());
        if holds_path(kept, paths.last()) {
            kept
        } else {
            kept.push(paths.last())
        }
    }
}

/// The candidate files of a workspace: the referenced paths, the active file,
/// then the paths named in the git diff.
pub open spec fn touched_candidates(workspace: Workspace) -> Seq<Seq<char>> {
    let active = match workspace.active_file {
        Some(file) => seq![file@],
        None => Seq::empty(),
    };
    let diff = match workspace.git_diff {
        Some(diff) => spec_diff_paths(diff@),
        None => Seq::empty(),
    };
    workspace.referenced_paths.deep_view() + active + diff
}

/// The files relevant to the task, de-duplicated, in a stable order.
pub open spec fn spec_touched_files(workspace: Workspace) -> Seq<Seq<char>> {
    dedup_paths(touched_candidates(workspace))
}

/// Whether a skill named `name` is relevant: its name has tokens and every one
/// of them matches a prompt token.
pub open spec fn spec_skill_is_relevant(name: Seq<char>, tokens: Seq<Seq<char>>) -> bool {
    let name_tokens = spec_tokenize(name);
    name_tokens.len() > 0 && forall|i: int| 0 <= i < name_tokens.len() ==> spec_token_matches(#[trigger] name_tokens[i], tokens)
}

/// The relevant skills, in order.
pub open spec fn spec_relevant_skills(skills: Seq<Skill>, tokens: Seq<Seq<char>>) -> Seq<Skill>
    decreases skills.len(),
{
    if skills.len() == 0 {
        Seq::empty()
    } else {
        let rest = spec_relevant_skills(skills.drop_last(), tokens);
        if spec_skill_is_relevant(skills.last().name@, tokens) {
            rest.push(skills.last())
        } else {
            rest
        }
    }
}

/// Derives the available context kinds from the workspace snapshot.
///
/// Each present part of the snapshot contributes one named kind.
pub fn context_kinds(workspace: &Workspace) -> (kinds: Vec<String>)
    ensures
        kinds.deep_view() == spec_context_kinds(*workspace),
{
    let mut kinds: Vec<String> = Vec::new();
    let ghost diff = if workspace.git_diff is Some { seq!["git_diff"@] } else { Seq::<Seq<char>>::empty() };
    let ghost branch = if workspace.git_branch is Some { seq!["git_branch"@] } else { Seq::<Seq<char>>::empty() };
    let ghost active = if workspace.active_file is Some { seq!["active_file"@] } else { Seq::<Seq<char>>::empty() };
    assert(kinds.deep_view() =~= Seq::<Seq<char>>::empty());
    if workspace.git_diff.is_some() {
        kinds.push(String::from_str("git_diff"));
    }
    assert(kinds.deep_view() =~= diff);
    if workspace.git_branch.is_some() {
        kinds.push(String::from_str("git_branch"));
    }
    assert(kinds.deep_view() =~= diff + branch);
    if workspace.active_file.is_some() {
        kinds.push(String::from_str("active_file"));
    }
    assert(kinds.deep_view() =~= diff + branch + active);
    if workspace.referenced_paths.len() > 0 {
        kinds.push(String::from_str("referenced_paths"));
    }
    assert(kinds.deep_view() =~= spec_context_kinds(*workspace));
    kinds
}

/// The path a unified-diff header line names, if the line is one.
fn header_path(line: &str) -> (r: Option<String>)
    ensures
        match r {
            Some(path) => diff_header_path(line@) == Some(path@),
            None => diff_header_path(line@) is None,
        },
{
    let chars = chars_of(line);
    let prefix = chars_of("diff --git ");
    if !starts_with_exec(&chars, &prefix) {
        return None;
    }
    let rest = string_from(&chars, prefix.len(), chars.len());
    let rest_chars = chars_of(rest.as_str());
    let marker = chars_of(" b/");
    match find_chars(&rest_chars, &marker) {
        Some(i) => {
            let path = string_from(&rest_chars, i + marker.len(), rest_chars.len());
            Some(path)
        },
        None => None,
    }
}

/// Extracts the target paths from unified-diff `diff --git a/… b/…` headers.
pub fn diff_paths(diff: &str) -> (paths: Vec<String>)
    ensures
        paths.deep_view() == spec_diff_paths(diff@),
{
    let all = lines(diff);
    let mut paths: Vec<String> = Vec::new();
    let mut i: usize = 0;
    assert(all.deep_view().subrange(0, 0) =~= Seq::<Seq<char>>::empty());
    assert(paths.deep_view() =~= Seq::<Seq<char>>::empty());
    while i < all.len()
        invariant
            i <= all.len(),
            all.deep_view() == spec_lines(diff@),
            paths.deep_view() == header_paths(all.deep_view().subrange(0, i as int)),
        decreases all.len() - i,
    {
        let ghost prefix = all.deep_view().subrange(0, i + 1);
        assert(prefix.drop_last() =~= all.deep_view().subrange(0, i as int));
        assert(prefix.last() == all[i as int]@);
        match header_path(all[i].as_str()) {
            Some(path) => {
                let ghost old_paths = paths.deep_view();
                paths.push(path);
                assert(paths.deep_view() =~= old_paths.push(path@));
            },
            None => {},
        }
        i = i + 1;
    }
    assert(all.deep_view().subrange(0, all.len() as int) =~= all.deep_view());
    paths
}

/// Whether `kept` already holds a path equal to `path`.
fn holds_path_exec(kept: &Vec<String>, path: &str) -> (r: bool)
    ensures
        r == holds_path(kept.deep_view(), path@),
{
    let mut k: usize = 0;
    while k < kept.len()
        invariant
            k <= kept.len(),
            forall|j: int| 0 <= j < k ==> !same_path(#[trigger] kept.deep_view()[j], path@),
        decreases kept.len() - k,
    {
        if paths_equal(kept[k].as_str(), path) {
            assert(same_path(kept.deep_view()[k as int], path@));
            return true;
        }
        k = k + 1;
    }
    false
}

/// Keeps the first of each set of equal paths, in order.
fn dedup_path_list(paths: &Vec<String>) -> (kept: Vec<String>)
    ensures
        kept.deep_view() == dedup_paths(paths.deep_view()),
{
    let mut kept: Vec<String> = Vec::new();
    let mut i: usize = 0;
    assert(paths.deep_view().subrange(0, 0) =~= Seq::<Seq<char>>::empty());
    assert(kept.deep_view() =~= Seq::<Seq<char>>::empty());
    while i < paths.len()
        invariant
            i <= paths.len(),
            kept.deep_view() == dedup_paths(paths.deep_view().subrange(0, i as int)),
        decreases paths.len() - i,
    {
        let ghost prefix = paths.deep_view().subrange(0, i + 1);
        assert(prefix.drop_last() =~= paths.deep_view().subrange(0, i as int));
        assert(prefix.last() == paths[i as int]@);
        if !holds_path_exec(&kept, paths[i].as_str()) {
            let ghost old_kept = kept.deep_view();
            kept.push(paths[i].clone());
            assert(kept.deep_view() =~= old_kept.push(paths[i as int]@));
        }
        i = i + 1;
    }
    assert(paths.deep_view().subrange(0, paths.len() as int) =~= paths.deep_view());
    kept
}

/// Collects the files relevant to the task, de-duplicated and in a stable
/// order.
///
/// The union of the explicitly referenced paths, the active file, and the
/// paths named in the git-diff headers, keeping the first occurrence of each.
pub fn touched_files(workspace: &Workspace) -> (files: Vec<String>)
    ensures
        files.deep_view() == spec_touched_files(*workspace),
{
    let mut candidates: Vec<String> = Vec::new();
    let mut i: usize = 0;
    while i < workspace.referenced_paths.len()
        invariant
            i <= workspace.referenced_paths.len(),
            candidates.deep_view() == workspace.referenced_paths.deep_view().subrange(0, i as int),
        decreases workspace.referenced_paths.len() - i,
    {
        let ghost old_candidates = candidates.deep_view();
        candidates.push(workspace.referenced_paths[i].clone());
        assert(candidates.deep_view() =~= old_candidates.push(workspace.referenced_paths[i as int]@));
        assert(workspace.referenced_paths.deep_view().subrange(0, i + 1) =~= old_candidates.push(workspace.referenced_paths[i as int]@));
        i = i + 1;
    }
    assert(workspace.referenced_paths.deep_view().subrange(0, i as int) =~= workspace.referenced_paths.deep_view());
    let ghost referenced = candidates.deep_view();
    let ghost active = match &workspace.active_file {
        Some(file) => seq![file@],
        None => Seq::<Seq<char>>::empty(),
    };
    match &workspace.active_file {
        Some(file) => {
            candidates.push(file.clone());
        },
        None => {},
    }
    assert(candidates.deep_view() =~= referenced + active);
    match &workspace.git_diff {
        Some(diff) => {
            let named = diff_paths(diff.as_str());
            let ghost before = candidates.deep_view();
            let mut j: usize = 0;
            while j < named.len()
                invariant
                    j <= named.len(),
                    candidates.deep_view() == before + named.deep_view().subrange(0, j as int),
                decreases named.len() - j,
            {
                let ghost old_candidates = candidates.deep_view();
                candidates.push(named[j].clone());
                assert(candidates.deep_view() =~= old_candidates.push(named[j as int]@));
                assert(named.deep_view().subrange(0, j + 1) =~= named.deep_view().subrange(0, j as int).push(named[j as int]@));
                j = j + 1;
            }
            assert(named.deep_view().subrange(0, named.len() as int) =~= named.deep_view());
        },
        None => {
            assert(candidates.deep_view() =~= referenced + active + Seq::<Seq<char>>::empty());
        },
    }
    assert(candidates.deep_view() =~= touched_candidates(*workspace));
    dedup_path_list(&candidates)
}

/// Whether every token of `name` appears among the prompt `tokens`.
pub fn skill_is_relevant(name: &str, tokens: &Vec<String>) -> (r: bool)
    ensures
        r == spec_skill_is_relevant(name@, tokens.deep_view()),
{
    let name_tokens = tokenize(name);
    if name_tokens.len() == 0 {
        return false;
    }
    let mut i: usize = 0;
    while i < name_tokens.len()
        invariant
            i <= name_tokens.len(),
            name_tokens.deep_view() == spec_tokenize(name@),
            forall|j: int| 0 <= j < i ==> spec_token_matches(#[trigger] name_tokens.deep_view()[j], tokens.deep_view()),
        decreases name_tokens.len() - i,
    {
        if !token_matches(name_tokens[i].as_str(), tokens) {
            assert(!spec_token_matches(name_tokens.deep_view()[i as int], tokens.deep_view()));
            return false;
        }
        i = i + 1;
    }
    true
}

/// Selects the skills relevant to the prompt: a skill is relevant when every
/// token of its name appears in the prompt, so a hyphenated name such as
/// `security-review` matches the words "security review".
pub fn relevant_skills(skills: &Vec<Skill>, tokens: &Vec<String>) -> (relevant: Vec<Skill>)
    ensures
        relevant@ == spec_relevant_skills(skills@, tokens.deep_view()),
{
    let mut relevant: Vec<Skill> = Vec::new();
    let mut i: usize = 0;
    assert(skills@.subrange(0, 0) =~= Seq::<Skill>::empty());
    while i < skills.len()
        invariant
            i <= skills.len(),
            relevant@ == spec_relevant_skills(skills@.subrange(0, i as int), tokens.deep_view()),
        decreases skills.len() - i,
    {
        let ghost prefix = skills@.subrange(0, i + 1);
        assert(prefix.drop_last() =~= skills@.subrange(0, i as int));
        if skill_is_relevant(skills[i].name.as_str(), tokens) {
            relevant.push(skills[i].duplicate());
        }
        i = i + 1;
    }
    assert(skills@.subrange(0, skills.len() as int) =~= skills@);
    relevant
}

} // verus!
