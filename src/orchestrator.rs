//! The three transitions' outcomes. Install and repair run: deploy
//! artifacts, set the environment, patch; uninstall runs: remove the
//! environment, unpatch, delete artifacts. Each stops at the first step that
//! fails; these functions say what is then reported.
use vstd::prelude::*;
use crate::patcher::PatchResult;

verus! {

/// A step of a transition that can fail before the documents are touched.
#[derive(Clone, Copy, Debug, PartialEq, Eq, Structural)]
pub enum Step {
    DeployFiles,
    SetEnv,
    RemoveEnv,
}

pub open spec fn step_lead(step: Step) -> Seq<char> {
    match step {
        Step::DeployFiles => "Failed to deploy files: "@,
        Step::SetEnv => "Failed to set env vars: "@,
        Step::RemoveEnv => "Failed to remove env vars: "@,
    }
}

/// The result when `step` failed with `cause`: nothing was patched.
pub fn step_failure(step: Step, cause: &str) -> (r: PatchResult)
    ensures
        !r.success,
        r.message@ == step_lead(step) + cause@,
        r.files_patched@.len() == 0,
{
    let mut message = match step {
        Step::DeployFiles => String::from_str("Failed to deploy files: "),
        Step::SetEnv => String::from_str("Failed to set env vars: "),
        Step::RemoveEnv => String::from_str("Failed to remove env vars: "),
    };
    message.append(cause);
    PatchResult { success: false, message, files_patched: Vec::new() }
}

/// The last step of uninstall: when deleting the artifacts failed, the
/// documents already restored are still reported, under a failure message;
/// otherwise the unpatch result stands.
pub fn finish_uninstall(unpatched: PatchResult, removal: Result<(), String>) -> (r: PatchResult)
    ensures
        r.files_patched@ == unpatched.files_patched@,
        match removal {
            Ok(()) => r.success == unpatched.success && r.message@ == unpatched.message@,
            Err(e) => !r.success && r.message@ == "HTML restored but failed to remove files: "@
                + e@,
        },
{
    match removal {
        Ok(()) => unpatched,
        Err(e) => {
            let mut message = String::from_str("HTML restored but failed to remove files: ");
            message.append(e.as_str());
            PatchResult { success: false, message, files_patched: unpatched.files_patched }
        },
    }
}

/// A user-facing transition.
#[derive(Clone, Copy, Debug, PartialEq, Eq, Structural)]
pub enum Transition {
    Install,
    Uninstall,
    Repair,
}

/// One step of a transition.
#[derive(Clone, Copy, Debug, PartialEq, Eq, Structural)]
pub enum Action {
    DeployFiles,
    SetEnv,
    RemoveEnv,
    PatchDocuments,
    UnpatchDocuments,
    RepairDocuments,
    RemoveFiles,
}

/// The steps of each transition, in order. Uninstall removes the
/// environment first and the files last.
pub open spec fn plan(t: Transition) -> Seq<Action> {
    match t {
        Transition::Install => seq![Action::DeployFiles, Action::SetEnv, Action::PatchDocuments],
        Transition::Uninstall => seq![
            Action::RemoveEnv,
            Action::UnpatchDocuments,
            Action::RemoveFiles,
        ],
        Transition::Repair => seq![Action::DeployFiles, Action::SetEnv, Action::RepairDocuments],
    }
}

/// The step to run after `done` steps of `t` have run, the last of them with
/// outcome `last_ok`; `None` when the transition is over, either because a
/// step failed or because every step ran.
pub fn next_action(t: Transition, done: usize, last_ok: bool) -> (r: Option<Action>)
    ensures
        r == if last_ok && done < plan(t).len() {
            Some(plan(t)[done as int])
        } else {
            None
        },
{
    if !last_ok || done >= 3 {
        return None;
    }
    let steps: [Action; 3] = match t {
        Transition::Install => [Action::DeployFiles, Action::SetEnv, Action::PatchDocuments],
        Transition::Uninstall => [Action::RemoveEnv, Action::UnpatchDocuments, Action::RemoveFiles],
        Transition::Repair => [Action::DeployFiles, Action::SetEnv, Action::RepairDocuments],
    };
    Some(steps[done])
}

/// The paths of `ps` that also occur in `stored`, in order.
pub open spec fn kept_paths(ps: Seq<Seq<char>>, stored: Seq<Seq<char>>) -> Seq<Seq<char>>
    decreases ps.len(),
{
    if ps.len() == 0 {
        Seq::empty()
    } else {
        kept_paths(ps.drop_last(), stored) + if stored.contains(ps.last()) {
            seq![ps.last()]
        } else {
            Seq::empty()
        }
    }
}

fn holds_path(stored: &Vec<String>, p: &String) -> (r: bool)
    ensures
        r == stored@.map_values(|s: String| s@).contains(p@),
{
    let ghost views = stored@.map_values(|s: String| s@);
    let mut i: usize = 0;
    while i < stored.len()
        invariant
            i <= stored.len(),
            views == stored@.map_values(|s: String| s@),
            forall|k: int| 0 <= k < i ==> stored@[k]@ != p@,
        decreases stored.len() - i,
    {
        if stored[i] == *p {
            assert(views[i as int] == p@);
            return true;
        }
        i = i + 1;
    }
    assert forall|k: int| 0 <= k < views.len() implies views[k] != p@ by {
        assert(views[k] == stored@[k]@);
    }
    false
}

/// The result when storing the documents failed with `message` after the
/// documents in `stored` were written: a failure that reports only those of
/// the operation's documents that were stored.
pub fn stored_failure(result: PatchResult, stored: &Vec<String>, message: String) -> (r: PatchResult)
    ensures
        !r.success,
        r.message@ == message@,
        r.files_patched@.map_values(|s: String| s@) == kept_paths(
            result.files_patched@.map_values(|s: String| s@),
            stored@.map_values(|s: String| s@),
        ),
{
    let ghost ps = result.files_patched@.map_values(|s: String| s@);
    let ghost st = stored@.map_values(|s: String| s@);
    let mut kept: Vec<String> = Vec::new();
    let mut i: usize = 0;
    while i < result.files_patched.len()
        invariant
            i <= result.files_patched.len(),
            ps == result.files_patched@.map_values(|s: String| s@),
            st == stored@.map_values(|s: String| s@),
            kept@.map_values(|s: String| s@) == kept_paths(ps.subrange(0, i as int), st),
        decreases result.files_patched.len() - i,
    {
        let p = &result.files_patched[i];
        let ghost pre = ps.subrange(0, i + 1);
        assert(pre.drop_last() =~= ps.subrange(0, i as int));
        assert(pre.last() == p@);
        if holds_path(stored, p) {
            kept.push(p.clone());
            assert(kept@.map_values(|s: String| s@) =~= kept_paths(pre, st));
        } else {
            assert(kept@.map_values(|s: String| s@) =~= kept_paths(pre, st));
        }
        i = i + 1;
    }
    assert(ps.subrange(0, i as int) =~= ps);
    PatchResult { success: false, message, files_patched: kept }
}

} // verus!
