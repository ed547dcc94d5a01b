//! What to do with each selected entry: report it, terminate it, or leave it
//! alone when it belongs to somebody else.

use vstd::prelude::*;
use crate::matching::{command_matches, matcher};
use crate::psentry::PsEntry;
use crate::uid::UID;

verus! {

/// The action to perform on one selected process.
#[derive(Debug)]
pub enum Action {
    /// Show the entry (dry run).
    Report(PsEntry),
    /// Terminate the process with this pid.
    Kill(usize),
}

/// The action for an entry that belongs to the filtering user.
pub open spec fn action_for(job: PsEntry, dry_run: bool) -> Action {
    if dry_run {
        Action::Report(job)
    } else {
        Action::Kill(job.pid)
    }
}

/// The test that an entry belongs to `owner`.
pub open spec fn owned_by(owner: UID) -> spec_fn(PsEntry) -> bool {
    |e: PsEntry| owner.spec_matches(e.uid@)
}

/// The actions for `jobs`, in order: one for each entry that belongs to `owner`.
pub open spec fn planned(jobs: Seq<PsEntry>, owner: UID, dry_run: bool) -> Seq<Action> {
    jobs.filter(owned_by(owner)).map_values(|e: PsEntry| action_for(e, dry_run))
}

/// What to do with `job`: nothing when it does not belong to `owner`; else
/// report it in a dry run, or terminate it.
pub fn process(job: &PsEntry, owner: &UID, dry_run: bool) -> (r: Option<Action>)
    ensures
        r == if owner.spec_matches(job.uid@) {
            Some(action_for(*job, dry_run))
        } else {
            None
        },
{
    if owner.matches(job.uid.as_str()) {
        if dry_run {
            Some(Action::Report(job.clone()))
        } else {
            Some(Action::Kill(job.pid))
        }
    } else {
        None
    }
}

/// The actions to perform on `jobs`, in order, one for each entry that
/// belongs to `owner`.
pub fn plan(jobs: &Vec<PsEntry>, owner: &UID, dry_run: bool) -> (r: Vec<Action>)
    ensures
        r@ == planned(jobs@, *owner, dry_run),
{
    let mut out: Vec<Action> = Vec::new();
    let mut i: usize = 0;
    while i < jobs.len()
        invariant
            i <= jobs@.len(),
            out@ == planned(jobs@.subrange(0, i as int), *owner, dry_run),
        decreases jobs@.len() - i,
    {
        let ghost pre = jobs@.subrange(0, i as int);
        assert(jobs@.subrange(0, i + 1) =~= pre.push(jobs@[i as int]));
        let ghost f = owned_by(*owner);
        proof {
            pre.lemma_filter_push(jobs@[i as int], f);
        }
        assert(pre.push(jobs@[i as int]).filter(f) == if f(jobs@[i as int]) {
            pre.filter(f).push(jobs@[i as int])
        } else {
            pre.filter(f)
        });
        match process(&jobs[i], owner, dry_run) {
            Some(a) => {
                out.push(a);
                assert(out@ =~= planned(jobs@.subrange(0, i + 1), *owner, dry_run));
            },
            None => {},
        }
        i = i + 1;
    }
    assert(jobs@.subrange(0, i as int) =~= jobs@);
    out
}

/// A dry run only reports: every action it plans shows an entry, and none
/// terminates a process, so planning and performing it again changes nothing.
pub proof fn lemma_dry_run_only_reports(jobs: Seq<PsEntry>, owner: UID)
    ensures
        forall|i: int| 0 <= i < planned(jobs, owner, true).len()
            ==> #[trigger] planned(jobs, owner, true)[i] is Report,
{
}

/// Selecting by a pattern that matches no entry's command selects nothing, so
/// nothing is planned: no process is terminated and nothing is reported.
pub proof fn lemma_no_match_no_action(
    all: Seq<PsEntry>,
    pattern: Seq<char>,
    owner: UID,
    dry_run: bool,
)
    requires
        forall|i: int| 0 <= i < all.len() ==> !command_matches(pattern, #[trigger] all[i]),
    ensures
        all.filter(matcher(pattern)).len() == 0,
        planned(all.filter(matcher(pattern)), owner, dry_run).len() == 0,
{
    let sel = all.filter(matcher(pattern));
    if sel.len() > 0 {
        all.filter_lemma(matcher(pattern));
        assert(sel.contains(sel[0]));
        all.lemma_filter_contains_rev(matcher(pattern), sel[0]);
        let j = choose|j: int| 0 <= j < all.len() && all[j] == sel[0];
        assert(!command_matches(pattern, all[j]));
    }
    sel.filter_lemma(owned_by(owner));
}

} // verus!
