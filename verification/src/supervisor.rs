//! The supervisor's decisions.
//!
//! The supervisor is the long-lived process inside the sandbox.  It reads
//! framed requests off its socket until the socket closes, forks a payload
//! child per execute request, wires the child's descriptors, and reports
//! how the child ended.  The loop, the forking and the system calls live
//! with the process machinery; every choice they act on is computed here.

use crate::wire::{ExecuteCommand, ExecuteError, ExecuteResult, Request};
use vstd::prelude::*;

verus! {

/// How a reaped payload ended, as the kernel reported it.
#[derive(Clone, Copy, Debug, PartialEq, Eq, Structural)]
pub enum WaitOutcome {
    /// The payload exited on its own with this status.
    Exited(i32),
    /// The payload was ended by this signal.
    Signaled(i32),
}

/// Translates what `waitpid` reported into the result sent back over the
/// wire: an exit becomes the status, a signal becomes the signalled error.
pub fn wait_result(outcome: WaitOutcome) -> (r: ExecuteResult)
    ensures
        match outcome {
            WaitOutcome::Exited(status) => r == Ok::<i32, ExecuteError>(status),
            WaitOutcome::Signaled(sig) => r == Err::<i32, ExecuteError>(
                ExecuteError::Signaled(sig),
            ),
        },
{
    match outcome {
        WaitOutcome::Exited(status) => Ok(status),
        WaitOutcome::Signaled(sig) => Err(ExecuteError::Signaled(sig)),
    }
}

/// What the payload child does with one opened descriptor: duplicate it
/// onto every requested descriptor it does not already occupy, and close
/// the original exactly when the original is not itself requested.  So
/// after the wiring, the requested descriptors all name the opened file,
/// and no descriptor outside the requested set still does.
pub fn fd_plan(opened: i32, fds: &Vec<i32>) -> (r: (Vec<i32>, bool))
    ensures
        r.0@ == fds@.filter(|fd: i32| fd != opened),
        r.1 == !fds@.contains(opened),
{
    let mut dups: Vec<i32> = Vec::new();
    let mut seen: bool = false;
    let mut i: usize = 0;
    proof {
        reveal(Seq::filter);
        assert(fds@.take(0) =~= Seq::<i32>::empty());
    }
    while i < fds.len()
        invariant
            i <= fds@.len(),
            dups@ == fds@.take(i as int).filter(|fd: i32| fd != opened),
            seen == fds@.take(i as int).contains(opened),
        decreases fds@.len() - i,
    {
        let fd = fds[i];
        proof {
            reveal(Seq::filter);
            assert(fds@.take(i + 1).drop_last() =~= fds@.take(i as int));
            assert(fds@.take(i + 1).last() == fds@[i as int]);
        }
        if fd != opened {
            dups.push(fd);
        } else {
            seen = true;
        }
        proof {
            if !seen {
                assert(!fds@.take(i + 1).contains(opened)) by {
                    assert(forall|j: int|
                        0 <= j < i + 1 ==> fds@.take(i + 1)[j] == #[trigger] fds@.take(
                            i as int,
                        ).push(fds@[i as int])[j]);
                }
            }
        }
        i = i + 1;
    }
    proof {
        assert(fds@.take(i as int) =~= fds@);
    }
    (dups, seen == false)
}

/// A descriptor table, abstractly: which open description each descriptor
/// names.
pub type FdTable = Map<i32, int>;

/// The duplications of a descriptor plan, applied in order: each target
/// descriptor is made to name the open description `id`.
pub open spec fn spec_apply_dups(table: FdTable, dups: Seq<i32>, id: int) -> FdTable
    decreases dups.len(),
{
    if dups.len() == 0 {
        table
    } else {
        spec_apply_dups(table, dups.drop_last(), id).insert(dups.last(), id)
    }
}

/// A whole descriptor plan, applied: the duplications, then the close of
/// the originally opened descriptor when the plan says so.
pub open spec fn spec_apply_fd_plan(
    table: FdTable,
    opened: i32,
    dups: Seq<i32>,
    close_original: bool,
    id: int,
) -> FdTable {
    let dup = spec_apply_dups(table, dups, id);
    if close_original {
        dup.remove(opened)
    } else {
        dup
    }
}

proof fn lemma_apply_dups_at(table: FdTable, dups: Seq<i32>, id: int, f: i32)
    ensures
        spec_apply_dups(table, dups, id).contains_key(f) <==> (table.contains_key(f)
            || dups.contains(f)),
        dups.contains(f) ==> spec_apply_dups(table, dups, id)[f] == id,
        !dups.contains(f) && table.contains_key(f) ==> spec_apply_dups(table, dups, id)[f]
            == table[f],
    decreases dups.len(),
{
    if dups.len() > 0 {
        lemma_apply_dups_at(table, dups.drop_last(), id, f);
        if dups.contains(f) && f != dups.last() {
            let i = choose|i: int| 0 <= i < dups.len() && dups[i] == f;
            assert(dups.drop_last()[i] == f);
            assert(dups.drop_last().contains(f));
        }
        if dups.drop_last().contains(f) {
            assert(dups.contains(f));
        }
    }
}

proof fn lemma_filter_ne_contains(fds: Seq<i32>, opened: i32, f: i32)
    ensures
        fds.filter(|fd: i32| fd != opened).contains(f) <==> (fds.contains(f) && f != opened),
    decreases fds.len(),
{
    reveal(Seq::filter);
    let kept = fds.filter(|fd: i32| fd != opened);
    if fds.len() > 0 {
        lemma_filter_ne_contains(fds.drop_last(), opened, f);
        let front = fds.drop_last().filter(|fd: i32| fd != opened);
        if fds.contains(f) && f != opened {
            if f == fds.last() {
                assert(kept == front.push(f));
                assert(kept.last() == f);
                assert(kept.contains(f));
            } else {
                let i = choose|i: int| 0 <= i < fds.len() && fds[i] == f;
                assert(fds.drop_last()[i] == f);
                assert(fds.drop_last().contains(f));
                assert(front.contains(f));
                let j = choose|j: int| 0 <= j < front.len() && front[j] == f;
                assert(kept[j] == f);
                assert(kept.contains(f));
            }
        }
        if kept.contains(f) {
            let i = choose|i: int| 0 <= i < kept.len() && kept[i] == f;
            if fds.last() != opened {
                assert(kept == front.push(fds.last()));
                if i < front.len() {
                    assert(front.contains(f));
                    assert(fds.drop_last().contains(f));
                    let j = choose|j: int| 0 <= j < fds.drop_last().len() && fds.drop_last()[j]
                        == f;
                    assert(fds[j] == f);
                    assert(fds.contains(f));
                } else {
                    assert(f == fds.last());
                    assert(fds.contains(f));
                }
            } else {
                assert(kept == front);
                assert(front.contains(f));
                assert(fds.drop_last().contains(f));
                let j = choose|j: int| 0 <= j < fds.drop_last().len() && fds.drop_last()[j] == f;
                assert(fds[j] == f);
                assert(fds.contains(f));
            }
        }
    }
}

/// After the payload's descriptor wiring, the requested descriptors all
/// name the one opened description, and no descriptor outside the
/// requested set does.  `table` is the descriptor table right after the
/// open: the opened descriptor names the fresh description `id`, which no
/// other descriptor yet names.  `dups` and `close_original` are the plan,
/// bound by the premises to exactly what [`fd_plan`] ensures of its
/// result, so the lemma applies at any `fd_plan` call site.
pub proof fn lemma_fd_plan_exact(
    table: FdTable,
    opened: i32,
    fds: Seq<i32>,
    dups: Seq<i32>,
    close_original: bool,
    id: int,
)
    requires
        table.contains_key(opened),
        table[opened] == id,
        forall|f: i32| #[trigger] table.contains_key(f) && f != opened ==> table[f] != id,
        dups == fds.filter(|fd: i32| fd != opened),
        close_original == !fds.contains(opened),
    ensures
        forall|f: i32|
            (#[trigger] spec_apply_fd_plan(table, opened, dups, close_original, id).contains_key(
                f,
            ) && spec_apply_fd_plan(table, opened, dups, close_original, id)[f] == id)
                <==> fds.contains(f),
{
    let result = spec_apply_fd_plan(table, opened, dups, close_original, id);
    assert forall|f: i32|
        (#[trigger] result.contains_key(f) && result[f] == id) <==> fds.contains(f) by {
        lemma_apply_dups_at(table, dups, id, f);
        lemma_filter_ne_contains(fds, opened, f);
    }
}

/// What the supervisor does next, for one thing read off the socket.
#[derive(Debug)]
pub enum SupervisorAction {
    /// Fork a payload child and run this command in it, then reply with
    /// the wait outcome.
    RunPayload(ExecuteCommand),
    /// Empty the guest's `/tmp` tree and reply with an acknowledgement.
    CleanTmp,
    /// The socket closed or spoke garbage: exit cleanly.
    Shutdown,
}

/// Dispatches one decoded request — or the end of the stream — to the
/// action the supervisor takes for it.
pub fn supervisor_step(input: Option<Request>) -> (a: SupervisorAction)
    ensures
        match input {
            Some(req) => match req {
                Request::Execute(cmd) => a matches SupervisorAction::RunPayload(c) && c@ == cmd@,
                Request::Cleanup => a matches SupervisorAction::CleanTmp,
            },
            None => a matches SupervisorAction::Shutdown,
        },
{
    match input {
        Some(Request::Execute(cmd)) => SupervisorAction::RunPayload(cmd),
        Some(Request::Cleanup) => SupervisorAction::CleanTmp,
        None => SupervisorAction::Shutdown,
    }
}

/// The tree a cleanup request empties: the guest's own `/tmp`.
pub fn do_cleanup() -> (p: String)
    ensures
        p@ == "/tmp"@,
{
    String::from_str("/tmp")
}

} // verus!
