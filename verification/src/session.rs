//! Per-session mutable state: the single current task, pre-approved
//! commands, pending approvals, and input injected while a task runs.

use vstd::prelude::*;

verus! {

use crate::items::ConversationHistory;
use crate::items::ResponseItem;
use crate::items::string_is;

/// Why a task ended before completion.
#[derive(Debug, Clone, Copy, PartialEq, Eq, Structural)]
pub enum TurnAbortReason {
    Replaced,
    Interrupted,
}

/// The session's mutable state. At most one task is current at a time; the
/// `Option` makes that structural.
#[derive(Debug)]
pub struct SessionState {
    pub approved_commands: Vec<Vec<String>>,
    pub current_task: Option<String>,
    pub pending_approvals: Vec<String>,
    pub pending_input: Vec<ResponseItem>,
    pub history: ConversationHistory,
}

/// `cmds` contains a command equal to `cmd` by contents.
pub open spec fn has_command(cmds: Seq<Vec<String>>, cmd: Seq<Seq<char>>) -> bool {
    exists|i: int| 0 <= i < cmds.len() && (#[trigger] cmds[i]).deep_view() == cmd
}

pub open spec fn has_approval(ids: Seq<String>, id: Seq<char>) -> bool {
    exists|i: int| 0 <= i < ids.len() && (#[trigger] ids[i])@ == id
}

impl SessionState {
    pub fn new() -> (r: SessionState)
        ensures
            r.approved_commands@.len() == 0,
            r.current_task is None,
            r.pending_approvals@.len() == 0,
            r.pending_input@.len() == 0,
            r.history@ == Seq::<ResponseItem>::empty(),
    {
        SessionState {
            approved_commands: Vec::new(),
            current_task: None,
            pending_approvals: Vec::new(),
            pending_input: Vec::new(),
            history: ConversationHistory::new(),
        }
    }

    /// Install a new task as the current one. The previous task, if any, is
    /// handed back so that exactly one `TurnAborted` (reason: replaced) can
    /// be emitted at its submission id.
    pub fn set_task(&mut self, sub_id: String) -> (aborted: Option<String>)
        ensures
            final(self).current_task == Some(sub_id),
            aborted == old(self).current_task,
            final(self).approved_commands == old(self).approved_commands,
            final(self).pending_approvals == old(self).pending_approvals,
            final(self).pending_input == old(self).pending_input,
            final(self).history == old(self).history,
    {
        let prev = self.current_task.take();
        self.current_task = Some(sub_id);
        prev
    }

    /// Drop the current task if it is the one with this submission id.
    pub fn remove_task(&mut self, sub_id: &str)
        ensures
            final(self).current_task == (match old(self).current_task {
                Some(cur) => if cur@ == sub_id@ {
                    None::<String>
                } else {
                    old(self).current_task
                },
                None => None::<String>,
            }),
            final(self).approved_commands == old(self).approved_commands,
            final(self).pending_approvals == old(self).pending_approvals,
            final(self).pending_input == old(self).pending_input,
            final(self).history == old(self).history,
    {
        let matches_cur = match &self.current_task {
            Some(cur) => string_is(cur, sub_id),
            None => false,
        };
        if matches_cur {
            self.current_task = None;
        }
    }

    /// Queue input while a task runs; hand it back when no task is current.
    pub fn inject_input(&mut self, input: ResponseItem) -> (r: Result<(), ResponseItem>)
        ensures
            old(self).current_task is Some ==> r is Ok && final(self).pending_input@ == old(
                self,
            ).pending_input@.push(input) && final(self).current_task == old(self).current_task,
            old(self).current_task is None ==> (r matches Err(given) && given == input
                && *final(self) == *old(self)),
    {
        if self.current_task.is_some() {
            self.pending_input.push(input);
            Ok(())
        } else {
            Err(input)
        }
    }

    /// Take all pending input, leaving none.
    pub fn get_pending_input(&mut self) -> (r: Vec<ResponseItem>)
        ensures
            r@ == old(self).pending_input@,
            final(self).pending_input@ == Seq::<ResponseItem>::empty(),
            final(self).current_task == old(self).current_task,
            final(self).history == old(self).history,
            final(self).approved_commands == old(self).approved_commands,
            final(self).pending_approvals == old(self).pending_approvals,
    {
        let mut taken: Vec<ResponseItem> = Vec::new();
        core::mem::swap(&mut taken, &mut self.pending_input);
        taken
    }

    /// Record a command as approved for the rest of the session (a set:
    /// duplicates are not added twice).
    pub fn add_approved_command(&mut self, cmd: Vec<String>)
        ensures
            has_command(final(self).approved_commands@, cmd.deep_view()),
            final(self).approved_commands@ == (if has_command(
                old(self).approved_commands@,
                cmd.deep_view(),
            ) {
                old(self).approved_commands@
            } else {
                old(self).approved_commands@.push(cmd)
            }),
            final(self).current_task == old(self).current_task,
            final(self).pending_approvals == old(self).pending_approvals,
            final(self).pending_input == old(self).pending_input,
            final(self).history == old(self).history,
    {
        if !self.is_command_approved(&cmd) {
            self.approved_commands.push(cmd);
            proof {
                assert(self.approved_commands@.last() == cmd);
            }
        }
    }

    /// Whether this exact command vector was approved earlier.
    pub fn is_command_approved(&self, cmd: &Vec<String>) -> (r: bool)
        ensures
            r == has_command(self.approved_commands@, cmd.deep_view()),
    {
        let mut i: usize = 0;
        while i < self.approved_commands.len()
            invariant
                i <= self.approved_commands@.len(),
                forall|k: int|
                    0 <= k < i ==> (#[trigger] self.approved_commands@[k]).deep_view()
                        != cmd.deep_view(),
            decreases self.approved_commands@.len() - i,
        {
            if vec_string_eq(&self.approved_commands[i], cmd) {
                return true;
            }
            i = i + 1;
        }
        false
    }

    /// Register a pending approval under a submission id; an existing entry
    /// for the same id is replaced.
    pub fn push_pending_approval(&mut self, sub_id: String) -> (replaced: bool)
        ensures
            has_approval(final(self).pending_approvals@, sub_id@),
            replaced == has_approval(old(self).pending_approvals@, sub_id@),
            !replaced ==> final(self).pending_approvals@ == old(self).pending_approvals@.push(
                sub_id,
            ),
            final(self).current_task == old(self).current_task,
    {
        let mut i: usize = 0;
        while i < self.pending_approvals.len()
            invariant
                i <= self.pending_approvals@.len(),
                forall|k: int| 0 <= k < i ==> (#[trigger] self.pending_approvals@[k])@ != sub_id@,
            decreases self.pending_approvals@.len() - i,
        {
            if string_is(&self.pending_approvals[i], sub_id.as_str()) {
                proof {
                    assert(has_approval(self.pending_approvals@, sub_id@));
                }
                return true;
            }
            i = i + 1;
        }
        self.pending_approvals.push(sub_id);
        proof {
            assert(self.pending_approvals@.last()@ == sub_id@);
        }
        false
    }

    /// Resolve a pending approval; says whether one was found.
    pub fn take_pending_approval(&mut self, sub_id: &str) -> (found: bool)
        ensures
            found == has_approval(old(self).pending_approvals@, sub_id@),
            !has_approval(final(self).pending_approvals@, sub_id@),
            final(self).current_task == old(self).current_task,
    {
        let mut fresh: Vec<String> = Vec::new();
        let mut found: bool = false;
        let ghost p0 = self.pending_approvals@;
        let mut i: usize = 0;
        while i < self.pending_approvals.len()
            invariant
                i <= self.pending_approvals@.len(),
                self.pending_approvals@ == p0,
                self.current_task == old(self).current_task,
                found <==> exists|k: int| 0 <= k < i && (#[trigger] p0[k])@ == sub_id@,
                forall|k: int| 0 <= k < fresh@.len() ==> (#[trigger] fresh@[k])@ != sub_id@,
            decreases self.pending_approvals@.len() - i,
    {
            if string_is(&self.pending_approvals[i], sub_id) {
                found = true;
            } else {
                fresh.push(self.pending_approvals[i].clone());
                proof {
                    assert(fresh@.last()@ == p0[i as int]@);
                }
            }
            i = i + 1;
        }
        self.pending_approvals = fresh;
        found
    }

    /// Interrupt: drop pending approvals and input, and take the current
    /// task so one `TurnAborted` (reason: interrupted) can be emitted.
    pub fn interrupt_task(&mut self) -> (aborted: Option<String>)
        ensures
            aborted == old(self).current_task,
            final(self).current_task is None,
            final(self).pending_approvals@.len() == 0,
            final(self).pending_input@.len() == 0,
            final(self).approved_commands == old(self).approved_commands,
            final(self).history == old(self).history,
    {
        self.pending_approvals.clear();
        self.pending_input.clear();
        self.current_task.take()
    }
}

/// Element-wise equality of two string vectors.
pub fn vec_string_eq(a: &Vec<String>, b: &Vec<String>) -> (r: bool)
    ensures
        r == (a.deep_view() == b.deep_view()),
{
    if a.len() != b.len() {
        proof {
            assert(a.deep_view().len() == a@.len());
            assert(b.deep_view().len() == b@.len());
        }
        return false;
    }
    let mut i: usize = 0;
    while i < a.len()
        invariant
            i <= a@.len(),
            a@.len() == b@.len(),
            forall|k: int| 0 <= k < i ==> a.deep_view()[k] == b.deep_view()[k],
        decreases a@.len() - i,
    {
        if !(a[i] == b[i]) {
            proof {
                assert(a.deep_view()[i as int] == a@[i as int]@);
                assert(b.deep_view()[i as int] == b@[i as int]@);
            }
            return false;
        }
        proof {
            assert(a.deep_view()[i as int] == a@[i as int]@);
            assert(b.deep_view()[i as int] == b@[i as int]@);
        }
        i = i + 1;
    }
    proof {
        assert(a.deep_view() =~= b.deep_view());
    }
    true
}

/// At most one task is current at any instant, and installing a new task
/// yields exactly the prior task's submission id (and nothing else) for the
/// single `TurnAborted` event of a replacement.
pub proof fn lemma_single_task(
    before: SessionState,
    after: SessionState,
    sub_id: String,
    aborted: Option<String>,
)
    requires
        after.current_task == Some(sub_id),
        aborted == before.current_task,
    ensures
        after.current_task is Some,
        (before.current_task is Some <==> aborted is Some),
        (aborted matches Some(prior) ==> before.current_task == Some(prior)),
{
}

} // verus!
