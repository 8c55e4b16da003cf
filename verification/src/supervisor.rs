//! The console supervisor's pending-write state machine.
//!
//! The supervisor owns the queue of commands awaiting transmission to the
//! console writer session, the reconnect-attempt counter, and the set of
//! task-owned command strings. The surrounding loop performs the actual
//! socket writes and reports each outcome here; the state machine decides
//! what is queued, what is retried, and what is dropped.

use vstd::prelude::*;
use crate::text::{lemma_strs_view_index, lemma_strs_view_len, strs_view};
use crate::value::str_equal;

verus! {

broadcast use vstd::seq::group_seq_axioms, vstd::std_specs::vec::group_vec_axioms;

/// The supervisor's mathematical state.
#[verifier::ext_equal]
pub struct SupervisorV {
    /// Commands awaiting transmission, oldest first.
    pub pending: Seq<Seq<char>>,
    /// Failed attempts since the last successful send.
    pub attempts: int,
    /// Attempts allowed before the queue is dropped.
    pub max_attempts: int,
    /// The task-owned command strings.
    pub tasks: Seq<Seq<char>>,
}

/// The supervisor state: the pending-command queue, the reconnect-attempt
/// counter and the registered task commands.
pub struct Supervisor {
    pending: Vec<String>,
    attempts: i64,
    max_attempts: i64,
    task_commands: Vec<String>,
}

impl View for Supervisor {
    type V = SupervisorV;

    closed spec fn view(&self) -> SupervisorV {
        SupervisorV {
            pending: strs_view(self.pending@),
            attempts: self.attempts as int,
            max_attempts: self.max_attempts as int,
            tasks: strs_view(self.task_commands@),
        }
    }
}

/// A well-formed supervisor: the counter lies between zero and the bound,
/// and the bound leaves room to count one attempt past itself.
pub open spec fn sup_wf(s: SupervisorV) -> bool {
    0 <= s.attempts <= s.max_attempts < i64::MAX
}

/// What submitting one command does: while the counter is non-zero, a
/// task-owned command is dropped; every other command joins the queue's
/// tail.
pub open spec fn spec_submit(s: SupervisorV, cmd: Seq<char>) -> SupervisorV {
    if s.attempts != 0 && s.tasks.contains(cmd) {
        s
    } else {
        SupervisorV { pending: s.pending.push(cmd), ..s }
    }
}

/// What a successful send does: the head leaves the queue and the counter
/// resets.
pub open spec fn spec_send_ok(s: SupervisorV) -> SupervisorV {
    SupervisorV { pending: s.pending.skip(1), attempts: 0, ..s }
}

/// What a failed send does: one more attempt is counted; when the bound
/// is exceeded the whole queue is dropped and the counter resets,
/// otherwise the queue is kept unchanged with its head first.
pub open spec fn spec_send_err(s: SupervisorV) -> SupervisorV {
    if s.attempts + 1 > s.max_attempts {
        SupervisorV { pending: Seq::empty(), attempts: 0, ..s }
    } else {
        SupervisorV { attempts: s.attempts + 1, ..s }
    }
}

impl Supervisor {
    /// A fresh supervisor with an empty queue and a zero counter.
    pub fn new(max_attempts: i64, task_commands: Vec<String>) -> (r: Supervisor)
        requires
            0 <= max_attempts < i64::MAX,
        ensures
            r@.pending == Seq::<Seq<char>>::empty(),
            r@.attempts == 0,
            r@.max_attempts == max_attempts as int,
            r@.tasks == strs_view(task_commands@),
            sup_wf(r@),
    {
        let r = Supervisor { pending: Vec::new(), attempts: 0, max_attempts, task_commands };
        proof {
            assert(strs_view(r.pending@) =~= Seq::<Seq<char>>::empty());
        }
        r
    }

    /// How many commands are pending.
    pub fn pending_len(&self) -> (r: usize)
        ensures
            r == self@.pending.len(),
    {
        proof {
            lemma_strs_view_len(self.pending@);
        }
        self.pending.len()
    }

    /// The command to send next: the queue's head.
    pub fn head(&self) -> (r: Option<&String>)
        ensures
            match r {
                Some(c) => self@.pending.len() > 0 && c@ == self@.pending[0],
                None => self@.pending.len() == 0,
            },
    {
        proof {
            lemma_strs_view_len(self.pending@);
            if self.pending@.len() > 0 {
                lemma_strs_view_index(self.pending@, 0);
            }
        }
        if self.pending.len() == 0 {
            None
        } else {
            Some(&self.pending[0])
        }
    }

    /// Submit one command. Task suppression: while the reconnect counter
    /// is non-zero, a command equal by string to a registered task command
    /// is dropped and the state is unchanged; every other command is
    /// appended to the pending queue, which is never reordered.
    pub fn submit(&mut self, cmd: String) -> (accepted: bool)
        ensures
            final(self)@ == spec_submit(old(self)@, cmd@),
            accepted == !(old(self)@.attempts != 0 && old(self)@.tasks.contains(cmd@)),
    {
        let suppress = if self.attempts != 0 {
            self.is_task_command(cmd.as_str())
        } else {
            false
        };
        if suppress {
            false
        } else {
            let ghost before = self.pending@;
            self.pending.push(cmd);
            proof {
                lemma_strs_view_snoc_here(self.pending@);
                assert(self.pending@.take(self.pending@.len() - 1) =~= before);
                assert(self@ =~= spec_submit(old(self)@, cmd@));
            }
            true
        }
    }

    /// Whether the command string is one of the registered task commands.
    pub fn is_task_command(&self, cmd: &str) -> (r: bool)
        ensures
            r == self@.tasks.contains(cmd@),
    {
        let ghost tv = strs_view(self.task_commands@);
        proof {
            lemma_strs_view_len(self.task_commands@);
        }
        let n = self.task_commands.len();
        let mut i: usize = 0;
        while i < n
            invariant
                i <= n,
                n == self.task_commands@.len(),
                tv == strs_view(self.task_commands@),
                tv.len() == n,
                forall|j: int| 0 <= j < i ==> tv[j] != cmd@,
            decreases n - i,
        {
            if str_equal(self.task_commands[i].as_str(), cmd) {
                proof {
                    lemma_strs_view_index(self.task_commands@, i as int);
                    assert(tv[i as int] == cmd@);
                }
                return true;
            }
            proof {
                lemma_strs_view_index(self.task_commands@, i as int);
            }
            i = i + 1;
        }
        proof {
            if tv.contains(cmd@) {
                let w = choose|w: int| 0 <= w < tv.len() && tv[w] == cmd@;
                assert(tv[w] != cmd@);
            }
        }
        false
    }

    /// Record that the head command was sent: it leaves the queue and the
    /// attempt counter resets. The rest of the queue keeps its order.
    pub fn on_send_ok(&mut self)
        requires
            old(self)@.pending.len() > 0,
        ensures
            final(self)@ == spec_send_ok(old(self)@),
    {
        proof {
            lemma_strs_view_len(self.pending@);
        }
        self.pending.remove(0);
        self.attempts = 0;
        proof {
            let ov = strs_view(old(self).pending@);
            lemma_strs_view_len(self.pending@);
            assert forall|j: int| 0 <= j < self.pending@.len() implies strs_view(self.pending@)[j]
                == ov.skip(1)[j] by {
                lemma_strs_view_index(self.pending@, j);
                lemma_strs_view_index(old(self).pending@, j + 1);
            }
            assert(strs_view(self.pending@) =~= ov.skip(1));
            assert(self@ =~= spec_send_ok(old(self)@));
        }
    }

    /// Record that a send failed. One more attempt is counted; when the
    /// bound is exceeded the whole queue is returned as dropped and
    /// cleared, and the counter resets; otherwise the queue stays as it
    /// was, head first, for the retry after the reconnect pause.
    pub fn on_send_err(&mut self) -> (dropped: Option<Vec<String>>)
        requires
            sup_wf(old(self)@),
        ensures
            final(self)@ == spec_send_err(old(self)@),
            sup_wf(final(self)@),
            match dropped {
                Some(d) => old(self)@.attempts + 1 > old(self)@.max_attempts && strs_view(d@)
                    == old(self)@.pending,
                None => old(self)@.attempts + 1 <= old(self)@.max_attempts,
            },
    {
        self.attempts = self.attempts + 1;
        if self.attempts > self.max_attempts {
            let mut drained: Vec<String> = Vec::new();
            core::mem::swap(&mut drained, &mut self.pending);
            self.attempts = 0;
            proof {
                assert(strs_view(self.pending@) =~= Seq::<Seq<char>>::empty());
                assert(self@ =~= spec_send_err(old(self)@));
            }
            Some(drained)
        } else {
            proof {
                assert(self@ =~= spec_send_err(old(self)@));
            }
            None
        }
    }

    /// Record that the writer session was reconnected: the counter resets,
    /// the queue is untouched.
    pub fn on_reconnected(&mut self)
        ensures
            final(self)@ == (SupervisorV { attempts: 0, ..old(self)@ }),
    {
        self.attempts = 0;
        proof {
            assert(self@ =~= SupervisorV { attempts: 0, ..old(self)@ });
        }
    }
}

/// A strs view of one more element.
proof fn lemma_strs_view_snoc_here(s: Seq<String>)
    requires
        s.len() > 0,
    ensures
        strs_view(s) == strs_view(s.take(s.len() - 1)).push(s.last()@),
{
    crate::textops::lemma_strs_view_snoc(s);
}

/// A run in which every submitted command is sent successfully right
/// away: submit, then drain the queue with successful sends.
pub open spec fn spec_run_ok(s: SupervisorV, cmds: Seq<Seq<char>>) -> (SupervisorV, Seq<Seq<char>>)
    decreases cmds.len(),
{
    if cmds.len() == 0 {
        (s, Seq::empty())
    } else {
        let s1 = spec_submit(s, cmds[0]);
        let sent_now = s1.pending;
        let s2 = SupervisorV { pending: Seq::empty(), attempts: 0, ..s1 };
        let (s3, sent_rest) = spec_run_ok(s2, cmds.skip(1));
        (s3, sent_now + sent_rest)
    }
}

/// First-in, first-out over pending writes: starting from a zero counter
/// and an empty queue, submitting any command sequence with every send
/// succeeding makes the console observe exactly that sequence, in order.
pub proof fn lemma_fifo(s: SupervisorV, cmds: Seq<Seq<char>>)
    requires
        s.attempts == 0,
        s.pending.len() == 0,
    ensures
        spec_run_ok(s, cmds).1 == cmds,
    decreases cmds.len(),
{
    if cmds.len() == 0 {
        assert(spec_run_ok(s, cmds).1 =~= cmds);
    } else {
        let s1 = spec_submit(s, cmds[0]);
        assert(s1.pending =~= seq![cmds[0]]);
        let s2 = SupervisorV { pending: Seq::empty(), attempts: 0, ..s1 };
        lemma_fifo(s2, cmds.skip(1));
        assert(s1.pending + cmds.skip(1) =~= cmds);
    }
}

/// Task suppression during reconnect: while the counter is non-zero, a
/// command registered as task-owned leaves the state untouched, and every
/// other command is queued at the tail.
pub proof fn lemma_task_suppression(s: SupervisorV, cmd: Seq<char>)
    ensures
        s.attempts != 0 && s.tasks.contains(cmd) ==> spec_submit(s, cmd) == s,
        !(s.attempts != 0 && s.tasks.contains(cmd)) ==> spec_submit(s, cmd).pending == s.pending.push(cmd),
        spec_submit(s, cmd).tasks == s.tasks,
        spec_submit(s, cmd).attempts == s.attempts,
{
}

/// Reconnect preserves the pending queue: a failed send within the bound
/// changes no queue entry, so the head is retried first, and only
/// exhaustion clears the queue.
pub proof fn lemma_reconnect_preserves_queue(s: SupervisorV)
    ensures
        s.attempts + 1 <= s.max_attempts ==> spec_send_err(s).pending == s.pending,
        s.attempts + 1 > s.max_attempts ==> spec_send_err(s).pending == Seq::<Seq<char>>::empty(),
{
}

} // verus!
