//! Scheduled command injection: the task kinds and their per-tick
//! decisions. The surrounding loop owns the timers and the cron schedule;
//! each tick asks a task here which commands to emit.

use vstd::prelude::*;
use rand::Rng;
use crate::text::{lemma_strs_view_index, lemma_strs_view_len, strs_view};
use crate::textops::lemma_strs_view_snoc;
use crate::value::str_equal;

verus! {

broadcast use vstd::seq::group_seq_axioms, vstd::std_specs::vec::group_vec_axioms;

/// How a cron task walks its command list on each tick.
#[derive(Clone, Copy, PartialEq, Eq, Structural)]
pub enum TaskType {
    /// Round-robin, one command per tick, with a persistent index.
    Line,
    /// One command drawn at random per tick.
    Random,
    /// Every command on each tick.
    All,
}

/// The round-robin cursor of a `line`-mode cron task.
pub struct LineState {
    index: usize,
    commands: Vec<String>,
}

/// The cursor's mathematical state.
#[verifier::ext_equal]
pub struct LineStateV {
    pub index: int,
    pub commands: Seq<Seq<char>>,
}

impl View for LineState {
    type V = LineStateV;

    closed spec fn view(&self) -> LineStateV {
        LineStateV { index: self.index as int, commands: strs_view(self.commands@) }
    }
}

/// A well-formed cursor points inside its command list, or at zero when
/// the list is empty.
pub open spec fn line_wf(ls: LineStateV) -> bool {
    if ls.commands.len() == 0 {
        ls.index == 0
    } else {
        0 <= ls.index < ls.commands.len()
    }
}

/// One round-robin tick: the command under the cursor is emitted and the
/// cursor advances cyclically; an empty list emits the empty string.
pub open spec fn spec_line_next(ls: LineStateV) -> (LineStateV, Seq<char>) {
    if ls.commands.len() == 0 {
        (ls, Seq::empty())
    } else {
        (
            LineStateV { index: (ls.index + 1) % (ls.commands.len() as int), ..ls },
            ls.commands[ls.index],
        )
    }
}

/// The emissions of `k` successive round-robin ticks.
pub open spec fn spec_line_run(ls: LineStateV, k: nat) -> Seq<Seq<char>>
    decreases k,
{
    if k == 0 {
        Seq::empty()
    } else {
        let (ls1, c) = spec_line_next(ls);
        seq![c] + spec_line_run(ls1, (k - 1) as nat)
    }
}

impl LineState {
    /// A fresh cursor at the start of the command list.
    pub fn new(commands: Vec<String>) -> (r: LineState)
        ensures
            r@.index == 0,
            r@.commands == strs_view(commands@),
            line_wf(r@),
    {
        proof {
            lemma_strs_view_len(commands@);
        }
        LineState { index: 0, commands }
    }

    /// Emit the command under the cursor and advance it cyclically; with
    /// no commands, the empty string.
    pub fn get_next_command(&mut self) -> (r: String)
        requires
            line_wf(old(self)@),
        ensures
            line_wf(final(self)@),
            final(self)@ == spec_line_next(old(self)@).0,
            r@ == spec_line_next(old(self)@).1,
    {
        proof {
            lemma_strs_view_len(self.commands@);
        }
        if self.commands.len() == 0 {
            proof {
                assert(self@ =~= spec_line_next(old(self)@).0);
            }
            return String::new();
        }
        let cmd = self.commands[self.index].clone();
        proof {
            lemma_strs_view_index(self.commands@, self.index as int);
        }
        self.index = (self.index + 1) % self.commands.len();
        proof {
            assert(self@ =~= spec_line_next(old(self)@).0);
        }
        cmd
    }
}

/// Cron line-mode round-robin: over any run of ticks, the `j`-th emission
/// is the command `j` places past the starting cursor, cyclically, no
/// matter when the ticks fire.
pub proof fn lemma_line_round_robin(ls: LineStateV, k: nat, j: int)
    requires
        line_wf(ls),
        ls.commands.len() > 0,
        0 <= j < k,
    ensures
        spec_line_run(ls, k).len() == k,
        spec_line_run(ls, k)[j] == ls.commands[(ls.index + j) % (ls.commands.len() as int)],
    decreases k,
{
    let n = ls.commands.len() as int;
    lemma_line_run_len(ls, k);
    let (ls1, c) = spec_line_next(ls);
    if j == 0 {
        assert(ls.index % n == ls.index) by (nonlinear_arith)
            requires
                0 <= ls.index < n,
        ;
        assert((ls.index + 0) % n == ls.index);
    } else {
        assert(line_wf(ls1)) by {
            assert(0 <= (ls.index + 1) % n < n) by (nonlinear_arith)
                requires
                    n > 0,
            ;
        }
        lemma_line_round_robin(ls1, (k - 1) as nat, j - 1);
        assert(spec_line_run(ls, k)[j] == spec_line_run(ls1, (k - 1) as nat)[j - 1]);
        assert(ls1.commands[((ls.index + 1) % n + (j - 1)) % n] == ls.commands[(ls.index + j)
            % n]) by {
            lemma_mod_shift(ls.index, j, n);
        }
    }
}

/// Adding inside or outside the modulus is the same.
proof fn lemma_mod_shift(a: int, j: int, n: int)
    requires
        n > 0,
        j >= 1,
    ensures
        ((a + 1) % n + (j - 1)) % n == (a + j) % n,
{
    assert(((a + 1) % n + (j - 1)) % n == ((a + 1) + (j - 1)) % n) by (nonlinear_arith)
        requires
            n > 0,
    ;
}

proof fn lemma_line_run_len(ls: LineStateV, k: nat)
    ensures
        spec_line_run(ls, k).len() == k,
    decreases k,
{
    if k > 0 {
        lemma_line_run_len(spec_line_next(ls).0, (k - 1) as nat);
    }
}

/// One scheduled task: cron-driven or delay-driven command injection.
pub enum Task {
    Cron { cron: String, commands: Vec<String>, mode: TaskType, state: LineState },
    Delay { commands: Vec<String>, delay: u64 },
}

/// The task's command list, as characters.
pub open spec fn task_commands_view(t: Task) -> Seq<Seq<char>> {
    match t {
        Task::Cron { commands, .. } => strs_view(commands@),
        Task::Delay { commands, .. } => strs_view(commands@),
    }
}

/// The default delay between two rounds of a delay task, in seconds.
pub fn default_tasks_delay_sec() -> (r: u64)
    ensures
        r == 60,
{
    60
}

impl Default for Task {
    /// The default task: a delay task with one empty command every five
    /// seconds.
    fn default() -> (r: Task)
        ensures
            match r {
                Task::Delay { commands, delay } => delay == 5 && strs_view(commands@) == seq![
                    Seq::<char>::empty(),
                ],
                _ => false,
            },
    {
        let mut commands: Vec<String> = Vec::new();
        commands.push(String::new());
        proof {
            lemma_strs_view_len(commands@);
            lemma_strs_view_index(commands@, 0);
            assert(strs_view(commands@) =~= seq![Seq::<char>::empty()]);
        }
        Task::Delay { commands, delay: 5 }
    }
}

impl Task {
    /// The task's distinct command strings: each command once, first
    /// occurrence order.
    pub fn get_all_commands(&self) -> (r: Vec<String>)
        ensures
            forall|c: Seq<char>|
                strs_view(r@).contains(c) <==> task_commands_view(*self).contains(c),
    {
        let commands: &Vec<String> = match self {
            Task::Cron { commands, .. } => commands,
            Task::Delay { commands, .. } => commands,
        };
        let mut r: Vec<String> = Vec::new();
        let mut i: usize = 0;
        proof {
            lemma_strs_view_len(commands@);
        }
        while i < commands.len()
            invariant
                i <= commands@.len(),
                forall|c: Seq<char>|
                    strs_view(r@).contains(c) <==> strs_view(commands@).take(i as int).contains(c),
            decreases commands@.len() - i,
        {
            proof {
                lemma_strs_view_len(commands@);
                lemma_strs_view_index(commands@, i as int);
            }
            if !contains_string(&r, &commands[i]) {
                let ghost before = r@;
                r.push(commands[i].clone());
                proof {
                    lemma_strs_view_snoc(r@);
                    assert(r@.take(r@.len() - 1) =~= before);
                    assert forall|c: Seq<char>| strs_view(r@).contains(c) implies strs_view(
                        commands@,
                    ).take(i + 1int).contains(c) by {
                        let w = choose|w: int|
                            0 <= w < strs_view(r@).len() && (#[trigger] strs_view(r@)[w]) == c;
                        if w < strs_view(before).len() {
                            assert(strs_view(before).contains(c));
                            let v = choose|v: int|
                                0 <= v < strs_view(commands@).take(i as int).len() && (
                                #[trigger] strs_view(commands@).take(i as int)[v]) == c;
                            assert(strs_view(commands@).take(i + 1int)[v] == c);
                        } else {
                            assert(strs_view(r@)[w] == commands@[i as int]@);
                            assert(strs_view(commands@).take(i + 1int)[i as int] == c);
                        }
                    }
                    assert forall|c: Seq<char>| strs_view(commands@).take(i + 1int).contains(
                        c,
                    ) implies strs_view(r@).contains(c) by {
                        let v = choose|v: int|
                            0 <= v < strs_view(commands@).take(i + 1int).len() && (
                            #[trigger] strs_view(commands@).take(i + 1int)[v]) == c;
                        if v < i {
                            assert(strs_view(commands@).take(i as int)[v] == c);
                            assert(strs_view(commands@).take(i as int).contains(c));
                            assert(strs_view(before).contains(c));
                            let w = choose|w: int|
                                0 <= w < strs_view(before).len() && (#[trigger] strs_view(
                                    before,
                                )[w]) == c;
                            assert(strs_view(r@)[w] == c);
                        } else {
                            assert(strs_view(r@)[strs_view(r@).len() - 1] == c);
                        }
                    }
                }
            } else {
                proof {
                    assert forall|c: Seq<char>| strs_view(commands@).take(i + 1int).contains(
                        c,
                    ) implies strs_view(r@).contains(c) by {
                        let v = choose|v: int|
                            0 <= v < strs_view(commands@).take(i + 1int).len() && (
                            #[trigger] strs_view(commands@).take(i + 1int)[v]) == c;
                        if v < i {
                            assert(strs_view(commands@).take(i as int)[v] == c);
                            assert(strs_view(commands@).take(i as int).contains(c));
                        } else {
                            assert(c == strs_view(commands@)[i as int]);
                        }
                    }
                    assert forall|c: Seq<char>| strs_view(r@).contains(c) implies strs_view(
                        commands@,
                    ).take(i + 1int).contains(c) by {
                        assert(strs_view(commands@).take(i as int).contains(c));
                        let v = choose|v: int|
                            0 <= v < strs_view(commands@).take(i as int).len() && strs_view(
                                commands@,
                            ).take(i as int)[v] == c;
                        assert(strs_view(commands@).take(i + 1int)[v] == c);
                    }
                }
            }
            i = i + 1;
        }
        proof {
            lemma_strs_view_len(commands@);
            assert(strs_view(commands@).take(commands@.len() as int) =~= strs_view(commands@));
        }
        r
    }

    /// Reset a cron task's cursor to the start of its command list; no
    /// other field changes.
    pub fn init_state(&mut self)
        ensures
            match (*old(self), *final(self)) {
                (
                    Task::Cron { cron: oc, commands: ocmds, mode: om, .. },
                    Task::Cron { cron, commands, mode, state },
                ) => cron == oc && commands == ocmds && mode == om && state@.index == 0
                    && state@.commands == strs_view(commands@) && line_wf(state@),
                (Task::Delay { .. }, _) => *final(self) == *old(self),
                _ => false,
            },
            task_commands_view(*final(self)) == task_commands_view(*old(self)),
    {
        match self {
            Task::Cron { commands, state, .. } => {
                let copy = clone_strings(commands);
                *state = LineState::new(copy);
            },
            Task::Delay { .. } => {},
        }
    }
}

/// Whether the list holds the string.
pub fn contains_string(list: &Vec<String>, s: &String) -> (r: bool)
    ensures
        r == strs_view(list@).contains(s@),
{
    let ghost lv = strs_view(list@);
    proof {
        lemma_strs_view_len(list@);
    }
    let mut i: usize = 0;
    while i < list.len()
        invariant
            i <= list@.len(),
            lv == strs_view(list@),
            lv.len() == list@.len(),
            forall|j: int| 0 <= j < i ==> lv[j] != s@,
        decreases list@.len() - i,
    {
        if str_equal(list[i].as_str(), s.as_str()) {
            proof {
                lemma_strs_view_index(list@, i as int);
            }
            return true;
        }
        proof {
            lemma_strs_view_index(list@, i as int);
        }
        i = i + 1;
    }
    proof {
        if lv.contains(s@) {
            let w = choose|w: int| 0 <= w < lv.len() && lv[w] == s@;
            assert(lv[w] != s@);
        }
    }
    false
}

/// Copy a string list, preserving the view.
pub fn clone_strings(list: &Vec<String>) -> (r: Vec<String>)
    ensures
        strs_view(r@) == strs_view(list@),
{
    let mut r: Vec<String> = Vec::new();
    let mut i: usize = 0;
    while i < list.len()
        invariant
            i <= list@.len(),
            r@.len() == i,
            forall|j: int| 0 <= j < i ==> (#[trigger] r@[j])@ == list@[j]@,
        decreases list@.len() - i,
    {
        r.push(list[i].clone());
        i = i + 1;
    }
    proof {
        lemma_strs_view_len(r@);
        lemma_strs_view_len(list@);
        assert forall|j: int| 0 <= j < list@.len() implies strs_view(r@)[j] == strs_view(
            list@,
        )[j] by {
            lemma_strs_view_index(r@, j);
            lemma_strs_view_index(list@, j);
        }
        assert(strs_view(r@) =~= strs_view(list@));
    }
    r
}

/// Relies on rand's thread-local generator and `Rng::gen_range`: the
/// drawn index lies below the bound; which one depends on the generator.
#[verifier::external_body]
fn pick_index(n: usize) -> (r: usize)
    requires
        n >= 1,
    ensures
        r < n,
{
    rand::thread_rng().gen_range(0..n)
}

impl Task {
    /// The commands one tick emits. Line mode walks the list round-robin
    /// through the persistent cursor; random mode draws one of the
    /// commands, or none when the list is empty; all mode and a delay
    /// task's round emit the whole list in declared order.
    pub fn tick_commands(&mut self) -> (r: Vec<String>)
        requires
            match *old(self) {
                Task::Cron { state, .. } => line_wf(state@),
                Task::Delay { .. } => true,
            },
        ensures
            task_commands_view(*final(self)) == task_commands_view(*old(self)),
            match (*old(self), *final(self)) {
                (
                    Task::Cron { cron: oc, commands: ocmds, mode: om, state: ost },
                    Task::Cron { cron, commands, mode, state },
                ) => cron == oc && commands == ocmds && mode == om && (match om {
                    TaskType::Line => state@ == spec_line_next(ost@).0 && line_wf(state@),
                    TaskType::Random => state == ost,
                    TaskType::All => state == ost,
                }),
                (Task::Delay { .. }, _) => *final(self) == *old(self),
                _ => false,
            },
            match *old(self) {
                Task::Cron { state: old_state, mode, commands, .. } => {
                    let cv = strs_view(commands@);
                    match mode {
                        TaskType::Line => {
                            &&& strs_view(r@) == seq![spec_line_next(old_state@).1]
                            &&& match *final(self) {
                                Task::Cron { state, .. } => state@ == spec_line_next(old_state@).0
                                    && line_wf(state@),
                                _ => false,
                            }
                        },
                        TaskType::Random => {
                            &&& cv.len() == 0 ==> strs_view(r@).len() == 0
                            &&& cv.len() > 0 ==> strs_view(r@).len() == 1 && cv.contains(
                                strs_view(r@)[0],
                            )
                        },
                        TaskType::All => strs_view(r@) == strs_view(commands@),
                    }
                },
                Task::Delay { commands, .. } => strs_view(r@) == strs_view(commands@),
            },
    {
        match self {
            Task::Cron { state, mode, commands, .. } => match mode {
                TaskType::Line => {
                    let ghost ost = state@;
                    let cmd = state.get_next_command();
                    let mut r: Vec<String> = Vec::new();
                    r.push(cmd);
                    proof {
                        lemma_strs_view_len(r@);
                        lemma_strs_view_index(r@, 0);
                        assert(strs_view(r@) =~= seq![spec_line_next(ost).1]);
                    }
                    r
                },
                TaskType::Random => {
                    proof {
                        lemma_strs_view_len(commands@);
                    }
                    if commands.len() == 0 {
                        let r: Vec<String> = Vec::new();
                        proof {
                            lemma_strs_view_len(r@);
                        }
                        r
                    } else {
                        let ix = pick_index(commands.len());
                        let mut r: Vec<String> = Vec::new();
                        r.push(commands[ix].clone());
                        proof {
                            lemma_strs_view_len(r@);
                            lemma_strs_view_index(r@, 0);
                            lemma_strs_view_index(commands@, ix as int);
                            assert(strs_view(commands@)[ix as int] == strs_view(r@)[0]);
                        }
                        r
                    }
                },
                TaskType::All => clone_strings(commands),
            },
            Task::Delay { commands, .. } => clone_strings(commands),
        }
    }
}

} // verus!
