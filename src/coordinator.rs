use vstd::prelude::*;
use crate::resolve::AbsoluteUrl;
use crate::extract::LinkSet;
use crate::checker::CheckStatus;

verus! {

/// Why a run could not be set up.
#[derive(Debug, Clone, Copy, PartialEq, Eq, Structural)]
pub enum SetupError {
    /// No check could ever run: the pool was asked for no workers.
    CapacityExceeded,
}

/// Where the check of one URL stands.
#[derive(Debug, Clone)]
pub enum TaskState {
    Pending,
    Running,
    Completed(CheckStatus),
}

/// The result of checking one URL.
#[derive(Debug, Clone)]
pub struct CheckOutcome {
    pub url: AbsoluteUrl,
    pub status: CheckStatus,
}

impl View for CheckOutcome {
    type V = (Seq<char>, CheckStatus);

    open spec fn view(&self) -> (Seq<char>, CheckStatus) {
        (self.url@, self.status)
    }
}

/// How many tasks of `s` are running.
pub open spec fn running_in(s: Seq<TaskState>) -> nat
    decreases s.len(),
{
    if s.len() == 0 {
        0
    } else {
        running_in(s.drop_last()) + if s.last() is Running {
            1nat
        } else {
            0nat
        }
    }
}

/// The outcomes of the completed tasks among the first `n`, in task order.
pub open spec fn completed_upto(tasks: Seq<Seq<char>>, states: Seq<TaskState>, n: nat) -> Seq<
    (Seq<char>, CheckStatus),
>
    decreases n,
{
    if n == 0 {
        Seq::empty()
    } else {
        let prev = completed_upto(tasks, states, (n - 1) as nat);
        match states[n - 1] {
            TaskState::Completed(st) => prev.push((tasks[n - 1], st)),
            _ => prev,
        }
    }
}

/// Schedules the checks of a link set under a cap on how many run at once.
/// Tasks leave `Pending` in order, one each time a worker is free; a
/// completed task keeps its outcome; a cancelled run admits no more tasks.
pub struct Coordinator {
    urls: Vec<AbsoluteUrl>,
    states: Vec<TaskState>,
    next: usize,
    running: usize,
    limit: usize,
    cancelled: bool,
}

impl Coordinator {
    /// The URLs to check, one task each.
    pub closed spec fn tasks(&self) -> Seq<Seq<char>> {
        self.urls@.map_values(|u: AbsoluteUrl| u@)
    }

    /// The state of each task.
    pub closed spec fn states(&self) -> Seq<TaskState> {
        self.states@
    }

    /// How many tasks have left `Pending`.
    pub closed spec fn admitted(&self) -> nat {
        self.next as nat
    }

    /// How many tasks may run at once.
    pub closed spec fn limit(&self) -> nat {
        self.limit as nat
    }

    /// Whether the run was cancelled.
    pub closed spec fn is_cancelled(&self) -> bool {
        self.cancelled
    }

    /// How many tasks run now.
    pub closed spec fn running(&self) -> nat {
        self.running as nat
    }

    /// The outcomes that have been collected so far, in task order.
    pub open spec fn outcomes_so_far(&self) -> Seq<(Seq<char>, CheckStatus)> {
        completed_upto(self.tasks(), self.states(), self.states().len())
    }

    /// Whether the run is over: nothing runs, and nothing more will.
    pub open spec fn finished(&self) -> bool {
        self.running() == 0 && (self.is_cancelled() || self.admitted() == self.tasks().len())
    }

    /// One state per URL; tasks before `admitted()` have left `Pending` and
    /// the rest have not; the running count matches the states and stays
    /// within a limit of at least 1.
    pub closed spec fn wf(&self) -> bool {
        &&& self.urls@.len() == self.states@.len()
        &&& self.tasks().no_duplicates()
        &&& self.next <= self.states@.len()
        &&& forall|i: int| 0 <= i < self.next ==> !(#[trigger] self.states@[i] is Pending)
        &&& forall|i: int| self.next <= i < self.states@.len() ==> #[trigger] self.states@[i] is Pending
        &&& self.running == running_in(self.states@)
        &&& 1 <= self.limit
        &&& self.running <= self.limit
    }

    /// A run over the URLs of `links`, at most `limit` at once; fails where
    /// `limit` is 0.
    pub fn new(links: &LinkSet, limit: usize) -> (r: Result<Coordinator, SetupError>)
        requires
            links.wf(),
        ensures
            match r {
                Ok(c) => {
                    &&& limit >= 1
                    &&& c.wf()
                    &&& c.tasks() == links@
                    &&& forall|i: int| 0 <= i < c.states().len() ==> #[trigger] c.states()[i] is Pending
                    &&& c.states().len() == links@.len()
                    &&& c.admitted() == 0 && c.running() == 0
                    &&& c.limit() == limit
                    &&& !c.is_cancelled()
                },
                Err(e) => limit == 0 && e == SetupError::CapacityExceeded,
            },
    {
        if limit == 0 {
            return Err(SetupError::CapacityExceeded);
        }
        let n = links.len();
        let mut urls: Vec<AbsoluteUrl> = Vec::new();
        let mut states: Vec<TaskState> = Vec::new();
        let mut i: usize = 0;
        while i < n
            invariant
                n == links@.len(),
                links@.no_duplicates(),
                i <= links@.len(),
                urls@.len() == i,
                states@.len() == i,
                forall|k: int| 0 <= k < i ==> #[trigger] urls@[k]@ == links@[k],
                forall|k: int| 0 <= k < i ==> #[trigger] states@[k] is Pending,
                running_in(states@) == 0,
            decreases n - i,
        {
            urls.push(links.get(i).clone_url());
            let ghost before = states@;
            states.push(TaskState::Pending);
            assert(states@.drop_last() =~= before);
            i = i + 1;
        }
        let c = Coordinator { urls, states, next: 0, running: 0, limit, cancelled: false };
        assert(c.tasks() =~= links@);
        Ok(c)
    }

    /// Starts the next pending task where a worker is free and the run is not
    /// cancelled, and hands out its index and URL.
    pub fn start_next(&mut self) -> (r: Option<(usize, AbsoluteUrl)>)
        requires
            old(self).wf(),
        ensures
            final(self).wf(),
            final(self).tasks() == old(self).tasks(),
            final(self).limit() == old(self).limit(),
            final(self).is_cancelled() == old(self).is_cancelled(),
            final(self).running() <= final(self).limit(),
            match r {
                Some((id, u)) => {
                    &&& !old(self).is_cancelled()
                    &&& old(self).running() < old(self).limit()
                    &&& id == old(self).admitted()
                    &&& id < old(self).tasks().len()
                    &&& u@ == old(self).tasks()[id as int]
                    &&& final(self).states() == old(self).states().update(id as int, TaskState::Running)
                    &&& final(self).admitted() == old(self).admitted() + 1
                    &&& final(self).running() == old(self).running() + 1
                },
                None => {
                    &&& (old(self).is_cancelled() || old(self).running() == old(self).limit()
                        || old(self).admitted() == old(self).tasks().len())
                    &&& final(self).states() == old(self).states()
                    &&& final(self).admitted() == old(self).admitted()
                    &&& final(self).running() == old(self).running()
                },
            },
    {
        if self.cancelled || self.running >= self.limit || self.next >= self.states.len() {
            return None;
        }
        let id = self.next;
        proof {
            lemma_running_in_update(self.states@, id as int, TaskState::Running);
        }
        self.states.set(id, TaskState::Running);
        self.next = id + 1;
        self.running = self.running + 1;
        let u = self.urls[id].clone_url();
        assert(self.urls@[id as int]@ == old(self).tasks()[id as int]);
        Some((id, u))
    }

    /// Records the outcome of the running task `id`; where `id` is not
    /// running, changes nothing and returns false.
    pub fn complete(&mut self, id: usize, status: CheckStatus) -> (r: bool)
        requires
            old(self).wf(),
        ensures
            final(self).wf(),
            final(self).tasks() == old(self).tasks(),
            final(self).limit() == old(self).limit(),
            final(self).is_cancelled() == old(self).is_cancelled(),
            final(self).admitted() == old(self).admitted(),
            r == (id < old(self).states().len() && old(self).states()[id as int] is Running),
            r ==> final(self).states() == old(self).states().update(
                id as int,
                TaskState::Completed(status),
            ) && final(self).running() + 1 == old(self).running(),
            !r ==> final(self).states() == old(self).states() && final(self).running()
                == old(self).running(),
    {
        if id >= self.states.len() {
            return false;
        }
        match &self.states[id] {
            TaskState::Running => {},
            _ => {
                return false;
            },
        }
        proof {
            lemma_running_in_update(self.states@, id as int, TaskState::Completed(status));
        }
        self.states.set(id, TaskState::Completed(status));
        self.running = self.running - 1;
        true
    }

    /// Stops admitting tasks; running ones may still complete.
    pub fn cancel(&mut self)
        requires
            old(self).wf(),
        ensures
            final(self).wf(),
            final(self).is_cancelled(),
            final(self).tasks() == old(self).tasks(),
            final(self).states() == old(self).states(),
            final(self).admitted() == old(self).admitted(),
            final(self).running() == old(self).running(),
            final(self).limit() == old(self).limit(),
    {
        self.cancelled = true;
    }

    /// How many tasks run now.
    pub fn running_count(&self) -> (r: usize)
        ensures
            r == self.running(),
    {
        self.running
    }

    /// Whether the run is over.
    pub fn is_finished(&self) -> (r: bool)
        requires
            self.wf(),
        ensures
            r == self.finished(),
    {
        self.running == 0 && (self.cancelled || self.next == self.states.len())
    }

    /// The outcomes collected so far, in task order.
    pub fn outcomes(&self) -> (r: Vec<CheckOutcome>)
        requires
            self.wf(),
        ensures
            r@.map_values(|o: CheckOutcome| o@) == self.outcomes_so_far(),
    {
        let mut out: Vec<CheckOutcome> = Vec::new();
        let mut i: usize = 0;
        while i < self.states.len()
            invariant
                self.wf(),
                i <= self.states@.len(),
                out@.map_values(|o: CheckOutcome| o@) == completed_upto(
                    self.tasks(),
                    self.states(),
                    i as nat,
                ),
            decreases self.states@.len() - i,
        {
            let ghost before = out@;
            match &self.states[i] {
                TaskState::Completed(st) => {
                    let o = CheckOutcome { url: self.urls[i].clone_url(), status: st.duplicate() };
                    out.push(o);
                    assert(out@.map_values(|o: CheckOutcome| o@) =~= before.map_values(
                        |o: CheckOutcome| o@,
                    ).push((self.tasks()[i as int], *st)));
                },
                _ => {},
            }
            i = i + 1;
        }
        out
    }
}

proof fn lemma_running_in_update(s: Seq<TaskState>, i: int, v: TaskState)
    requires
        0 <= i < s.len(),
    ensures
        running_in(s.update(i, v)) as int == running_in(s) as int - (if s[i] is Running {
            1int
        } else {
            0int
        }) + (if v is Running {
            1int
        } else {
            0int
        }),
    decreases s.len(),
{
    if i < s.len() - 1 {
        assert(s.update(i, v).drop_last() =~= s.drop_last().update(i, v));
        lemma_running_in_update(s.drop_last(), i, v);
    } else {
        assert(s.update(i, v).drop_last() =~= s.drop_last());
    }
}

proof fn lemma_running_in_zero(s: Seq<TaskState>, i: int)
    requires
        running_in(s) == 0,
        0 <= i < s.len(),
    ensures
        !(s[i] is Running),
    decreases s.len(),
{
    if i < s.len() - 1 {
        lemma_running_in_zero(s.drop_last(), i);
    }
}

proof fn lemma_all_completed(tasks: Seq<Seq<char>>, states: Seq<TaskState>, n: nat)
    requires
        n <= states.len(),
        n <= tasks.len(),
        forall|i: int| 0 <= i < n ==> #[trigger] states[i] is Completed,
    ensures
        completed_upto(tasks, states, n).len() == n,
        forall|i: int|
            0 <= i < n ==> #[trigger] completed_upto(tasks, states, n)[i] == (
                tasks[i],
                states[i]->Completed_0,
            ),
    decreases n,
{
    if n > 0 {
        lemma_all_completed(tasks, states, (n - 1) as nat);
        assert(states[n - 1] is Completed);
    }
}

/// The cap holds in every state of a run: no more checks run at once than
/// the run's limit, and the count of running checks is the number of tasks
/// in the `Running` state.
pub proof fn lemma_running_within_limit(c: &Coordinator)
    requires
        c.wf(),
    ensures
        c.running() <= c.limit(),
        c.running() == running_in(c.states()),
{
}

/// A run that finished without being cancelled has exactly one outcome for
/// each URL of its link set, in the set's order, with no URL twice.
pub proof fn lemma_finished_run_covers_all(c: &Coordinator)
    requires
        c.wf(),
        c.finished(),
        !c.is_cancelled(),
    ensures
        c.outcomes_so_far().len() == c.tasks().len(),
        forall|i: int|
            0 <= i < c.tasks().len() ==> (#[trigger] c.outcomes_so_far()[i]).0 == c.tasks()[i],
        c.tasks().no_duplicates(),
{
    assert forall|i: int| 0 <= i < c.states().len() implies #[trigger] c.states()[i] is Completed by {
        lemma_running_in_zero(c.states(), i);
    }
    lemma_all_completed(c.tasks(), c.states(), c.states().len());
}

} // verus!
