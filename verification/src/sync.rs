use vstd::prelude::*;

verus! {

/// What a lock or `down` call that would deadlock returns.
pub const DEADLOCK_ERROR_VALUE: isize = -0xDEAD;

/// Resource kind number that deadlock detection is asked about for mutexes.
pub const MUTEX_RESOURCE: usize = 0;

/// Resource kind number that deadlock detection is asked about for semaphores.
pub const SEMAPHORE_RESOURCE: usize = 1;

/// How a kernel mutex waits.
#[derive(Clone, Copy, PartialEq, Eq, Structural, Debug)]
pub enum MutexKind {
    /// Spins, yielding the processor between attempts.
    Spin,
    /// Puts the waiting thread to sleep.
    Blocking,
}

/// The abstract state of a resource table: what is left of each resource,
/// and per thread, what it waits for and what it holds, each indexed
/// `[thread][resource]`.
pub type TableView = (Seq<usize>, Seq<Seq<usize>>, Seq<Seq<usize>>);

/// `m` with entry `[t][r]` moved by `d`.
pub open spec fn seq2_add(m: Seq<Seq<usize>>, t: int, r: int, d: int) -> Seq<Seq<usize>> {
    m.update(t, m[t].update(r, (m[t][r] + d) as usize))
}

/// `m` with one more column holding `v` in every row.
pub open spec fn push_column(m: Seq<Seq<usize>>, v: usize) -> Seq<Seq<usize>> {
    Seq::new(m.len(), |t: int| m[t].push(v))
}

/// A thread asks for resource `r`: its waiting count goes up by one.
pub open spec fn table_request(v: TableView, t: int, r: int) -> TableView {
    (v.0, seq2_add(v.1, t, r, 1), v.2)
}

/// A thread obtains resource `r` that it waited for: one less available,
/// one more held, one less waited for.
pub open spec fn table_acquire(v: TableView, t: int, r: int) -> TableView {
    (v.0.update(r, (v.0[r] - 1) as usize), seq2_add(v.1, t, r, -1), seq2_add(v.2, t, r, 1))
}

/// As `table_acquire`, except that the available count never drops below zero.
pub open spec fn table_acquire_saturating(v: TableView, t: int, r: int) -> TableView {
    (
        if v.0[r] > 0 {
            v.0.update(r, (v.0[r] - 1) as usize)
        } else {
            v.0
        },
        seq2_add(v.1, t, r, -1),
        seq2_add(v.2, t, r, 1),
    )
}

/// A thread gives back resource `r`: one more available, one less held.
pub open spec fn table_release(v: TableView, t: int, r: int) -> TableView {
    (v.0.update(r, (v.0[r] + 1) as usize), v.1, seq2_add(v.2, t, r, -1))
}

/// A new resource with `initial` units, which no thread waits for or holds.
pub open spec fn table_add_resource(v: TableView, initial: usize) -> TableView {
    (v.0.push(initial), push_column(v.1, 0), push_column(v.2, 0))
}

/// A reused resource slot `r` gets `initial` units; the per-thread counts stay.
pub open spec fn table_reset_resource(v: TableView, r: int, initial: usize) -> TableView {
    (v.0.update(r, initial), v.1, v.2)
}

/// The shape every table keeps: one row per thread in both matrices, one
/// column per resource in every row.
pub open spec fn table_wf(v: TableView) -> bool {
    &&& v.1.len() == v.2.len()
    &&& forall|t: int| 0 <= t < v.1.len() ==> #[trigger] v.1[t].len() == v.0.len()
    &&& forall|t: int| 0 <= t < v.2.len() ==> #[trigger] v.2[t].len() == v.0.len()
}

/// Moving one entry keeps the shape of a matrix.
proof fn lemma_seq2_add_shape(m: Seq<Seq<usize>>, t: int, r: int, d: int)
    requires
        0 <= t < m.len(),
        0 <= r < m[t].len(),
    ensures
        seq2_add(m, t, r, d).len() == m.len(),
        forall|u: int| 0 <= u < m.len() ==> #[trigger] seq2_add(m, t, r, d)[u].len() == m[u].len(),
{
}

/// Bookkeeping of one kind of resource (mutexes or semaphores) used for
/// deadlock detection.
pub struct ResourceTable {
    /// Units left of each resource.
    pub available: Vec<usize>,
    /// `need[thread][resource]`: units the thread waits for.
    pub need: Vec<Vec<usize>>,
    /// `allocation[thread][resource]`: units the thread holds.
    pub allocation: Vec<Vec<usize>>,
}

impl View for ResourceTable {
    type V = TableView;

    open spec fn view(&self) -> TableView {
        (self.available@, self.need.deep_view(), self.allocation.deep_view())
    }
}

impl ResourceTable {
    /// Number of threads the table has rows for.
    pub open spec fn threads(&self) -> nat {
        self.need@.len()
    }

    /// Number of resources the table has columns for.
    pub open spec fn resources(&self) -> nat {
        self.available@.len()
    }

    /// Moves entry `[t][r]` of a matrix by one, up or down.
    fn step_entry(m: &mut Vec<Vec<usize>>, t: usize, r: usize, up: bool)
        requires
            t < old(m)@.len(),
            r < old(m).deep_view()[t as int].len(),
            up ==> old(m).deep_view()[t as int][r as int] < usize::MAX,
            !up ==> old(m).deep_view()[t as int][r as int] > 0,
        ensures
            final(m).deep_view() == seq2_add(
                old(m).deep_view(),
                t as int,
                r as int,
                if up {
                    1
                } else {
                    -1
                },
            ),
    {
        assert(m.deep_view()[t as int] =~= m@[t as int]@);
        let ghost d: int = if up {
            1
        } else {
            -1
        };
        if up {
            m[t][r] = m[t][r] + 1;
        } else {
            m[t][r] = m[t][r] - 1;
        }
        proof {
            let old_v = old(m).deep_view();
            assert(m.deep_view()[t as int] =~= old_v[t as int].update(
                r as int,
                (old_v[t as int][r as int] + d) as usize,
            ));
            assert(m.deep_view() =~= seq2_add(old_v, t as int, r as int, d));
        }
    }

    /// Adds a column holding 0 to every row of a matrix.
    fn push_zero_column(m: &mut Vec<Vec<usize>>)
        ensures
            final(m).deep_view() == push_column(old(m).deep_view(), 0),
    {
        let mut t: usize = 0;
        let n = m.len();
        while t < n
            invariant
                n == old(m)@.len(),
                m@.len() == n,
                t <= n,
                forall|u: int| 0 <= u < t ==> #[trigger] m.deep_view()[u] == old(m).deep_view()[u].push(0),
                forall|u: int| t <= u < n ==> #[trigger] m.deep_view()[u] == old(m).deep_view()[u],
            decreases n - t,
        {
            let ghost before = m.deep_view();
            m[t].push(0);
            proof {
                assert forall|u: int| 0 <= u < t + 1 implies #[trigger] m.deep_view()[u]
                    == old(m).deep_view()[u].push(0) by {
                    if u == t {
                        assert(m.deep_view()[u] =~= before[u].push(0));
                    } else {
                        assert(m.deep_view()[u] == before[u]);
                    }
                }
                assert forall|u: int| t + 1 <= u < n implies #[trigger] m.deep_view()[u]
                    == old(m).deep_view()[u] by {
                    assert(m.deep_view()[u] == before[u]);
                }
            }
            t = t + 1;
        }
        assert(m.deep_view() =~= push_column(old(m).deep_view(), 0));
    }

    /// Adds a resource with `initial` units that nobody waits for or holds.
    fn add_resource(&mut self, initial: usize)
        requires
            table_wf(old(self)@),
        ensures
            final(self)@ == table_add_resource(old(self)@, initial),
            table_wf(final(self)@),
    {
        self.available.push(initial);
        Self::push_zero_column(&mut self.need);
        Self::push_zero_column(&mut self.allocation);
    }

    /// Thread `t` asks for resource `r`.
    fn request(&mut self, t: usize, r: usize)
        requires
            table_wf(old(self)@),
            t < old(self).threads(),
            r < old(self).resources(),
            old(self)@.1[t as int][r as int] < usize::MAX,
        ensures
            final(self)@ == table_request(old(self)@, t as int, r as int),
            table_wf(final(self)@),
    {
        Self::step_entry(&mut self.need, t, r, true);
        proof {
            lemma_seq2_add_shape(old(self)@.1, t as int, r as int, 1);
        }
    }

    /// Thread `t` obtains resource `r`; with `saturating` the available count
    /// stays at zero instead of going down.
    fn acquire(&mut self, t: usize, r: usize, saturating: bool)
        requires
            table_wf(old(self)@),
            t < old(self).threads(),
            r < old(self).resources(),
            old(self)@.1[t as int][r as int] > 0,
            old(self)@.2[t as int][r as int] < usize::MAX,
            !saturating ==> old(self)@.0[r as int] > 0,
        ensures
            saturating ==> final(self)@ == table_acquire_saturating(old(self)@, t as int, r as int),
            !saturating ==> final(self)@ == table_acquire(old(self)@, t as int, r as int),
            table_wf(final(self)@),
    {
        Self::step_entry(&mut self.allocation, t, r, true);
        if self.available[r] > 0 {
            let left = self.available[r] - 1;
            self.available.set(r, left);
        }
        Self::step_entry(&mut self.need, t, r, false);
        proof {
            lemma_seq2_add_shape(old(self)@.1, t as int, r as int, -1);
            lemma_seq2_add_shape(old(self)@.2, t as int, r as int, 1);
        }
    }

    /// Thread `t` gives back resource `r`.
    fn release(&mut self, t: usize, r: usize)
        requires
            table_wf(old(self)@),
            t < old(self).threads(),
            r < old(self).resources(),
            old(self)@.2[t as int][r as int] > 0,
            old(self)@.0[r as int] < usize::MAX,
        ensures
            final(self)@ == table_release(old(self)@, t as int, r as int),
            table_wf(final(self)@),
    {
        Self::step_entry(&mut self.allocation, t, r, false);
        let more = self.available[r] + 1;
        self.available.set(r, more);
        proof {
            lemma_seq2_add_shape(old(self)@.2, t as int, r as int, -1);
        }
    }
}

/// Slot `i` is the first empty one of the list.
pub open spec fn first_free<A>(s: Seq<Option<A>>, i: int) -> bool {
    &&& 0 <= i < s.len()
    &&& s[i] is None
    &&& forall|j: int| 0 <= j < i ==> #[trigger] s[j] is Some
}

/// Every slot of the list is taken.
pub open spec fn all_taken<A>(s: Seq<Option<A>>) -> bool {
    forall|j: int| 0 <= j < s.len() ==> #[trigger] s[j] is Some
}

/// Gives the first empty slot of a list, or `None` when all are taken.
fn find_free_slot<A>(list: &Vec<Option<A>>) -> (r: Option<usize>)
    ensures
        match r {
            Some(i) => first_free(list@, i as int),
            None => all_taken(list@),
        },
{
    let mut i: usize = 0;
    while i < list.len()
        invariant
            i <= list@.len(),
            forall|j: int| 0 <= j < i ==> #[trigger] list@[j] is Some,
        decreases list@.len() - i,
    {
        if list[i].is_none() {
            return Some(i);
        }
        i = i + 1;
    }
    None
}

/// One step of a call that may have to wait for a resource
/// (`sys_mutex_lock`, `sys_semaphore_down`).
#[derive(Clone, Copy, PartialEq, Eq, Structural, Debug)]
pub enum WaitStep {
    /// The call starts.
    Request,
    /// Deadlock detection has run and answered.
    Checked(bool),
    /// The thread now holds the resource.
    Acquired,
}

/// What the kernel is to do next for a call that may wait.
#[derive(Clone, Copy, PartialEq, Eq, Structural, Debug)]
pub enum SyncAction {
    /// Run deadlock detection on this resource kind, then go on with
    /// `WaitStep::Checked`.
    DetectDeadlock(usize),
    /// Wait on the resource with this id, then go on with
    /// `WaitStep::Acquired`.
    Wait(usize),
    /// The call is over and returns this value.
    Return(isize),
    /// Unlock the mutex with this id; the call then returns 0.
    Unlock(usize),
    /// Raise the semaphore with this id; the call then returns 0.
    Up(usize),
    /// Signal the condition variable with this id; the call then returns 0.
    Signal(usize),
    /// Wait on the condition variable with the first id, releasing the
    /// mutex with the second id meanwhile; the call then returns 0.
    WaitCondvar(usize, usize),
}

/// The synchronisation state of a process: its mutexes, semaphores and
/// condition variables, with the tables used for deadlock detection.
pub struct ProcessSync {
    /// One slot per mutex id; `None` once the slot is free.
    pub mutex_list: Vec<Option<MutexKind>>,
    /// One slot per semaphore id, holding the count it was made with.
    pub semaphore_list: Vec<Option<usize>>,
    /// One slot per condition variable id.
    pub condvar_list: Vec<Option<()>>,
    /// Deadlock bookkeeping of the mutexes.
    pub mutexes: ResourceTable,
    /// Deadlock bookkeeping of the semaphores.
    pub semaphores: ResourceTable,
    /// Whether deadlock detection is switched on.
    pub enable_deadlock_detect: bool,
}

impl ProcessSync {
    /// Both tables keep their shape, have as many columns as there are
    /// slots, and rows for the same threads.
    pub open spec fn wf(&self) -> bool {
        &&& table_wf(self.mutexes@)
        &&& table_wf(self.semaphores@)
        &&& self.mutexes.resources() == self.mutex_list@.len()
        &&& self.semaphores.resources() == self.semaphore_list@.len()
        &&& self.mutexes.threads() == self.semaphores.threads()
    }

    /// Number of threads the process has.
    pub open spec fn threads(&self) -> nat {
        self.mutexes.threads()
    }

    /// Creates a mutex (blocking or spinning) in the first free slot, or in
    /// a new slot at the end; gives its id.
    pub fn sys_mutex_create(&mut self, blocking: bool) -> (r: isize)
        requires
            old(self).wf(),
            old(self).mutex_list@.len() < isize::MAX,
        ensures
            final(self).wf(),
            ({
                let kind = if blocking {
                    MutexKind::Blocking
                } else {
                    MutexKind::Spin
                };
                let old_list = old(self).mutex_list@;
                &&& 0 <= r <= old_list.len()
                &&& r < old_list.len() ==> {
                    &&& first_free(old_list, r as int)
                    &&& final(self).mutex_list@ == old_list.update(r as int, Some(kind))
                    &&& final(self).mutexes@ == table_reset_resource(old(self).mutexes@, r as int, 1)
                }
                &&& r == old_list.len() ==> {
                    &&& all_taken(old_list)
                    &&& final(self).mutex_list@ == old_list.push(Some(kind))
                    &&& final(self).mutexes@ == table_add_resource(old(self).mutexes@, 1)
                }
            }),
            final(self).semaphore_list@ == old(self).semaphore_list@,
            final(self).condvar_list@ == old(self).condvar_list@,
            final(self).semaphores@ == old(self).semaphores@,
            final(self).enable_deadlock_detect == old(self).enable_deadlock_detect,
    {
        let kind = if blocking {
            MutexKind::Blocking
        } else {
            MutexKind::Spin
        };
        match find_free_slot(&self.mutex_list) {
            Some(id) => {
                self.mutex_list.set(id, Some(kind));
                self.mutexes.available.set(id, 1);
                id as isize
            },
            None => {
                self.mutex_list.push(Some(kind));
                self.mutexes.add_resource(1);
                (self.mutex_list.len() - 1) as isize
            },
        }
    }

    /// Creates a semaphore with `res_count` units in the first free slot, or
    /// in a new slot at the end; gives its id.
    pub fn sys_semaphore_create(&mut self, res_count: usize) -> (r: isize)
        requires
            old(self).wf(),
            old(self).semaphore_list@.len() < isize::MAX,
        ensures
            final(self).wf(),
            ({
                let old_list = old(self).semaphore_list@;
                &&& 0 <= r <= old_list.len()
                &&& r < old_list.len() ==> {
                    &&& first_free(old_list, r as int)
                    &&& final(self).semaphore_list@ == old_list.update(r as int, Some(res_count))
                    &&& final(self).semaphores@ == table_reset_resource(
                        old(self).semaphores@,
                        r as int,
                        res_count,
                    )
                }
                &&& r == old_list.len() ==> {
                    &&& all_taken(old_list)
                    &&& final(self).semaphore_list@ == old_list.push(Some(res_count))
                    &&& final(self).semaphores@ == table_add_resource(
                        old(self).semaphores@,
                        res_count,
                    )
                }
            }),
            final(self).mutex_list@ == old(self).mutex_list@,
            final(self).condvar_list@ == old(self).condvar_list@,
            final(self).mutexes@ == old(self).mutexes@,
            final(self).enable_deadlock_detect == old(self).enable_deadlock_detect,
    {
        let id = match find_free_slot(&self.semaphore_list) {
            Some(id) => {
                self.semaphore_list.set(id, Some(res_count));
                self.semaphores.available.set(id, res_count);
                id
            },
            None => {
                self.semaphore_list.push(Some(res_count));
                self.semaphores.add_resource(res_count);
                self.semaphore_list.len() - 1
            },
        };
        id as isize
    }

    /// Creates a condition variable in the first free slot, or in a new slot
    /// at the end; gives its id.
    pub fn sys_condvar_create(&mut self) -> (r: isize)
        requires
            old(self).condvar_list@.len() < isize::MAX,
        ensures
            ({
                let old_list = old(self).condvar_list@;
                &&& 0 <= r <= old_list.len()
                &&& r < old_list.len() ==> {
                    &&& first_free(old_list, r as int)
                    &&& final(self).condvar_list@ == old_list.update(r as int, Some(()))
                }
                &&& r == old_list.len() ==> {
                    &&& all_taken(old_list)
                    &&& final(self).condvar_list@ == old_list.push(Some(()))
                }
            }),
            final(self).mutex_list@ == old(self).mutex_list@,
            final(self).semaphore_list@ == old(self).semaphore_list@,
            final(self).mutexes@ == old(self).mutexes@,
            final(self).semaphores@ == old(self).semaphores@,
            final(self).enable_deadlock_detect == old(self).enable_deadlock_detect,
    {
        let id = match find_free_slot(&self.condvar_list) {
            Some(id) => {
                self.condvar_list.set(id, Some(()));
                id
            },
            None => {
                self.condvar_list.push(Some(()));
                self.condvar_list.len() - 1
            },
        };
        id as isize
    }

    /// Locks mutex `mutex_id` for thread `tid`, one step at a time: the
    /// request raises the thread's waiting count and asks for deadlock
    /// detection; a detected deadlock ends the call with
    /// `DEADLOCK_ERROR_VALUE`; otherwise the thread waits on the mutex, and
    /// once it holds it the tables record the hand-over and the call
    /// returns 0.
    pub fn sys_mutex_lock(&mut self, tid: usize, mutex_id: usize, step: WaitStep) -> (r:
        SyncAction)
        requires
            old(self).wf(),
            tid < old(self).threads(),
            mutex_id < old(self).mutex_list@.len(),
            step == WaitStep::Request ==> old(self).mutexes@.1[tid as int][mutex_id as int]
                < usize::MAX,
            step == WaitStep::Checked(false) ==> old(self).mutex_list@[mutex_id as int] is Some,
            step == WaitStep::Acquired ==> {
                &&& old(self).mutexes@.0[mutex_id as int] > 0
                &&& old(self).mutexes@.1[tid as int][mutex_id as int] > 0
                &&& old(self).mutexes@.2[tid as int][mutex_id as int] < usize::MAX
            },
        ensures
            final(self).wf(),
            final(self).mutex_list@ == old(self).mutex_list@,
            final(self).semaphore_list@ == old(self).semaphore_list@,
            final(self).condvar_list@ == old(self).condvar_list@,
            final(self).semaphores@ == old(self).semaphores@,
            final(self).enable_deadlock_detect == old(self).enable_deadlock_detect,
            match step {
                WaitStep::Request => r == SyncAction::DetectDeadlock(MUTEX_RESOURCE)
                    && final(self).mutexes@ == table_request(
                    old(self).mutexes@,
                    tid as int,
                    mutex_id as int,
                ),
                WaitStep::Checked(true) => r == SyncAction::Return(DEADLOCK_ERROR_VALUE)
                    && final(self).mutexes@ == old(self).mutexes@,
                WaitStep::Checked(false) => r == SyncAction::Wait(mutex_id)
                    && final(self).mutexes@ == old(self).mutexes@,
                WaitStep::Acquired => r == SyncAction::Return(0) && final(self).mutexes@
                    == table_acquire(old(self).mutexes@, tid as int, mutex_id as int),
            },
    {
        match step {
            WaitStep::Request => {
                self.mutexes.request(tid, mutex_id);
                SyncAction::DetectDeadlock(MUTEX_RESOURCE)
            },
            WaitStep::Checked(deadlock) => {
                if deadlock {
                    SyncAction::Return(DEADLOCK_ERROR_VALUE)
                } else {
                    SyncAction::Wait(mutex_id)
                }
            },
            WaitStep::Acquired => {
                self.mutexes.acquire(tid, mutex_id, false);
                SyncAction::Return(0)
            },
        }
    }

    /// Unlocks mutex `mutex_id` for thread `tid`: the tables record one more
    /// unit available and one less held, and the mutex itself is to be
    /// unlocked, after which the call returns 0.
    pub fn sys_mutex_unlock(&mut self, tid: usize, mutex_id: usize) -> (r: SyncAction)
        requires
            old(self).wf(),
            tid < old(self).threads(),
            mutex_id < old(self).mutex_list@.len(),
            old(self).mutex_list@[mutex_id as int] is Some,
            old(self).mutexes@.2[tid as int][mutex_id as int] > 0,
            old(self).mutexes@.0[mutex_id as int] < usize::MAX,
        ensures
            final(self).wf(),
            r == SyncAction::Unlock(mutex_id),
            final(self).mutexes@ == table_release(old(self).mutexes@, tid as int, mutex_id as int),
            final(self).mutex_list@ == old(self).mutex_list@,
            final(self).semaphore_list@ == old(self).semaphore_list@,
            final(self).condvar_list@ == old(self).condvar_list@,
            final(self).semaphores@ == old(self).semaphores@,
            final(self).enable_deadlock_detect == old(self).enable_deadlock_detect,
    {
        self.mutexes.release(tid, mutex_id);
        SyncAction::Unlock(mutex_id)
    }

    /// Raises semaphore `sem_id` for thread `tid`: the tables record one more
    /// unit available and one less held, and the semaphore itself is to be
    /// raised, after which the call returns 0.
    pub fn sys_semaphore_up(&mut self, tid: usize, sem_id: usize) -> (r: SyncAction)
        requires
            old(self).wf(),
            tid < old(self).threads(),
            sem_id < old(self).semaphore_list@.len(),
            old(self).semaphore_list@[sem_id as int] is Some,
            old(self).semaphores@.2[tid as int][sem_id as int] > 0,
            old(self).semaphores@.0[sem_id as int] < usize::MAX,
        ensures
            final(self).wf(),
            r == SyncAction::Up(sem_id),
            final(self).semaphores@ == table_release(
                old(self).semaphores@,
                tid as int,
                sem_id as int,
            ),
            final(self).mutex_list@ == old(self).mutex_list@,
            final(self).semaphore_list@ == old(self).semaphore_list@,
            final(self).condvar_list@ == old(self).condvar_list@,
            final(self).mutexes@ == old(self).mutexes@,
            final(self).enable_deadlock_detect == old(self).enable_deadlock_detect,
    {
        self.semaphores.release(tid, sem_id);
        SyncAction::Up(sem_id)
    }

    /// Lowers semaphore `sem_id` for thread `tid`, one step at a time, as
    /// `sys_mutex_lock` does; once the thread got the unit, the available
    /// count goes down only when it is above zero.
    pub fn sys_semaphore_down(&mut self, tid: usize, sem_id: usize, step: WaitStep) -> (r:
        SyncAction)
        requires
            old(self).wf(),
            tid < old(self).threads(),
            sem_id < old(self).semaphore_list@.len(),
            step == WaitStep::Request ==> old(self).semaphores@.1[tid as int][sem_id as int]
                < usize::MAX,
            step == WaitStep::Checked(false) ==> old(self).semaphore_list@[sem_id as int] is Some,
            step == WaitStep::Acquired ==> {
                &&& old(self).semaphores@.1[tid as int][sem_id as int] > 0
                &&& old(self).semaphores@.2[tid as int][sem_id as int] < usize::MAX
            },
        ensures
            final(self).wf(),
            final(self).mutex_list@ == old(self).mutex_list@,
            final(self).semaphore_list@ == old(self).semaphore_list@,
            final(self).condvar_list@ == old(self).condvar_list@,
            final(self).mutexes@ == old(self).mutexes@,
            final(self).enable_deadlock_detect == old(self).enable_deadlock_detect,
            match step {
                WaitStep::Request => r == SyncAction::DetectDeadlock(SEMAPHORE_RESOURCE)
                    && final(self).semaphores@ == table_request(
                    old(self).semaphores@,
                    tid as int,
                    sem_id as int,
                ),
                WaitStep::Checked(true) => r == SyncAction::Return(DEADLOCK_ERROR_VALUE)
                    && final(self).semaphores@ == old(self).semaphores@,
                WaitStep::Checked(false) => r == SyncAction::Wait(sem_id) && final(self).semaphores@
                    == old(self).semaphores@,
                WaitStep::Acquired => r == SyncAction::Return(0) && final(self).semaphores@
                    == table_acquire_saturating(old(self).semaphores@, tid as int, sem_id as int),
            },
    {
        match step {
            WaitStep::Request => {
                self.semaphores.request(tid, sem_id);
                SyncAction::DetectDeadlock(SEMAPHORE_RESOURCE)
            },
            WaitStep::Checked(deadlock) => {
                if deadlock {
                    SyncAction::Return(DEADLOCK_ERROR_VALUE)
                } else {
                    SyncAction::Wait(sem_id)
                }
            },
            WaitStep::Acquired => {
                self.semaphores.acquire(tid, sem_id, true);
                SyncAction::Return(0)
            },
        }
    }

    /// Signals condition variable `condvar_id`, which must exist: gives the
    /// condition variable to signal; the call then returns 0.
    pub fn sys_condvar_signal(&self, condvar_id: usize) -> (r: SyncAction)
        requires
            condvar_id < self.condvar_list@.len(),
            self.condvar_list@[condvar_id as int] is Some,
        ensures
            r == SyncAction::Signal(condvar_id),
    {
        SyncAction::Signal(condvar_id)
    }

    /// Waits on condition variable `condvar_id`, releasing mutex `mutex_id`
    /// meanwhile; both must exist. Gives the condition variable and the mutex
    /// to wait with; the call then returns 0.
    pub fn sys_condvar_wait(&self, condvar_id: usize, mutex_id: usize) -> (r: SyncAction)
        requires
            condvar_id < self.condvar_list@.len(),
            self.condvar_list@[condvar_id as int] is Some,
            mutex_id < self.mutex_list@.len(),
            self.mutex_list@[mutex_id as int] is Some,
        ensures
            r == SyncAction::WaitCondvar(condvar_id, mutex_id),
    {
        SyncAction::WaitCondvar(condvar_id, mutex_id)
    }

    /// Switches deadlock detection on (1) or off (0); any other value is
    /// refused with -1 and changes nothing.
    pub fn sys_enable_deadlock_detect(&mut self, enabled: usize) -> (r: isize)
        ensures
            (enabled == 0 || enabled == 1) ==> r == 0 && final(self).enable_deadlock_detect == (
            enabled == 1),
            !(enabled == 0 || enabled == 1) ==> r == -1 && final(self).enable_deadlock_detect
                == old(self).enable_deadlock_detect,
            final(self).mutex_list@ == old(self).mutex_list@,
            final(self).semaphore_list@ == old(self).semaphore_list@,
            final(self).condvar_list@ == old(self).condvar_list@,
            final(self).mutexes@ == old(self).mutexes@,
            final(self).semaphores@ == old(self).semaphores@,
    {
        if enabled != 0 && enabled != 1 {
            return -1;
        }
        self.enable_deadlock_detect = enabled != 0;
        0
    }
}

/// Entry `[u][q]` of `w` is entry `[u][q]` of `m` moved by `d` when
/// `(u, q) == (t, r)`, and equal to it elsewhere; both have the same shape.
pub open spec fn moved_at(w: Seq<Seq<usize>>, m: Seq<Seq<usize>>, t: int, r: int, d: int) -> bool {
    &&& w.len() == m.len()
    &&& forall|u: int| 0 <= u < m.len() ==> #[trigger] w[u].len() == m[u].len()
    &&& forall|u: int, q: int|
        0 <= u < m.len() && 0 <= q < m[u].len() ==> #[trigger] w[u][q] as int == m[u][q] + (if u
            == t && q == r {
            d
        } else {
            0int
        })
}

proof fn lemma_seq2_add_moves(m: Seq<Seq<usize>>, t: int, r: int, d: int)
    requires
        0 <= t < m.len(),
        0 <= r < m[t].len(),
        0 <= m[t][r] + d <= usize::MAX,
    ensures
        moved_at(seq2_add(m, t, r, d), m, t, r, d),
{
}

/// Asking for resource `r` raises thread `t`'s waiting count for it by one
/// and changes nothing else: no unit is taken from what is available and
/// nothing is counted as held.
pub proof fn lemma_request_effect(v: TableView, t: int, r: int)
    requires
        table_wf(v),
        0 <= t < v.1.len(),
        0 <= r < v.0.len(),
        v.1[t][r] < usize::MAX,
    ensures
        table_request(v, t, r).0 == v.0,
        table_request(v, t, r).2 == v.2,
        moved_at(table_request(v, t, r).1, v.1, t, r, 1),
{
    lemma_seq2_add_moves(v.1, t, r, 1);
}

/// Obtaining resource `r` takes one unit from what is available, adds one
/// to what thread `t` holds, and takes one from what it waits for; all other
/// counts stay.
pub proof fn lemma_acquire_effect(v: TableView, t: int, r: int)
    requires
        table_wf(v),
        0 <= t < v.1.len(),
        0 <= r < v.0.len(),
        v.0[r] > 0,
        v.1[t][r] > 0,
        v.2[t][r] < usize::MAX,
    ensures
        table_acquire(v, t, r).0.len() == v.0.len(),
        forall|q: int|
            0 <= q < v.0.len() ==> #[trigger] table_acquire(v, t, r).0[q] as int == v.0[q] - (if q
                == r {
                1int
            } else {
                0int
            }),
        moved_at(table_acquire(v, t, r).1, v.1, t, r, -1),
        moved_at(table_acquire(v, t, r).2, v.2, t, r, 1),
{
    lemma_seq2_add_moves(v.1, t, r, -1);
    lemma_seq2_add_moves(v.2, t, r, 1);
}

/// Obtaining a semaphore unit: the thread's waiting count always drops by
/// one and what it holds rises by one, whatever is available; the available
/// count drops by one when it is above zero and stays at zero otherwise.
pub proof fn lemma_acquire_saturating_effect(v: TableView, t: int, r: int)
    requires
        table_wf(v),
        0 <= t < v.1.len(),
        0 <= r < v.0.len(),
        v.1[t][r] > 0,
        v.2[t][r] < usize::MAX,
    ensures
        table_acquire_saturating(v, t, r).0.len() == v.0.len(),
        forall|q: int|
            0 <= q < v.0.len() ==> #[trigger] table_acquire_saturating(v, t, r).0[q] as int == v.0[q]
                - (if q == r && v.0[r] > 0 {
                1int
            } else {
                0int
            }),
        moved_at(table_acquire_saturating(v, t, r).1, v.1, t, r, -1),
        moved_at(table_acquire_saturating(v, t, r).2, v.2, t, r, 1),
{
    lemma_seq2_add_moves(v.1, t, r, -1);
    lemma_seq2_add_moves(v.2, t, r, 1);
}

/// Giving back resource `r` adds one unit to what is available and takes
/// one from what thread `t` holds; waiting counts stay.
pub proof fn lemma_release_effect(v: TableView, t: int, r: int)
    requires
        table_wf(v),
        0 <= t < v.1.len(),
        0 <= r < v.0.len(),
        v.0[r] < usize::MAX,
        v.2[t][r] > 0,
    ensures
        table_release(v, t, r).0.len() == v.0.len(),
        forall|q: int|
            0 <= q < v.0.len() ==> #[trigger] table_release(v, t, r).0[q] as int == v.0[q] + (if q
                == r {
                1int
            } else {
                0int
            }),
        table_release(v, t, r).1 == v.1,
        moved_at(table_release(v, t, r).2, v.2, t, r, -1),
{
    lemma_seq2_add_moves(v.2, t, r, -1);
}

/// A new resource gets `initial` units in a new last column; no thread waits
/// for it or holds any of it, and every existing count stays.
pub proof fn lemma_add_resource_effect(v: TableView, initial: usize)
    requires
        table_wf(v),
    ensures
        ({
            let w = table_add_resource(v, initial);
            &&& w.0.len() == v.0.len() + 1
            &&& w.0[v.0.len() as int] == initial
            &&& forall|q: int| 0 <= q < v.0.len() ==> #[trigger] w.0[q] == v.0[q]
            &&& w.1.len() == v.1.len()
            &&& w.2.len() == v.2.len()
            &&& forall|u: int|
                0 <= u < v.1.len() ==> #[trigger] w.1[u].len() == v.0.len() + 1 && w.1[u][v.0.len()
                    as int] == 0 && w.2[u].len() == v.0.len() + 1 && w.2[u][v.0.len() as int] == 0
            &&& forall|u: int, q: int|
                0 <= u < v.1.len() && 0 <= q < v.0.len() ==> #[trigger] w.1[u][q] == v.1[u][q]
                    && w.2[u][q] == v.2[u][q]
        }),
{
}

/// A reused resource slot `r` starts with exactly `initial` units, whatever
/// was left in it; every other count stays.
pub proof fn lemma_reset_resource_effect(v: TableView, r: int, initial: usize)
    requires
        0 <= r < v.0.len(),
    ensures
        table_reset_resource(v, r, initial).0.len() == v.0.len(),
        table_reset_resource(v, r, initial).0[r] == initial,
        forall|q: int|
            0 <= q < v.0.len() && q != r ==> #[trigger] table_reset_resource(v, r, initial).0[q]
                == v.0[q],
        table_reset_resource(v, r, initial).1 == v.1,
        table_reset_resource(v, r, initial).2 == v.2,
{
}

/// A thread that asks for a resource, obtains it and gives it back leaves
/// the table as it found it; while units are left, a semaphore's
/// hand-over is the same as a mutex's.
pub proof fn lemma_lock_unlock_restores(v: TableView, t: int, r: int)
    requires
        table_wf(v),
        0 <= t < v.1.len(),
        0 <= r < v.0.len(),
        v.0[r] > 0,
        v.1[t][r] < usize::MAX,
        v.2[t][r] < usize::MAX,
    ensures
        table_release(table_acquire(table_request(v, t, r), t, r), t, r) == v,
        table_acquire_saturating(table_request(v, t, r), t, r) == table_acquire(
            table_request(v, t, r),
            t,
            r,
        ),
{
    let v3 = table_release(table_acquire(table_request(v, t, r), t, r), t, r);
    assert(v3.0 =~= v.0);
    assert(v3.1[t] =~= v.1[t]);
    assert(v3.1 =~= v.1);
    assert(v3.2[t] =~= v.2[t]);
    assert(v3.2 =~= v.2);
}

/// Obtaining a resource after asking for it moves exactly one unit from
/// the available count to what the thread holds, and leaves its waiting
/// count where it was.
pub proof fn lemma_request_acquire_moves_one_unit(v: TableView, t: int, r: int)
    requires
        table_wf(v),
        0 <= t < v.1.len(),
        0 <= r < v.0.len(),
        v.0[r] > 0,
        v.1[t][r] < usize::MAX,
        v.2[t][r] < usize::MAX,
    ensures
        ({
            let w = table_acquire(table_request(v, t, r), t, r);
            &&& w.1 == v.1
            &&& w.0[r] + 1 == v.0[r]
            &&& w.2[t][r] == v.2[t][r] + 1
            &&& forall|q: int| 0 <= q < v.0.len() && q != r ==> #[trigger] w.0[q] == v.0[q]
            &&& forall|u: int, q: int|
                0 <= u < v.2.len() && 0 <= q < v.0.len() && (u != t || q != r)
                    ==> #[trigger] w.2[u][q] == v.2[u][q]
        }),
{
    let w = table_acquire(table_request(v, t, r), t, r);
    assert(w.1[t] =~= v.1[t]);
    assert(w.1 =~= v.1);
}

} // verus!
