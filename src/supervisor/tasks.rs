use crate::task::TaskId;
use crate::time::Timestamp;
use vstd::prelude::*;

verus! {

/// A task waiting in the supervisor's queue, with the instant from which it
/// may be dispatched (`None`: at once).
#[derive(Clone, Copy, Debug, PartialEq, Eq, Structural)]
pub struct PendingTask {
    pub deadline: Option<Timestamp>,
    pub id: TaskId,
}

/// Deadlines ordered with `None` before any instant, then by instant.
pub open spec fn deadline_lt(a: Option<Timestamp>, b: Option<Timestamp>) -> bool {
    match (a, b) {
        (None, Some(_)) => true,
        (Some(x), Some(y)) => x.micros < y.micros,
        _ => false,
    }
}

/// Whether `a` is served strictly before `b`: the earlier deadline first,
/// and among equal deadlines the larger id first.
pub open spec fn precedes(a: PendingTask, b: PendingTask) -> bool {
    deadline_lt(a.deadline, b.deadline) || (a.deadline == b.deadline && a.id.0 > b.id.0)
}

/// The queue's contents are in serving order.
pub open spec fn is_sorted(s: Seq<PendingTask>) -> bool {
    forall|i: int, j: int| 0 <= i < j < s.len() ==> !precedes(#[trigger] s[j], #[trigger] s[i])
}

/// The deadline of a task scheduled at `scheduled_at`, pushed at `now`: a
/// delay that is not positive means "ready at once".
pub open spec fn deadline_of(scheduled_at: Option<Timestamp>, now: Timestamp) -> Option<
    Timestamp,
> {
    match scheduled_at {
        Some(at) => if now.micros < at.micros {
            Some(at)
        } else {
            None
        },
        None => None,
    }
}

/// Whether a queued task may be dispatched at `now`.
pub open spec fn is_ready(t: PendingTask, now: Timestamp) -> bool {
    match t.deadline {
        None => true,
        Some(d) => d.micros <= now.micros,
    }
}

/// `precedes` is a strict order.
pub proof fn lemma_precedes_strict_order(a: PendingTask, b: PendingTask, c: PendingTask)
    ensures
        !precedes(a, a),
        precedes(a, b) ==> !precedes(b, a),
        precedes(a, b) && precedes(b, c) ==> precedes(a, c),
        !precedes(a, b) && !precedes(b, a) ==> a == b,
{
}

/// A well-formed queue serves its entries in order: of any two of them, the
/// one served first precedes the other or equals it, so deadlines come out
/// ascending with "at once" first, and ties are broken by id.
pub proof fn lemma_served_in_order(s: Seq<PendingTask>)
    requires
        is_sorted(s),
    ensures
        forall|i: int, j: int|
            0 <= i < j < s.len() ==> #[trigger] s[i] == #[trigger] s[j] || precedes(s[i], s[j]),
{
    assert forall|i: int, j: int| 0 <= i < j < s.len() implies #[trigger] s[i] == #[trigger] s[j]
        || precedes(s[i], s[j]) by {
        lemma_precedes_strict_order(s[i], s[j], s[j]);
    }
}

/// The queue's contents after `x` is pushed onto `s`: `x` goes before the
/// first entry it precedes.
pub open spec fn insert_sorted(s: Seq<PendingTask>, x: PendingTask) -> Seq<PendingTask>
    decreases s.len(),
{
    if s.len() == 0 {
        seq![x]
    } else if precedes(x, s[0]) {
        seq![x] + s
    } else {
        seq![s[0]] + insert_sorted(s.drop_first(), x)
    }
}

/// The queue's contents after the entries `xs` are pushed, in order, onto an
/// empty queue.
pub open spec fn pushed_all(xs: Seq<PendingTask>) -> Seq<PendingTask>
    decreases xs.len(),
{
    if xs.len() == 0 {
        Seq::empty()
    } else {
        insert_sorted(pushed_all(xs.drop_last()), xs.last())
    }
}

/// `insert_sorted` puts `x` before the first entry it precedes.
proof fn lemma_insert_sorted_at(s: Seq<PendingTask>, x: PendingTask, pos: int)
    requires
        0 <= pos <= s.len(),
        forall|k: int| 0 <= k < pos ==> !precedes(x, #[trigger] s[k]),
        pos < s.len() ==> precedes(x, s[pos]),
    ensures
        insert_sorted(s, x) == s.insert(pos, x),
    decreases s.len(),
{
    if s.len() == 0 {
        assert(s.insert(0, x) =~= seq![x]);
    } else if pos == 0 {
        assert(s.insert(0, x) =~= seq![x] + s);
    } else {
        let rest = s.drop_first();
        assert forall|k: int| 0 <= k < pos - 1 implies !precedes(x, #[trigger] rest[k]) by {
            assert(rest[k] == s[k + 1]);
        }
        assert(!precedes(x, s[0]));
        lemma_insert_sorted_at(rest, x, pos - 1);
        assert(s.insert(pos, x) =~= seq![s[0]] + rest.insert(pos - 1, x));
    }
}

/// Pushing onto a sorted queue keeps it sorted, adds `x` and keeps every
/// other entry.
proof fn lemma_insert_sorted_sorted(s: Seq<PendingTask>, x: PendingTask)
    requires
        is_sorted(s),
    ensures
        is_sorted(insert_sorted(s, x)),
        insert_sorted(s, x).len() == s.len() + 1,
        forall|y: PendingTask| #[trigger] insert_sorted(s, x).contains(y) <==> (s.contains(y) || y == x),
    decreases s.len(),
{
    let t = insert_sorted(s, x);
    if s.len() == 0 {
        assert(t[0] == x);
    } else if precedes(x, s[0]) {
        assert forall|i: int, j: int| 0 <= i < j < t.len() implies !precedes(#[trigger] t[j], #[trigger] t[i]) by {
            if i == 0 {
                assert(t[j] == s[j - 1]);
                if precedes(s[j - 1], x) {
                    lemma_precedes_strict_order(s[j - 1], x, s[0]);
                    if j - 1 > 0 {
                        assert(!precedes(s[j - 1], s[0]));
                    }
                }
            } else {
                assert(t[i] == s[i - 1] && t[j] == s[j - 1]);
            }
        }
        assert forall|y: PendingTask| #[trigger] t.contains(y) <==> (s.contains(y) || y == x) by {
            if t.contains(y) {
                let k = choose|k: int| 0 <= k < t.len() && t[k] == y;
                if k > 0 {
                    assert(s[k - 1] == y);
                }
            }
            if s.contains(y) {
                let k = choose|k: int| 0 <= k < s.len() && s[k] == y;
                assert(t[k + 1] == y);
            }
            if y == x {
                assert(t[0] == x);
            }
        }
    } else {
        let rest = s.drop_first();
        assert forall|i: int, j: int| 0 <= i < j < rest.len() implies !precedes(#[trigger] rest[j], #[trigger] rest[i]) by {
            assert(rest[i] == s[i + 1] && rest[j] == s[j + 1]);
        }
        lemma_insert_sorted_sorted(rest, x);
        let u = insert_sorted(rest, x);
        assert(t == seq![s[0]] + u);
        assert forall|y: PendingTask| #[trigger] t.contains(y) <==> (s.contains(y) || y == x) by {
            if t.contains(y) {
                let k = choose|k: int| 0 <= k < t.len() && t[k] == y;
                if k > 0 {
                    assert(u[k - 1] == y);
                    assert(u.contains(y));
                    if rest.contains(y) {
                        let m = choose|m: int| 0 <= m < rest.len() && rest[m] == y;
                        assert(s[m + 1] == y);
                    }
                } else {
                    assert(s[0] == y);
                }
            }
            if s.contains(y) {
                let k = choose|k: int| 0 <= k < s.len() && s[k] == y;
                if k > 0 {
                    assert(rest[k - 1] == y);
                    assert(rest.contains(y));
                    assert(u.contains(y));
                    let m = choose|m: int| 0 <= m < u.len() && u[m] == y;
                    assert(t[m + 1] == y);
                } else {
                    assert(t[0] == y);
                }
            }
            if y == x {
                assert(u.contains(x));
                let m = choose|m: int| 0 <= m < u.len() && u[m] == x;
                assert(t[m + 1] == x);
            }
        }
        assert forall|i: int, j: int| 0 <= i < j < t.len() implies !precedes(#[trigger] t[j], #[trigger] t[i]) by {
            if i == 0 {
                assert(t[j] == u[j - 1]);
                assert(u.contains(u[j - 1]));
                if u[j - 1] != x {
                    assert(rest.contains(u[j - 1]));
                    let m = choose|m: int| 0 <= m < rest.len() && rest[m] == u[j - 1];
                    assert(s[m + 1] == u[j - 1]);
                }
            } else {
                assert(t[i] == u[i - 1] && t[j] == u[j - 1]);
            }
        }
    }
}

/// Pausing never changes what the queue hands out. Pause and resume keep the
/// contents, and pushes build them from the pushed entries alone, as
/// `pushed_all`: in serving order, holding exactly the pushed entries. So a
/// queue paused during any sequence of pushes and then resumed hands out, poll
/// after poll, the same tasks in the same order as one never paused.
pub proof fn lemma_pushes_determine_outputs(xs: Seq<PendingTask>)
    ensures
        is_sorted(pushed_all(xs)),
        pushed_all(xs).len() == xs.len(),
        forall|y: PendingTask| #[trigger] pushed_all(xs).contains(y) <==> xs.contains(y),
    decreases xs.len(),
{
    if xs.len() > 0 {
        let prev = xs.drop_last();
        lemma_pushes_determine_outputs(prev);
        lemma_insert_sorted_sorted(pushed_all(prev), xs.last());
        assert forall|y: PendingTask| #[trigger] pushed_all(xs).contains(y) <==> xs.contains(y) by {
            if prev.contains(y) {
                let k = choose|k: int| 0 <= k < prev.len() && prev[k] == y;
                assert(xs[k] == y);
            }
            if xs.contains(y) {
                let k = choose|k: int| 0 <= k < xs.len() && xs[k] == y;
                if k < xs.len() - 1 {
                    assert(prev[k] == y);
                }
            }
        }
    }
}

pub fn precedes_exec(a: &PendingTask, b: &PendingTask) -> (r: bool)
    ensures
        r == precedes(*a, *b),
{
    match (a.deadline, b.deadline) {
        (None, None) => a.id.0 > b.id.0,
        (None, Some(_)) => true,
        (Some(_), None) => false,
        (Some(x), Some(y)) => x.micros < y.micros || (x.micros == y.micros && a.id.0 > b.id.0),
    }
}

/// Keeps the tasks that wait for dispatch, in serving order, and a flag that
/// suspends the serving while no worker is available.
#[derive(Debug)]
pub struct PendingTasks {
    tasks: Vec<PendingTask>,
    is_active: bool,
}

impl PendingTasks {
    /// The queued tasks, in serving order.
    pub closed spec fn items(&self) -> Seq<PendingTask> {
        self.tasks@
    }

    /// Whether the queue serves tasks (it is not paused).
    pub closed spec fn active(&self) -> bool {
        self.is_active
    }

    pub open spec fn wf(&self) -> bool {
        is_sorted(self.items())
    }

    /// An empty queue, paused.
    pub fn new() -> (r: PendingTasks)
        ensures
            r.items() == Seq::<PendingTask>::empty(),
            !r.active(),
            r.wf(),
    {
        PendingTasks { tasks: Vec::new(), is_active: false }
    }

    /// Queues task `id`, to be served from `scheduled_at` on (or at once when
    /// that is not after `now`).
    pub fn push(&mut self, id: TaskId, scheduled_at: Option<Timestamp>, now: Timestamp)
        requires
            old(self).wf(),
        ensures
            final(self).wf(),
            final(self).active() == old(self).active(),
            final(self).items() == insert_sorted(
                old(self).items(),
                PendingTask { deadline: deadline_of(scheduled_at, now), id },
            ),
            exists|pos: int|
                0 <= pos <= old(self).items().len() && final(self).items() == old(
                    self,
                ).items().insert(pos, PendingTask { deadline: deadline_of(scheduled_at, now), id }),
    {
        let deadline = match scheduled_at {
            Some(at) => if now.micros < at.micros {
                Some(at)
            } else {
                None
            },
            None => None,
        };
        let task = PendingTask { deadline, id };
        let mut pos: usize = 0;
        while pos < self.tasks.len() && !precedes_exec(&task, &self.tasks[pos])
            invariant
                pos <= self.tasks@.len(),
                forall|k: int| 0 <= k < pos ==> !precedes(task, #[trigger] self.tasks@[k]),
            decreases self.tasks@.len() - pos,
        {
            pos = pos + 1;
        }
        let ghost before = self.tasks@;
        proof {
            lemma_insert_sorted_at(before, task, pos as int);
        }
        self.tasks.insert(pos, task);
        proof {
            let after = self.tasks@;
            assert(after == before.insert(pos as int, task));
            assert forall|i: int, j: int| 0 <= i < j < after.len() implies !precedes(
                #[trigger] after[j],
                #[trigger] after[i],
            ) by {
                if j < pos {
                    assert(after[i] == before[i] && after[j] == before[j]);
                } else if j == pos {
                    assert(after[i] == before[i]);
                } else if i < pos {
                    assert(after[i] == before[i] && after[j] == before[j - 1]);
                    if precedes(before[j - 1], before[i]) {
                        lemma_precedes_strict_order(before[j - 1], before[i], task);
                    }
                } else if i == pos {
                    assert(after[j] == before[j - 1]);
                    assert(precedes(task, before[pos as int]));
                    if precedes(before[j - 1], task) {
                        lemma_precedes_strict_order(before[j - 1], task, before[pos as int]);
                        if j - 1 > pos {
                            assert(!precedes(before[j - 1], before[pos as int]));
                        }
                    }
                } else {
                    assert(after[i] == before[i - 1] && after[j] == before[j - 1]);
                }
            }
        }
    }

    /// Suspends the serving: `poll` yields nothing until `resume`.
    pub fn pause(&mut self)
        ensures
            final(self).items() == old(self).items(),
            !final(self).active(),
    {
        self.is_active = false;
    }

    pub fn resume(&mut self)
        ensures
            final(self).items() == old(self).items(),
            final(self).active(),
    {
        self.is_active = true;
    }

    /// Takes the first task in serving order when the queue is active and
    /// that task is ready at `now`; otherwise yields nothing and changes
    /// nothing.
    pub fn poll(&mut self, now: Timestamp) -> (r: Option<TaskId>)
        requires
            old(self).wf(),
        ensures
            final(self).wf(),
            final(self).active() == old(self).active(),
            r is Some <==> (old(self).active() && old(self).items().len() > 0 && is_ready(
                old(self).items()[0],
                now,
            )),
            r is Some ==> {
                &&& r == Some(old(self).items()[0].id)
                &&& final(self).items() == old(self).items().drop_first()
                &&& forall|k: int|
                    0 <= k < old(self).items().len() ==> !precedes(
                        #[trigger] old(self).items()[k],
                        old(self).items()[0],
                    )
            },
            r is None ==> final(self).items() == old(self).items(),
    {
        if !self.is_active || self.tasks.len() == 0 {
            return None;
        }
        let head = self.tasks[0];
        let ready = match head.deadline {
            None => true,
            Some(d) => d.micros <= now.micros,
        };
        if !ready {
            return None;
        }
        proof {
            assert forall|k: int| 0 <= k < self.tasks@.len() implies !precedes(
                #[trigger] self.tasks@[k],
                self.tasks@[0],
            ) by {
                if k == 0 {
                    lemma_precedes_strict_order(head, head, head);
                }
            }
        }
        let ghost before = self.tasks@;
        self.tasks.remove(0);
        proof {
            assert(self.tasks@ == before.drop_first());
            assert forall|i: int, j: int| 0 <= i < j < self.tasks@.len() implies !precedes(
                #[trigger] self.tasks@[j],
                #[trigger] self.tasks@[i],
            ) by {
                assert(self.tasks@[i] == before[i + 1] && self.tasks@[j] == before[j + 1]);
            }
        }
        Some(head.id)
    }

    /// The instant from which the first task in serving order may be
    /// dispatched, when the queue is active and that task waits for one.
    pub fn next_deadline(&self) -> (r: Option<Timestamp>)
        ensures
            r == (if self.active() && self.items().len() > 0 {
                self.items()[0].deadline
            } else {
                None
            }),
    {
        if self.is_active && self.tasks.len() > 0 {
            self.tasks[0].deadline
        } else {
            None
        }
    }

    pub fn len(&self) -> (r: usize)
        ensures
            r == self.items().len(),
    {
        self.tasks.len()
    }

    pub fn is_active(&self) -> (r: bool)
        ensures
            r == self.active(),
    {
        self.is_active
    }
}

impl Default for PendingTasks {
    fn default() -> (r: PendingTasks)
        ensures
            r.items() == Seq::<PendingTask>::empty(),
            !r.active(),
    {
        PendingTasks::new()
    }
}

} // verus!
