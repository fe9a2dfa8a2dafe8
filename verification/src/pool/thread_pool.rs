use vstd::prelude::*;

use crate::pool::error::Error;

verus! {

/// The worker identities that building a pool of `size` workers
/// creates: pool construction fails exactly on size zero, and otherwise
/// yields one worker per identity `0, 1, ..., size - 1`.
pub fn worker_ids(size: usize) -> (r: Result<Vec<usize>, Error>)
    ensures
        match r {
            Ok(ids) => size > 0 && ids@.len() == size && forall|i: int|
                0 <= i < ids@.len() ==> ids@[i] == i,
            Err(e) => size == 0 && e == Error::InvalidPoolSize,
        },
{
    if size == 0 {
        return Err(Error::InvalidPoolSize);
    }
    let mut ids: Vec<usize> = Vec::new();
    let mut id: usize = 0;
    while id < size
        invariant
            0 <= id <= size,
            ids@.len() == id,
            forall|i: int| 0 <= i < ids@.len() ==> ids@[i] == i,
        decreases size - id,
    {
        ids.push(id);
        id = id + 1;
    }
    Ok(ids)
}

/// Whether a submission may even be attempted: only while the pool
/// still holds its sending endpoint; after shutdown has begun the
/// submission is refused without touching the queue.
pub fn submit_gate(sender_present: bool) -> (r: Result<(), Error>)
    ensures
        sender_present ==> r == Ok::<(), Error>(()),
        !sender_present ==> r == Err::<(), Error>(Error::SenderIsNil),
{
    if sender_present {
        Ok(())
    } else {
        Err(Error::SenderIsNil)
    }
}

/// The outcome reported for an attempted submission: it succeeds exactly
/// when the queue's receiving endpoint is still alive.
pub fn submit_outcome(receiver_alive: bool) -> (r: Result<(), Error>)
    ensures
        receiver_alive ==> r == Ok::<(), Error>(()),
        !receiver_alive ==> r == Err::<(), Error>(Error::ReceiverIsDropped),
{
    if receiver_alive {
        Ok(())
    } else {
        Err(Error::ReceiverIsDropped)
    }
}

/// A model of the pool's shared queue and workers. Job identities are
/// numbered in submission order; each is either waiting in the queue,
/// claimed by a worker, or recorded done by the worker that ran it.
pub struct PoolModel {
    /// How many workers the pool was built with.
    pub size: nat,
    /// Whether the queue still accepts submissions.
    pub open: bool,
    /// The submitted jobs not yet claimed, oldest first.
    pub pending: Seq<nat>,
    /// The job each busy worker has claimed.
    pub running: Map<nat, nat>,
    /// For each finished job, the one worker that ran it.
    pub done: Map<nat, nat>,
    /// Jobs below this identity have been submitted.
    pub next_job: nat,
}

impl PoolModel {
    /// Whether some worker has claimed job `j`.
    pub open spec fn is_running(self, j: nat) -> bool {
        exists|w: nat| #[trigger] self.running.contains_key(w) && self.running[w] == j
    }

    /// In how many of the three places job `j` stands.
    pub open spec fn place_count(self, j: nat) -> int {
        (if self.pending.contains(j) {
            1int
        } else {
            0int
        }) + (if self.is_running(j) {
            1int
        } else {
            0int
        }) + (if self.done.contains_key(j) {
            1int
        } else {
            0int
        })
    }

    /// The pool's invariant: workers exist, claims are exclusive, and
    /// every submitted job stands in exactly one place.
    pub open spec fn inv(self) -> bool {
        &&& forall|i: int, j: int|
            0 <= i < j < self.pending.len() ==> self.pending[i] != self.pending[j]
        &&& forall|i: int| 0 <= i < self.pending.len() ==> (#[trigger] self.pending[i]) < self.next_job
        &&& forall|w: nat| #[trigger] self.running.contains_key(w) ==> w < self.size && self.running[w] < self.next_job
        &&& forall|w1: nat, w2: nat|
            self.running.contains_key(w1) && self.running.contains_key(w2) && #[trigger] self.running[w1]
                == #[trigger] self.running[w2] ==> w1 == w2
        &&& forall|j: nat| #[trigger] self.done.contains_key(j) ==> j < self.next_job && self.done[j] < self.size
        &&& forall|j: nat| j < self.next_job ==> #[trigger] self.place_count(j) == 1
    }

    /// A freshly built pool: `size` idle workers, an open empty queue.
    pub open spec fn init(size: nat) -> PoolModel {
        PoolModel {
            size,
            open: true,
            pending: Seq::<nat>::empty(),
            running: Map::<nat, nat>::empty(),
            done: Map::<nat, nat>::empty(),
            next_job: 0,
        }
    }

    /// Submitting is possible only while the queue is open.
    pub open spec fn can_submit(self) -> bool {
        self.open
    }

    /// A new job enters the queue and gets the next identity.
    pub open spec fn submit(self) -> PoolModel {
        PoolModel {
            pending: self.pending.push(self.next_job),
            next_job: self.next_job + 1,
            ..self
        }
    }

    /// Worker `w` may claim only when idle, and only the oldest job.
    pub open spec fn can_claim(self, w: nat) -> bool {
        w < self.size && !self.running.contains_key(w) && self.pending.len() > 0
    }

    /// Worker `w` takes the oldest job out of the queue for itself.
    pub open spec fn claim(self, w: nat) -> PoolModel {
        PoolModel {
            pending: self.pending.drop_first(),
            running: self.running.insert(w, self.pending[0]),
            ..self
        }
    }

    /// Finishing is possible only for a worker holding a job.
    pub open spec fn can_finish(self, w: nat) -> bool {
        self.running.contains_key(w)
    }

    /// Worker `w` completes its job, which is recorded as run by `w`.
    pub open spec fn finish(self, w: nat) -> PoolModel {
        PoolModel {
            running: self.running.remove(w),
            done: self.done.insert(self.running[w], w),
            ..self
        }
    }

    /// Shutdown closes the queue to new submissions and nothing else:
    /// pending jobs still drain.
    pub open spec fn close(self) -> PoolModel {
        PoolModel { open: false, ..self }
    }
}

/// A fresh pool satisfies the invariant.
pub proof fn lemma_init_inv(size: nat)
    ensures
        PoolModel::init(size).inv(),
{
    let s = PoolModel::init(size);
    assert forall|j: nat| j < s.next_job implies #[trigger] s.place_count(j) == 1 by {}
}

/// Submission keeps the invariant: the new job stands in the queue and
/// nowhere else, and no older job moves.
pub proof fn lemma_submit_inv(s: PoolModel)
    requires
        s.inv(),
        s.can_submit(),
    ensures
        s.submit().inv(),
        s.submit().pending.contains(s.next_job),
{
    let t = s.submit();
    assert(t.pending.last() == s.next_job);
    assert forall|i: int| 0 <= i < s.pending.len() implies t.pending[i] == s.pending[i] by {}
    assert forall|j: nat| j < t.next_job implies #[trigger] t.place_count(j) == 1 by {
        if j < s.next_job {
            assert(s.place_count(j) == 1);
            assert(t.pending.contains(j) == s.pending.contains(j)) by {
                if s.pending.contains(j) {
                    let i = choose|i: int| 0 <= i < s.pending.len() && s.pending[i] == j;
                    assert(t.pending[i] == j);
                } else if t.pending.contains(j) {
                    let i = choose|i: int| 0 <= i < t.pending.len() && t.pending[i] == j;
                    assert(i == s.pending.len());
                }
            }
            assert(t.is_running(j) == s.is_running(j)) by {
                if s.is_running(j) {
                    let w = choose|w: nat|
                        #[trigger] s.running.contains_key(w) && s.running[w] == j;
                    assert(t.running.contains_key(w) && t.running[w] == j);
                } else if t.is_running(j) {
                    let w = choose|w: nat|
                        #[trigger] t.running.contains_key(w) && t.running[w] == j;
                    assert(s.running.contains_key(w) && s.running[w] == j);
                }
            }
        } else {
            assert(j == s.next_job);
            assert(t.pending.contains(j));
            assert(!s.is_running(j) && !s.done.contains_key(j)) by {
                if s.is_running(j) {
                    let w = choose|w: nat|
                        #[trigger] s.running.contains_key(w) && s.running[w] == j;
                }
            }
            assert(t.is_running(j) == s.is_running(j)) by {
                if s.is_running(j) {
                    let w = choose|w: nat|
                        #[trigger] s.running.contains_key(w) && s.running[w] == j;
                    assert(t.running.contains_key(w) && t.running[w] == j);
                } else if t.is_running(j) {
                    let w = choose|w: nat|
                        #[trigger] t.running.contains_key(w) && t.running[w] == j;
                    assert(s.running.contains_key(w) && s.running[w] == j);
                }
            }
            assert(forall|i: int|
                0 <= i < s.pending.len() ==> (#[trigger] s.pending[i]) != j);
            assert(t.place_count(j) == 1);
        }
    }
}

/// A claim keeps the invariant: the claimed job leaves the queue and is
/// held by `w` alone; every other job stays where it was.
pub proof fn lemma_claim_inv(s: PoolModel, w: nat)
    requires
        s.inv(),
        s.can_claim(w),
    ensures
        s.claim(w).inv(),
        s.claim(w).running[w] == s.pending[0],
        !s.claim(w).pending.contains(s.pending[0]),
{
    let t = s.claim(w);
    let job = s.pending[0];
    assert(s.place_count(job) == 1);
    assert(s.pending.contains(job));
    assert(!s.is_running(job) && !s.done.contains_key(job)) by {
        if s.is_running(job) {
            assert(s.place_count(job) >= 2);
        }
    }
    assert forall|i: int| 0 <= i < t.pending.len() implies t.pending[i] == s.pending[i + 1] by {}
    assert(!t.pending.contains(job)) by {
        if t.pending.contains(job) {
            let i = choose|i: int| 0 <= i < t.pending.len() && t.pending[i] == job;
            assert(s.pending[i + 1] == job && s.pending[0] == job);
        }
    }
    assert forall|j: nat| j < t.next_job implies #[trigger] t.place_count(j) == 1 by {
        assert(s.place_count(j) == 1);
        if j == job {
            assert(t.running.contains_key(w) && t.running[w] == j);
            assert(t.is_running(j));
            assert(t.place_count(j) == 1);
        } else {
            assert(t.pending.contains(j) == s.pending.contains(j)) by {
                if s.pending.contains(j) {
                    let i = choose|i: int| 0 <= i < s.pending.len() && s.pending[i] == j;
                    assert(i != 0);
                    assert(t.pending[i - 1] == j);
                } else if t.pending.contains(j) {
                    let i = choose|i: int| 0 <= i < t.pending.len() && t.pending[i] == j;
                    assert(s.pending[i + 1] == j);
                }
            }
            assert(t.is_running(j) == s.is_running(j)) by {
                if s.is_running(j) {
                    let w2 = choose|w2: nat|
                        #[trigger] s.running.contains_key(w2) && s.running[w2] == j;
                    assert(t.running.contains_key(w2) && t.running[w2] == j);
                } else if t.is_running(j) {
                    let w2 = choose|w2: nat|
                        #[trigger] t.running.contains_key(w2) && t.running[w2] == j;
                    assert(w2 != w);
                    assert(s.running.contains_key(w2) && s.running[w2] == j);
                }
            }
        }
    }
}

/// Finishing keeps the invariant: the job moves from its one claiming
/// worker into the done record, attributed to that worker alone.
pub proof fn lemma_finish_inv(s: PoolModel, w: nat)
    requires
        s.inv(),
        s.can_finish(w),
    ensures
        s.finish(w).inv(),
        s.finish(w).done[s.running[w]] == w,
{
    let t = s.finish(w);
    let job = s.running[w];
    assert(s.is_running(job));
    assert(s.place_count(job) == 1);
    assert(!s.pending.contains(job) && !s.done.contains_key(job));
    assert forall|j: nat| j < t.next_job implies #[trigger] t.place_count(j) == 1 by {
        assert(s.place_count(j) == 1);
        if j == job {
            assert(!t.is_running(j)) by {
                if t.is_running(j) {
                    let w2 = choose|w2: nat|
                        #[trigger] t.running.contains_key(w2) && t.running[w2] == j;
                    assert(s.running.contains_key(w2) && s.running[w2] == j);
                    assert(w2 == w);
                }
            }
            assert(t.done.contains_key(j));
            assert(t.place_count(j) == 1);
        } else {
            assert(t.done.contains_key(j) == s.done.contains_key(j));
            assert(t.is_running(j) == s.is_running(j)) by {
                if s.is_running(j) {
                    let w2 = choose|w2: nat|
                        #[trigger] s.running.contains_key(w2) && s.running[w2] == j;
                    assert(w2 != w);
                    assert(t.running.contains_key(w2) && t.running[w2] == j);
                } else if t.is_running(j) {
                    let w2 = choose|w2: nat|
                        #[trigger] t.running.contains_key(w2) && t.running[w2] == j;
                    assert(s.running.contains_key(w2) && s.running[w2] == j);
                }
            }
        }
    }
}

/// Closing the queue keeps the invariant and moves no job.
pub proof fn lemma_close_inv(s: PoolModel)
    requires
        s.inv(),
    ensures
        s.close().inv(),
        s.close().pending == s.pending,
        s.close().running == s.running,
        s.close().done == s.done,
{
    let t = s.close();
    assert forall|j: nat| j < t.next_job implies #[trigger] t.place_count(j) == 1 by {
        assert(s.place_count(j) == 1);
        assert(t.is_running(j) == s.is_running(j)) by {
            if s.is_running(j) {
                let w = choose|w: nat|
                    #[trigger] s.running.contains_key(w) && s.running[w] == j;
                assert(t.running.contains_key(w) && t.running[w] == j);
            } else if t.is_running(j) {
                let w = choose|w: nat|
                    #[trigger] t.running.contains_key(w) && t.running[w] == j;
                assert(s.running.contains_key(w) && s.running[w] == j);
            }
        }
    }
}

/// Exactly-once custody: under the invariant, a submitted job stands in
/// exactly one place — waiting, claimed, or done — so it is neither
/// lost nor duplicated.
pub proof fn lemma_exactly_once(s: PoolModel, j: nat)
    requires
        s.inv(),
        j < s.next_job,
    ensures
        s.place_count(j) == 1,
{
}

/// No duplicate delivery: two workers never hold the same job.
pub proof fn lemma_no_duplicate_claim(s: PoolModel, w1: nat, w2: nat)
    requires
        s.inv(),
        s.running.contains_key(w1),
        s.running.contains_key(w2),
        s.running[w1] == s.running[w2],
    ensures
        w1 == w2,
{
}

/// One step of the pool's life: a submission, a claim or a completion
/// by one worker, or the shutdown of the queue.
pub enum PoolOp {
    Submit,
    Claim(nat),
    Finish(nat),
    Close,
}

/// Whether `op` can fire in state `s`.
pub open spec fn op_enabled(s: PoolModel, op: PoolOp) -> bool {
    match op {
        PoolOp::Submit => s.can_submit(),
        PoolOp::Claim(w) => s.can_claim(w),
        PoolOp::Finish(w) => s.can_finish(w),
        PoolOp::Close => true,
    }
}

/// The state after `op` fires in state `s`.
pub open spec fn op_step(s: PoolModel, op: PoolOp) -> PoolModel {
    match op {
        PoolOp::Submit => s.submit(),
        PoolOp::Claim(w) => s.claim(w),
        PoolOp::Finish(w) => s.finish(w),
        PoolOp::Close => s.close(),
    }
}

/// Whether the operations `ops`, fired in order from `s`, are each
/// enabled when their turn comes.
pub open spec fn ops_enabled(s: PoolModel, ops: Seq<PoolOp>) -> bool
    decreases ops.len(),
{
    ops.len() == 0 || (op_enabled(s, ops[0]) && ops_enabled(op_step(s, ops[0]), ops.drop_first()))
}

/// The state after the operations `ops`, fired in order from `s`.
pub open spec fn run_ops(s: PoolModel, ops: Seq<PoolOp>) -> PoolModel
    decreases ops.len(),
{
    if ops.len() == 0 {
        s
    } else {
        run_ops(op_step(s, ops[0]), ops.drop_first())
    }
}

/// Every state the pool reaches satisfies the invariant.
pub proof fn lemma_run_ops_inv(s: PoolModel, ops: Seq<PoolOp>)
    requires
        s.inv(),
        ops_enabled(s, ops),
    ensures
        run_ops(s, ops).inv(),
    decreases ops.len(),
{
    if ops.len() > 0 {
        let t = op_step(s, ops[0]);
        match ops[0] {
            PoolOp::Submit => lemma_submit_inv(s),
            PoolOp::Claim(w) => lemma_claim_inv(s, w),
            PoolOp::Finish(w) => lemma_finish_inv(s, w),
            PoolOp::Close => lemma_close_inv(s),
        }
        lemma_run_ops_inv(t, ops.drop_first());
    }
}

/// Exactly-once execution over a whole run: however a pool of any size
/// interleaves submissions, claims, completions and its shutdown, every
/// job submitted along the way ends in exactly one place — still
/// waiting, claimed by one worker, or run by exactly one worker. No job
/// is lost and none is delivered twice.
pub proof fn lemma_pool_runs_each_job_once(size: nat, ops: Seq<PoolOp>, j: nat)
    requires
        ops_enabled(PoolModel::init(size), ops),
        j < run_ops(PoolModel::init(size), ops).next_job,
    ensures
        run_ops(PoolModel::init(size), ops).place_count(j) == 1,
{
    lemma_init_inv(size);
    lemma_run_ops_inv(PoolModel::init(size), ops);
}

} // verus!
