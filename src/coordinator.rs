//! The run coordinator and the transactional protocol that worker threads
//! drive against the packed queue word.
//!
//! A worker holds up to two actor ids of its own: `task`, the actor it acts
//! for, and `mall`, the partner of its last meeting. One `State::step`
//! reads its cached copy of the word, decides on a local copy, and commits
//! the result with a single compare-and-swap.
//!
//! Meetings are counted in batches of `BATCH`: the word counts those of the
//! current batch, and `Shared` counts the batches completed. The meeting
//! that fills a batch leaves the word marked full; no meeting is committed
//! on a full word, and the worker that filled it counts the batch and then
//! resets the word's counter. So the meeting that exhausts the budget is
//! the one that commits the stop sentinel, whatever the budget.
use std::sync::atomic::{AtomicU64, AtomicUsize, Ordering};
use vstd::prelude::*;
use crate::actor::{Chameneos, ChameneosState};
use crate::color::{complement_color, Color};
use crate::packed::{
    broker_of, done_of, encode, fifo_within, lemma_slots_fit, lemma_word_fields, lemma_word_split,
    pow16, queue_of, slots, slots_within, word_of, TransactionalQueue, BATCH, COUNT_RANGE,
    HEAD_RANGE, QUEUE_RANGE, QUEUE_SLOTS, SLOT_RANGE, STOPPED,
};

verus! {

/// The most actors one run can hold. A worker always holds its own actor
/// when it commits, so at most nine ids wait in the FIFO, which is what a
/// word has room for.
pub const MAX_ACTORS: usize = 10;

/// Why a run cannot be set up.
#[derive(Clone, Copy, Debug, PartialEq, Eq, Structural)]
pub enum RunError {
    /// More actors than the packed word has room for.
    TooManyActors,
    /// A meetings budget of zero.
    InvalidLimit,
}

/// What one step of a worker ended with.
#[derive(Clone, Copy, Debug, PartialEq, Eq, Structural)]
pub enum Step {
    /// The run is over: the worker should return.
    Stopped,
    /// No actor was available to this worker; it may back off briefly.
    Idle,
    /// The current batch of meetings is full and not yet counted: no
    /// meeting can be committed; the worker may back off briefly.
    Waiting,
    /// Nothing was committed: the word to commit has more ids waiting than
    /// a word holds. The cache holds the word as it now is.
    Full,
    /// Nothing was committed: another worker changed the word first. The
    /// cache holds the word found.
    Retry,
    /// The word holds an id outside the run's actors: the protocol's
    /// invariant is broken. Nothing was done.
    Corrupt,
    /// The worker's actor was installed as the broker.
    Parked,
    /// The worker's actor met the broker.
    Met,
    /// The worker counted the batch it filled and reset the word's counter.
    Reset,
}

/// The state shared by all workers of one run.
pub struct Shared {
    states: Vec<ChameneosState>,
    atomic_queue: AtomicU64,
    batches_done: AtomicUsize,
    actors: usize,
    meetings_limit: usize,
}

impl Shared {
    pub closed spec fn wf(&self) -> bool {
        &&& self.states@.len() == 16
        &&& 1 <= self.meetings_limit
        &&& self.actors <= MAX_ACTORS
    }

    /// The meetings budget of the run.
    pub closed spec fn limit(&self) -> nat {
        self.meetings_limit as nat
    }

    /// The number of actors of the run.
    pub closed spec fn actor_count(&self) -> nat {
        self.actors as nat
    }

    /// The name given to the actor state at index `i`.
    pub closed spec fn name_at(&self, i: int) -> u8 {
        self.states@[i].name()
    }

    /// Sets up a run of one actor per color, named 1, 2, ... in order, with
    /// an empty queue word and a budget of `meetings_limit` meetings.
    pub fn new(meetings_limit: usize, colors: &[Color]) -> (r: Result<Shared, RunError>)
        ensures
            colors@.len() > MAX_ACTORS ==> r == Err::<Shared, RunError>(RunError::TooManyActors),
            colors@.len() <= MAX_ACTORS && meetings_limit == 0 ==> r == Err::<Shared, RunError>(
                RunError::InvalidLimit,
            ),
            colors@.len() <= MAX_ACTORS && meetings_limit >= 1 ==> r is Ok,
            r matches Ok(s) ==> {
                &&& s.wf()
                &&& s.limit() == meetings_limit
                &&& s.actor_count() == colors@.len()
                &&& forall|i: int| 1 <= i <= colors@.len() ==> s.name_at(i) == i
            },
    {
        if colors.len() > MAX_ACTORS {
            return Err(RunError::TooManyActors);
        }
        if meetings_limit == 0 {
            return Err(RunError::InvalidLimit);
        }
        let n = colors.len();
        let mut states: Vec<ChameneosState> = Vec::new();
        let mut i: usize = 0;
        while i < 16
            invariant
                i <= 16,
                n <= MAX_ACTORS,
                n == colors@.len(),
                states@.len() == i,
                forall|j: int| 1 <= j < i && j <= n ==> states@[j].name() == j,
            decreases 16 - i,
        {
            if 1 <= i && i <= n {
                states.push(ChameneosState::new(i as u8, colors[i - 1]));
            } else {
                states.push(ChameneosState::new(0, Color::Red));
            }
            i = i + 1;
        }
        Ok(Shared {
            states,
            atomic_queue: AtomicU64::new(encode(0, 0, 0)),
            batches_done: AtomicUsize::new(0),
            actors: n,
            meetings_limit,
        })
    }

    /// Whether any meeting can take place: one actor alone has no partner,
    /// so a run of fewer than two actors ends at once, without workers.
    pub fn can_meet(&self) -> (r: bool)
        ensures
            r == (self.actor_count() >= 2),
    {
        self.actors >= 2
    }

    /// The state of the actor with id `idx`.
    pub fn state_at(&self, idx: u64) -> (r: &ChameneosState)
        requires
            self.wf(),
            idx < 16,
        ensures
            r.name() == self.name_at(idx as int),
    {
        &self.states[idx as usize]
    }

    /// The current queue word.
    pub fn load(&self, order: Ordering) -> (r: u64) {
        self.atomic_queue.load(order)
    }

    /// Replaces the queue word by `new` if it equals `current`; returns the
    /// word found.
    pub fn compare_and_swap(&self, current: u64, new: u64) -> (r: u64) {
        match self.atomic_queue.compare_exchange(current, new, Ordering::AcqRel, Ordering::Acquire) {
            Ok(v) => v,
            Err(v) => v,
        }
    }

    /// `(meetings, meetings with a namesake)` of each actor, in the order
    /// the colors were given.
    pub fn report(&self) -> (r: Vec<(usize, usize)>)
        requires
            self.wf(),
        ensures
            r@.len() == self.actor_count(),
    {
        let mut out: Vec<(usize, usize)> = Vec::new();
        let mut i: usize = 1;
        while i <= self.actors
            invariant
                self.wf(),
                1 <= i <= self.actors + 1,
                out@.len() == i - 1,
            decreases self.actors + 1 - i,
        {
            out.push(self.states[i].counts());
            i = i + 1;
        }
        out
    }
}

impl Chameneos {
    /// The state of the actor this id names, within a run.
    pub fn get<'a>(&self, shared: &'a Shared) -> (r: &'a ChameneosState)
        requires
            shared.wf(),
            self.idx < 16,
        ensures
            r.name() == shared.name_at(self.idx as int),
    {
        shared.state_at(self.idx)
    }
}

/// Carries out one meeting: both actors take the complement of their
/// colors, count the meeting, and count it as a meeting with a namesake
/// when their names agree. `actor` is the worker's own actor, `partner`
/// the broker it met.
fn perform_meeting(shared: &Shared, actor: Chameneos, partner: Chameneos)
    requires
        shared.wf(),
        actor.idx < 16,
        partner.idx < 16,
{
    let actor_ref = actor.get(shared);
    let partner_ref = partner.get(shared);
    let same = actor_ref.name() == partner_ref.name();
    let new_color = complement_color(actor_ref.color(), partner_ref.color());
    actor_ref.meet(same, new_color);
    partner_ref.meet(same, new_color);
}

/// The meetings a word accounts for, once `batches` batches are complete.
pub open spec fn counted(w: u64, batches: nat) -> nat {
    batches * BATCH as nat + done_of(w)
}

/// Whether one more meeting, after those a word with counter `done`
/// accounts for once `batches` batches are complete, meets the budget.
pub open spec fn budget_met(done: nat, batches: nat, limit: nat) -> bool {
    batches * BATCH as nat + done + 1 >= limit
}

/// A commit that records a meeting: from a running word whose batch is not
/// full, either one more meeting below the budget, or the stop sentinel
/// once the budget is met.
pub open spec fn meeting_commit(w: u64, next: u64, batches: nat, limit: nat) -> bool {
    &&& w != STOPPED
    &&& done_of(w) < BATCH
    &&& if budget_met(done_of(w), batches, limit) {
        next == STOPPED
    } else {
        next != STOPPED && done_of(next) == done_of(w) + 1
    }
}

/// A commit that installs a broker: the meetings counter is kept.
pub open spec fn park_commit(w: u64, next: u64) -> bool {
    &&& w != STOPPED
    &&& next != STOPPED
    &&& done_of(next) == done_of(w)
}

/// A commit that resets the counter of a full batch once it is counted.
pub open spec fn reset_commit(w: u64, next: u64) -> bool {
    &&& w != STOPPED
    &&& done_of(w) == BATCH
    &&& next != STOPPED
    &&& done_of(next) == 0
}

/// The kinds of commit a worker makes on the queue word.
pub enum Commit {
    Meeting,
    Park,
    Reset,
}

/// The number of batch resets among the commits.
pub open spec fn resets(kinds: Seq<Commit>) -> nat
    decreases kinds.len(),
{
    if kinds.len() == 0 {
        0
    } else {
        resets(kinds.drop_last()) + if kinds.last() is Reset {
            1nat
        } else {
            0nat
        }
    }
}

/// The number of meetings among the commits.
pub open spec fn meetings(kinds: Seq<Commit>) -> nat
    decreases kinds.len(),
{
    if kinds.len() == 0 {
        0
    } else {
        meetings(kinds.drop_last()) + if kinds.last() is Meeting {
            1nat
        } else {
            0nat
        }
    }
}

/// The successive values of the queue word, each committed by the commit
/// of the same index. A meeting is decided on the number of batches
/// counted so far, which is the number of resets before it.
pub open spec fn is_history(words: Seq<u64>, kinds: Seq<Commit>, limit: nat) -> bool {
    &&& words.len() == kinds.len() + 1
    &&& forall|i: int|
        0 <= i < kinds.len() ==> match #[trigger] kinds[i] {
            Commit::Meeting => meeting_commit(words[i], words[i + 1], resets(kinds.take(i)), limit),
            Commit::Park => park_commit(words[i], words[i + 1]),
            Commit::Reset => reset_commit(words[i], words[i + 1]),
        }
}

proof fn lemma_history_counts(words: Seq<u64>, kinds: Seq<Commit>, limit: nat)
    requires
        limit >= 1,
        is_history(words, kinds, limit),
        words[0] != STOPPED,
        done_of(words[0]) == 0,
    ensures
        words.last() != STOPPED ==> counted(words.last(), resets(kinds)) == meetings(kinds)
            && meetings(kinds) < limit,
        words.last() == STOPPED ==> meetings(kinds) == limit,
    decreases kinds.len(),
{
    if kinds.len() > 0 {
        let n = kinds.len() - 1;
        let prefix = words.drop_last();
        let pk = kinds.drop_last();
        assert(is_history(prefix, pk, limit)) by {
            assert forall|i: int| 0 <= i < pk.len() implies match #[trigger] pk[i] {
                Commit::Meeting => meeting_commit(prefix[i], prefix[i + 1], resets(pk.take(i)), limit),
                Commit::Park => park_commit(prefix[i], prefix[i + 1]),
                Commit::Reset => reset_commit(prefix[i], prefix[i + 1]),
            } by {
                assert(kinds[i] == pk[i]);
                assert(pk.take(i) =~= kinds.take(i));
            }
        }
        lemma_history_counts(prefix, pk, limit);
        assert(kinds[n] == kinds.last());
        assert(kinds.take(n) =~= pk);
        assert(prefix.last() == words[n]);
    }
}

/// The budget holds of every run: along any history of the queue word
/// from a fresh run, the number of meetings committed never exceeds
/// `limit`, and once the word holds the stop sentinel exactly `limit`
/// meetings took place. No commit leaves the sentinel.
pub proof fn lemma_meetings_within_budget(words: Seq<u64>, kinds: Seq<Commit>, limit: nat)
    requires
        limit >= 1,
        is_history(words, kinds, limit),
        words[0] != STOPPED,
        done_of(words[0]) == 0,
    ensures
        meetings(kinds) <= limit,
        words.last() == STOPPED ==> meetings(kinds) == limit,
        forall|i: int| 0 <= i < kinds.len() ==> words[i] != STOPPED,
{
    lemma_history_counts(words, kinds, limit);
    assert forall|i: int| 0 <= i < kinds.len() implies words[i] != STOPPED by {
        let kind = kinds[i];
    }
}

/// Whether the meeting after `batches` full batches and `done` meetings of
/// the current one meets the budget, computed without overflow.
pub fn budget_reached(done: u64, batches: usize, limit: usize) -> (r: bool)
    requires
        done < COUNT_RANGE,
    ensures
        r == budget_met(done as nat, batches as nat, limit as nat),
{
    let per_batch = BATCH as usize;
    if batches > limit / per_batch {
        proof {
            let q = limit as int / BATCH as int;
            assert(batches as int * BATCH as int >= (q + 1) * BATCH as int) by (nonlinear_arith)
                requires
                    batches as int >= q + 1,
            ;
            assert((q + 1) * BATCH as int > limit) by (nonlinear_arith)
                requires
                    q == limit as int / BATCH as int,
            ;
        }
        true
    } else {
        proof {
            assert(batches as int * BATCH as int <= limit) by (nonlinear_arith)
                requires
                    batches as int <= limit as int / BATCH as int,
                    limit >= 0,
            ;
        }
        let rest = limit - batches * per_batch;
        done as usize + 1 >= rest
    }
}

/// The ids a worker can draw on: the FIFO of the word, and the ids it holds.
/// A worker that holds a partner puts it back, then its own actor; a worker
/// that holds only its actor keeps it in front.
pub open spec fn pool(w: u64, task: nat, mall: nat) -> Seq<nat> {
    if mall != 0 {
        slots(queue_of(w)) + seq![mall, task]
    } else if task != 0 {
        seq![task] + slots(queue_of(w))
    } else {
        slots(queue_of(w))
    }
}

/// The first id of a sequence; 0 when it is empty.
pub open spec fn front(s: Seq<nat>) -> nat {
    if s.len() == 0 {
        0
    } else {
        s[0]
    }
}

/// A sequence without its first id.
pub open spec fn behind(s: Seq<nat>) -> Seq<nat> {
    if s.len() == 0 {
        s
    } else {
        s.drop_first()
    }
}

/// A word whose broker and waiting ids all lie within a run of `n` actors.
pub open spec fn consistent(w: u64, n: nat) -> bool {
    broker_of(w) <= n && slots_within(queue_of(w), n)
}

/// A worker's private state: its cached copy of the queue word, the ids it
/// holds, the number of complete batches it last read, and whether it owes
/// the reset of a batch it filled.
pub struct State {
    pub cache: u64,
    pub task: Chameneos,
    pub mall: Chameneos,
    pub seen_batches: usize,
    pub resolving: bool,
}

impl State {
    pub open spec fn wf(&self) -> bool {
        &&& self.task.idx < 16
        &&& self.mall.idx < 16
        &&& self.mall.idx != 0 ==> self.task.idx != 0
    }

    /// A worker that acts for actor `task` and holds no partner.
    pub fn new(shared: &Shared, task: u64) -> (r: State)
        requires
            task < 16,
        ensures
            r.wf(),
            r.task.idx == task,
            r.mall.idx == 0,
            !r.resolving,
    {
        State {
            cache: shared.load(Ordering::SeqCst),
            task: Chameneos { idx: task },
            mall: Chameneos { idx: 0 },
            seen_batches: 0,
            resolving: false,
        }
    }

    /// Begins a transaction on the cached word: `None` when it is the stop
    /// sentinel; else the local copy of its FIFO, its broker and its
    /// meetings counter.
    pub fn run(&self) -> (r: Option<(TransactionalQueue, Chameneos, u64)>)
        ensures
            self.cache == STOPPED <==> r is None,
            r matches Some((q, broker, done)) ==> {
                &&& q.set_state == queue_of(self.cache)
                &&& broker.idx == broker_of(self.cache)
                &&& done == done_of(self.cache)
            },
    {
        if self.cache == STOPPED {
            None
        } else {
            let mut queue = TransactionalQueue { set_state: self.cache };
            let done = queue.take_count();
            let broker = queue.take();
            proof {
                let w = self.cache;
                assert((w / COUNT_RANGE) / SLOT_RANGE == w / HEAD_RANGE) by (nonlinear_arith);
            }
            Some((queue, broker, done))
        }
    }

    /// Abandons the transaction: the cache takes the word as it now is.
    pub fn cancel(&mut self, shared: &Shared)
        ensures
            final(self).task == old(self).task,
            final(self).mall == old(self).mall,
            final(self).resolving == old(self).resolving,
            final(self).seen_batches == old(self).seen_batches,
    {
        self.cache = shared.load(Ordering::Acquire);
    }

    /// Commits `wanted` if the word still equals the cache. On success the
    /// cache becomes `wanted`; else it becomes the word found.
    pub fn commit(&mut self, shared: &Shared, wanted: u64) -> (r: bool)
        ensures
            r ==> final(self).cache == wanted,
            final(self).task == old(self).task,
            final(self).mall == old(self).mall,
            final(self).resolving == old(self).resolving,
            final(self).seen_batches == old(self).seen_batches,
    {
        let actual = shared.compare_and_swap(self.cache, wanted);
        let worked = actual == self.cache;
        self.cache = if worked { wanted } else { actual };
        worked
    }
}

impl TransactionalQueue {
    /// Commits the word made of `count` meetings, broker `mall` and this
    /// FIFO, if the shared word still equals the worker's cache.
    pub fn submit(self, shared: &Shared, state: &mut State, mall: Chameneos, count: u64) -> (r:
        bool)
        requires
            count < COUNT_RANGE,
            mall.idx < SLOT_RANGE,
            self.set_state < QUEUE_RANGE,
        ensures
            r ==> final(state).cache as nat == word_of(
                count as nat,
                mall.idx as nat,
                self.set_state as nat,
            ),
            final(state).task == old(state).task,
            final(state).mall == old(state).mall,
            final(state).resolving == old(state).resolving,
            final(state).seen_batches == old(state).seen_batches,
    {
        let wanted = encode(count, mall.idx, self.set_state);
        state.commit(shared, wanted)
    }
}

impl State {
    /// One transaction of the worker loop.
    ///
    /// The worker draws its actor from the front of `pool` (its held ids
    /// and the word's FIFO); with none it is idle. With no broker in the
    /// word, its actor becomes the broker and it takes the next id as its
    /// new actor. With a broker, its actor meets the broker: the word counts
    /// one more meeting and has no broker, or is the stop sentinel when that
    /// meeting meets the budget; the worker then holds both ids until its
    /// next step. A worker that filled a batch first counts it and resets
    /// the word's counter.
    #[verifier::rlimit(100)]
    pub fn step(&mut self, shared: &Shared) -> (r: Step)
        requires
            shared.wf(),
            old(self).wf(),
            old(self).task.idx <= shared.actor_count(),
            old(self).mall.idx <= shared.actor_count(),
        ensures
            final(self).wf(),
            final(self).task.idx <= shared.actor_count(),
            final(self).mall.idx <= shared.actor_count(),
            ({
                let w = old(self).cache;
                let n = shared.actor_count();
                let p = pool(w, old(self).task.idx as nat, old(self).mall.idx as nat);
                let b = broker_of(w);
                let d = done_of(w);
                let last = budget_met(d, final(self).seen_batches as nat, shared.limit());
                &&& w == STOPPED ==> r == Step::Stopped && *final(self) == *old(self)
                &&& w != STOPPED && !consistent(w, n) ==> r == Step::Corrupt && *final(self)
                    == *old(self)
                &&& w != STOPPED && consistent(w, n) && old(self).resolving ==> {
                    &&& d != BATCH ==> r == Step::Corrupt && *final(self) == *old(self)
                    &&& d == BATCH ==> r == Step::Reset || r == Step::Retry
                    &&& r == Step::Reset ==> final(self).cache as nat == word_of(
                        0,
                        b,
                        queue_of(w),
                    ) && !final(self).resolving
                }
                &&& w != STOPPED && consistent(w, n) && !old(self).resolving ==> {
                    &&& r == Step::Idle <==> p.len() == 0
                    &&& p.len() > 0 && b == 0 ==> {
                        &&& r == Step::Parked || r == Step::Retry || r == Step::Full
                        &&& r == Step::Full <==> behind(behind(p)).len() > QUEUE_SLOTS
                    }
                    &&& r == Step::Parked ==> {
                        &&& park_commit(w, final(self).cache)
                        &&& broker_of(final(self).cache) == front(p)
                        &&& front(p) != 0
                        &&& slots(queue_of(final(self).cache)) == behind(behind(p))
                        &&& final(self).task.idx == front(behind(p))
                        &&& final(self).mall.idx == 0
                    }
                    &&& p.len() > 0 && b != 0 && d == BATCH ==> r == Step::Waiting
                    &&& p.len() > 0 && b != 0 && d < BATCH ==> {
                        &&& last ==> r == Step::Stopped || r == Step::Retry
                        &&& !last ==> r == Step::Met || r == Step::Retry || r == Step::Full
                        &&& r == Step::Full <==> !last && behind(p).len() > QUEUE_SLOTS
                    }
                    &&& r == Step::Met || r == Step::Stopped ==> {
                        &&& meeting_commit(w, final(self).cache, final(self).seen_batches as nat, shared.limit())
                        &&& final(self).task.idx == front(p)
                        &&& final(self).mall.idx == b
                    }
                    &&& r == Step::Met ==> {
                        &&& broker_of(final(self).cache) == 0
                        &&& slots(queue_of(final(self).cache)) == behind(p)
                        &&& final(self).resolving == (d + 1 == BATCH)
                    }
                    &&& r != Step::Met ==> final(self).resolving == old(self).resolving
                }
                &&& r == Step::Idle || r == Step::Waiting || r == Step::Full || r == Step::Retry
                    || r == Step::Corrupt ==> {
                    &&& final(self).task == old(self).task
                    &&& final(self).mall == old(self).mall
                    &&& final(self).resolving == old(self).resolving
                }
            }),
    {
        let ghost w = self.cache;
        let ghost n = shared.actor_count();
        let (mut queue, broker, done) = match self.run() {
            None => {
                return Step::Stopped;
            },
            Some(x) => x,
        };
        let actors = shared.actors as u64;
        if broker.idx > actors || !fifo_within(queue.set_state, actors) {
            return Step::Corrupt;
        }
        proof {
            lemma_word_split(w);
            reveal_with_fuel(pow16, 10);
            assert(pow16(9) == QUEUE_RANGE);
            lemma_slots_fit(queue.set_state as nat, 9);
        }
        if self.resolving {
            if done != BATCH {
                return Step::Corrupt;
            }
            let wanted = encode(0, broker.idx, queue.set_state);
            if self.commit(shared, wanted) {
                self.resolving = false;
                return Step::Reset;
            }
            return Step::Retry;
        }
        let ghost s = slots(queue.set_state as nat);
        let ghost p = pool(w, self.task.idx as nat, self.mall.idx as nat);
        let mut task = self.task;
        let mall = self.mall;
        if mall.is_valid() {
            queue.put(task, mall);
            proof {
                assert(queue.set_state != 0) by {
                    if queue.set_state == 0 {
                        assert(slots(0) =~= Seq::<nat>::empty());
                    }
                }
            }
            task = queue.take();
        } else if !task.is_valid() {
            proof {
                if queue.set_state == 0 {
                    assert(slots(0) =~= Seq::<nat>::empty());
                }
            }
            task = queue.take();
            if !task.is_valid() {
                self.cancel(shared);
                return Step::Idle;
            }
        } else {
            proof {
                assert((seq![task.idx as nat] + s).drop_first() =~= s);
            }
        }
        assert(p.len() > 0);
        assert(task.idx as nat == front(p));
        assert(slots(queue.set_state as nat) == behind(p));
        assert(task.idx != 0 && task.idx <= actors);
        if !broker.is_valid() {
            proof {
                if queue.set_state == 0 {
                    assert(slots(0) =~= Seq::<nat>::empty());
                }
            }
            let replacement = queue.take();
            proof {
                lemma_slots_fit(queue.set_state as nat, 9);
                if behind(p).len() > 0 {
                    assert(1 <= behind(p)[0] <= n);
                }
            }
            if queue.set_state >= QUEUE_RANGE {
                self.cancel(shared);
                return Step::Full;
            }
            let ghost rest = queue.set_state;
            if queue.submit(shared, self, task, done) {
                self.task = replacement;
                self.mall = Chameneos { idx: 0 };
                proof {
                    lemma_word_fields(done as nat, task.idx as nat, rest as nat);
                }
                return Step::Parked;
            }
            return Step::Retry;
        }
        if done == BATCH {
            self.cancel(shared);
            return Step::Waiting;
        }
        let batches = shared.batches_done.load(Ordering::Acquire);
        self.seen_batches = batches;
        let last = budget_reached(done, batches, shared.meetings_limit);
        proof {
            lemma_slots_fit(queue.set_state as nat, 9);
        }
        if !last && queue.set_state >= QUEUE_RANGE {
            self.cancel(shared);
            return Step::Full;
        }
        let ghost rest = queue.set_state;
        let committed = if last {
            self.commit(shared, STOPPED)
        } else {
            queue.submit(shared, self, Chameneos { idx: 0 }, done + 1)
        };
        if !committed {
            return Step::Retry;
        }
        self.task = task;
        self.mall = broker;
        perform_meeting(shared, task, broker);
        if last {
            return Step::Stopped;
        }
        proof {
            lemma_word_fields((done + 1) as nat, 0, rest as nat);
        }
        if done + 1 == BATCH {
            shared.batches_done.fetch_add(1, Ordering::AcqRel);
            self.resolving = true;
        }
        Step::Met
    }
}

} // verus!
