//! The packed queue word: the one atomic integer that governs the
//! rendezvous. All layout arithmetic lives here.
//!
//! Layout of a word, from the least significant bit up:
//! - bits 0..24: the number of meetings of the current batch (`BATCH`: full);
//! - bits 24..28: the broker, the actor id waiting for a partner (0: none);
//! - bits 28..64: a FIFO of waiting actor ids, 4 bits each, front lowest.
//!
//! The word with every bit set means that the run has stopped; every other
//! word is the encoding of its three fields.
use vstd::multiset::Multiset;
use vstd::prelude::*;
use crate::actor::Chameneos;

verus! {

broadcast use vstd::multiset::group_multiset_axioms;

/// Width in bits of the meetings counter.
pub const COUNT_BITS: u64 = 24;
/// Number of values the meetings counter can take.
pub const COUNT_RANGE: u64 = 0x100_0000;
/// The number of meetings in one batch. A counter field that holds it
/// marks a full batch, on which no further meeting is committed until the
/// field is reset to 0.
pub const BATCH: u64 = 0xFF_FFFF;
/// Number of values one actor slot can take.
pub const SLOT_RANGE: u64 = 16;
/// Number of values the broker and counter fields together can take.
pub const HEAD_RANGE: u64 = 0x1000_0000;
/// How many actor ids the FIFO part of a word holds.
pub const QUEUE_SLOTS: u64 = 9;
/// Bound on the FIFO part of a word.
pub const QUEUE_RANGE: u64 = 0x10_0000_0000;
/// The stop sentinel.
pub const STOPPED: u64 = 0xFFFF_FFFF_FFFF_FFFF;

/// 16 to the power `k`.
pub open spec fn pow16(k: nat) -> nat
    decreases k,
{
    if k == 0 {
        1
    } else {
        16 * pow16((k - 1) as nat)
    }
}

/// The actor ids held by a FIFO value, front first.
pub open spec fn slots(q: nat) -> Seq<nat>
    decreases q,
{
    if q == 0 {
        seq![]
    } else {
        seq![q % 16] + slots(q / 16)
    }
}

/// The word made of a meetings counter, a broker and a FIFO value.
pub open spec fn word_of(done: nat, broker: nat, queue: nat) -> nat {
    done + broker * (COUNT_RANGE as nat) + queue * (HEAD_RANGE as nat)
}

pub open spec fn done_of(w: u64) -> nat {
    (w % COUNT_RANGE) as nat
}

pub open spec fn broker_of(w: u64) -> nat {
    ((w / COUNT_RANGE) % SLOT_RANGE) as nat
}

pub open spec fn queue_of(w: u64) -> nat {
    (w / HEAD_RANGE) as nat
}

pub proof fn lemma_pow16_monotone(j: nat, k: nat)
    requires
        j <= k,
    ensures
        pow16(j) <= pow16(k),
    decreases k,
{
    if j < k {
        lemma_pow16_monotone(j, (k - 1) as nat);
    }
}

/// A value below `16^m` holds at most `m` slots.
pub proof fn lemma_slots_len_bound(q: nat, m: nat)
    requires
        q < pow16(m),
    ensures
        slots(q).len() <= m,
    decreases q,
{
    if q != 0 {
        assert(m > 0);
        lemma_slots_len_bound(q / 16, (m - 1) as nat);
    }
}

/// A value is below 16 to the power of its number of slots.
pub proof fn lemma_slots_value_bound(q: nat)
    ensures
        q < pow16(slots(q).len()),
    decreases q,
{
    if q != 0 {
        lemma_slots_value_bound(q / 16);
    }
}

/// Adding `v` shifted past the last slot of `q` appends the slots of `v`.
pub proof fn lemma_slots_append(q: nat, v: nat)
    ensures
        slots(q + v * pow16(slots(q).len())) == slots(q) + slots(v),
    decreases q,
{
    if q == 0 {
        let k = slots(q).len();
        assert(k == 0);
        assert(pow16(k) == 1);
        assert(v * pow16(k) == v) by (nonlinear_arith)
            requires
                pow16(k) == 1,
        ;
        assert(slots(q) + slots(v) =~= slots(v));
    } else {
        let k = slots(q).len();
        let rest = (k - 1) as nat;
        let a = q / 16;
        assert(slots(q) == seq![q % 16] + slots(a));
        assert(rest == slots(a).len());
        lemma_slots_append(a, v);
        let s = q + v * pow16(k);
        assert(pow16(k) == 16 * pow16(rest));
        assert(s == 16 * (a + v * pow16(rest)) + q % 16) by (nonlinear_arith)
            requires
                s == q + v * pow16(k),
                pow16(k) == 16 * pow16(rest),
                q == 16 * a + q % 16,
        ;
        assert(s % 16 == q % 16 && s / 16 == a + v * pow16(rest)) by (nonlinear_arith)
            requires
                s == 16 * (a + v * pow16(rest)) + q % 16,
                q % 16 < 16,
        ;
        assert(s != 0);
        assert(slots(s) == seq![s % 16] + slots(s / 16));
        assert(slots(s / 16) == slots(a) + slots(v));
        assert(slots(q) + slots(v) =~= seq![q % 16] + (slots(a) + slots(v)));
    }
}

/// A FIFO value holds at most `m` ids exactly when it is below `16^m`.
pub proof fn lemma_slots_fit(q: nat, m: nat)
    ensures
        slots(q).len() <= m <==> q < pow16(m),
{
    if q < pow16(m) {
        lemma_slots_len_bound(q, m);
    }
    if slots(q).len() <= m {
        lemma_slots_value_bound(q);
        lemma_pow16_monotone(slots(q).len(), m);
    }
}

/// The FIFO value holds no slot outside `1..=n` (in particular no empty
/// slot between two ids).
pub open spec fn slots_within(q: nat, n: nat) -> bool {
    forall|i: int| 0 <= i < slots(q).len() ==> 1 <= #[trigger] slots(q)[i] <= n
}

/// Whether every id of a FIFO value lies in `1..=n`.
pub fn fifo_within(q: u64, n: u64) -> (r: bool)
    ensures
        r == slots_within(q as nat, n as nat),
{
    let mut t: u64 = q;
    let ghost mut k: int = 0;
    while t != 0
        invariant
            0 <= k <= slots(q as nat).len(),
            slots(t as nat) == slots(q as nat).subrange(k, slots(q as nat).len() as int),
            forall|i: int| 0 <= i < k ==> 1 <= #[trigger] slots(q as nat)[i] <= n,
        decreases t,
    {
        let ghost s = slots(q as nat);
        assert(slots(t as nat) == seq![(t as nat) % 16] + slots((t / 16) as nat));
        assert(slots(t as nat).len() > 0);
        assert(k < s.len());
        assert(s[k] == slots(t as nat)[0]);
        let slot = t % SLOT_RANGE;
        if slot == 0 || slot > n {
            return false;
        }
        proof {
            assert(slots((t / 16) as nat) =~= slots(t as nat).drop_first());
            assert(s.subrange(k, s.len() as int).drop_first() =~= s.subrange(k + 1, s.len() as int));
        }
        t = t / SLOT_RANGE;
        proof {
            k = k + 1;
        }
    }
    true
}

/// The slots of a two-id value, lower id first.
pub proof fn lemma_slots_pair(first: nat, second: nat)
    requires
        1 <= first < 16,
        second < 16,
    ensures
        slots(first * 16 + second) == seq![second, first],
{
    let v = first * 16 + second;
    assert(v % 16 == second && v / 16 == first);
    assert(first / 16 == 0 && first % 16 == first);
    assert(slots(0) =~= Seq::<nat>::empty());
    assert(slots(first) =~= seq![first]);
    assert(slots(v) =~= seq![second] + seq![first]);
}

/// Encoding a word and reading its fields back gives the fields; the
/// encoding is the stop sentinel only when every field is at its maximum.
pub proof fn lemma_word_fields(done: nat, broker: nat, queue: nat)
    requires
        done < COUNT_RANGE,
        broker < SLOT_RANGE,
        queue < QUEUE_RANGE,
    ensures
        word_of(done, broker, queue) <= STOPPED,
        word_of(done, broker, queue) == STOPPED <==> (done == COUNT_RANGE - 1 && broker
            == SLOT_RANGE - 1 && queue == QUEUE_RANGE - 1),
        done_of(word_of(done, broker, queue) as u64) == done,
        broker_of(word_of(done, broker, queue) as u64) == broker,
        queue_of(word_of(done, broker, queue) as u64) == queue,
{
    let w = word_of(done, broker, queue);
    assert(w <= 0xFFFF_FFFF_FFFF_FFFF) by (nonlinear_arith)
        requires
            w == done + broker * 0x100_0000 + queue * 0x1000_0000,
            done < 0x100_0000,
            broker < 16,
            queue < 0x10_0000_0000,
    ;
    assert(w == 0xFFFF_FFFF_FFFF_FFFF ==> (done == 0xFF_FFFF && broker == 15 && queue
        == 0xF_FFFF_FFFF)) by (nonlinear_arith)
        requires
            w == done + broker * 0x100_0000 + queue * 0x1000_0000,
            done < 0x100_0000,
            broker < 16,
            queue < 0x10_0000_0000,
    ;
    assert(w % 0x100_0000 == done && (w / 0x100_0000) % 16 == broker && w / 0x1000_0000 == queue)
        by (nonlinear_arith)
        requires
            w == done + broker * 0x100_0000 + queue * 0x1000_0000,
            done < 0x100_0000,
            broker < 16,
    ;
}

/// Every word other than the sentinel is the encoding of its own fields.
pub proof fn lemma_word_split(w: u64)
    ensures
        w as nat == word_of(done_of(w), broker_of(w), queue_of(w)),
        done_of(w) < COUNT_RANGE,
        broker_of(w) < SLOT_RANGE,
        queue_of(w) < QUEUE_RANGE,
{
    let x = w as nat;
    assert(x == (x % 0x100_0000) + ((x / 0x100_0000) % 16) * 0x100_0000 + (x / 0x1000_0000)
        * 0x1000_0000 && x / 0x1000_0000 < 0x10_0000_0000) by (nonlinear_arith)
        requires
            x < 0x1_0000_0000_0000_0000,
    ;
}

/// Builds a word from its three fields. Every field value in range has an
/// encoding, and decoding gives the fields back (see `lemma_word_split` for
/// the other direction).
pub fn encode(done: u64, broker: u64, queue: u64) -> (w: u64)
    requires
        done < COUNT_RANGE,
        broker < SLOT_RANGE,
        queue < QUEUE_RANGE,
    ensures
        w as nat == word_of(done as nat, broker as nat, queue as nat),
        w == STOPPED <==> (done == COUNT_RANGE - 1 && broker == SLOT_RANGE - 1 && queue
            == QUEUE_RANGE - 1),
        done_of(w) == done,
        broker_of(w) == broker,
        queue_of(w) == queue,
{
    proof {
        lemma_word_fields(done as nat, broker as nat, queue as nat);
    }
    done + broker * COUNT_RANGE + queue * HEAD_RANGE
}

/// The number of ids a FIFO value holds.
pub fn slot_count(q: u64) -> (k: u64)
    ensures
        k == slots(q as nat).len(),
        k <= 16,
{
    proof {
        reveal_with_fuel(pow16, 17);
        assert(pow16(16) == 0x1_0000_0000_0000_0000);
        lemma_slots_len_bound(q as nat, 16);
    }
    let mut t: u64 = q;
    let mut k: u64 = 0;
    while t != 0
        invariant
            k + slots(t as nat).len() == slots(q as nat).len(),
            slots(q as nat).len() <= 16,
        decreases t,
    {
        assert(slots(t as nat) == seq![(t as nat) % 16] + slots((t / 16) as nat));
        t = t / SLOT_RANGE;
        k = k + 1;
    }
    k
}

/// The local copy of a queue word on which a worker decides: fields are
/// taken from its low end, and ids put at the back of its FIFO.
pub struct TransactionalQueue {
    pub set_state: u64,
}

impl TransactionalQueue {
    /// Takes the meetings counter off the low end of the copy.
    pub fn take_count(&mut self) -> (r: u64)
        ensures
            r == old(self).set_state % COUNT_RANGE,
            final(self).set_state == old(self).set_state / COUNT_RANGE,
    {
        let ret = self.set_state % COUNT_RANGE;
        self.set_state = self.set_state / COUNT_RANGE;
        ret
    }

    /// Takes the front id off the copy; 0 when the copy holds none.
    pub fn take(&mut self) -> (r: Chameneos)
        ensures
            r.idx == old(self).set_state % SLOT_RANGE,
            final(self).set_state == old(self).set_state / SLOT_RANGE,
            old(self).set_state == 0 ==> r.idx == 0 && final(self).set_state == 0,
            old(self).set_state != 0 ==> r.idx == slots(old(self).set_state as nat)[0] && slots(
                final(self).set_state as nat,
            ) == slots(old(self).set_state as nat).drop_first(),
            bag(slots(old(self).set_state as nat)) =~= bag(seq![r.idx as nat]).add(
                bag(slots(final(self).set_state as nat)),
            ),
    {
        proof {
            lemma_bag_take(self.set_state as nat);
            let q = self.set_state as nat;
            if q != 0 {
                assert(slots(q) == seq![q % 16] + slots(q / 16));
                assert(slots(q).drop_first() =~= slots(q / 16));
            }
        }
        let ret = self.set_state % SLOT_RANGE;
        self.set_state = self.set_state / SLOT_RANGE;
        Chameneos { idx: ret }
    }

    /// Puts two ids at the back of the FIFO, `second` before `first`.
    pub fn put(&mut self, first: Chameneos, second: Chameneos)
        requires
            1 <= first.idx < 16,
            1 <= second.idx < 16,
            slots(old(self).set_state as nat).len() <= 14,
        ensures
            slots(final(self).set_state as nat) == slots(old(self).set_state as nat) + seq![
                second.idx as nat,
                first.idx as nat,
            ],
            bag(slots(final(self).set_state as nat)) =~= bag(slots(old(self).set_state as nat)).add(
                bag(seq![second.idx as nat, first.idx as nat]),
            ),
    {
        let used = slot_count(self.set_state);
        let ghost q = self.set_state as nat;
        let pair: u64 = first.idx * SLOT_RANGE + second.idx;
        let mut shifted: u64 = pair;
        let mut i: u64 = 0;
        proof {
            lemma_slots_value_bound(q);
            lemma_pow16_monotone(used as nat, 14);
            reveal_with_fuel(pow16, 15);
            assert(pow16(14) == 0x100_0000_0000_0000);
            assert(pow16(0) == 1);
            assert(pair as nat * pow16(0) == pair as nat);
        }
        while i < used
            invariant
                i <= used <= 14,
                shifted as nat == pair as nat * pow16(i as nat),
                pair < 256,
                pow16(14) == 0x100_0000_0000_0000,
            decreases used - i,
        {
            proof {
                lemma_pow16_monotone((i + 1) as nat, 14);
                assert(pair as nat * pow16((i + 1) as nat) < 256 * 0x100_0000_0000_0000) by (
                nonlinear_arith)
                    requires
                        pair < 256,
                        pow16((i + 1) as nat) <= 0x100_0000_0000_0000,
                ;
                assert(pow16((i + 1) as nat) == 16 * pow16(i as nat));
                assert(pair as nat * pow16((i + 1) as nat) == shifted as nat * 16) by (
                nonlinear_arith)
                    requires
                        shifted as nat == pair as nat * pow16(i as nat),
                        pow16((i + 1) as nat) == 16 * pow16(i as nat),
                ;
            }
            shifted = shifted * SLOT_RANGE;
            i = i + 1;
        }
        proof {
            assert(q + shifted < 0x1_0000_0000_0000_0000) by (nonlinear_arith)
                requires
                    q < pow16(used as nat),
                    pow16(used as nat) <= 0x100_0000_0000_0000,
                    shifted as nat == pair as nat * pow16(used as nat),
                    pair < 256,
            ;
            lemma_slots_append(q, pair as nat);
            lemma_slots_pair(first.idx as nat, second.idx as nat);
            lemma_bag_concat(slots(q), slots(pair as nat));
        }
        self.set_state = self.set_state + shifted;
    }
}

/// The actor ids of a sequence of slots, as a multiset; 0 stands for no
/// actor and is left out.
pub open spec fn bag(s: Seq<nat>) -> Multiset<nat>
    decreases s.len(),
{
    if s.len() == 0 {
        Multiset::empty()
    } else if s[0] == 0 {
        bag(s.drop_first())
    } else {
        bag(s.drop_first()).insert(s[0])
    }
}

pub proof fn lemma_bag_concat(a: Seq<nat>, b: Seq<nat>)
    ensures
        bag(a + b) =~= bag(a).add(bag(b)),
    decreases a.len(),
{
    if a.len() == 0 {
        assert(a + b =~= b);
    } else {
        assert((a + b).drop_first() =~= a.drop_first() + b);
        assert((a + b)[0] == a[0]);
        lemma_bag_concat(a.drop_first(), b);
    }
}

/// Taking the front slot of a FIFO value splits its ids in two.
pub proof fn lemma_bag_take(q: nat)
    ensures
        bag(slots(q)) =~= bag(seq![q % 16]).add(bag(slots(q / 16))),
{
    if q == 0 {
        assert(bag(seq![0nat].drop_first()) =~= bag(Seq::<nat>::empty()));
        assert(slots(0) =~= Seq::<nat>::empty());
    } else {
        lemma_bag_concat(seq![q % 16], slots(q / 16));
    }
}

} // verus!
