//! Sliding replay window of the data channel.
//!
//! Inbound data packets carry an increasing 32-bit id. Once a packet is
//! authenticated its id goes through this window: replayed packets are
//! rejected, and packets out of order by less than `WINDOW_SIZE` are accepted.

use vstd::prelude::*;

verus! {

/// Number of past packet ids that the window tracks.
pub const WINDOW_SIZE: u32 = 64;

/// A replay window.
#[derive(Debug, Clone)]
pub struct ReplayWindow {
    /// Highest id accepted so far.
    highest: u32,
    /// Bit `n` stands for the id `highest - n`.
    bitmap: u64,
}

/// What a [`ReplayWindow`] remembers.
#[verifier::ext_equal]
pub ghost struct WindowView {
    /// The highest id accepted so far; 0 before the first one.
    pub highest: u32,
    /// The accepted ids that are no more than `WINDOW_SIZE - 1` behind it.
    pub seen: Set<int>,
}

/// Whether bit `n` of `bits` is set.
pub open spec fn bit(bits: u64, n: int) -> bool {
    (bits >> (n as u64)) & 1 == 1
}

impl WindowView {
    /// The window before any packet.
    pub open spec fn fresh() -> WindowView {
        WindowView { highest: 0, seen: Set::empty() }
    }

    /// Whether `id` is acceptable: not the reserved id, not too old, not seen.
    pub open spec fn accepts(self, id: u32) -> bool {
        id != 0 && self.highest - id < WINDOW_SIZE && !self.seen.contains(id as int)
    }

    /// The window after `id` was offered.
    pub open spec fn after(self, id: u32) -> WindowView {
        if !self.accepts(id) {
            self
        } else {
            let highest = if id > self.highest {
                id
            } else {
                self.highest
            };
            WindowView {
                highest,
                seen: self.seen.insert(id as int).filter(|i: int| highest - i < WINDOW_SIZE),
            }
        }
    }

    /// The window after all of `ids` were offered in turn.
    pub open spec fn after_all(self, ids: Seq<u32>) -> WindowView
        decreases ids.len(),
    {
        if ids.len() == 0 {
            self
        } else {
            self.after_all(ids.drop_last()).after(ids.last())
        }
    }

    /// Nothing is remembered that is reserved, too old or above the highest id.
    pub open spec fn well_formed(self) -> bool {
        forall|i: int| #[trigger]
            self.seen.contains(i) ==> 0 < i <= self.highest && self.highest - i < WINDOW_SIZE
    }
}

impl View for ReplayWindow {
    type V = WindowView;

    closed spec fn view(&self) -> WindowView {
        WindowView {
            highest: self.highest,
            seen: Set::new(
                |i: int|
                    0 < i <= self.highest && self.highest - i < WINDOW_SIZE && bit(
                        self.bitmap,
                        self.highest - i,
                    ),
            ),
        }
    }
}

impl Default for ReplayWindow {
    fn default() -> (w: Self)
        ensures
            w@ == WindowView::fresh(),
    {
        ReplayWindow::new()
    }
}

impl ReplayWindow {
    /// A window that has seen no packet.
    pub fn new() -> (w: Self)
        ensures
            w@ == WindowView::fresh(),
    {
        let w = ReplayWindow { highest: 0, bitmap: 0 };
        assert(w@.seen =~= Set::<int>::empty());
        w
    }

    /// Whether the packet is acceptable; if so it is recorded as seen.
    /// The answer is `false` for the reserved id 0, for duplicates within the
    /// window, and for ids older than the window.
    pub fn check_and_set(&mut self, packet_id: u32) -> (accepted: bool)
        ensures
            accepted == old(self)@.accepts(packet_id),
            final(self)@ == old(self)@.after(packet_id),
    {
        if packet_id == 0 {
            return false;
        }
        if packet_id > self.highest {
            let shift: u32 = packet_id - self.highest;
            let before: u64 = self.bitmap;
            self.bitmap = if shift >= 64 {
                1
            } else {
                (self.bitmap << shift) | 1
            };
            self.highest = packet_id;
            proof {
                let now = self.bitmap;
                let was = old(self)@;
                assert forall|i: int| self@.seen.contains(i) <==> was.after(
                    packet_id,
                ).seen.contains(i) by {
                    if 0 < i <= packet_id && packet_id - i < 64 {
                        let d = (packet_id - i) as u64;
                        let s = shift as u64;
                        if shift >= 64 {
                            lemma_one(d);
                        } else {
                            lemma_shifted(before, s, d);
                            if d >= s {
                                assert(was.highest - i == d - s);
                            }
                        }
                    }
                }
                assert(self@.seen =~= was.after(packet_id).seen);
            }
            true
        } else {
            let diff: u32 = self.highest - packet_id;
            if diff >= WINDOW_SIZE {
                return false;
            }
            let mask: u64 = 1u64 << diff;
            let before: u64 = self.bitmap;
            proof {
                lemma_mask(before, diff as u64);
            }
            if before & mask != 0 {
                false
            } else {
                self.bitmap = before | mask;
                proof {
                    let was = old(self)@;
                    assert forall|i: int| self@.seen.contains(i) <==> was.after(
                        packet_id,
                    ).seen.contains(i) by {
                        if 0 < i <= self.highest && self.highest - i < 64 {
                            lemma_marked(before, diff as u64, (self.highest - i) as u64);
                        }
                    }
                    assert(self@.seen =~= was.after(packet_id).seen);
                }
                true
            }
        }
    }
}

proof fn lemma_one(d: u64)
    requires
        d < 64,
    ensures
        bit(1, d as int) <==> d == 0,
{
    assert(d < 64 ==> ((1u64 >> d) & 1 == 1 <==> d == 0)) by (bit_vector);
}

proof fn lemma_shifted(bits: u64, s: u64, d: u64)
    requires
        0 < s < 64,
        d < 64,
    ensures
        bit((bits << s) | 1, d as int) <==> d == 0 || (d >= s && bit(bits, d - s)),
{
    if d >= s {
        let e = (d - s) as u64;
        assert(0 < s && s < 64 && d < 64 && d >= s && e == d - s ==> ((((bits << s) | 1) >> d) & 1
            == 1 <==> (bits >> e) & 1 == 1)) by (bit_vector);
    } else {
        assert(0 < s && s < 64 && d < s ==> ((((bits << s) | 1) >> d) & 1 == 1 <==> d == 0))
            by (bit_vector);
    }
}

proof fn lemma_mask(bits: u64, d: u64)
    requires
        d < 64,
    ensures
        bits & (1u64 << d) != 0 <==> bit(bits, d as int),
{
    assert(d < 64 ==> (bits & (1u64 << d) != 0 <==> (bits >> d) & 1 == 1)) by (bit_vector);
}

proof fn lemma_marked(bits: u64, d: u64, e: u64)
    requires
        d < 64,
        e < 64,
    ensures
        bit(bits | (1u64 << d), e as int) <==> e == d || bit(bits, e as int),
{
    assert(d < 64 && e < 64 ==> (((bits | (1u64 << d)) >> e) & 1 == 1 <==> e == d || (bits >> e) & 1
        == 1)) by (bit_vector);
}

/// Offering ids in any order keeps the window well-formed, and its highest id
/// never goes down.
pub proof fn law_window_invariant(w: WindowView, ids: Seq<u32>)
    requires
        w.well_formed(),
    ensures
        w.after_all(ids).well_formed(),
        w.after_all(ids).highest >= w.highest,
    decreases ids.len(),
{
    if ids.len() > 0 {
        law_window_invariant(w, ids.drop_last());
    }
}

/// An accepted id is either remembered or too old, and stays so.
proof fn lemma_spent(w: WindowView, ids: Seq<u32>, id: u32)
    requires
        w.well_formed(),
        !w.accepts(id),
    ensures
        !w.after_all(ids).accepts(id),
    decreases ids.len(),
{
    if ids.len() > 0 {
        lemma_spent(w, ids.drop_last(), id);
        law_window_invariant(w, ids.drop_last());
    }
}

/// No id is accepted twice: once an id was offered, it is refused for ever,
/// whatever is offered in between.
pub proof fn law_no_replay(w: WindowView, id: u32, between: Seq<u32>)
    requires
        w.well_formed(),
    ensures
        !w.after(id).after_all(between).accepts(id),
{
    assert(seq![id].drop_last() =~= Seq::<u32>::empty());
    reveal_with_fuel(WindowView::after_all, 2);
    law_window_invariant(w, seq![id]);
    assert(w.after_all(seq![id]) == w.after(id));
    lemma_spent(w.after(id), between, id);
}

/// The reserved id 0 is never accepted, and an id above every id seen so far
/// always is.
pub proof fn law_new_ids_pass(w: WindowView, id: u32)
    requires
        w.well_formed(),
    ensures
        !w.accepts(0),
        id > w.highest ==> w.accepts(id),
{
}

/// Delivery out of order is harmless within the window: an id that was never
/// offered is accepted as long as it is less than `WINDOW_SIZE` behind.
pub proof fn law_late_ids_pass(ids: Seq<u32>, id: u32)
    requires
        id != 0,
        !ids.contains(id),
        WindowView::fresh().after_all(ids).highest - id < WINDOW_SIZE,
    ensures
        WindowView::fresh().after_all(ids).accepts(id),
{
    lemma_seen_was_offered(ids, id);
}

/// Only ids that were offered are remembered.
proof fn lemma_seen_was_offered(ids: Seq<u32>, id: u32)
    ensures
        WindowView::fresh().after_all(ids).seen.contains(id as int) ==> ids.contains(id),
    decreases ids.len(),
{
    if ids.len() > 0 {
        lemma_seen_was_offered(ids.drop_last(), id);
        if ids.drop_last().contains(id) {
            let k = choose|k: int| 0 <= k < ids.len() - 1 && ids.drop_last()[k] == id;
            assert(ids[k] == id);
        }
        assert(ids[ids.len() - 1] == ids.last());
    }
}

/// What a window accepts, in terms of what was offered to it: every id but 0
/// that was not offered before and is less than 64 behind the highest one that
/// was. Order, gaps and repetitions make no other difference.
pub proof fn law_window_by_history(ids: Seq<u32>, id: u32)
    ensures
        WindowView::fresh().after_all(ids).accepts(id) <==> id != 0 && !ids.contains(id) && forall|
            j: int,
        |
            0 <= j < ids.len() ==> #[trigger] ids[j] < id + 64,
{
    lemma_highest(ids);
    let w = WindowView::fresh().after_all(ids);
    if w.accepts(id) {
        if ids.contains(id) {
            let k = choose|k: int| 0 <= k < ids.len() && ids[k] == id;
            lemma_offered_is_spent(ids, k);
        }
    } else if id != 0 && !ids.contains(id) {
        lemma_seen_was_offered(ids, id);
        assert(w.highest - id >= 64);
        let k = choose|k: int| 0 <= k < ids.len() && ids[k] == w.highest;
        assert(ids[k] >= id + 64);
    }
}

/// The highest id of a window is the highest that was offered.
proof fn lemma_highest(ids: Seq<u32>)
    ensures
        forall|j: int|
            0 <= j < ids.len() ==> #[trigger] ids[j] <= WindowView::fresh().after_all(ids).highest,
        WindowView::fresh().after_all(ids).highest > 0 ==> ids.contains(
            WindowView::fresh().after_all(ids).highest,
        ),
    decreases ids.len(),
{
    let w = WindowView::fresh().after_all(ids);
    if ids.len() > 0 {
        let init = ids.drop_last();
        let v = WindowView::fresh().after_all(init);
        let last = ids.last();
        lemma_highest(init);
        assert(WindowView::fresh().well_formed());
        law_window_invariant(WindowView::fresh(), init);
        assert(w == v.after(last));
        assert(w.highest >= v.highest && w.highest >= last);
        assert forall|j: int| 0 <= j < ids.len() implies #[trigger] ids[j] <= w.highest by {
            if j < init.len() {
                assert(init[j] == ids[j]);
            }
        }
        if w.highest > 0 {
            if w.highest == last {
                assert(ids[ids.len() - 1] == w.highest);
            } else {
                let k = choose|k: int| 0 <= k < init.len() && init[k] == v.highest;
                assert(ids[k] == w.highest);
            }
        }
    }
}

/// An id that was offered is not accepted again.
proof fn lemma_offered_is_spent(ids: Seq<u32>, k: int)
    requires
        0 <= k < ids.len(),
    ensures
        !WindowView::fresh().after_all(ids).accepts(ids[k]),
    decreases ids.len(),
{
    let init = ids.drop_last();
    let v = WindowView::fresh().after_all(init);
    assert(WindowView::fresh().well_formed());
    law_window_invariant(WindowView::fresh(), init);
    if k < init.len() {
        lemma_offered_is_spent(init, k);
        assert(init[k] == ids[k]);
        lemma_spent(v, seq![ids.last()], ids[k]);
        assert(seq![ids.last()].drop_last() =~= Seq::<u32>::empty());
        reveal_with_fuel(WindowView::after_all, 2);
    } else {
        law_no_replay(v, ids[k], Seq::empty());
    }
}

} // verus!
