use vstd::prelude::*;
use vstd::arithmetic::div_mod::{
    lemma_add_mod_noop, lemma_add_mod_noop_right, lemma_fundamental_div_mod, lemma_mod_pos_bound,
    lemma_small_mod,
};
use crate::constants::{RING_UNITS, SLOT_COUNT};
use crate::controls::wrap_move;
use crate::model::{
    in_slot, lemma_in_slot_unique, lemma_slot_index_at, prefix_width, slot_index_at, slots_wf,
    SlotView,
};

verus! {

/// The position reached from `pos` after `n` moves by `dist` in one direction.
pub open spec fn repeat_move(pos: nat, dist: nat, right: bool, n: nat) -> nat
    decreases n,
{
    if n == 0 {
        pos
    } else {
        wrap_move(repeat_move(pos, dist, right, (n - 1) as nat), dist, right)
    }
}

/// `n` wrapped moves by `dist` land where one move by `n * dist` does.
pub proof fn lemma_repeat_move(pos: nat, dist: nat, right: bool, n: nat)
    requires
        pos < RING_UNITS,
    ensures
        right ==> repeat_move(pos, dist, right, n) == (pos + n * dist) as int % (RING_UNITS as int),
        !right ==> repeat_move(pos, dist, right, n) == (pos - n * dist) as int % (RING_UNITS as int),
    decreases n,
{
    let r = RING_UNITS as int;
    if n == 0 {
        lemma_small_mod(pos, RING_UNITS as nat);
    } else {
        lemma_repeat_move(pos, dist, right, (n - 1) as nat);
        let m = (n - 1) as nat;
        assert(m * dist + dist == n * dist) by (nonlinear_arith)
            requires
                m + 1 == n,
        ;
        if right {
            lemma_add_mod_noop_right(dist as int, (pos + m * dist) as int, r);
        } else {
            lemma_add_mod_noop_right(-(dist as int), (pos - m * dist) as int, r);
        }
    }
}

/// Wraparound: a wrapped move from a position of the ring stays on the ring,
/// and moving `n` times by `dist` in one direction, where `n * dist` is a
/// whole number of turns, comes back to the starting position.
pub proof fn law_wraparound(pos: nat, dist: nat, right: bool, n: nat)
    requires
        pos < RING_UNITS,
        (n * dist) as int % (RING_UNITS as int) == 0,
    ensures
        wrap_move(pos, dist, right) < RING_UNITS,
        repeat_move(pos, dist, right, n) == pos,
{
    let r = RING_UNITS as int;
    let nd = (n * dist) as int;
    vstd::arithmetic::div_mod::lemma_mod_bound((pos + dist) as int, r);
    vstd::arithmetic::div_mod::lemma_mod_bound((pos - dist) as int, r);
    lemma_repeat_move(pos, dist, right, n);
    lemma_small_mod(pos, RING_UNITS as nat);
    lemma_add_mod_noop(pos as int, nd, r);
    lemma_add_mod_noop(pos as int, -nd, r);
    assert((-nd) % r == 0) by {
        lemma_fundamental_div_mod(nd, r);
        let k = nd / r;
        assert(-nd == r * (-k) + 0) by (nonlinear_arith)
            requires
                nd == r * k + nd % r,
                nd % r == 0,
        ;
        vstd::arithmetic::div_mod::lemma_mod_multiples_vanish(-k, 0, r);
    }
}

/// Every position of the ring belongs to exactly one slot, the one that the
/// lookup finds.
pub proof fn law_slot_lookup_unique(slots: Seq<SlotView>, pos: nat)
    requires
        slots_wf(slots),
        pos < RING_UNITS,
    ensures
        0 <= slot_index_at(slots, pos) < SLOT_COUNT,
        in_slot(slots, pos, slot_index_at(slots, pos)),
        forall|s: int| #[trigger] in_slot(slots, pos, s) ==> s == slot_index_at(slots, pos),
{
    lemma_slot_index_at(slots, pos);
    assert forall|s: int| #[trigger] in_slot(slots, pos, s) implies s == slot_index_at(slots, pos) by {
        lemma_in_slot_unique(slots, pos, s, slot_index_at(slots, pos));
    }
}

proof fn lemma_unit_prefix(slots: Seq<SlotView>, k: int)
    requires
        0 <= k <= slots.len(),
        forall|i: int| 0 <= i < slots.len() ==> #[trigger] slots[i].width == 1,
    ensures
        prefix_width(slots, k) == k,
    decreases k,
{
    if k > 0 {
        lemma_unit_prefix(slots, k - 1);
    }
}

/// On a ring of six slots of width one, the position `pos` (standing for
/// `pos / RING_UNITS` of a turn) lies in slot `floor(6 * pos / RING_UNITS)`.
pub proof fn law_unit_slot_lookup(slots: Seq<SlotView>, pos: nat)
    requires
        slots.len() == SLOT_COUNT,
        forall|i: int| 0 <= i < slots.len() ==> #[trigger] slots[i].width == 1,
        pos < RING_UNITS,
    ensures
        slot_index_at(slots, pos) == (pos * SLOT_COUNT) / (RING_UNITS as int),
{
    assert(slots_wf(slots));
    let r = RING_UNITS as int;
    let x = pos * SLOT_COUNT;
    let q = x / r;
    lemma_fundamental_div_mod(x, r);
    lemma_mod_pos_bound(x, r);
    lemma_unit_prefix(slots, SLOT_COUNT as int);
    assert(0 <= q < SLOT_COUNT);
    lemma_unit_prefix(slots, q);
    lemma_unit_prefix(slots, q + 1);
    assert(in_slot(slots, pos, q));
    law_slot_lookup_unique(slots, pos);
}

} // verus!
