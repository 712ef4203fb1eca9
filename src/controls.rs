use vstd::prelude::*;
use std::collections::BTreeSet;
use crate::constants::{CURSOR_H, CURSOR_Y, RING_UNITS, TARGET_TICK_MICROS};
use vstd::arithmetic::div_mod::{
    lemma_add_mod_noop, lemma_mod_multiples_vanish, lemma_mod_pos_bound, lemma_small_mod,
    lemma_sub_mod_noop,
};
use crate::model::{
    in_slot, slot_first_position, slot_index_at, slot_last_position, GameState, GameView,
    SlotView,
};

verus! {

broadcast use vstd::std_specs::btree::group_btree_axioms, vstd::laws_cmp::group_laws_cmp;

/// Key code that moves the cursor to the left.
pub const LEFT_KEY: u32 = 105;

/// Key code that moves the cursor to the right.
pub const RIGHT_KEY: u32 = 106;

/// Radial coordinate of the cursor's leading edge.
pub const CURSOR_TIP: u64 = CURSOR_Y + CURSOR_H;

/// Distance in ring units that the player covers at `speed` (ring units per
/// reference tick) in `delta` microseconds.
pub open spec fn move_distance(speed: nat, delta: nat) -> nat {
    speed * delta / (TARGET_TICK_MICROS as nat)
}

/// The position reached from `pos` after moving `dist` to the right (or to
/// the left), wrapped into `[0, RING_UNITS)`.
pub open spec fn wrap_move(pos: nat, dist: nat, right: bool) -> nat {
    if right {
        ((pos + dist) as int % (RING_UNITS as int)) as nat
    } else {
        ((pos - dist) as int % (RING_UNITS as int)) as nat
    }
}

/// A move by `dist % RING_UNITS` followed by a single wrap step (subtract
/// or add one ring) lands where the wrapped move by `dist` does.
pub proof fn lemma_single_wrap(pos: nat, dist: nat)
    requires
        pos < RING_UNITS,
    ensures
        pos + dist % (RING_UNITS as nat) >= RING_UNITS ==> wrap_move(pos, dist, true)
            == pos + dist % (RING_UNITS as nat) - RING_UNITS,
        pos + dist % (RING_UNITS as nat) < RING_UNITS ==> wrap_move(pos, dist, true)
            == pos + dist % (RING_UNITS as nat),
        pos >= dist % (RING_UNITS as nat) ==> wrap_move(pos, dist, false)
            == pos - dist % (RING_UNITS as nat),
        pos < dist % (RING_UNITS as nat) ==> wrap_move(pos, dist, false)
            == pos + RING_UNITS - dist % (RING_UNITS as nat),
{
    let r = RING_UNITS as int;
    lemma_small_mod(pos, RING_UNITS as nat);
    lemma_add_mod_noop(pos as int, dist as int, r);
    lemma_sub_mod_noop(pos as int, dist as int, r);
    lemma_mod_pos_bound(dist as int, r);
    let d = dist as int % r;
    if pos + d >= r {
        lemma_mod_multiples_vanish(1, pos + d - r, r);
        lemma_small_mod((pos + d - r) as nat, RING_UNITS as nat);
    } else {
        lemma_small_mod((pos + d) as nat, RING_UNITS as nat);
    }
    if pos >= d {
        lemma_small_mod((pos - d) as nat, RING_UNITS as nat);
    } else {
        lemma_mod_multiples_vanish(-1, pos - d + r, r);
        lemma_small_mod((pos - d + r) as nat, RING_UNITS as nat);
    }
}

/// Whether an obstacle of the slot covers the radial coordinate `y`.
pub open spec fn slot_blocks(slot: SlotView, y: nat) -> bool {
    exists|i: int| 0 <= i < slot.obstacles.len() && #[trigger] slot.obstacles[i].covers(y)
}

/// Whether the held keys ask for a move: exactly one of left and right.
pub open spec fn wants_move(keys: Set<u32>) -> bool {
    keys.contains(LEFT_KEY) != keys.contains(RIGHT_KEY)
}

/// The position the player tries to reach in one tick.
pub open spec fn candidate_position(g: GameView, keys: Set<u32>, delta: nat) -> nat {
    wrap_move(g.position, move_distance(g.player_speed, delta), keys.contains(RIGHT_KEY))
}

/// Whether the slot the player tries to reach holds an obstacle at the
/// cursor's leading edge.
pub open spec fn move_blocked(g: GameView, keys: Set<u32>, delta: nat) -> bool {
    slot_blocks(g.slots[slot_index_at(g.slots, candidate_position(g, keys, delta))], CURSOR_TIP as nat)
}

/// The player's position after one tick with the given held keys.
pub open spec fn next_position(g: GameView, keys: Set<u32>, delta: nat) -> nat {
    if !g.running || !wants_move(keys) {
        g.position
    } else if move_blocked(g, keys, delta) {
        if keys.contains(RIGHT_KEY) {
            slot_last_position(g.slots, g.current_slot())
        } else {
            slot_first_position(g.slots, g.current_slot())
        }
    } else {
        candidate_position(g, keys, delta)
    }
}

/// The keyboard state that drives the player.
pub struct Controls {
    /// All keys that are currently pressed
    its_keys: BTreeSet<u32>,
    /// Keys that have been pressed since the previous tick
    its_new_keys: BTreeSet<u32>,
}

impl Controls {
    /// The keys currently held down.
    pub closed spec fn held_keys(&self) -> Set<u32> {
        self.its_keys@
    }

    /// The keys pressed since the previous tick.
    pub closed spec fn new_keys(&self) -> Set<u32> {
        self.its_new_keys@
    }

    pub fn new() -> (r: Controls)
        ensures
            r.held_keys() == Set::<u32>::empty(),
            r.new_keys() == Set::<u32>::empty(),
    {
        Controls { its_keys: BTreeSet::new(), its_new_keys: BTreeSet::new() }
    }

    pub fn key_pressed(&mut self, the_scancode: u32)
        ensures
            final(self).held_keys() == old(self).held_keys().insert(the_scancode),
            final(self).new_keys() == old(self).new_keys().insert(the_scancode),
    {
        self.its_keys.insert(the_scancode);
        self.its_new_keys.insert(the_scancode);
    }

    pub fn key_released(&mut self, the_scancode: u32)
        ensures
            final(self).held_keys() == old(self).held_keys().remove(the_scancode),
            final(self).new_keys() == old(self).new_keys(),
    {
        self.its_keys.remove(&the_scancode);
    }

    /// Whether the key is currently held down.
    pub fn is_held(&self, the_scancode: u32) -> (r: bool)
        ensures
            r == self.held_keys().contains(the_scancode),
    {
        self.its_keys.contains(&the_scancode)
    }

    /// Applies one tick of `the_delta_micros` microseconds: forgets the newly
    /// pressed keys and, if exactly one of left and right is held, moves the
    /// player unless the slot it would enter holds an obstacle at the
    /// cursor's leading edge; in that case the player is put at the edge of
    /// its current slot on the side it was moving to.
    pub fn tick(&mut self, the_game: &mut GameState, the_delta_micros: u64)
        requires
            old(the_game)@.wf(),
        ensures
            final(self).held_keys() == old(self).held_keys(),
            final(self).new_keys() == Set::<u32>::empty(),
            final(the_game)@.wf(),
            final(the_game)@ == (GameView {
                position: next_position(old(the_game)@, old(self).held_keys(), the_delta_micros as nat),
                ..old(the_game)@
            }),
            old(self).held_keys().contains(LEFT_KEY) && old(self).held_keys().contains(RIGHT_KEY)
                ==> final(the_game)@ == old(the_game)@,
            old(the_game)@.running && wants_move(old(self).held_keys())
                && move_blocked(old(the_game)@, old(self).held_keys(), the_delta_micros as nat)
                ==> in_slot(old(the_game)@.slots, final(the_game)@.position, old(the_game)@.current_slot()),
    {
        let ghost keys = self.held_keys();
        let ghost g = the_game@;
        self.its_new_keys.clear();
        if !the_game.is_running() {
            return;
        }
        let left = self.its_keys.contains(&LEFT_KEY);
        let right = self.its_keys.contains(&RIGHT_KEY);
        if left != right {
            let speed = the_game.get_player_speed();
            assert((speed as u128) * (the_delta_micros as u128) <= (u64::MAX as u128) * (u64::MAX as u128))
                by (nonlinear_arith);
            let wide: u128 = (speed as u128) * (the_delta_micros as u128) / (TARGET_TICK_MICROS as u128);
            let dist: u64 = (wide % (RING_UNITS as u128)) as u64;
            let pos = the_game.get_position();
            assert(wide == move_distance(g.player_speed, the_delta_micros as nat));
            proof {
                lemma_single_wrap(pos as nat, wide as nat);
            }
            let newpos: u64 = if right {
                let c = pos + dist;
                if c >= RING_UNITS {
                    c - RING_UNITS
                } else {
                    c
                }
            } else {
                if pos >= dist {
                    pos - dist
                } else {
                    pos + RING_UNITS - dist
                }
            };
            assert(newpos == candidate_position(g, keys, the_delta_micros as nat));
            let s = the_game.get_slot_idx_at_position(newpos);
            let slots = the_game.get_slots();
            let blocked = slots[s].blocks(CURSOR_TIP);
            assert(slots@[s as int]@ == g.slots[s as int]);
            let target: u64 = if blocked {
                let cur = the_game.get_current_slot_idx();
                if right {
                    the_game.get_slot_last_position(cur)
                } else {
                    the_game.get_slot_first_position(cur)
                }
            } else {
                newpos
            };
            the_game.set_position(target);
        }
    }
}

} // verus!
