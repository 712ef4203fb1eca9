use vstd::prelude::*;
use vstd::arithmetic::div_mod::{lemma_fundamental_div_mod, lemma_mod_pos_bound};
use crate::constants::{
    DEFAULT_OBSTACLE_SPEED, DEFAULT_PLAYER_SPEED, DEFAULT_POSITION, MAX_SLOT_WIDTH, RING_UNITS,
    SLOT_COUNT,
};

verus! {

/// What an obstacle is: the radial interval `[distance, distance + height)`.
pub struct ObstacleView {
    pub distance: nat,
    pub height: nat,
}

impl ObstacleView {
    /// Whether the radial coordinate `y` lies inside the obstacle.
    pub open spec fn covers(self, y: nat) -> bool {
        self.distance <= y && y < self.distance + self.height
    }
}

/// What a slot is: its relative width and its obstacles, in order.
pub struct SlotView {
    pub width: nat,
    pub obstacles: Seq<ObstacleView>,
}

/// What a game state is.
pub struct GameView {
    pub position: nat,
    pub player_speed: nat,
    pub obstacle_speed: nat,
    pub slots: Seq<SlotView>,
    pub running: bool,
}

/// Sum of the widths of the first `k` slots.
pub open spec fn prefix_width(slots: Seq<SlotView>, k: int) -> nat
    decreases k,
{
    if k <= 0 {
        0
    } else {
        prefix_width(slots, k - 1) + slots[k - 1].width
    }
}

/// Sum of the widths of all slots.
pub open spec fn width_sum(slots: Seq<SlotView>) -> nat {
    prefix_width(slots, slots.len() as int)
}

/// A ring of six slots, each of a width in `1..=MAX_SLOT_WIDTH`.
pub open spec fn slots_wf(slots: Seq<SlotView>) -> bool {
    &&& slots.len() == SLOT_COUNT
    &&& forall|i: int| 0 <= i < slots.len() ==> 1 <= #[trigger] slots[i].width <= MAX_SLOT_WIDTH
}

/// Slot `s` owns the position `pos`: the position, scaled to the ring's
/// width sum, lies in `[left boundary of s, right boundary of s)`.
/// Both sides are multiplied out so that no division is involved.
pub open spec fn in_slot(slots: Seq<SlotView>, pos: nat, s: int) -> bool {
    &&& 0 <= s < slots.len()
    &&& prefix_width(slots, s) * RING_UNITS <= pos * width_sum(slots)
    &&& pos * width_sum(slots) < prefix_width(slots, s + 1) * RING_UNITS
}

/// The first slot, from `k` on, whose right boundary lies beyond `target`
/// (a position scaled by the width sum), or `slots.len()` if there is none.
pub open spec fn find_slot(slots: Seq<SlotView>, target: nat, k: int) -> int
    decreases slots.len() - k,
{
    if k < 0 || k >= slots.len() {
        slots.len() as int
    } else if target < prefix_width(slots, k + 1) * RING_UNITS {
        k
    } else {
        find_slot(slots, target, k + 1)
    }
}

/// The slot that owns position `pos`: walk the slots in index order until a
/// right boundary exceeds the position.
pub open spec fn slot_index_at(slots: Seq<SlotView>, pos: nat) -> int {
    find_slot(slots, pos * width_sum(slots), 0)
}

/// The smallest position that slot `s` owns: its left boundary, rounded up.
pub open spec fn slot_first_position(slots: Seq<SlotView>, s: int) -> nat {
    ((prefix_width(slots, s) * RING_UNITS + width_sum(slots) - 1) / (width_sum(slots) as int)) as nat
}

/// The largest position that slot `s` owns: just inside its right boundary.
pub open spec fn slot_last_position(slots: Seq<SlotView>, s: int) -> nat {
    ((prefix_width(slots, s + 1) * RING_UNITS - 1) / (width_sum(slots) as int)) as nat
}

impl GameView {
    pub open spec fn wf(self) -> bool {
        &&& slots_wf(self.slots)
        &&& self.position < RING_UNITS
    }

    /// The slot the player is on.
    pub open spec fn current_slot(self) -> int {
        slot_index_at(self.slots, self.position)
    }
}

pub proof fn lemma_prefix_monotone(slots: Seq<SlotView>, i: int, j: int)
    requires
        slots_wf(slots),
        0 <= i <= j <= slots.len(),
    ensures
        prefix_width(slots, i) + (j - i) <= prefix_width(slots, j),
        prefix_width(slots, j) <= prefix_width(slots, i) + (j - i) * MAX_SLOT_WIDTH,
    decreases j - i,
{
    if i < j {
        lemma_prefix_monotone(slots, i, j - 1);
        assert(1 <= slots[j - 1].width <= MAX_SLOT_WIDTH);
    }
}

pub proof fn lemma_width_sum_bounds(slots: Seq<SlotView>)
    requires
        slots_wf(slots),
    ensures
        SLOT_COUNT <= width_sum(slots) <= SLOT_COUNT * MAX_SLOT_WIDTH,
{
    lemma_prefix_monotone(slots, 0, slots.len() as int);
}

/// Positions scaled by the width sum stay below the scaled ring size.
pub proof fn lemma_scaled_position(slots: Seq<SlotView>, pos: nat)
    requires
        slots_wf(slots),
        pos < RING_UNITS,
    ensures
        pos * width_sum(slots) < width_sum(slots) * RING_UNITS,
        pos * width_sum(slots) <= (RING_UNITS - 1) * (SLOT_COUNT * MAX_SLOT_WIDTH),
{
    lemma_width_sum_bounds(slots);
    let s = width_sum(slots);
    assert(pos * s < s * RING_UNITS) by (nonlinear_arith)
        requires
            pos < RING_UNITS,
            s > 0,
    ;
    assert(pos * s <= (RING_UNITS - 1) * (SLOT_COUNT * MAX_SLOT_WIDTH)) by (nonlinear_arith)
        requires
            pos <= RING_UNITS - 1,
            s <= SLOT_COUNT * MAX_SLOT_WIDTH,
    ;
}

pub proof fn lemma_find_slot(slots: Seq<SlotView>, target: nat, k: int)
    requires
        slots_wf(slots),
        0 <= k < slots.len(),
        prefix_width(slots, k) * RING_UNITS <= target,
        target < width_sum(slots) * RING_UNITS,
    ensures
        k <= find_slot(slots, target, k) < slots.len(),
        prefix_width(slots, find_slot(slots, target, k)) * RING_UNITS <= target,
        target < prefix_width(slots, find_slot(slots, target, k) + 1) * RING_UNITS,
    decreases slots.len() - k,
{
    if target >= prefix_width(slots, k + 1) * RING_UNITS {
        if k + 1 == slots.len() {
            assert(false);
        } else {
            lemma_find_slot(slots, target, k + 1);
        }
    }
}

/// The slot found for a position owns it.
pub proof fn lemma_slot_index_at(slots: Seq<SlotView>, pos: nat)
    requires
        slots_wf(slots),
        pos < RING_UNITS,
    ensures
        0 <= slot_index_at(slots, pos) < SLOT_COUNT,
        in_slot(slots, pos, slot_index_at(slots, pos)),
{
    lemma_scaled_position(slots, pos);
    lemma_find_slot(slots, pos * width_sum(slots), 0);
}

/// No position is owned by two slots.
pub proof fn lemma_in_slot_unique(slots: Seq<SlotView>, pos: nat, s1: int, s2: int)
    requires
        slots_wf(slots),
        in_slot(slots, pos, s1),
        in_slot(slots, pos, s2),
    ensures
        s1 == s2,
{
    if s1 < s2 {
        lemma_prefix_monotone(slots, s1 + 1, s2);
    } else if s2 < s1 {
        lemma_prefix_monotone(slots, s2 + 1, s1);
    }
}

/// The first and the last position of a slot both belong to that slot.
pub proof fn lemma_slot_edges(slots: Seq<SlotView>, s: int)
    requires
        slots_wf(slots),
        0 <= s < slots.len(),
    ensures
        in_slot(slots, slot_first_position(slots, s), s),
        in_slot(slots, slot_last_position(slots, s), s),
        slot_first_position(slots, s) < RING_UNITS,
        slot_last_position(slots, s) < RING_UNITS,
{
    lemma_width_sum_bounds(slots);
    lemma_prefix_monotone(slots, s + 1, slots.len() as int);
    let sum = width_sum(slots) as int;
    let p = prefix_width(slots, s) as int;
    let q = prefix_width(slots, s + 1) as int;
    let w = slots[s].width as int;
    assert(q == p + w);
    assert(w * RING_UNITS >= sum);
    // first position
    let a = p * RING_UNITS + sum - 1;
    let f = a / sum;
    lemma_fundamental_div_mod(a, sum);
    lemma_mod_pos_bound(a, sum);
    assert(sum * f == f * sum) by (nonlinear_arith);
    assert(f * sum >= p * RING_UNITS);
    assert(f * sum < q * RING_UNITS);
    assert(f >= 0) by (nonlinear_arith)
        requires
            f * sum >= p * RING_UNITS,
            p >= 0,
            sum > 0,
    ;
    // last position
    let b = q * RING_UNITS - 1;
    let l = b / sum;
    lemma_fundamental_div_mod(b, sum);
    lemma_mod_pos_bound(b, sum);
    assert(sum * l == l * sum) by (nonlinear_arith);
    assert(l * sum < q * RING_UNITS);
    assert(l * sum >= p * RING_UNITS);
    assert(l >= 0) by (nonlinear_arith)
        requires
            l * sum >= p * RING_UNITS,
            p >= 0,
            sum > 0,
    ;
    assert(q * RING_UNITS <= sum * RING_UNITS);
    assert(f < RING_UNITS) by (nonlinear_arith)
        requires
            f * sum < sum * RING_UNITS,
            sum > 0,
    ;
    assert(l < RING_UNITS) by (nonlinear_arith)
        requires
            l * sum < sum * RING_UNITS,
            sum > 0,
    ;
}

/// An obstacle: it occupies the radial interval `[distance, distance + height)`,
/// both in `RADIAL_UNITS` per unit of distance from the track centre.
#[derive(Clone, Copy)]
pub struct Obstacle {
    its_distance: u64,
    its_height: u64,
}

impl View for Obstacle {
    type V = ObstacleView;

    closed spec fn view(&self) -> ObstacleView {
        ObstacleView { distance: self.its_distance as nat, height: self.its_height as nat }
    }
}

impl Obstacle {
    /// An obstacle of the given height at the track centre.
    pub fn new(the_height: u64) -> (r: Obstacle)
        ensures
            r@ == (ObstacleView { distance: 0, height: the_height as nat }),
    {
        Obstacle { its_distance: 0, its_height: the_height }
    }

    /// An obstacle of the given height at the given distance from the centre.
    pub fn at_distance(the_distance: u64, the_height: u64) -> (r: Obstacle)
        ensures
            r@ == (ObstacleView { distance: the_distance as nat, height: the_height as nat }),
    {
        Obstacle { its_distance: the_distance, its_height: the_height }
    }

    pub fn get_height(&self) -> (r: u64)
        ensures
            r == self@.height,
    {
        self.its_height
    }

    pub fn get_distance(&self) -> (r: u64)
        ensures
            r == self@.distance,
    {
        self.its_distance
    }

    /// Whether the radial coordinate `y` lies inside the obstacle.
    pub fn covers(&self, y: u64) -> (r: bool)
        ensures
            r == self@.covers(y as nat),
    {
        self.its_distance <= y && y - self.its_distance < self.its_height
    }
}

/// A slot of the ring: a relative angular width and the obstacles in it.
pub struct Slot {
    its_width: u64,
    its_obstacles: Vec<Obstacle>,
}

impl View for Slot {
    type V = SlotView;

    closed spec fn view(&self) -> SlotView {
        SlotView {
            width: self.its_width as nat,
            obstacles: self.its_obstacles@.map_values(|o: Obstacle| o@),
        }
    }
}

impl Slot {
    /// An empty slot of width 1.
    pub fn new() -> (r: Slot)
        ensures
            r@.width == 1,
            r@.obstacles == Seq::<ObstacleView>::empty(),
    {
        let r = Slot { its_width: 1, its_obstacles: Vec::new() };
        assert(r@.obstacles =~= Seq::<ObstacleView>::empty());
        r
    }

    /// An empty slot of the given width.
    pub fn with_width(the_width: u64) -> (r: Slot)
        requires
            1 <= the_width <= MAX_SLOT_WIDTH,
        ensures
            r@.width == the_width,
            r@.obstacles == Seq::<ObstacleView>::empty(),
    {
        let r = Slot { its_width: the_width, its_obstacles: Vec::new() };
        assert(r@.obstacles =~= Seq::<ObstacleView>::empty());
        r
    }

    pub fn get_width(&self) -> (r: u64)
        ensures
            r == self@.width,
    {
        self.its_width
    }

    pub fn get_obstacles(&self) -> (r: &Vec<Obstacle>)
        ensures
            r@.map_values(|o: Obstacle| o@) == self@.obstacles,
    {
        &self.its_obstacles
    }

    pub fn add_obstacle(&mut self, the_obstacle: Obstacle)
        ensures
            final(self)@.width == old(self)@.width,
            final(self)@.obstacles == old(self)@.obstacles.push(the_obstacle@),
    {
        self.its_obstacles.push(the_obstacle);
        assert(self@.obstacles =~= old(self)@.obstacles.push(the_obstacle@));
    }

    /// Whether some obstacle of the slot covers the radial coordinate `y`.
    pub fn blocks(&self, y: u64) -> (r: bool)
        ensures
            r == exists|i: int| 0 <= i < self@.obstacles.len() && #[trigger] self@.obstacles[i].covers(y as nat),
    {
        let mut i: usize = 0;
        while i < self.its_obstacles.len()
            invariant
                i <= self.its_obstacles@.len(),
                forall|j: int| 0 <= j < i ==> !#[trigger] self@.obstacles[j].covers(y as nat),
            decreases self.its_obstacles@.len() - i,
        {
            if self.its_obstacles[i].covers(y) {
                assert(self@.obstacles[i as int].covers(y as nat));
                return true;
            }
            i += 1;
        }
        false
    }
}

/// The state of one game: the player's position on the ring, the speeds and
/// the ring of slots.
pub struct GameState {
    its_player_position: u64,
    its_player_speed: u64,
    its_obstacle_speed: u64,
    its_slots: Vec<Slot>,
    its_is_running: bool,
}

impl View for GameState {
    type V = GameView;

    closed spec fn view(&self) -> GameView {
        GameView {
            position: self.its_player_position as nat,
            player_speed: self.its_player_speed as nat,
            obstacle_speed: self.its_obstacle_speed as nat,
            slots: self.its_slots@.map_values(|s: Slot| s@),
            running: self.its_is_running,
        }
    }
}

impl GameState {
    /// A running game on six empty slots of width 1, with the player in the
    /// middle of the first one.
    pub fn new() -> (r: GameState)
        ensures
            r@.wf(),
            r@.position == DEFAULT_POSITION,
            r@.player_speed == DEFAULT_PLAYER_SPEED,
            r@.obstacle_speed == DEFAULT_OBSTACLE_SPEED,
            r@.running,
            forall|i: int| 0 <= i < SLOT_COUNT ==> (#[trigger] r@.slots[i]).width == 1
                && r@.slots[i].obstacles.len() == 0,
    {
        let mut slots: Vec<Slot> = Vec::new();
        let mut i: usize = 0;
        while i < SLOT_COUNT
            invariant
                i <= SLOT_COUNT,
                slots@.len() == i,
                forall|j: int| 0 <= j < i ==> (#[trigger] slots@[j])@.width == 1
                    && slots@[j]@.obstacles.len() == 0,
            decreases SLOT_COUNT - i,
        {
            slots.push(Slot::new());
            i += 1;
        }
        GameState {
            its_player_position: DEFAULT_POSITION,
            its_player_speed: DEFAULT_PLAYER_SPEED,
            its_obstacle_speed: DEFAULT_OBSTACLE_SPEED,
            its_slots: slots,
            its_is_running: true,
        }
    }

    /// A running game on the given six slots, with the player at the start
    /// of the first one.
    pub fn with_slots(the_slots: Vec<Slot>) -> (r: GameState)
        requires
            slots_wf(the_slots@.map_values(|s: Slot| s@)),
        ensures
            r@.wf(),
            r@.position == 0,
            r@.player_speed == DEFAULT_PLAYER_SPEED,
            r@.obstacle_speed == DEFAULT_OBSTACLE_SPEED,
            r@.slots == the_slots@.map_values(|s: Slot| s@),
            r@.running,
    {
        GameState {
            its_player_position: 0,
            its_player_speed: DEFAULT_PLAYER_SPEED,
            its_obstacle_speed: DEFAULT_OBSTACLE_SPEED,
            its_slots: the_slots,
            its_is_running: true,
        }
    }

    pub fn get_position(&self) -> (r: u64)
        ensures
            r == self@.position,
    {
        self.its_player_position
    }

    pub fn set_position(&mut self, the_position: u64)
        requires
            the_position < RING_UNITS,
        ensures
            final(self)@ == (GameView { position: the_position as nat, ..old(self)@ }),
    {
        self.its_player_position = the_position;
    }

    pub fn get_player_speed(&self) -> (r: u64)
        ensures
            r == self@.player_speed,
    {
        self.its_player_speed
    }

    pub fn get_obstacle_speed(&self) -> (r: u64)
        ensures
            r == self@.obstacle_speed,
    {
        self.its_obstacle_speed
    }

    pub fn get_slots(&self) -> (r: &[Slot])
        ensures
            r@.map_values(|s: Slot| s@) == self@.slots,
    {
        self.its_slots.as_slice()
    }

    /// Adds an obstacle at the end of slot `the_slot`'s obstacles.
    pub fn add_obstacle(&mut self, the_slot: usize, the_obstacle: Obstacle)
        requires
            old(self)@.wf(),
            the_slot < SLOT_COUNT,
        ensures
            final(self)@.wf(),
            final(self)@ == (GameView {
                slots: old(self)@.slots.update(
                    the_slot as int,
                    SlotView {
                        obstacles: old(self)@.slots[the_slot as int].obstacles.push(the_obstacle@),
                        ..old(self)@.slots[the_slot as int]
                    },
                ),
                ..old(self)@
            }),
    {
        let ghost before = self@.slots;
        self.its_slots[the_slot].add_obstacle(the_obstacle);
        assert(self@.slots =~= before.update(
            the_slot as int,
            SlotView {
                obstacles: before[the_slot as int].obstacles.push(the_obstacle@),
                ..before[the_slot as int]
            },
        ));
        assert(forall|i: int| 0 <= i < SLOT_COUNT ==> (#[trigger] self@.slots[i]).width == before[i].width);
    }

    pub fn is_running(&self) -> (r: bool)
        ensures
            r == self@.running,
    {
        self.its_is_running
    }

    pub fn set_running(&mut self, the_running: bool)
        ensures
            final(self)@ == (GameView { running: the_running, ..old(self)@ }),
    {
        self.its_is_running = the_running;
    }

    /// Sum of the widths of the first `k` slots.
    pub fn get_slot_width_prefix(&self, k: usize) -> (r: u64)
        requires
            self@.wf(),
            k <= SLOT_COUNT,
        ensures
            r == prefix_width(self@.slots, k as int),
    {
        let mut acc: u64 = 0;
        let mut i: usize = 0;
        while i < k
            invariant
                self@.wf(),
                i <= k <= SLOT_COUNT,
                acc == prefix_width(self@.slots, i as int),
            decreases k - i,
        {
            proof {
                lemma_prefix_monotone(self@.slots, 0, i as int + 1);
            }
            acc = acc + self.its_slots[i].get_width();
            i += 1;
        }
        acc
    }

    /// Sum of the widths of all slots.
    pub fn get_slot_width_sum(&self) -> (r: u64)
        requires
            self@.wf(),
        ensures
            r == width_sum(self@.slots),
            SLOT_COUNT <= r <= SLOT_COUNT * MAX_SLOT_WIDTH,
    {
        proof {
            lemma_width_sum_bounds(self@.slots);
        }
        self.get_slot_width_prefix(SLOT_COUNT)
    }

    /// The slot that owns `the_position`.
    pub fn get_slot_idx_at_position(&self, the_position: u64) -> (r: usize)
        requires
            self@.wf(),
            the_position < RING_UNITS,
        ensures
            r == slot_index_at(self@.slots, the_position as nat),
            r < SLOT_COUNT,
            in_slot(self@.slots, the_position as nat, r as int),
    {
        let ghost slots = self@.slots;
        proof {
            lemma_slot_index_at(slots, the_position as nat);
            lemma_scaled_position(slots, the_position as nat);
        }
        let slot_width_sum = self.get_slot_width_sum();
        let target: u64 = the_position * slot_width_sum;
        let mut s: usize = 0;
        let mut x: u64 = self.its_slots[0].get_width() * RING_UNITS;
        assert(prefix_width(slots, 0) == 0);
        assert(prefix_width(slots, 1) == slots[0].width);
        while x <= target
            invariant
                self@.wf(),
                slots == self@.slots,
                s < SLOT_COUNT,
                target == the_position * width_sum(slots),
                target < width_sum(slots) * RING_UNITS,
                x == prefix_width(slots, s as int + 1) * RING_UNITS,
                find_slot(slots, target as nat, 0) == find_slot(slots, target as nat, s as int),
            decreases SLOT_COUNT - s,
        {
            proof {
                lemma_prefix_monotone(slots, s as int + 1, SLOT_COUNT as int);
                lemma_prefix_monotone(slots, 0, s as int + 2);
            }
            assert(s + 1 < SLOT_COUNT);
            x = x + self.its_slots[s + 1].get_width() * RING_UNITS;
            s = s + 1;
        }
        s
    }

    /// The slot the player is on.
    pub fn get_current_slot_idx(&self) -> (r: usize)
        requires
            self@.wf(),
        ensures
            r == self@.current_slot(),
            r < SLOT_COUNT,
            in_slot(self@.slots, self@.position, r as int),
    {
        self.get_slot_idx_at_position(self.its_player_position)
    }

    /// The smallest position that slot `s` owns.
    pub fn get_slot_first_position(&self, s: usize) -> (r: u64)
        requires
            self@.wf(),
            s < SLOT_COUNT,
        ensures
            r == slot_first_position(self@.slots, s as int),
            in_slot(self@.slots, r as nat, s as int),
            r < RING_UNITS,
    {
        proof {
            lemma_slot_edges(self@.slots, s as int);
            lemma_prefix_monotone(self@.slots, s as int, SLOT_COUNT as int);
        }
        let sum = self.get_slot_width_sum();
        let left = self.get_slot_width_prefix(s);
        (left * RING_UNITS + sum - 1) / sum
    }

    /// The largest position that slot `s` owns.
    pub fn get_slot_last_position(&self, s: usize) -> (r: u64)
        requires
            self@.wf(),
            s < SLOT_COUNT,
        ensures
            r == slot_last_position(self@.slots, s as int),
            in_slot(self@.slots, r as nat, s as int),
            r < RING_UNITS,
    {
        proof {
            lemma_slot_edges(self@.slots, s as int);
            lemma_prefix_monotone(self@.slots, s as int + 1, SLOT_COUNT as int);
            lemma_prefix_monotone(self@.slots, 0, s as int + 1);
        }
        let sum = self.get_slot_width_sum();
        let right = self.get_slot_width_prefix(s + 1);
        (right * RING_UNITS - 1) / sum
    }
}

} // verus!
