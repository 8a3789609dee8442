//! Movement state and the per-step force pipeline of the kinematic
//! controller: input acceleration, jump impulse, friction, terminal
//! velocity clamps, gravity, and contact-normal classification that
//! zeroes blocked velocity components after a sweep.
//!
//! All quantities are integers: positions in sub-units of world space
//! (`crate::SUB` per pixel), velocities in sub-units per fixed step.

use vstd::prelude::*;

verus! {

/// Bound on velocities and per-step movement parameters, in sub-units
/// per step; keeps every force computation far from `i64` overflow.
pub const VEL_LIMIT: i64 = 1000000000;

/// A position in sub-units. The collision sweep uses the grid frame:
/// `x` rightward from the level's left edge, `y` upward from its bottom.
#[derive(Clone, Copy, PartialEq, Eq, Structural, Debug)]
pub struct SubPos {
    pub x: i64,
    pub y: i64,
}

/// A velocity in sub-units per fixed simulation step.
#[derive(Clone, Copy, PartialEq, Eq, Structural, Debug, Default)]
pub struct Velocity {
    pub x: i64,
    pub y: i64,
}

/// Largest speed the controller lets an entity reach on each axis.
#[derive(Clone, Copy, PartialEq, Eq, Structural, Debug, Default)]
pub struct TerminalVelocity {
    pub x: i64,
    pub y: i64,
}

/// Downward acceleration per step.
#[derive(Clone, Copy, PartialEq, Eq, Structural, Debug)]
pub struct Gravity(pub i64);

/// Horizontal deceleration per step, toward zero, never overshooting.
#[derive(Clone, Copy, PartialEq, Eq, Structural, Debug)]
pub struct Friction {
    pub coefficient: i64,
}

/// Axis-aligned collision extents of an entity, in sub-units.
#[derive(Clone, Copy, PartialEq, Eq, Structural, Debug)]
pub struct BoundingBox {
    pub width: i64,
    pub height: i64,
}

impl BoundingBox {
    pub fn new(width: i64, height: i64) -> (r: BoundingBox)
        ensures
            r.width == width,
            r.height == height,
    {
        BoundingBox { width, height }
    }
}

/// A unit contact normal in milli-units, pointing from the obstacle
/// toward the moving entity; the sweep emits only axis-aligned normals.
#[derive(Clone, Copy, PartialEq, Eq, Structural, Debug)]
pub struct ContactNormal {
    pub x: i64,
    pub y: i64,
}

/// Per-step snapshot of the boolean control states the input layer hands
/// to the movement controller; read-only for one step.
#[derive(Clone, Copy, Debug)]
pub struct InputState {
    pub move_left: bool,
    pub move_right: bool,
    pub jump_just_pressed: bool,
    pub attack_pressed: bool,
    pub interact_pressed: bool,
    pub drop_just_pressed: bool,
    pub hotbar_just_pressed: [bool; 10],
    pub scroll_lines: i64,
    pub mouse: SubPos,
}

/// Tunable per-step movement parameters of one controlled entity.
#[derive(Clone, Copy, PartialEq, Eq, Structural, Debug)]
pub struct MovementParams {
    pub acceleration: i64,
    pub jump_power: i64,
    pub friction: Friction,
    pub gravity: Gravity,
    pub terminal: TerminalVelocity,
}

impl MovementParams {
    /// All parameters non-negative and small enough that force
    /// arithmetic stays exact.
    pub open spec fn wf(self) -> bool {
        &&& 0 <= self.acceleration <= VEL_LIMIT
        &&& 0 <= self.jump_power <= VEL_LIMIT
        &&& 0 <= self.friction.coefficient <= VEL_LIMIT
        &&& 0 <= self.gravity.0 <= VEL_LIMIT
        &&& 0 <= self.terminal.x <= VEL_LIMIT
        &&& 0 <= self.terminal.y <= VEL_LIMIT
    }
}

impl Velocity {
    /// Both components within `limit` in magnitude.
    pub open spec fn bounded(self, limit: int) -> bool {
        -limit <= self.x <= limit && -limit <= self.y <= limit
    }
}

/// Stage 1: horizontal input acceleration; simultaneous opposite presses
/// cancel. Also decides the sprite's facing.
pub open spec fn spec_apply_input(v: int, input: InputState, p: MovementParams) -> int {
    let after_left = if input.move_left { v - p.acceleration } else { v };
    if input.move_right { after_left + p.acceleration } else { after_left }
}

/// The sprite's facing after input: left press faces left, then a right
/// press faces right, otherwise the facing is kept.
pub open spec fn spec_apply_flip(flip_x: bool, input: InputState) -> bool {
    let after_left = if input.move_left { true } else { flip_x };
    if input.move_right { false } else { after_left }
}

/// Stage 2: jump impulse, only on the step the jump control transitions
/// to pressed and only when vertical velocity is exactly zero.
pub open spec fn spec_apply_jump(vy: int, input: InputState, p: MovementParams) -> int {
    if input.jump_just_pressed && vy == 0 { p.jump_power as int } else { vy }
}

/// Stage 3: friction decelerates horizontal velocity toward zero at a
/// fixed rate, never overshooting past zero in either direction.
pub open spec fn spec_apply_friction(vx: int, p: MovementParams) -> int {
    if vx > 0 {
        if vx - p.friction.coefficient > 0 { vx - p.friction.coefficient } else { 0 }
    } else if vx < 0 {
        if vx + p.friction.coefficient < 0 { vx + p.friction.coefficient } else { 0 }
    } else {
        0
    }
}

/// Stage 4: clamp horizontal velocity to the terminal cap.
pub open spec fn spec_clamp_x(vx: int, p: MovementParams) -> int {
    if vx < -p.terminal.x {
        -p.terminal.x as int
    } else if vx > p.terminal.x {
        p.terminal.x as int
    } else {
        vx
    }
}

/// Stage 5: gravity lowers vertical velocity, floored at the downward
/// terminal velocity.
pub open spec fn spec_apply_gravity(vy: int, p: MovementParams) -> int {
    if vy - p.gravity.0 > -p.terminal.y { vy - p.gravity.0 } else { -p.terminal.y as int }
}

/// The whole force pipeline of one fixed step, stages in order.
pub open spec fn spec_move_player(v: Velocity, input: InputState, p: MovementParams) -> Velocity {
    let vx1 = spec_apply_input(v.x as int, input, p);
    let vy1 = spec_apply_jump(v.y as int, input, p);
    let vx2 = spec_apply_friction(vx1, p);
    let vx3 = spec_clamp_x(vx2, p);
    let vy2 = spec_apply_gravity(vy1, p);
    Velocity { x: vx3 as i64, y: vy2 as i64 }
}

/// Applies one fixed step of forces to the player's velocity, in order:
/// input acceleration, jump impulse (grounded test: vertical velocity
/// exactly zero), friction, horizontal terminal clamp, gravity with
/// downward terminal floor. Updates the sprite facing alongside.
pub fn move_player(
    vel: &mut Velocity,
    flip_x: &mut bool,
    input: &InputState,
    p: &MovementParams,
)
    requires
        p.wf(),
        old(vel).bounded(VEL_LIMIT as int),
    ensures
        *final(vel) == spec_move_player(*old(vel), *input, *p),
        *final(flip_x) == spec_apply_flip(*old(flip_x), *input),
        final(vel).x == spec_clamp_x(
            spec_apply_friction(spec_apply_input(old(vel).x as int, *input, *p), *p),
            *p,
        ),
        final(vel).y == spec_apply_gravity(
            spec_apply_jump(old(vel).y as int, *input, *p),
            *p,
        ),
        -p.terminal.x <= final(vel).x <= p.terminal.x,
        -p.terminal.y <= final(vel).y,
        final(vel).bounded(VEL_LIMIT as int),
{
    if input.move_left {
        vel.x = vel.x - p.acceleration;
        *flip_x = true;
    }
    if input.move_right {
        vel.x = vel.x + p.acceleration;
        *flip_x = false;
    }

    if input.jump_just_pressed && vel.y == 0 {
        vel.y = p.jump_power;
    }

    if vel.x > 0 {
        let decelerated = vel.x - p.friction.coefficient;
        vel.x = if decelerated > 0 { decelerated } else { 0 };
    } else if vel.x < 0 {
        let decelerated = vel.x + p.friction.coefficient;
        vel.x = if decelerated < 0 { decelerated } else { 0 };
    }

    if vel.x < -p.terminal.x {
        vel.x = -p.terminal.x;
    } else if vel.x > p.terminal.x {
        vel.x = p.terminal.x;
    }

    let dropped = vel.y - p.gravity.0;
    vel.y = if dropped > -p.terminal.y { dropped } else { -p.terminal.y };
}

impl ContactNormal {
    /// A near-unit normal in milli-units: its squared length lies within
    /// rounding of one. This is what normalizing a nonzero vector
    /// yields, and it keeps the two classifications exclusive at any
    /// threshold above seven hundred and eight milli.
    pub open spec fn spec_unit(self) -> bool {
        900 * 900 <= self.x * self.x + self.y * self.y <= 1000 * 1000
    }
}

/// An axis-aligned unit normal in milli-units is a near-unit normal.
pub proof fn lemma_axis_unit(n: ContactNormal)
    requires
        (n.x == 0 && (n.y == 1000 || n.y == -1000)) || (n.y == 0 && (n.x == 1000 || n.x
            == -1000)),
    ensures
        n.spec_unit(),
{
    assert(n.x * n.x + n.y * n.y == 1000000) by (nonlinear_arith)
        requires
            (n.x == 0 && (n.y == 1000 || n.y == -1000)) || (n.y == 0 && (n.x == 1000 || n.x
                == -1000)),
    ;
}

/// Whether a unit contact normal (milli-units) counts as a horizontal
/// contact: its x component exceeds the threshold in magnitude.
pub fn is_colliding_horizontally(normal: ContactNormal, threshold: i64) -> (r: bool)
    requires
        normal.spec_unit(),
        0 <= threshold,
    ensures
        r == (normal.x > threshold || normal.x < -threshold),
{
    normal.x > threshold || normal.x < -threshold
}

/// Whether a unit contact normal (milli-units) counts as a vertical
/// contact: its y component exceeds the threshold in magnitude.
pub fn is_colliding_vertically(normal: ContactNormal, threshold: i64) -> (r: bool)
    requires
        normal.spec_unit(),
        0 <= threshold,
    ensures
        r == (normal.y > threshold || normal.y < -threshold),
{
    normal.y > threshold || normal.y < -threshold
}

/// Whether any normal in the list classifies as horizontal.
pub open spec fn spec_any_horizontal(contacts: Seq<ContactNormal>, threshold: int) -> bool {
    exists|i: int| 0 <= i < contacts.len()
        && ((#[trigger] contacts[i]).x > threshold || contacts[i].x < -threshold)
}

/// Whether any normal in the list classifies as vertical.
pub open spec fn spec_any_vertical(contacts: Seq<ContactNormal>, threshold: int) -> bool {
    exists|i: int| 0 <= i < contacts.len()
        && ((#[trigger] contacts[i]).y > threshold || contacts[i].y < -threshold)
}

/// After a sweep, zeroes each velocity component blocked by a contact,
/// so residual motion along a blocked axis is removed before the next
/// step: a horizontal contact zeroes `x`, a vertical contact zeroes `y`.
pub fn zero_velocity_on_collision(
    vel: &mut Velocity,
    contacts: &Vec<ContactNormal>,
    threshold: i64,
)
    requires
        0 <= threshold,
        forall|i: int| 0 <= i < contacts@.len() ==> (#[trigger] contacts@[i]).spec_unit(),
    ensures
        final(vel).x == if spec_any_horizontal(contacts@, threshold as int) {
            0int
        } else {
            old(vel).x as int
        },
        final(vel).y == if spec_any_vertical(contacts@, threshold as int) {
            0int
        } else {
            old(vel).y as int
        },
{
    let n = contacts.len();
    let mut i: usize = 0;
    while i < n
        invariant
            n == contacts@.len(),
            i <= n,
            0 <= threshold,
            forall|j: int| 0 <= j < contacts@.len() ==> (#[trigger] contacts@[j]).spec_unit(),
            vel.x == if spec_any_horizontal(contacts@.take(i as int), threshold as int) {
                0int
            } else {
                old(vel).x as int
            },
            vel.y == if spec_any_vertical(contacts@.take(i as int), threshold as int) {
                0int
            } else {
                old(vel).y as int
            },
        decreases n - i,
    {
        let c = contacts[i];
        if is_colliding_horizontally(c, threshold) {
            vel.x = 0;
        }
        if is_colliding_vertically(c, threshold) {
            vel.y = 0;
        }
        proof {
            let pre = contacts@.take(i as int);
            let post = contacts@.take(i as int + 1);
            assert(post.drop_last() =~= pre);
            assert(post.last() == contacts@[i as int]);
            assert(forall|j: int| 0 <= j < pre.len() ==> pre[j] == post[j]);
            if spec_any_horizontal(pre, threshold as int) {
                let w = choose|w: int| 0 <= w < pre.len()
                    && ((#[trigger] pre[w]).x > threshold || pre[w].x < -threshold);
                assert(post[w].x > threshold || post[w].x < -threshold);
            }
            if spec_any_vertical(pre, threshold as int) {
                let w = choose|w: int| 0 <= w < pre.len()
                    && ((#[trigger] pre[w]).y > threshold || pre[w].y < -threshold);
                assert(post[w].y > threshold || post[w].y < -threshold);
            }
            if !spec_any_horizontal(post, threshold as int) {
                assert(forall|w: int| 0 <= w < pre.len()
                    ==> !((#[trigger] pre[w]).x > threshold || pre[w].x < -threshold));
            }
            if !spec_any_vertical(post, threshold as int) {
                assert(forall|w: int| 0 <= w < pre.len()
                    ==> !((#[trigger] pre[w]).y > threshold || pre[w].y < -threshold));
            }
        }
        i = i + 1;
    }
    proof {
        assert(contacts@.take(n as int) =~= contacts@);
    }
}

} // verus!
