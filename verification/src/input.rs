//! Movement: from the four direction keys to the direction in which the
//! player's sprite heads. Scaling that direction by speed and elapsed time
//! is arithmetic on fractions of a pixel and is left to the caller.

use vstd::prelude::*;

verus! {

/// The direction keys as they stand in one tick.
#[derive(Clone, Copy, Debug, PartialEq, Eq, Structural)]
pub struct InputSnapshot {
    pub left: bool,
    pub right: bool,
    pub up: bool,
    pub down: bool,
}

/// A direction on the play field: each component is -1, 0 or 1, with x
/// growing to the right and y growing upwards.
#[derive(Clone, Copy, Debug, PartialEq, Eq, Structural)]
pub struct Direction {
    pub x: i8,
    pub y: i8,
}

/// What one axis contributes: the key toward the positive end counts 1, the
/// key toward the negative end counts -1, and both together cancel.
pub open spec fn axis(negative: bool, positive: bool) -> int {
    (if positive {
        1int
    } else {
        0int
    }) - (if negative {
        1int
    } else {
        0int
    })
}

impl Direction {
    /// Whether this is no direction at all.
    pub open spec fn is_zero(self) -> bool {
        self.x == 0 && self.y == 0
    }

    /// Whether this direction runs along both axes at once.
    pub open spec fn is_diagonal(self) -> bool {
        self.x != 0 && self.y != 0
    }

    /// The square of the direction's length, by which a caller normalises:
    /// 0 for no direction, 1 along one axis, 2 along a diagonal.
    pub open spec fn length_squared(self) -> int {
        self.x * self.x + self.y * self.y
    }

    /// Tests [`Direction::is_zero`].
    pub fn zero(&self) -> (b: bool)
        ensures
            b == self.is_zero(),
    {
        self.x == 0 && self.y == 0
    }

    /// Computes [`Direction::length_squared`].
    pub fn norm_squared(&self) -> (n: u8)
        requires
            -1 <= self.x <= 1,
            -1 <= self.y <= 1,
        ensures
            n == self.length_squared(),
            n == (if self.is_zero() {
                0int
            } else if self.is_diagonal() {
                2int
            } else {
                1int
            }),
    {
        let ax: u8 = if self.x != 0 {
            1
        } else {
            0
        };
        let ay: u8 = if self.y != 0 {
            1
        } else {
            0
        };
        assert(self.x * self.x == ax) by (nonlinear_arith)
            requires
                -1 <= self.x <= 1,
                ax == (if self.x != 0 {
                    1int
                } else {
                    0int
                }),
        ;
        assert(self.y * self.y == ay) by (nonlinear_arith)
            requires
                -1 <= self.y <= 1,
                ay == (if self.y != 0 {
                    1int
                } else {
                    0int
                }),
        ;
        ax + ay
    }
}

impl InputSnapshot {
    /// The direction the keys ask for: the sum of what each pressed key
    /// contributes, right and up counting positive.
    pub open spec fn direction(self) -> Direction {
        Direction { x: axis(self.left, self.right) as i8, y: axis(self.down, self.up) as i8 }
    }
}

/// The movement system's decision for one tick: the direction in which to
/// move. It depends on the keys alone, so the same keys always give the
/// same direction; keys that oppose each other cancel.
pub fn movement(input: &InputSnapshot) -> (d: Direction)
    ensures
        d == input.direction(),
        d.x == axis(input.left, input.right),
        d.y == axis(input.down, input.up),
        -1 <= d.x <= 1,
        -1 <= d.y <= 1,
{
    let mut x: i8 = 0;
    let mut y: i8 = 0;
    if input.right {
        x = x + 1;
    }
    if input.left {
        x = x - 1;
    }
    if input.up {
        y = y + 1;
    }
    if input.down {
        y = y - 1;
    }
    Direction { x, y }
}

/// The direction is a function of the keys: the same keys give the same
/// direction, whenever and however often they are asked.
pub proof fn lemma_same_keys_same_direction(a: InputSnapshot, b: InputSnapshot)
    requires
        a == b,
    ensures
        a.direction() == b.direction(),
{
}

/// Keys that oppose each other on both axes leave the sprite where it is,
/// and so does pressing no key.
pub proof fn lemma_opposing_keys_cancel(input: InputSnapshot)
    requires
        input.left == input.right,
        input.up == input.down,
    ensures
        input.direction().is_zero(),
{
}

/// A single key moves the sprite one unit along that key's axis: the
/// direction has length one and points the way of the key.
pub proof fn lemma_single_key(input: InputSnapshot)
    ensures
        input == (InputSnapshot { left: false, right: true, up: false, down: false })
            ==> input.direction() == (Direction { x: 1, y: 0 }),
        input == (InputSnapshot { left: true, right: false, up: false, down: false })
            ==> input.direction() == (Direction { x: -1i8, y: 0 }),
        input == (InputSnapshot { left: false, right: false, up: true, down: false })
            ==> input.direction() == (Direction { x: 0, y: 1 }),
        input == (InputSnapshot { left: false, right: false, up: false, down: true })
            ==> input.direction() == (Direction { x: 0, y: -1i8 }),
        (input.left != input.right) && (input.up == input.down) ==> input.direction().length_squared()
            == 1,
        (input.left == input.right) && (input.up != input.down) ==> input.direction().length_squared()
            == 1,
{
    let d = input.direction();
    assert(d.x * d.x == (if d.x == 0 {
        0int
    } else {
        1int
    })) by (nonlinear_arith)
        requires
            -1 <= d.x <= 1,
    ;
    assert(d.y * d.y == (if d.y == 0 {
        0int
    } else {
        1int
    })) by (nonlinear_arith)
        requires
            -1 <= d.y <= 1,
    ;
}

} // verus!
