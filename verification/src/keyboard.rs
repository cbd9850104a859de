//! The seam to the engine's keyboard: the core reads from the engine's
//! keyboard state which arrow keys are held down.

use vstd::prelude::*;
use bevy_input::keyboard::KeyCode;
use bevy_input::Input;
use crate::app::App;
use crate::entity::EntityRef;
use crate::input::{Direction, InputSnapshot};

verus! {

#[verifier::external_type_specification]
#[verifier::external_body]
#[verifier::reject_recursive_types(T)]
pub struct ExInput<T>(Input<T>);

#[verifier::external_type_specification]
#[verifier::external_body]
pub struct ExKeyCode(KeyCode);

/// The four keys that move the player.
#[derive(Clone, Copy, Debug, PartialEq, Eq, Structural)]
pub enum ArrowKey {
    Left,
    Right,
    Up,
    Down,
}

/// The arrow keys that the engine's keyboard state holds as pressed.
pub uninterp spec fn held(input: Input<KeyCode>) -> Set<ArrowKey>;

/// Calls `Input::pressed` with the key code of an arrow key. The engine
/// answers whether its set of pressed keys holds that key.
#[verifier::external_body]
fn arrow_pressed(input: &Input<KeyCode>, key: ArrowKey) -> (b: bool)
    ensures
        b == held(*input).contains(key),
{
    input.pressed(
        match key {
            ArrowKey::Left => KeyCode::Left,
            ArrowKey::Right => KeyCode::Right,
            ArrowKey::Up => KeyCode::Up,
            ArrowKey::Down => KeyCode::Down,
        },
    )
}

/// The snapshot in which exactly the keys of `keys` are pressed.
pub open spec fn snapshot_of(keys: Set<ArrowKey>) -> InputSnapshot {
    InputSnapshot {
        left: keys.contains(ArrowKey::Left),
        right: keys.contains(ArrowKey::Right),
        up: keys.contains(ArrowKey::Up),
        down: keys.contains(ArrowKey::Down),
    }
}

/// Takes the snapshot of the arrow keys from the engine's keyboard state.
pub fn read_arrows(input: &Input<KeyCode>) -> (s: InputSnapshot)
    ensures
        s == snapshot_of(held(*input)),
{
    InputSnapshot {
        left: arrow_pressed(input, ArrowKey::Left),
        right: arrow_pressed(input, ArrowKey::Right),
        up: arrow_pressed(input, ArrowKey::Up),
        down: arrow_pressed(input, ArrowKey::Down),
    }
}

/// The movement system: while the game is played, the player's sprite and
/// the direction in which the held arrow keys move it; in the menu,
/// nothing.
pub fn movement_system(app: &App, input: &Input<KeyCode>) -> (r: Option<(EntityRef, Direction)>)
    ensures
        r == (match app@.game {
            Some(g) => Some((g.player, snapshot_of(held(*input)).direction())),
            None => None,
        }),
{
    let snapshot = read_arrows(input);
    app.movement(&snapshot)
}

} // verus!
