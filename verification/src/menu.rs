//! The menu: how the button answers to the pointer, and the hooks that
//! build the menu and take it down.

use vstd::prelude::*;
use crate::entity::{
    alive, child_of, despawned, Kind, Entity, EntityRef, Label, StateError,
    VisualStyle, World,
};

verus! {

/// What the pointer is doing to a user-interface element.
#[derive(Clone, Copy, Debug, PartialEq, Eq, Structural)]
pub enum Interaction {
    /// The pointer was pressed on the element.
    Clicked,
    /// The pointer rests over the element.
    Hovered,
    /// The pointer is elsewhere.
    Idle,
}

/// The three styles a button is drawn in. They are loaded once at startup
/// and only read afterwards.
#[derive(Clone, Copy, Debug, PartialEq, Eq, Structural)]
pub struct ButtonMaterials {
    pub normal: VisualStyle,
    pub hovered: VisualStyle,
    pub pressed: VisualStyle,
}

impl ButtonMaterials {
    /// The style that answers an interaction: pressed when clicked, hovered
    /// when hovered, normal otherwise.
    pub open spec fn style_for(self, interaction: Interaction) -> VisualStyle {
        match interaction {
            Interaction::Clicked => self.pressed,
            Interaction::Hovered => self.hovered,
            Interaction::Idle => self.normal,
        }
    }

    /// Picks the style that answers an interaction.
    pub fn style(&self, interaction: Interaction) -> (s: VisualStyle)
        ensures
            s == self.style_for(interaction),
    {
        match interaction {
            Interaction::Clicked => self.pressed,
            Interaction::Hovered => self.hovered,
            Interaction::Idle => self.normal,
        }
    }
}

/// The label that answers an interaction: "Press" when clicked, "Start"
/// otherwise.
pub open spec fn label_for(interaction: Interaction) -> Label {
    match interaction {
        Interaction::Clicked => Label::Press,
        Interaction::Hovered => Label::Start,
        Interaction::Idle => Label::Start,
    }
}

/// Picks the label that answers an interaction.
pub fn label(interaction: Interaction) -> (l: Label)
    ensures
        l == label_for(interaction),
{
    match interaction {
        Interaction::Clicked => Label::Press,
        Interaction::Hovered => Label::Start,
        Interaction::Idle => Label::Start,
    }
}

/// What the menu owns while it is shown.
#[derive(Clone, Copy, Debug, PartialEq, Eq, Structural)]
pub struct MenuData {
    pub button_entity: EntityRef,
}

/// Whether `b` names a living button.
pub open spec fn is_button(w: Seq<Entity>, b: int) -> bool {
    alive(w, b) && w[b].kind is Button
}

/// Whether `c` is the first living child of `e` in spawning order.
pub open spec fn is_first_child(w: Seq<Entity>, c: int, e: int) -> bool {
    child_of(w, c, e) && forall|j: int| 0 <= j < c ==> !child_of(w, j, e)
}

/// Whether `e` has a living child.
pub open spec fn has_child(w: Seq<Entity>, e: int) -> bool {
    exists|c: int| is_first_child(w, c, e)
}

/// The first living child of `e` in spawning order.
pub open spec fn first_child(w: Seq<Entity>, e: int) -> int {
    choose|c: int| is_first_child(w, c, e)
}

/// The arena with the button `b` drawn in `style`.
pub open spec fn with_style(w: Seq<Entity>, b: int, style: VisualStyle) -> Seq<Entity> {
    w.update(b, Entity { kind: Kind::Button { style }, ..w[b] })
}

/// The arena with the text entity `c` showing `label`.
pub open spec fn with_label(w: Seq<Entity>, c: int, label: Label) -> Seq<Entity> {
    w.update(c, Entity { kind: Kind::Text { label }, ..w[c] })
}

/// What the menu system makes of an interaction with `b`: the arena with
/// the button restyled, or the reason why not.
pub open spec fn menu_outcome(
    w: Seq<Entity>,
    materials: ButtonMaterials,
    b: int,
    interaction: Interaction,
) -> Result<Seq<Entity>, StateError> {
    if !is_button(w, b) {
        Err(StateError::NoSuchEntity)
    } else {
        Ok(with_style(w, b, materials.style_for(interaction)))
    }
}

/// What the button system makes of an interaction with `b`: the arena with
/// the button restyled and its label rewritten, or the reason why not.
pub open spec fn button_outcome(
    w: Seq<Entity>,
    materials: ButtonMaterials,
    b: int,
    interaction: Interaction,
) -> Result<Seq<Entity>, StateError> {
    if !is_button(w, b) {
        Err(StateError::NoSuchEntity)
    } else if !has_child(w, b) || !(w[first_child(w, b)].kind is Text) {
        Err(StateError::MissingLabel)
    } else {
        Ok(
            with_style(
                with_label(w, first_child(w, b), label_for(interaction)),
                b,
                materials.style_for(interaction),
            ),
        )
    }
}

/// What the menu's exit hook makes of the arena: the button and all below
/// it despawned, or the finding that the button is gone already.
pub open spec fn cleanup_outcome(w: Seq<Entity>, menu_data: MenuData) -> Result<
    Seq<Entity>,
    StateError,
> {
    if alive(w, menu_data.button_entity.index as int) {
        Ok(despawned(w, menu_data.button_entity.index as int))
    } else {
        Err(StateError::DoubleCleanup)
    }
}

/// The arena after the menu's enter hook: a button in `style` and, below
/// it, a text that says "Play".
pub open spec fn with_menu(w: Seq<Entity>, style: VisualStyle) -> Seq<Entity> {
    w.push(Entity { alive: true, parent: None, kind: Kind::Button { style } }).push(
        Entity {
            alive: true,
            parent: Some(w.len() as usize),
            kind: Kind::Text { label: Label::Play },
        },
    )
}

/// An entity has at most one first child.
pub proof fn lemma_first_child_unique(w: Seq<Entity>, e: int, c: int)
    requires
        is_first_child(w, c, e),
    ensures
        has_child(w, e),
        first_child(w, e) == c,
{
    let d = first_child(w, e);
    assert(is_first_child(w, d, e));
    if d < c {
        assert(!child_of(w, d, e));
    } else if c < d {
        assert(!child_of(w, c, e));
    }
}

/// The menu's exit hook cannot run twice in a row: after it has run, the
/// button is gone, and running it again reports a double cleanup.
pub proof fn lemma_double_cleanup(w: Seq<Entity>, menu_data: MenuData)
    requires
        cleanup_outcome(w, menu_data) is Ok,
    ensures
        cleanup_outcome(cleanup_outcome(w, menu_data).unwrap(), menu_data) == Err::<
            Seq<Entity>,
            StateError,
        >(StateError::DoubleCleanup),
{
    crate::entity::lemma_despawned_dead(w, menu_data.button_entity.index as int);
}

/// The menu's enter hook: spawns the button in its normal style with a
/// "Play" label below it, and says which entity the button is.
pub fn setup_menu(world: &mut World, button_materials: &ButtonMaterials) -> (menu_data: MenuData)
    requires
        old(world).wf(),
    ensures
        final(world).wf(),
        final(world)@ == with_menu(old(world)@, button_materials.normal),
        menu_data.button_entity.index == old(world)@.len(),
        is_button(final(world)@, menu_data.button_entity.index as int),
        is_first_child(
            final(world)@,
            menu_data.button_entity.index + 1,
            menu_data.button_entity.index as int,
        ),
{
    let button_entity = world.spawn_root(Kind::Button { style: button_materials.normal });
    let _ = world.spawn(Some(button_entity), Kind::Text { label: Label::Play });
    MenuData { button_entity }
}

/// The menu system: restyles the button `button` after an interaction and
/// says whether the interaction asks for the game to start, which a click
/// does. A handle that names no living button is reported as
/// [`StateError::NoSuchEntity`] and changes nothing.
pub fn menu(
    world: &mut World,
    button_materials: &ButtonMaterials,
    button: EntityRef,
    interaction: Interaction,
) -> (r: Result<bool, StateError>)
    requires
        old(world).wf(),
    ensures
        final(world).wf(),
        match menu_outcome(old(world)@, *button_materials, button.index as int, interaction) {
            Ok(w) => {
                &&& r == Ok::<bool, StateError>(interaction == Interaction::Clicked)
                &&& final(world)@ == w
            },
            Err(e) => r == Err::<bool, StateError>(e) && final(world)@ == old(world)@,
        },
{
    match world.get(button) {
        Some(Entity { kind: Kind::Button { .. }, .. }) => {},
        _ => {
            return Err(StateError::NoSuchEntity);
        },
    }
    let style = button_materials.style(interaction);
    let _ = world.set_kind(button, Kind::Button { style });
    Ok(interaction == Interaction::Clicked)
}

/// The button system: restyles the button `button` after an interaction
/// and rewrites the label below it. A handle that names no living button is
/// reported as [`StateError::NoSuchEntity`], a button without a living text
/// as its first child as [`StateError::MissingLabel`]; either way nothing
/// changes.
pub fn button_system(
    world: &mut World,
    button_materials: &ButtonMaterials,
    button: EntityRef,
    interaction: Interaction,
) -> (r: Result<(), StateError>)
    requires
        old(world).wf(),
    ensures
        final(world).wf(),
        match button_outcome(old(world)@, *button_materials, button.index as int, interaction) {
            Ok(w) => r == Ok::<(), StateError>(()) && final(world)@ == w,
            Err(e) => r == Err::<(), StateError>(e) && final(world)@ == old(world)@,
        },
{
    match world.get(button) {
        Some(Entity { kind: Kind::Button { .. }, .. }) => {},
        _ => {
            return Err(StateError::NoSuchEntity);
        },
    }
    let text = match world.first_child(button) {
        Some(c) => {
            proof {
                lemma_first_child_unique(world@, button.index as int, c.index as int);
            }
            c
        },
        None => {
            return Err(StateError::MissingLabel);
        },
    };
    match world.get(text) {
        Some(Entity { kind: Kind::Text { .. }, .. }) => {},
        _ => {
            return Err(StateError::MissingLabel);
        },
    }
    let _ = world.set_kind(text, Kind::Text { label: label(interaction) });
    let style = button_materials.style(interaction);
    let _ = world.set_kind(button, Kind::Button { style });
    Ok(())
}

/// The menu's exit hook: despawns the button and everything below it. If
/// the button is gone already the hook has run before, which is reported as
/// [`StateError::DoubleCleanup`] and changes nothing.
pub fn cleanup_menu(world: &mut World, menu_data: &MenuData) -> (r: Result<(), StateError>)
    requires
        old(world).wf(),
    ensures
        final(world).wf(),
        match cleanup_outcome(old(world)@, *menu_data) {
            Ok(w) => r == Ok::<(), StateError>(()) && final(world)@ == w,
            Err(e) => r == Err::<(), StateError>(e) && final(world)@ == old(world)@,
        },
{
    match world.despawn_recursive(menu_data.button_entity) {
        Ok(()) => Ok(()),
        Err(_) => Err(StateError::DoubleCleanup),
    }
}

} // verus!
