use bevy_input::keyboard::KeyCode;
use bevy_input::Input;
use tile_game::app::{App, AppState};
use tile_game::entity::{Kind, EntityRef, Label, StateError, VisualStyle, World};
use tile_game::game::{setup_game, GameAssets};
use tile_game::input::{movement, Direction, InputSnapshot};
use tile_game::keyboard::{movement_system, read_arrows};
use tile_game::menu::{
    button_system, cleanup_menu, label, menu, setup_menu, ButtonMaterials, Interaction, MenuData,
};
use tile_game::tile::AtlasHandle;

fn materials() -> ButtonMaterials {
    ButtonMaterials {
        normal: VisualStyle { id: 1 },
        hovered: VisualStyle { id: 2 },
        pressed: VisualStyle { id: 3 },
    }
}

fn assets() -> GameAssets {
    GameAssets { sprite: VisualStyle { id: 40 }, atlas: AtlasHandle { id: 50 } }
}

fn keys(left: bool, right: bool, up: bool, down: bool) -> InputSnapshot {
    InputSnapshot { left, right, up, down }
}

fn style_of(world: &World, e: EntityRef) -> Option<VisualStyle> {
    match world.get(e) {
        Some(entity) => match entity.kind {
            Kind::Button { style } => Some(style),
            _ => None,
        },
        None => None,
    }
}

fn label_of(world: &World, e: EntityRef) -> Option<Label> {
    match world.get(e) {
        Some(entity) => match entity.kind {
            Kind::Text { label } => Some(label),
            _ => None,
        },
        None => None,
    }
}

#[test]
fn spawn_hands_out_slots_in_order() {
    let mut w = World::new();
    assert_eq!(w.len(), 0);
    let a = w.spawn(None, Kind::Movable { visual: VisualStyle { id: 1 } }).unwrap();
    let b = w.spawn(Some(a), Kind::Text { label: Label::Play }).unwrap();
    assert_eq!(a, EntityRef { index: 0 });
    assert_eq!(b, EntityRef { index: 1 });
    assert_eq!(w.len(), 2);
    assert!(w.is_alive(a));
    assert!(w.is_alive(b));
    assert!(!w.is_alive(EntityRef { index: 2 }));
    assert_eq!(w.get(b).unwrap().parent, Some(0));
    assert_eq!(w.get(EntityRef { index: 2 }), None);
}

#[test]
fn spawn_root_never_fails() {
    let mut w = World::new();
    let a = w.spawn_root(Kind::Movable { visual: VisualStyle { id: 1 } });
    let b = w.spawn_root(Kind::Text { label: Label::Start });
    assert_eq!((a.index, b.index), (0, 1));
    assert_eq!(w.get(b).unwrap().parent, None);
    assert!(w.is_alive(a));
}

#[test]
fn spawn_below_a_missing_parent_is_rejected() {
    let mut w = World::new();
    let r = w.spawn(Some(EntityRef { index: 0 }), Kind::Text { label: Label::Play });
    assert_eq!(r, Err(StateError::NoSuchEntity));
    assert_eq!(w.len(), 0);
    let a = w.spawn(None, Kind::Text { label: Label::Play }).unwrap();
    w.despawn_recursive(a).unwrap();
    let r = w.spawn(Some(a), Kind::Text { label: Label::Play });
    assert_eq!(r, Err(StateError::NoSuchEntity));
    assert_eq!(w.len(), 1);
}

#[test]
fn despawn_takes_descendants_and_nothing_else() {
    let mut w = World::new();
    let text = Kind::Text { label: Label::Play };
    let root = w.spawn(None, text).unwrap();
    let other = w.spawn(None, text).unwrap();
    let child = w.spawn(Some(root), text).unwrap();
    let grandchild = w.spawn(Some(child), text).unwrap();
    let other_child = w.spawn(Some(other), text).unwrap();
    let second_child = w.spawn(Some(root), text).unwrap();
    assert_eq!(w.despawn_recursive(root), Ok(()));
    assert!(!w.is_alive(root));
    assert!(!w.is_alive(child));
    assert!(!w.is_alive(grandchild));
    assert!(!w.is_alive(second_child));
    assert!(w.is_alive(other));
    assert!(w.is_alive(other_child));
    assert_eq!(w.len(), 6);
    assert_eq!(w.despawn_recursive(root), Err(StateError::NoSuchEntity));
    assert_eq!(w.despawn_recursive(EntityRef { index: 99 }), Err(StateError::NoSuchEntity));
}

#[test]
fn despawn_of_a_child_leaves_the_parent() {
    let mut w = World::new();
    let text = Kind::Text { label: Label::Play };
    let root = w.spawn(None, text).unwrap();
    let child = w.spawn(Some(root), text).unwrap();
    let grandchild = w.spawn(Some(child), text).unwrap();
    assert_eq!(w.despawn_recursive(child), Ok(()));
    assert!(w.is_alive(root));
    assert!(!w.is_alive(child));
    assert!(!w.is_alive(grandchild));
    assert_eq!(w.first_child(root), None);
}

#[test]
fn first_child_is_the_earliest_living_one() {
    let mut w = World::new();
    let text = Kind::Text { label: Label::Play };
    let root = w.spawn(None, text).unwrap();
    assert_eq!(w.first_child(root), None);
    let a = w.spawn(Some(root), text).unwrap();
    let b = w.spawn(Some(root), text).unwrap();
    assert_eq!(w.first_child(root), Some(a));
    w.despawn_recursive(a).unwrap();
    assert_eq!(w.first_child(root), Some(b));
    assert_eq!(w.first_child(b), None);
}

#[test]
fn set_kind_needs_a_living_entity() {
    let mut w = World::new();
    let a = w.spawn(None, Kind::Text { label: Label::Play }).unwrap();
    assert_eq!(w.set_kind(a, Kind::Text { label: Label::Press }), Ok(()));
    assert_eq!(label_of(&w, a), Some(Label::Press));
    let gone = EntityRef { index: 5 };
    assert_eq!(
        w.set_kind(gone, Kind::Text { label: Label::Press }),
        Err(StateError::NoSuchEntity)
    );
}

#[test]
fn label_texts() {
    assert_eq!(Label::Play.as_str(), "Play");
    assert_eq!(Label::Start.as_str(), "Start");
    assert_eq!(Label::Press.as_str(), "Press");
    assert_eq!(label(Interaction::Clicked).as_str(), "Press");
    assert_eq!(label(Interaction::Hovered).as_str(), "Start");
    assert_eq!(label(Interaction::Idle).as_str(), "Start");
}

#[test]
fn styles_answer_interactions() {
    let m = materials();
    assert_eq!(m.style(Interaction::Clicked), VisualStyle { id: 3 });
    assert_eq!(m.style(Interaction::Hovered), VisualStyle { id: 2 });
    assert_eq!(m.style(Interaction::Idle), VisualStyle { id: 1 });
}

#[test]
fn setup_menu_spawns_button_and_label() {
    let mut w = World::new();
    let md = setup_menu(&mut w, &materials());
    assert_eq!(md, MenuData { button_entity: EntityRef { index: 0 } });
    assert_eq!(w.len(), 2);
    assert_eq!(style_of(&w, md.button_entity), Some(VisualStyle { id: 1 }));
    let child = w.first_child(md.button_entity).unwrap();
    assert_eq!(child, EntityRef { index: 1 });
    assert_eq!(label_of(&w, child), Some(Label::Play));
}

#[test]
fn menu_system_restyles_and_reports_clicks() {
    let mut w = World::new();
    let md = setup_menu(&mut w, &materials());
    assert_eq!(menu(&mut w, &materials(), md.button_entity, Interaction::Hovered), Ok(false));
    assert_eq!(style_of(&w, md.button_entity), Some(VisualStyle { id: 2 }));
    assert_eq!(menu(&mut w, &materials(), md.button_entity, Interaction::Idle), Ok(false));
    assert_eq!(style_of(&w, md.button_entity), Some(VisualStyle { id: 1 }));
    assert_eq!(menu(&mut w, &materials(), md.button_entity, Interaction::Clicked), Ok(true));
    assert_eq!(style_of(&w, md.button_entity), Some(VisualStyle { id: 3 }));
    // The label is not the menu system's business.
    assert_eq!(label_of(&w, EntityRef { index: 1 }), Some(Label::Play));
    // The label is no button.
    assert_eq!(
        menu(&mut w, &materials(), EntityRef { index: 1 }, Interaction::Clicked),
        Err(StateError::NoSuchEntity)
    );
}

#[test]
fn button_system_restyles_and_relabels() {
    let mut w = World::new();
    let md = setup_menu(&mut w, &materials());
    let text = EntityRef { index: 1 };
    assert_eq!(button_system(&mut w, &materials(), md.button_entity, Interaction::Hovered), Ok(()));
    assert_eq!(style_of(&w, md.button_entity), Some(VisualStyle { id: 2 }));
    assert_eq!(label_of(&w, text), Some(Label::Start));
    assert_eq!(button_system(&mut w, &materials(), md.button_entity, Interaction::Clicked), Ok(()));
    assert_eq!(style_of(&w, md.button_entity), Some(VisualStyle { id: 3 }));
    assert_eq!(label_of(&w, text), Some(Label::Press));
    assert_eq!(button_system(&mut w, &materials(), md.button_entity, Interaction::Idle), Ok(()));
    assert_eq!(style_of(&w, md.button_entity), Some(VisualStyle { id: 1 }));
    assert_eq!(label_of(&w, text), Some(Label::Start));
}

#[test]
fn button_without_label_is_reported() {
    let mut w = World::new();
    let lone = w.spawn(None, Kind::Button { style: VisualStyle { id: 1 } }).unwrap();
    assert_eq!(
        button_system(&mut w, &materials(), lone, Interaction::Clicked),
        Err(StateError::MissingLabel)
    );
    assert_eq!(style_of(&w, lone), Some(VisualStyle { id: 1 }));
    // A first child that is no text does not count as a label.
    w.spawn(Some(lone), Kind::Movable { visual: VisualStyle { id: 9 } }).unwrap();
    assert_eq!(
        button_system(&mut w, &materials(), lone, Interaction::Clicked),
        Err(StateError::MissingLabel)
    );
    assert_eq!(
        button_system(&mut w, &materials(), EntityRef { index: 7 }, Interaction::Clicked),
        Err(StateError::NoSuchEntity)
    );
}

#[test]
fn cleanup_twice_is_a_double_cleanup() {
    let mut w = World::new();
    let md = setup_menu(&mut w, &materials());
    assert_eq!(cleanup_menu(&mut w, &md), Ok(()));
    assert!(!w.is_alive(md.button_entity));
    assert!(!w.is_alive(EntityRef { index: 1 }));
    assert_eq!(cleanup_menu(&mut w, &md), Err(StateError::DoubleCleanup));
    assert_eq!(w.len(), 2);
}

#[test]
fn setup_game_builds_map_and_player() {
    let mut w = World::new();
    let game = setup_game(&mut w, &assets());
    assert_eq!(game.player, EntityRef { index: 0 });
    assert!(w.is_alive(game.player));
    assert_eq!(w.get(game.player).unwrap().kind, Kind::Movable { visual: VisualStyle { id: 40 } });
    assert_eq!(game.map.layer_count(), 1);
    assert_eq!(game.map.layer(0).unwrap().settings().atlas, AtlasHandle { id: 50 });
}

#[test]
fn application_starts_in_the_menu() {
    let app = App::new(materials(), assets());
    assert_eq!(app.state(), AppState::Menu);
    assert_eq!(app.menu_data(), Some(MenuData { button_entity: EntityRef { index: 0 } }));
    assert!(app.map().is_none());
    assert_eq!(app.player(), None);
    assert!(!app.transition_queued());
    assert_eq!(app.world().len(), 2);
    assert_eq!(app.movement(&keys(false, true, false, false)), None);
}

#[test]
fn click_leads_from_menu_to_game() {
    let mut app = App::new(materials(), assets());
    let button = app.menu_data().unwrap().button_entity;
    assert_eq!(app.tick(&vec![(button, Interaction::Clicked)]), Ok(()));
    assert!(!app.world().is_alive(button));
    assert!(!app.world().is_alive(EntityRef { index: 1 }));
    assert_eq!(app.state(), AppState::InGame);
    assert_eq!(app.menu_data(), None);
    let map = app.map().unwrap();
    assert_eq!(map.layer_count(), 1);
    let player = app.player().unwrap();
    assert!(app.world().is_alive(player));
    assert!(!app.transition_queued());
}

#[test]
fn hovering_does_not_start_the_game() {
    let mut app = App::new(materials(), assets());
    let button = app.menu_data().unwrap().button_entity;
    assert_eq!(app.tick(&vec![(button, Interaction::Hovered)]), Ok(()));
    assert_eq!(app.state(), AppState::Menu);
    assert_eq!(style_of(app.world(), button), Some(VisualStyle { id: 2 }));
    assert_eq!(label_of(app.world(), EntityRef { index: 1 }), Some(Label::Start));
    assert_eq!(app.tick(&vec![(button, Interaction::Idle)]), Ok(()));
    assert_eq!(app.state(), AppState::Menu);
    assert_eq!(style_of(app.world(), button), Some(VisualStyle { id: 1 }));
    assert_eq!(app.tick(&vec![]), Ok(()));
    assert_eq!(app.state(), AppState::Menu);
}

#[test]
fn click_is_queued_until_the_transition_is_made() {
    let mut app = App::new(materials(), assets());
    let button = app.menu_data().unwrap().button_entity;
    assert_eq!(app.interact(button, Interaction::Clicked), Ok(()));
    assert!(app.transition_queued());
    assert_eq!(app.state(), AppState::Menu);
    assert_eq!(style_of(app.world(), button), Some(VisualStyle { id: 3 }));
    assert_eq!(label_of(app.world(), EntityRef { index: 1 }), Some(Label::Press));
    // A second click while the first is in flight adds nothing.
    assert_eq!(app.interact(button, Interaction::Clicked), Ok(()));
    assert!(app.transition_queued());
    assert_eq!(app.transition(), Ok(()));
    assert_eq!(app.state(), AppState::InGame);
    assert_eq!(app.world().len(), 3);
}

#[test]
fn transition_without_a_click_does_nothing() {
    let mut app = App::new(materials(), assets());
    assert_eq!(app.transition(), Ok(()));
    assert_eq!(app.state(), AppState::Menu);
    assert_eq!(app.world().len(), 2);
}

#[test]
fn game_is_the_last_phase() {
    let mut app = App::new(materials(), assets());
    let button = app.menu_data().unwrap().button_entity;
    app.tick(&vec![(button, Interaction::Clicked)]).unwrap();
    let player = app.player().unwrap();
    assert_eq!(app.tick(&vec![(button, Interaction::Clicked)]), Ok(()));
    assert_eq!(app.tick(&vec![(player, Interaction::Clicked)]), Ok(()));
    assert_eq!(app.state(), AppState::InGame);
    assert_eq!(app.player(), Some(player));
    assert_eq!(app.world().len(), 3);
}

#[test]
fn exit_hook_twice_is_a_double_cleanup() {
    let mut app = App::new(materials(), assets());
    assert_eq!(app.cleanup_menu(), Ok(()));
    assert_eq!(app.menu_data(), None);
    assert_eq!(app.state(), AppState::Menu);
    assert_eq!(app.cleanup_menu(), Err(StateError::DoubleCleanup));
}

#[test]
fn transition_after_a_manual_cleanup_is_a_double_cleanup() {
    let mut app = App::new(materials(), assets());
    let button = app.menu_data().unwrap().button_entity;
    app.interact(button, Interaction::Clicked).unwrap();
    app.cleanup_menu().unwrap();
    assert_eq!(app.transition(), Err(StateError::DoubleCleanup));
    assert_eq!(app.state(), AppState::Menu);
    assert!(app.map().is_none());
}

#[test]
fn tick_stops_at_the_first_error() {
    let mut app = App::new(materials(), assets());
    let button = app.menu_data().unwrap().button_entity;
    let stranger = EntityRef { index: 9 };
    let r = app.tick(&vec![
        (button, Interaction::Hovered),
        (stranger, Interaction::Clicked),
        (button, Interaction::Clicked),
    ]);
    assert_eq!(r, Err(StateError::NoSuchEntity));
    assert_eq!(app.state(), AppState::Menu);
    assert!(!app.transition_queued());
    assert_eq!(style_of(app.world(), button), Some(VisualStyle { id: 2 }));
}

#[test]
fn movement_runs_in_the_game() {
    let mut app = App::new(materials(), assets());
    let button = app.menu_data().unwrap().button_entity;
    app.tick(&vec![(button, Interaction::Clicked)]).unwrap();
    let player = app.player().unwrap();
    assert_eq!(
        app.movement(&keys(false, true, false, false)),
        Some((player, Direction { x: 1, y: 0 }))
    );
    assert_eq!(app.movement(&keys(false, false, false, false)), Some((player, Direction { x: 0, y: 0 })));
}

#[test]
fn single_keys_move_along_their_axis() {
    assert_eq!(movement(&keys(false, true, false, false)), Direction { x: 1, y: 0 });
    assert_eq!(movement(&keys(true, false, false, false)), Direction { x: -1, y: 0 });
    assert_eq!(movement(&keys(false, false, true, false)), Direction { x: 0, y: 1 });
    assert_eq!(movement(&keys(false, false, false, true)), Direction { x: 0, y: -1 });
    assert_eq!(movement(&keys(false, true, false, false)).norm_squared(), 1);
}

#[test]
fn opposing_keys_cancel() {
    assert_eq!(movement(&keys(true, true, false, false)), Direction { x: 0, y: 0 });
    assert_eq!(movement(&keys(false, false, true, true)), Direction { x: 0, y: 0 });
    assert_eq!(movement(&keys(true, true, true, true)), Direction { x: 0, y: 0 });
    assert!(movement(&keys(true, true, true, true)).zero());
    assert_eq!(movement(&keys(true, true, true, false)), Direction { x: 0, y: 1 });
    assert_eq!(movement(&keys(true, true, true, true)).norm_squared(), 0);
}

#[test]
fn diagonals_have_length_squared_two() {
    let d = movement(&keys(false, true, true, false));
    assert_eq!(d, Direction { x: 1, y: 1 });
    assert_eq!(d.norm_squared(), 2);
    assert!(!d.zero());
    let d = movement(&keys(true, false, false, true));
    assert_eq!(d, Direction { x: -1, y: -1 });
    assert_eq!(d.norm_squared(), 2);
}

#[test]
fn movement_is_a_function_of_the_keys() {
    for bits in 0u8..16 {
        let k = keys(bits & 1 != 0, bits & 2 != 0, bits & 4 != 0, bits & 8 != 0);
        assert_eq!(movement(&k), movement(&k));
    }
}

#[test]
fn displacement_of_a_single_key_has_the_length_of_the_speed() {
    let speed: f32 = 100.0;
    let dt: f32 = 1.0;
    let d = movement(&keys(false, true, false, false));
    let norm = (d.norm_squared() as f32).sqrt();
    let dx = d.x as f32 / norm * speed * dt;
    let dy = d.y as f32 / norm * speed * dt;
    assert_eq!((dx, dy), (100.0, 0.0));
    assert_eq!((dx * dx + dy * dy).sqrt(), speed);
}

#[test]
fn arrows_are_read_from_the_keyboard_state() {
    let mut input: Input<KeyCode> = Input::default();
    assert_eq!(read_arrows(&input), keys(false, false, false, false));
    input.press(KeyCode::Left);
    assert_eq!(read_arrows(&input), keys(true, false, false, false));
    input.press(KeyCode::Up);
    assert_eq!(read_arrows(&input), keys(true, false, true, false));
    input.release(KeyCode::Left);
    input.press(KeyCode::Right);
    input.press(KeyCode::Down);
    assert_eq!(read_arrows(&input), keys(false, true, true, true));
}

#[test]
fn other_keys_are_no_arrows() {
    let mut input: Input<KeyCode> = Input::default();
    input.press(KeyCode::A);
    input.press(KeyCode::Space);
    input.press(KeyCode::Return);
    assert_eq!(read_arrows(&input), keys(false, false, false, false));
}

#[test]
fn movement_system_follows_the_keyboard_in_the_game() {
    let mut input: Input<KeyCode> = Input::default();
    input.press(KeyCode::Right);
    input.press(KeyCode::Down);
    let mut app = App::new(materials(), assets());
    assert_eq!(movement_system(&app, &input), None);
    let button = app.menu_data().unwrap().button_entity;
    app.tick(&vec![(button, Interaction::Clicked)]).unwrap();
    let player = app.player().unwrap();
    assert_eq!(movement_system(&app, &input), Some((player, Direction { x: 1, y: -1 })));
    input.press(KeyCode::Left);
    assert_eq!(movement_system(&app, &input), Some((player, Direction { x: 0, y: -1 })));
}
