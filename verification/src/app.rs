//! The application's state machine: a menu phase and a play phase, the
//! transition from the one to the other, and the context both live in.

use vstd::prelude::*;
use crate::entity::{alive, arena_wf, Entity, EntityRef, StateError, World};
use crate::game::{setup_game, tile_map_view, with_player, GameAssets, GameData};
use crate::input::{movement, Direction, InputSnapshot};
use crate::menu::{
    button_outcome, button_system, cleanup_menu, cleanup_outcome, setup_menu, with_menu,
    ButtonMaterials, Interaction, MenuData,
};
use crate::tilemap::{TileMap, TileMapView};

verus! {

/// The phase the application is in. Exactly one phase is active at a time.
#[derive(Clone, Copy, Debug, PartialEq, Eq, Hash, Structural)]
pub enum AppState {
    /// The menu is shown. This is where the application starts.
    Menu,
    /// The game is played. Nothing leads out of this phase.
    InGame,
}

/// The mathematical content of what the play phase owns.
pub struct GameView {
    pub map: TileMapView,
    pub player: EntityRef,
}

/// The mathematical content of the application context.
pub struct AppView {
    pub state: AppState,
    pub materials: ButtonMaterials,
    pub assets: GameAssets,
    pub world: Seq<Entity>,
    pub menu: Option<MenuData>,
    pub game: Option<GameView>,
    pub queued: bool,
}

impl AppView {
    /// The context at startup: the menu is entered, its button and label
    /// are the only entities, and no transition is under way.
    pub open spec fn start(materials: ButtonMaterials, assets: GameAssets) -> AppView {
        AppView {
            state: AppState::Menu,
            materials,
            assets,
            world: with_menu(Seq::empty(), materials.normal),
            menu: Some(MenuData { button_entity: EntityRef { index: 0 } }),
            game: None,
            queued: false,
        }
    }

    /// The context's invariant. What a phase owns exists only while the
    /// phase is active: menu data only in the menu, the map and the player
    /// exactly in the game. A transition can only be under way in the menu.
    pub open spec fn wf(self) -> bool {
        &&& arena_wf(self.world)
        &&& self.menu.is_some() ==> self.state == AppState::Menu
        &&& self.game.is_some() <==> self.state == AppState::InGame
        &&& self.queued ==> self.state == AppState::Menu
        &&& self.game matches Some(g) ==> g.map.wf() && alive(self.world, g.player.index as int)
    }

    /// The menu's update hook for one element whose interaction changed.
    /// While the menu is active the button is restyled and relabelled, and a
    /// click asks for the transition to the game; a transition that is
    /// already under way stays the only one. Outside the menu the hook does
    /// not run.
    pub open spec fn interact(self, element: EntityRef, interaction: Interaction) -> Result<
        AppView,
        StateError,
    > {
        if self.state != AppState::Menu {
            Ok(self)
        } else {
            match button_outcome(self.world, self.materials, element.index as int, interaction) {
                Ok(w) => Ok(
                    AppView {
                        world: w,
                        queued: self.queued || interaction == Interaction::Clicked,
                        ..self
                    },
                ),
                Err(e) => Err(e),
            }
        }
    }

    /// The menu's exit hook: the button and all below it are despawned and
    /// the menu data is given up. Without menu data, or with the button
    /// gone already, the hook has run before.
    pub open spec fn cleanup_menu(self) -> Result<AppView, StateError> {
        match self.menu {
            Some(menu_data) => match cleanup_outcome(self.world, menu_data) {
                Ok(w) => Ok(AppView { world: w, menu: None, ..self }),
                Err(e) => Err(e),
            },
            None => Err(StateError::DoubleCleanup),
        }
    }

    /// The play phase's enter hook: a fresh map, the player's sprite, and
    /// the phase itself.
    pub open spec fn enter_game(self) -> AppView {
        AppView {
            state: AppState::InGame,
            world: with_player(self.world, self.assets.sprite),
            game: Some(
                GameView {
                    map: tile_map_view(self.assets.atlas),
                    player: EntityRef { index: self.world.len() as usize },
                },
            ),
            queued: false,
            ..self
        }
    }

    /// The transition a click asked for: the menu's exit hook, then the
    /// game's enter hook, as one step. Without a request nothing happens.
    pub open spec fn transition(self) -> Result<AppView, StateError> {
        if !self.queued {
            Ok(self)
        } else {
            match self.cleanup_menu() {
                Ok(a) => Ok(a.enter_game()),
                Err(e) => Err(e),
            }
        }
    }

    /// The context after the update hook has had the first `n` of `changed`
    /// in turn, and the error that ended the run, if one did: after an
    /// error nothing more is handled.
    pub open spec fn interact_all(self, changed: Seq<(EntityRef, Interaction)>, n: int) -> (
        AppView,
        Option<StateError>,
    )
        decreases n,
    {
        if n <= 0 {
            (self, None)
        } else {
            let (a, failed) = self.interact_all(changed, n - 1);
            if failed.is_some() {
                (a, failed)
            } else {
                match a.interact(changed[n - 1].0, changed[n - 1].1) {
                    Ok(b) => (b, None),
                    Err(e) => (a, Some(e)),
                }
            }
        }
    }

    /// One tick: every changed interaction goes through the update hook in
    /// turn, then a requested transition is made. The first error ends the
    /// tick; what was done before it stays done.
    pub open spec fn tick(self, changed: Seq<(EntityRef, Interaction)>) -> (
        AppView,
        Result<(), StateError>,
    ) {
        let (a, failed) = self.interact_all(changed, changed.len() as int);
        match failed {
            Some(e) => (a, Err(e)),
            None => match a.transition() {
                Ok(b) => (b, Ok(())),
                Err(e) => (a, Err(e)),
            },
        }
    }
}

/// The application context: the active phase and everything the phases
/// own. It is made once at startup and handed to every update.
pub struct App {
    state: AppState,
    materials: ButtonMaterials,
    assets: GameAssets,
    world: World,
    menu: Option<MenuData>,
    game: Option<GameData>,
    queued: bool,
}

impl View for App {
    type V = AppView;

    closed spec fn view(&self) -> AppView {
        AppView {
            state: self.state,
            materials: self.materials,
            assets: self.assets,
            world: self.world@,
            menu: self.menu,
            game: match self.game {
                Some(g) => Some(GameView { map: g.map@, player: g.player }),
                None => None,
            },
            queued: self.queued,
        }
    }
}

impl App {
    /// The context's invariant: see [`AppView::wf`].
    pub open spec fn wf(&self) -> bool {
        self@.wf()
    }

    /// Starts the application in the menu and runs the menu's enter hook.
    pub fn new(materials: ButtonMaterials, assets: GameAssets) -> (app: App)
        ensures
            app.wf(),
            app@ == AppView::start(materials, assets),
    {
        let mut world = World::new();
        let menu_data = setup_menu(&mut world, &materials);
        App {
            state: AppState::Menu,
            materials,
            assets,
            world,
            menu: Some(menu_data),
            game: None,
            queued: false,
        }
    }

    /// The active phase.
    pub fn state(&self) -> (s: AppState)
        ensures
            s == self@.state,
    {
        self.state
    }

    /// The entities.
    pub fn world(&self) -> (w: &World)
        ensures
            w@ == self@.world,
    {
        &self.world
    }

    /// What the menu owns, while it is shown.
    pub fn menu_data(&self) -> (m: Option<MenuData>)
        ensures
            m == self@.menu,
    {
        self.menu
    }

    /// The map, while the game is played.
    pub fn map(&self) -> (m: Option<&TileMap>)
        ensures
            m.is_some() == self@.game.is_some(),
            m matches Some(map) ==> map@ == self@.game.unwrap().map,
    {
        match &self.game {
            Some(g) => Some(&g.map),
            None => None,
        }
    }

    /// The player's sprite, while the game is played.
    pub fn player(&self) -> (p: Option<EntityRef>)
        ensures
            p == (match self@.game {
                Some(g) => Some(g.player),
                None => None,
            }),
    {
        match &self.game {
            Some(g) => Some(g.player),
            None => None,
        }
    }

    /// Whether a transition to the game has been asked for and not made
    /// yet.
    pub fn transition_queued(&self) -> (q: bool)
        ensures
            q == self@.queued,
    {
        self.queued
    }

    /// The menu's update hook for one element whose interaction changed:
    /// see [`AppView::interact`]. An error changes nothing.
    pub fn interact(&mut self, element: EntityRef, interaction: Interaction) -> (r: Result<
        (),
        StateError,
    >)
        requires
            old(self).wf(),
        ensures
            final(self).wf(),
            match old(self)@.interact(element, interaction) {
                Ok(a) => r == Ok::<(), StateError>(()) && final(self)@ == a,
                Err(e) => r == Err::<(), StateError>(e) && final(self)@ == old(self)@,
            },
    {
        match self.state {
            AppState::Menu => {
                match button_system(&mut self.world, &self.materials, element, interaction) {
                    Ok(()) => {
                        if interaction == Interaction::Clicked {
                            self.queued = true;
                        }
                        Ok(())
                    },
                    Err(e) => Err(e),
                }
            },
            AppState::InGame => Ok(()),
        }
    }

    /// The menu's exit hook: see [`AppView::cleanup_menu`]. Running it
    /// twice without the menu having been entered in between is reported as
    /// [`StateError::DoubleCleanup`], on which the caller must stop. An
    /// error changes nothing.
    pub fn cleanup_menu(&mut self) -> (r: Result<(), StateError>)
        requires
            old(self).wf(),
        ensures
            final(self).wf(),
            match old(self)@.cleanup_menu() {
                Ok(a) => r == Ok::<(), StateError>(()) && final(self)@ == a,
                Err(e) => r == Err::<(), StateError>(e) && final(self)@ == old(self)@,
            },
    {
        match self.menu {
            Some(menu_data) => {
                proof {
                    crate::entity::lemma_despawned_dead(
                        self.world@,
                        menu_data.button_entity.index as int,
                    );
                }
                match cleanup_menu(&mut self.world, &menu_data) {
                    Ok(()) => {
                        self.menu = None;
                        Ok(())
                    },
                    Err(e) => Err(e),
                }
            },
            None => Err(StateError::DoubleCleanup),
        }
    }

    /// Makes the transition a click asked for: see
    /// [`AppView::transition`]. The two hooks run as one step; if the exit
    /// hook fails, nothing changes.
    pub fn transition(&mut self) -> (r: Result<(), StateError>)
        requires
            old(self).wf(),
        ensures
            final(self).wf(),
            match old(self)@.transition() {
                Ok(a) => r == Ok::<(), StateError>(()) && final(self)@ == a,
                Err(e) => r == Err::<(), StateError>(e) && final(self)@ == old(self)@,
            },
    {
        if !self.queued {
            return Ok(());
        }
        match self.cleanup_menu() {
            Ok(()) => {},
            Err(e) => {
                return Err(e);
            },
        }
        let game = setup_game(&mut self.world, &self.assets);
        self.game = Some(game);
        self.state = AppState::InGame;
        self.queued = false;
        Ok(())
    }

    /// One tick of the state machine: see [`AppView::tick`]. The
    /// interactions are handled in turn; the first error ends the tick and
    /// is handed back, with the interactions before it already handled.
    pub fn tick(&mut self, changed: &Vec<(EntityRef, Interaction)>) -> (r: Result<(), StateError>)
        requires
            old(self).wf(),
        ensures
            final(self).wf(),
            (final(self)@, r) == old(self)@.tick(changed@),
    {
        let mut i: usize = 0;
        while i < changed.len()
            invariant
                self.wf(),
                i <= changed@.len(),
                old(self)@.interact_all(changed@, i as int) == (self@, None::<StateError>),
            decreases changed@.len() - i,
        {
            let (element, interaction) = changed[i];
            match self.interact(element, interaction) {
                Ok(()) => {},
                Err(e) => {
                    proof {
                        lemma_interact_all_stops(
                            old(self)@,
                            changed@,
                            i + 1,
                            changed@.len() as int,
                        );
                    }
                    return Err(e);
                },
            }
            i = i + 1;
        }
        self.transition()
    }

    /// The movement system, which runs only while the game is played: the
    /// player's sprite and the direction in which the keys move it, or
    /// `None` in the menu.
    pub fn movement(&self, input: &InputSnapshot) -> (r: Option<(EntityRef, Direction)>)
        ensures
            r == (match self@.game {
                Some(g) => Some((g.player, input.direction())),
                None => None,
            }),
    {
        match &self.game {
            Some(g) => Some((g.player, movement(input))),
            None => None,
        }
    }
}

/// Once an interaction has failed, the run has ended: whatever follows is
/// not handled.
pub proof fn lemma_interact_all_stops(
    a: AppView,
    changed: Seq<(EntityRef, Interaction)>,
    k: int,
    n: int,
)
    requires
        0 <= k <= n,
        a.interact_all(changed, k).1.is_some(),
    ensures
        a.interact_all(changed, n) == a.interact_all(changed, k),
    decreases n,
{
    if n > k {
        lemma_interact_all_stops(a, changed, k, n - 1);
    }
}

/// Every step of the state machine keeps the context sound.
pub proof fn lemma_steps_keep_wf(a: AppView, element: EntityRef, interaction: Interaction)
    requires
        a.wf(),
        a.world.len() < usize::MAX,
    ensures
        a.interact(element, interaction) matches Ok(b) ==> b.wf(),
        a.cleanup_menu() matches Ok(b) ==> b.wf(),
        a.transition() matches Ok(b) ==> b.wf(),
{
    if let Some(menu_data) = a.menu {
        crate::entity::lemma_despawned_dead(a.world, menu_data.button_entity.index as int);
    }
    crate::tilemap::lemma_add_layer_wf(
        TileMapView::new(0),
        0,
        crate::game::tile_map_settings(a.assets.atlas),
    );
    crate::tilemap::lemma_insert_tile_wf(
        TileMapView::new(0).add_layer(0, crate::game::tile_map_settings(a.assets.atlas)),
        0,
        (16, 16),
        crate::tile::TileSpec {
            sprite_index: 0,
            z_order: 0,
            tint: crate::tile::Color { r: 0, g: 255, b: 0, a: 255 },
        },
    );
}

/// Exactly one phase is active, and what a phase owns exists only while the
/// phase is active: menu data only in the menu, the map and the player
/// exactly in the game.
pub proof fn lemma_one_phase_active(a: AppView)
    requires
        a.wf(),
    ensures
        (a.state == AppState::Menu) != (a.state == AppState::InGame),
        a.menu is Some ==> a.state == AppState::Menu,
        a.game is Some <==> a.state == AppState::InGame,
        a.queued ==> a.state == AppState::Menu,
{
}

/// The menu's exit hook cannot run twice in a row: once it has run, running
/// it again reports a double cleanup.
pub proof fn lemma_double_cleanup(a: AppView)
    requires
        a.cleanup_menu() is Ok,
    ensures
        a.cleanup_menu().unwrap().cleanup_menu() == Err::<AppView, StateError>(
            StateError::DoubleCleanup,
        ),
{
}

/// The transition is made exactly once. A click in the menu leads to the
/// game with the next transition; in the game neither interactions nor
/// transitions change anything, so nothing leads back or onward.
pub proof fn lemma_transition_once(a: AppView, element: EntityRef, interaction: Interaction)
    requires
        a.wf(),
    ensures
        a.transition() matches Ok(b) ==> (a.queued ==> b.state == AppState::InGame && b.menu
            is None && b.game is Some && !b.queued) && (!a.queued ==> b == a),
        a.state == AppState::InGame ==> a.interact(element, interaction) == Ok::<
            AppView,
            StateError,
        >(a) && a.transition() == Ok::<AppView, StateError>(a),
        (a.state == AppState::Menu && a.interact(element, Interaction::Clicked) is Ok)
            ==> a.interact(element, Interaction::Clicked).unwrap().queued,
{
}

} // verus!
