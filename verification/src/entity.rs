//! The entity arena: entities live in slots addressed by stable integer
//! handles, each with at most one parent that was spawned before it.

use vstd::prelude::*;

verus! {

/// A stable handle to an entity: the number of its slot in the arena.
#[derive(Clone, Copy, Debug, PartialEq, Eq, Structural)]
pub struct EntityRef {
    pub index: usize,
}

/// An opaque reference to a renderable appearance. The core hands it around
/// and never looks behind it.
#[derive(Clone, Copy, Debug, PartialEq, Eq, Structural)]
pub struct VisualStyle {
    pub id: u64,
}

/// The texts a button label can show.
#[derive(Clone, Copy, Debug, PartialEq, Eq, Structural)]
pub enum Label {
    Play,
    Start,
    Press,
}

impl Label {
    /// The characters of the label.
    pub open spec fn text(self) -> Seq<char> {
        match self {
            Label::Play => "Play"@,
            Label::Start => "Start"@,
            Label::Press => "Press"@,
        }
    }

    /// The label as a string.
    pub fn as_str(&self) -> (s: &'static str)
        ensures
            s@ == self.text(),
    {
        match self {
            Label::Play => "Play",
            Label::Start => "Start",
            Label::Press => "Press",
        }
    }
}

/// What an entity is.
#[derive(Clone, Copy, Debug, PartialEq, Eq)]
pub enum Kind {
    /// A clickable button drawn in a style.
    Button { style: VisualStyle },
    /// A piece of text.
    Text { label: Label },
    /// A sprite that moves about the play field.
    Movable { visual: VisualStyle },
}

/// One slot of the arena.
#[derive(Clone, Copy, Debug, PartialEq, Eq)]
pub struct Entity {
    pub alive: bool,
    pub parent: Option<usize>,
    pub kind: Kind,
}

/// What can go wrong in the arena and the state machine built on it.
#[derive(Clone, Copy, Debug, PartialEq, Eq, Structural)]
pub enum StateError {
    /// The menu's exit hook ran again without the menu having been entered
    /// in between: its button is already gone. This is a logic error of the
    /// caller, who must not carry on.
    DoubleCleanup,
    /// A handle names no living entity.
    NoSuchEntity,
    /// A button has no living text child to show its label.
    MissingLabel,
}

/// Whether `e` names a living entity of `w`.
pub open spec fn alive(w: Seq<Entity>, e: int) -> bool {
    0 <= e < w.len() && w[e].alive
}

/// Whether slot `i` is `e` itself or hangs below it through parents.
pub open spec fn descends(w: Seq<Entity>, i: int, e: int) -> bool
    decreases i,
{
    i == e || (0 <= i < w.len() && match w[i].parent {
        Some(p) => p < i && descends(w, p as int, e),
        None => false,
    })
}

/// Whether `c` is a living child of `e`.
pub open spec fn child_of(w: Seq<Entity>, c: int, e: int) -> bool {
    alive(w, c) && w[c].parent == Some(e as usize) && 0 <= e <= usize::MAX
}

/// Every parent was spawned before its child.
pub open spec fn parents_first(w: Seq<Entity>) -> bool {
    forall|i: int|
        0 <= i < w.len() ==> match (#[trigger] w[i]).parent {
            Some(p) => p < i,
            None => true,
        }
}

/// What holds of every arena: parents come first, and the slots can be
/// counted.
pub open spec fn arena_wf(w: Seq<Entity>) -> bool {
    parents_first(w) && w.len() <= usize::MAX
}

/// The arena after `e` and everything below it is despawned: those slots
/// are dead, every other slot is untouched, and no slot is given up, so
/// handles stay good.
pub open spec fn despawned(w: Seq<Entity>, e: int) -> Seq<Entity> {
    Seq::new(
        w.len(),
        |i: int|
            if descends(w, i, e) {
                Entity { alive: false, ..w[i] }
            } else {
                w[i]
            },
    )
}

/// The arena of entities.
pub struct World {
    entities: Vec<Entity>,
}

impl View for World {
    type V = Seq<Entity>;

    closed spec fn view(&self) -> Seq<Entity> {
        self.entities@
    }
}

impl World {
    /// The arena's invariant: see [`arena_wf`].
    pub open spec fn wf(&self) -> bool {
        arena_wf(self@)
    }

    /// An arena without entities.
    pub fn new() -> (w: World)
        ensures
            w.wf(),
            w@ == Seq::<Entity>::empty(),
    {
        World { entities: Vec::new() }
    }

    /// The number of slots ever handed out.
    pub fn len(&self) -> (n: usize)
        ensures
            n == self@.len(),
    {
        self.entities.len()
    }

    /// Whether `e` names a living entity.
    pub fn is_alive(&self, e: EntityRef) -> (b: bool)
        ensures
            b == alive(self@, e.index as int),
    {
        e.index < self.entities.len() && self.entities[e.index].alive
    }

    /// The entity that `e` names, if it lives.
    pub fn get(&self, e: EntityRef) -> (r: Option<Entity>)
        ensures
            r == (if alive(self@, e.index as int) {
                Some(self@[e.index as int])
            } else {
                None
            }),
    {
        if self.is_alive(e) {
            Some(self.entities[e.index])
        } else {
            None
        }
    }

    /// Spawns an entity without a parent in a fresh slot.
    pub fn spawn_root(&mut self, kind: Kind) -> (e: EntityRef)
        requires
            old(self).wf(),
        ensures
            final(self).wf(),
            e.index == old(self)@.len(),
            final(self)@ == old(self)@.push(Entity { alive: true, parent: None, kind }),
    {
        let index: usize = self.entities.len();
        self.entities.push(Entity { alive: true, parent: None, kind });
        assert(self.entities@.len() == self.entities.len());
        EntityRef { index }
    }

    /// Spawns an entity in a fresh slot, below `parent` if one is given. A
    /// parent that does not live is reported as
    /// [`StateError::NoSuchEntity`] and nothing is spawned.
    pub fn spawn(&mut self, parent: Option<EntityRef>, kind: Kind) -> (r: Result<
        EntityRef,
        StateError,
    >)
        requires
            old(self).wf(),
        ensures
            final(self).wf(),
            old(self)@.len() <= usize::MAX,
            match parent {
                Some(p) if !alive(old(self)@, p.index as int) => {
                    &&& r == Err::<EntityRef, StateError>(StateError::NoSuchEntity)
                    &&& final(self)@ == old(self)@
                },
                _ => {
                    &&& r == Ok::<EntityRef, StateError>(
                        EntityRef { index: old(self)@.len() as usize },
                    )
                    &&& final(self)@ == old(self)@.push(
                        Entity {
                            alive: true,
                            parent: match parent {
                                Some(p) => Some(p.index),
                                None => None,
                            },
                            kind,
                        },
                    )
                },
            },
    {
        assert(self.entities@.len() == self.entities.len());
        let parent_index: Option<usize> = match parent {
            Some(p) => {
                if !self.is_alive(p) {
                    return Err(StateError::NoSuchEntity);
                }
                Some(p.index)
            },
            None => None,
        };
        let index: usize = self.entities.len();
        self.entities.push(Entity { alive: true, parent: parent_index, kind });
        assert(self.entities@.len() == self.entities.len());
        Ok(EntityRef { index })
    }

    /// The first living child of `e` in spawning order.
    pub fn first_child(&self, e: EntityRef) -> (r: Option<EntityRef>)
        ensures
            match r {
                Some(c) => child_of(self@, c.index as int, e.index as int) && forall|j: int|
                    0 <= j < c.index ==> !child_of(self@, j, e.index as int),
                None => forall|j: int| !child_of(self@, j, e.index as int),
            },
    {
        let mut i: usize = 0;
        while i < self.entities.len()
            invariant
                i <= self.entities@.len(),
                forall|j: int| 0 <= j < i ==> !child_of(self@, j, e.index as int),
            decreases self.entities@.len() - i,
        {
            let slot = self.entities[i];
            let is_child = match slot.parent {
                Some(p) => p == e.index,
                None => false,
            };
            if slot.alive && is_child {
                return Some(EntityRef { index: i });
            }
            i = i + 1;
        }
        None
    }

    /// Replaces what the living entity `e` is. A handle that names no living
    /// entity is reported as [`StateError::NoSuchEntity`] and changes
    /// nothing.
    pub fn set_kind(&mut self, e: EntityRef, kind: Kind) -> (r: Result<
        (),
        StateError,
    >)
        requires
            old(self).wf(),
        ensures
            final(self).wf(),
            alive(old(self)@, e.index as int) ==> r == Ok::<(), StateError>(()) && final(self)@
                == old(self)@.update(
                e.index as int,
                Entity { kind, ..old(self)@[e.index as int] },
            ),
            !alive(old(self)@, e.index as int) ==> r == Err::<(), StateError>(
                StateError::NoSuchEntity,
            ) && final(self)@ == old(self)@,
    {
        if !self.is_alive(e) {
            return Err(StateError::NoSuchEntity);
        }
        let slot = self.entities[e.index];
        self.entities.set(e.index, Entity { kind, ..slot });
        Ok(())
    }

    /// Despawns `e` and everything below it. A handle that names no living
    /// entity is reported as [`StateError::NoSuchEntity`] and changes
    /// nothing.
    pub fn despawn_recursive(&mut self, e: EntityRef) -> (r: Result<(), StateError>)
        requires
            old(self).wf(),
        ensures
            final(self).wf(),
            alive(old(self)@, e.index as int) ==> r == Ok::<(), StateError>(()) && final(self)@
                == despawned(old(self)@, e.index as int),
            !alive(old(self)@, e.index as int) ==> r == Err::<(), StateError>(
                StateError::NoSuchEntity,
            ) && final(self)@ == old(self)@,
    {
        if !self.is_alive(e) {
            return Err(StateError::NoSuchEntity);
        }
        let ghost before = self@;
        let ghost target = despawned(before, e.index as int);
        let n: usize = self.entities.len();
        // Parents come first, so by the time a slot is reached the fate of
        // its parent is settled: a slot below `e` has a parent that is `e`
        // or was struck already.
        let mut struck: Vec<bool> = Vec::new();
        let mut i: usize = 0;
        while i < n
            invariant
                parents_first(before),
                target == despawned(before, e.index as int),
                n == before.len(),
                i <= n,
                self@.len() == n,
                struck@.len() == i,
                forall|j: int| 0 <= j < i ==> struck@[j] == descends(before, j, e.index as int),
                forall|j: int| 0 <= j < i ==> self@[j] == target[j],
                forall|j: int| i <= j < n ==> self@[j] == before[j],
            decreases n - i,
        {
            let slot = self.entities[i];
            let below = i == e.index || match slot.parent {
                Some(p) => p < i && struck[p],
                None => false,
            };
            proof {
                assert(below == descends(before, i as int, e.index as int));
            }
            if below {
                self.entities.set(i, Entity { alive: false, ..slot });
            }
            struck.push(below);
            i = i + 1;
        }
        assert(self@ =~= target);
        Ok(())
    }
}

/// Once an entity is despawned it no longer lives, so despawning it again
/// finds nothing to despawn.
pub proof fn lemma_despawned_dead(w: Seq<Entity>, e: int)
    ensures
        !alive(despawned(w, e), e),
        despawned(w, e).len() == w.len(),
        arena_wf(w) ==> arena_wf(despawned(w, e)),
        forall|i: int| alive(despawned(w, e), i) <==> alive(w, i) && !descends(w, i, e),
{
}

} // verus!
