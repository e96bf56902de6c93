//! Snapshot adapter: the read-only view handed to the rendering
//! collaborator each tick.
//!
//! A snapshot is an ordered list of marks — one per player whose linked
//! car has a known transform, in registry storage order, then the ball if
//! its transform is known. Producing it never mutates the registry, and
//! an empty registry yields an empty snapshot.

use vstd::prelude::*;
use vstd::map::*;

use crate::data::{ActorId, PaletteColor, Transform};
use crate::registry::{Entity, EntityView, Registry, RegistryView};

verus! {

/// What a mark depicts.
#[derive(Debug, Clone, Copy, PartialEq, Eq, Structural)]
pub enum MarkKind {
    PlayerMark,
    BallMark,
}

/// One renderable mark: its kind, the simulation-space transform to draw
/// it at, and the player's palette color — `None` for the ball and for a
/// player whose color is not yet assigned.
#[derive(Debug, Clone, Copy, PartialEq, Eq)]
pub struct Mark {
    pub kind: MarkKind,
    pub transform: Transform,
    pub color: Option<PaletteColor>,
}

/// The marks one entity contributes: a player with a linked car whose
/// transform is known yields one mark; everything else yields none.
pub open spec fn mark_of(e: EntityView, m: Map<ActorId, EntityView>) -> Seq<Mark> {
    match e {
        EntityView::Player(p) => match p.car {
            Some(c) => if m.contains_key(c) {
                match m[c] {
                    EntityView::Car(Some(t)) => seq![
                        Mark { kind: MarkKind::PlayerMark, transform: t, color: p.color },
                    ],
                    _ => Seq::empty(),
                }
            } else {
                Seq::empty()
            },
            None => Seq::empty(),
        },
        _ => Seq::empty(),
    }
}

/// The player marks an entry sequence yields, in order.
pub open spec fn player_marks(
    entries: Seq<(ActorId, EntityView)>,
    m: Map<ActorId, EntityView>,
) -> Seq<Mark>
    decreases entries.len(),
{
    if entries.len() == 0 {
        Seq::empty()
    } else {
        player_marks(entries.drop_last(), m) + mark_of(entries.last().1, m)
    }
}

/// The ball's mark, if its transform is known.
pub open spec fn ball_mark(rv: RegistryView) -> Seq<Mark> {
    match rv.ball_actor {
        Some(b) => if rv.entities.contains_key(b) {
            match rv.entities[b] {
                EntityView::Ball(Some(t)) => seq![
                    Mark { kind: MarkKind::BallMark, transform: t, color: None },
                ],
                _ => Seq::empty(),
            }
        } else {
            Seq::empty()
        },
        None => Seq::empty(),
    }
}

/// The whole snapshot: player marks in storage order, then the ball.
pub open spec fn snapshot_spec(
    entries: Seq<(ActorId, EntityView)>,
    rv: RegistryView,
) -> Seq<Mark> {
    player_marks(entries, rv.entities) + ball_mark(rv)
}

impl Registry {
    /// Produce the render snapshot. Never mutates the registry; an empty
    /// registry renders nothing.
    pub fn snapshot(&self) -> (out: Vec<Mark>)
        requires
            self.inv(),
        ensures
            out@ == snapshot_spec(self.entries_seq(), self@),
    {
        let mut out: Vec<Mark> = Vec::new();
        let n = self.entry_count();
        let mut i: usize = 0;
        while i < n
            invariant
                self.inv(),
                n == self.entries_seq().len(),
                i <= n,
                out@ == player_marks(self.entries_seq().take(i as int), self@.entities),
            decreases n - i,
        {
            proof {
                assert(self.entries_seq().take(i as int + 1).drop_last() =~= self.entries_seq()
                    .take(i as int));
            }
            let entry = self.entry_at(i);
            match entry.1 {
                Entity::Player(p) => {
                    match p.car {
                        Some(c) => {
                            match self.get(c) {
                                Some(Entity::Car(Some(t))) => {
                                    out.push(Mark {
                                        kind: MarkKind::PlayerMark,
                                        transform: *t,
                                        color: p.color,
                                    });
                                }
                                _ => {}
                            }
                        }
                        None => {}
                    }
                }
                _ => {}
            }
            i = i + 1;
        }
        proof {
            assert(self.entries_seq().take(n as int) =~= self.entries_seq());
        }
        match self.ball_actor() {
            Some(b) => {
                match self.get(b) {
                    Some(Entity::Ball(Some(t))) => {
                        out.push(Mark { kind: MarkKind::BallMark, transform: *t, color: None });
                    }
                    _ => {}
                }
            }
            None => {}
        }
        proof {
            assert(out@ =~= snapshot_spec(self.entries_seq(), self@));
        }
        out
    }
}

} // verus!
