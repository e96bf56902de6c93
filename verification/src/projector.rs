//! Frame projector: folds one frame's create/update/delete lists into the
//! registry.
//!
//! For one frame the lists apply in a fixed order — creations, then
//! updates, then deletions — and within each list in the order given by
//! the frame. The whole effect is specified by [`frame_step`]; the
//! executable [`apply_frame`] is proved to compute exactly that. Any
//! update or delete naming an actor the registry never tracked is a
//! silent no-op, and no input aborts frame processing.

use vstd::prelude::*;
use vstd::map::*;

use crate::data::{
    ActorId, AttrValue, AttrValueView, ClassId, Creation, Frame, FrameView, PaletteColor, Side,
    Update, UpdateView, PALETTE_SIZE,
};
use crate::registry::{Entity, EntityView, PlayerData, PlayerView, Registry, RegistryView};
use crate::registry::{next_slot, player_link, strip_links};
use crate::schema::RoleMap;

verus! {

/// `m` with `v` under `k` only when nothing is keyed by `k`.
pub open spec fn insert_if_absent(
    m: Map<ActorId, EntityView>,
    k: ActorId,
    v: EntityView,
) -> Map<ActorId, EntityView> {
    if m.contains_key(k) {
        m
    } else {
        m.insert(k, v)
    }
}

/// A freshly created player: default name, no color, no team, no car.
pub open spec fn default_player() -> EntityView {
    EntityView::Player(PlayerView { name: "Unknown"@, color: None, team: None, car: None })
}

/// The palette slot `side`'s next color is drawn from.
pub open spec fn palette_counter(rv: RegistryView, side: Side) -> u8 {
    match side {
        Side::First => rv.next_color_first,
        Side::Second => rv.next_color_second,
    }
}

/// `rv` with `side`'s allocation state replaced.
pub open spec fn with_counter(rv: RegistryView, side: Side, v: u8) -> RegistryView {
    match side {
        Side::First => RegistryView { next_color_first: v, ..rv },
        Side::Second => RegistryView { next_color_second: v, ..rv },
    }
}

/// Both sides' allocation state names a palette slot that exists.
pub open spec fn counters_ok(rv: RegistryView) -> bool {
    rv.next_color_first < PALETTE_SIZE && rv.next_color_second < PALETTE_SIZE
}

/// Effect of a ball creation: the ball's identifier is recorded the first
/// time it is observed and kept stable afterwards; a ball entity is
/// seeded under it if none is live.
pub open spec fn ball_created(rv: RegistryView, actor: ActorId) -> RegistryView {
    match rv.ball_actor {
        None => RegistryView {
            ball_actor: Some(actor),
            entities: insert_if_absent(rv.entities, actor, EntityView::Ball(None)),
            ..rv
        },
        Some(b) => if b == actor {
            RegistryView {
                entities: insert_if_absent(rv.entities, actor, EntityView::Ball(None)),
                ..rv
            }
        } else {
            rv
        },
    }
}

/// Effect of a team creation: the actor is recorded as "the" instance
/// standing for `side`, and a team entity is seeded if none is live.
pub open spec fn team_created(rv: RegistryView, side: Side, actor: ActorId) -> RegistryView {
    let with_team = match side {
        Side::First => RegistryView { team_first: Some(actor), ..rv },
        Side::Second => RegistryView { team_second: Some(actor), ..rv },
    };
    RegistryView {
        entities: insert_if_absent(rv.entities, actor, EntityView::Team(side)),
        ..with_team
    }
}

/// Effect of one creation entry on the registry.
pub open spec fn creation_step(rv: RegistryView, roles: RoleMap, c: Creation) -> RegistryView {
    let r1 = if roles.ball == Some(c.class) {
        ball_created(rv, c.actor)
    } else {
        rv
    };
    let r2 = if roles.car == Some(c.class) {
        RegistryView { entities: r1.entities.insert(c.actor, EntityView::Car(None)), ..r1 }
    } else {
        r1
    };
    let r3 = if roles.team_first == Some(c.class) {
        team_created(r2, Side::First, c.actor)
    } else {
        r2
    };
    let r4 = if roles.team_second == Some(c.class) {
        team_created(r3, Side::Second, c.actor)
    } else {
        r3
    };
    if roles.player == Some(c.class) {
        RegistryView { entities: insert_if_absent(r4.entities, c.actor, default_player()), ..r4 }
    } else {
        r4
    }
}

/// Effect of a team-assignment resolved to `side` on player `actor`: the
/// side is set, and a color is allocated from `side`'s palette the first
/// time only — an already-assigned color is never overwritten.
pub open spec fn team_assigned(rv: RegistryView, actor: ActorId, side: Side) -> RegistryView {
    if rv.entities.contains_key(actor) {
        match rv.entities[actor] {
            EntityView::Player(p) => if p.color is None {
                let col = PaletteColor { side, slot: palette_counter(rv, side) };
                let rv1 = with_counter(rv, side, next_slot(palette_counter(rv, side)));
                RegistryView {
                    entities: rv1.entities.insert(
                        actor,
                        EntityView::Player(PlayerView { team: Some(side), color: Some(col), ..p }),
                    ),
                    ..rv1
                }
            } else {
                RegistryView {
                    entities: rv.entities.insert(
                        actor,
                        EntityView::Player(PlayerView { team: Some(side), ..p }),
                    ),
                    ..rv
                }
            },
            _ => rv,
        }
    } else {
        rv
    }
}

/// Team-assignment dispatch: the referenced actor is compared against the
/// recorded team instances by identity; anything else is ignored.
pub open spec fn update_team(rv: RegistryView, u: UpdateView) -> RegistryView {
    match u.value {
        AttrValueView::ActorRef(t) => if rv.team_first == Some(t) {
            team_assigned(rv, u.actor, Side::First)
        } else if rv.team_second == Some(t) {
            team_assigned(rv, u.actor, Side::Second)
        } else {
            rv
        },
        _ => rv,
    }
}

/// Display-name dispatch: the player's name is set verbatim.
pub open spec fn update_name(rv: RegistryView, u: UpdateView) -> RegistryView {
    if rv.entities.contains_key(u.actor) {
        match (rv.entities[u.actor], u.value) {
            (EntityView::Player(p), AttrValueView::Text(s)) => RegistryView {
                entities: rv.entities.insert(u.actor, EntityView::Player(PlayerView { name: s, ..p })),
                ..rv
            },
            _ => rv,
        }
    } else {
        rv
    }
}

/// Car-ownership dispatch: the update is addressed to the car and
/// references the owning player; that player's link is set to this car,
/// and any other player's link to it is dropped first, so a car is owned
/// by at most one player.
pub open spec fn update_owner(rv: RegistryView, u: UpdateView) -> RegistryView {
    if rv.entities.contains_key(u.actor) && rv.entities[u.actor] is Car {
        match u.value {
            AttrValueView::ActorRef(po) => if rv.entities.contains_key(po) {
                match rv.entities[po] {
                    EntityView::Player(p) => RegistryView {
                        entities: strip_links(rv.entities, u.actor).insert(
                            po,
                            EntityView::Player(PlayerView { car: Some(u.actor), ..p }),
                        ),
                        ..rv
                    },
                    _ => rv,
                }
            } else {
                rv
            },
            _ => rv,
        }
    } else {
        rv
    }
}

/// Rigid-body dispatch: the stored transform of the addressed car or
/// ball is overwritten with the new value.
pub open spec fn update_rigid(rv: RegistryView, u: UpdateView) -> RegistryView {
    if rv.entities.contains_key(u.actor) {
        match (rv.entities[u.actor], u.value) {
            (EntityView::Car(_), AttrValueView::Rigid(t)) => RegistryView {
                entities: rv.entities.insert(u.actor, EntityView::Car(Some(t))),
                ..rv
            },
            (EntityView::Ball(_), AttrValueView::Rigid(t)) => RegistryView {
                entities: rv.entities.insert(u.actor, EntityView::Ball(Some(t))),
                ..rv
            },
            _ => rv,
        }
    } else {
        rv
    }
}

/// Property-specific dispatch of one update, by its class identifier.
pub open spec fn dispatch_update(rv: RegistryView, roles: RoleMap, u: UpdateView) -> RegistryView {
    if roles.player_team == Some(u.class) {
        update_team(rv, u)
    } else if roles.player_name == Some(u.class) {
        update_name(rv, u)
    } else if roles.car_owner == Some(u.class) {
        update_owner(rv, u)
    } else if roles.rigid_body == Some(u.class) {
        update_rigid(rv, u)
    } else {
        rv
    }
}

/// Demolish check, run on every update in addition to the dispatch above:
/// the victim's entity is removed whatever it is, and links to it are
/// dropped.
pub open spec fn demolition(rv: RegistryView, u: UpdateView) -> RegistryView {
    match u.value {
        AttrValueView::Demolition(v) => RegistryView {
            entities: strip_links(rv.entities.remove(v), v),
            ..rv
        },
        _ => rv,
    }
}

/// Effect of one update entry on the registry.
pub open spec fn update_step(rv: RegistryView, roles: RoleMap, u: UpdateView) -> RegistryView {
    demolition(dispatch_update(rv, roles, u), u)
}

/// Effect of one deletion on the registry: the entity is removed, links
/// to it are dropped, and deleting a player cascades to its linked car.
pub open spec fn delete_step(rv: RegistryView, actor: ActorId) -> RegistryView {
    if rv.entities.contains_key(actor) {
        let removed = rv.entities[actor];
        let m1 = strip_links(rv.entities.remove(actor), actor);
        match player_link(removed) {
            Some(c) => RegistryView { entities: strip_links(m1.remove(c), c), ..rv },
            None => RegistryView { entities: m1, ..rv },
        }
    } else {
        rv
    }
}

/// The creation list applied in order.
pub open spec fn creations_fold(rv: RegistryView, roles: RoleMap, s: Seq<Creation>) -> RegistryView
    decreases s.len(),
{
    if s.len() == 0 {
        rv
    } else {
        creation_step(creations_fold(rv, roles, s.drop_last()), roles, s.last())
    }
}

/// The update list applied in order.
pub open spec fn updates_fold(rv: RegistryView, roles: RoleMap, s: Seq<UpdateView>) -> RegistryView
    decreases s.len(),
{
    if s.len() == 0 {
        rv
    } else {
        update_step(updates_fold(rv, roles, s.drop_last()), roles, s.last())
    }
}

/// The deletion list applied in order.
pub open spec fn deletions_fold(rv: RegistryView, s: Seq<ActorId>) -> RegistryView
    decreases s.len(),
{
    if s.len() == 0 {
        rv
    } else {
        delete_step(deletions_fold(rv, s.drop_last()), s.last())
    }
}

/// Effect of one whole frame: creations, then updates, then deletions.
pub open spec fn frame_step(rv: RegistryView, roles: RoleMap, f: FrameView) -> RegistryView {
    deletions_fold(updates_fold(creations_fold(rv, roles, f.creations), roles, f.updates), f.deletions)
}

/// A whole sequence of frames applied in order.
pub open spec fn frames_fold(rv: RegistryView, roles: RoleMap, fs: Seq<FrameView>) -> RegistryView
    decreases fs.len(),
{
    if fs.len() == 0 {
        rv
    } else {
        frame_step(frames_fold(rv, roles, fs.drop_last()), roles, fs.last())
    }
}

/// Whether `class` is the identifier `role` resolved to.
fn class_matches(role: Option<ClassId>, class: ClassId) -> (b: bool)
    ensures
        b == (role == Some(class)),
{
    match role {
        Some(r) => r == class,
        None => false,
    }
}

/// Apply one creation entry to the registry.
pub fn apply_creation(reg: &mut Registry, roles: &RoleMap, c: &Creation)
    requires
        old(reg).inv(),
    ensures
        final(reg).inv(),
        final(reg)@ == creation_step(old(reg)@, *roles, *c),
{
    let ghost rv0 = reg@;
    if class_matches(roles.ball, c.class) {
        match reg.ball_actor() {
            None => {
                reg.record_ball_actor(c.actor);
                reg.put_if_absent(c.actor, Entity::Ball(None));
            }
            Some(b) => {
                if b == c.actor {
                    reg.put_if_absent(c.actor, Entity::Ball(None));
                }
            }
        }
    }
    proof {
        let r1 = if roles.ball == Some(c.class) {
            ball_created(rv0, c.actor)
        } else {
            rv0
        };
        assert(reg@ =~= r1);
    }
    let ghost rv1 = reg@;
    if class_matches(roles.car, c.class) {
        reg.put(c.actor, Entity::Car(None));
    }
    let ghost rv2 = reg@;
    if class_matches(roles.team_first, c.class) {
        reg.record_team_actor(Side::First, c.actor);
        reg.put_if_absent(c.actor, Entity::Team(Side::First));
    }
    proof {
        let r3 = if roles.team_first == Some(c.class) {
            team_created(rv2, Side::First, c.actor)
        } else {
            rv2
        };
        assert(reg@ =~= r3);
    }
    let ghost rv3 = reg@;
    if class_matches(roles.team_second, c.class) {
        reg.record_team_actor(Side::Second, c.actor);
        reg.put_if_absent(c.actor, Entity::Team(Side::Second));
    }
    proof {
        let r4 = if roles.team_second == Some(c.class) {
            team_created(rv3, Side::Second, c.actor)
        } else {
            rv3
        };
        assert(reg@ =~= r4);
    }
    if class_matches(roles.player, c.class) {
        reg.put_if_absent(
            c.actor,
            Entity::Player(PlayerData {
                name: unknown_name(),
                color: None,
                team: None,
                car: None,
            }),
        );
    }
    proof {
        assert(reg@ =~= creation_step(rv0, *roles, *c));
    }
}

/// The default display name of a player not yet named.
fn unknown_name() -> (s: String)
    ensures
        s@ == "Unknown"@,
{
    "Unknown".to_owned()
}

/// Set player `actor`'s team to `side`, allocating its color from
/// `side`'s palette if none was assigned yet.
fn assign_team(reg: &mut Registry, actor: ActorId, side: Side)
    requires
        old(reg).inv(),
        counters_ok(old(reg)@),
    ensures
        final(reg).inv(),
        final(reg)@ == team_assigned(old(reg)@, actor, side),
{
    let details: Option<PlayerData> = match reg.get(actor) {
        Some(Entity::Player(p)) => Some(PlayerData {
            name: p.name.clone(),
            color: p.color,
            team: p.team,
            car: p.car,
        }),
        _ => None,
    };
    match details {
        Some(p) => {
            match p.color {
                None => {
                    let col = reg.allocate_color(side);
                    reg.put(actor, Entity::Player(PlayerData {
                        name: p.name,
                        color: Some(col),
                        team: Some(side),
                        car: p.car,
                    }));
                }
                Some(c) => {
                    reg.put(actor, Entity::Player(PlayerData {
                        name: p.name,
                        color: Some(c),
                        team: Some(side),
                        car: p.car,
                    }));
                }
            }
        }
        None => {}
    }
    proof {
        assert(reg@ =~= team_assigned(old(reg)@, actor, side));
    }
}

/// Apply one update entry to the registry: the property-specific
/// dispatch, then the demolish check.
pub fn apply_update(reg: &mut Registry, roles: &RoleMap, u: &Update)
    requires
        old(reg).inv(),
        counters_ok(old(reg)@),
    ensures
        final(reg).inv(),
        final(reg)@ == update_step(old(reg)@, *roles, u@),
{
    let ghost rv0 = reg@;
    if class_matches(roles.player_team, u.class) {
        match &u.value {
            AttrValue::ActorRef(t) => {
                let team_ref: ActorId = *t;
                let first = reg.team_actor(Side::First);
                let second = reg.team_actor(Side::Second);
                let side: Option<Side> = match first {
                    Some(a) => if a == team_ref {
                        Some(Side::First)
                    } else {
                        match second {
                            Some(b) => if b == team_ref {
                                Some(Side::Second)
                            } else {
                                None
                            },
                            None => None,
                        }
                    },
                    None => match second {
                        Some(b) => if b == team_ref {
                            Some(Side::Second)
                        } else {
                            None
                        },
                        None => None,
                    },
                };
                match side {
                    Some(s) => assign_team(reg, u.actor, s),
                    None => {}
                }
            }
            _ => {}
        }
        proof {
            assert(reg@ =~= update_team(rv0, u@));
        }
    } else if class_matches(roles.player_name, u.class) {
        match &u.value {
            AttrValue::Text(s) => {
                let renamed: Option<PlayerData> = match reg.get(u.actor) {
                    Some(Entity::Player(p)) => Some(PlayerData {
                        name: s.clone(),
                        color: p.color,
                        team: p.team,
                        car: p.car,
                    }),
                    _ => None,
                };
                match renamed {
                    Some(p) => reg.put(u.actor, Entity::Player(p)),
                    None => {}
                }
            }
            _ => {}
        }
        proof {
            assert(reg@ =~= update_name(rv0, u@));
        }
    } else if class_matches(roles.car_owner, u.class) {
        match &u.value {
            AttrValue::ActorRef(po) => {
                let owner: ActorId = *po;
                let addressed_car: bool = match reg.get(u.actor) {
                    Some(Entity::Car(_)) => true,
                    _ => false,
                };
                if addressed_car {
                    let linked: Option<PlayerData> = match reg.get(owner) {
                        Some(Entity::Player(p)) => Some(PlayerData {
                            name: p.name.clone(),
                            color: p.color,
                            team: p.team,
                            car: Some(u.actor),
                        }),
                        _ => None,
                    };
                    match linked {
                        Some(p) => {
                            reg.clear_links(u.actor);
                            reg.put(owner, Entity::Player(p));
                        }
                        None => {}
                    }
                }
            }
            _ => {}
        }
        proof {
            assert(reg@ =~= update_owner(rv0, u@));
        }
    } else if class_matches(roles.rigid_body, u.class) {
        match &u.value {
            AttrValue::Rigid(t) => {
                let kind: Option<bool> = match reg.get(u.actor) {
                    Some(Entity::Car(_)) => Some(true),
                    Some(Entity::Ball(_)) => Some(false),
                    _ => None,
                };
                match kind {
                    Some(true) => reg.put(u.actor, Entity::Car(Some(*t))),
                    Some(false) => reg.put(u.actor, Entity::Ball(Some(*t))),
                    None => {}
                }
            }
            _ => {}
        }
        proof {
            assert(reg@ =~= update_rigid(rv0, u@));
        }
    }
    proof {
        assert(reg@ =~= dispatch_update(rv0, *roles, u@));
    }
    let ghost rv1 = reg@;
    match &u.value {
        AttrValue::Demolition(v) => {
            let victim: ActorId = *v;
            let removed = reg.take(victim);
            proof {
                if removed is None {
                    assert(rv1.entities.remove(victim) =~= rv1.entities);
                }
            }
            reg.clear_links(victim);
            proof {
                assert(reg@ =~= demolition(rv1, u@));
            }
        }
        _ => {}
    }
    proof {
        assert(reg@ =~= update_step(rv0, *roles, u@));
    }
}

/// Apply one deletion to the registry.
pub fn apply_delete(reg: &mut Registry, actor: ActorId)
    requires
        old(reg).inv(),
    ensures
        final(reg).inv(),
        final(reg)@ == delete_step(old(reg)@, actor),
{
    let removed = reg.take(actor);
    match removed {
        Some(e) => {
            reg.clear_links(actor);
            match e {
                Entity::Player(p) => {
                    match p.car {
                        Some(c) => {
                            let ghost mid = reg@;
                            let gone = reg.take(c);
                            proof {
                                if gone is None {
                                    assert(mid.entities.remove(c) =~= mid.entities);
                                }
                            }
                            reg.clear_links(c);
                        }
                        None => {}
                    }
                }
                _ => {}
            }
        }
        None => {}
    }
    proof {
        assert(reg@ =~= delete_step(old(reg)@, actor));
    }
}

proof fn lemma_creation_step_counters(rv: RegistryView, roles: RoleMap, c: Creation)
    requires
        counters_ok(rv),
    ensures
        counters_ok(creation_step(rv, roles, c)),
{
}

proof fn lemma_update_step_counters(rv: RegistryView, roles: RoleMap, u: UpdateView)
    requires
        counters_ok(rv),
    ensures
        counters_ok(update_step(rv, roles, u)),
{
}

proof fn lemma_delete_step_counters(rv: RegistryView, actor: ActorId)
    requires
        counters_ok(rv),
    ensures
        counters_ok(delete_step(rv, actor)),
{
}

/// Apply one whole frame to the registry: its creations, then its
/// updates, then its deletions, each list in the order the frame gives.
pub fn apply_frame(reg: &mut Registry, roles: &RoleMap, frame: &Frame)
    requires
        old(reg).inv(),
        counters_ok(old(reg)@),
    ensures
        final(reg).inv(),
        counters_ok(final(reg)@),
        final(reg)@ == frame_step(old(reg)@, *roles, frame@),
{
    let ghost rv0 = reg@;
    let n1 = frame.creations.len();
    let mut i: usize = 0;
    while i < n1
        invariant
            reg.inv(),
            counters_ok(reg@),
            n1 == frame.creations@.len(),
            i <= n1,
            reg@ == creations_fold(rv0, *roles, frame.creations@.take(i as int)),
        decreases n1 - i,
    {
        proof {
            assert(frame.creations@.take(i as int + 1).drop_last() =~= frame.creations@.take(
                i as int,
            ));
            lemma_creation_step_counters(reg@, *roles, frame.creations@[i as int]);
        }
        apply_creation(reg, roles, &frame.creations[i]);
        i = i + 1;
    }
    proof {
        assert(frame.creations@.take(n1 as int) =~= frame.creations@);
    }
    let ghost rv1 = reg@;
    let n2 = frame.updates.len();
    let mut j: usize = 0;
    while j < n2
        invariant
            reg.inv(),
            counters_ok(reg@),
            n2 == frame.updates@.len(),
            n2 == frame@.updates.len(),
            j <= n2,
            reg@ == updates_fold(rv1, *roles, frame@.updates.take(j as int)),
        decreases n2 - j,
    {
        proof {
            assert(frame@.updates.take(j as int + 1).drop_last() =~= frame@.updates.take(j as int));
            assert(frame@.updates[j as int] == frame.updates@[j as int]@);
            lemma_update_step_counters(reg@, *roles, frame@.updates[j as int]);
        }
        apply_update(reg, roles, &frame.updates[j]);
        j = j + 1;
    }
    proof {
        assert(frame@.updates.take(n2 as int) =~= frame@.updates);
    }
    let ghost rv2 = reg@;
    let n3 = frame.deletions.len();
    let mut k: usize = 0;
    while k < n3
        invariant
            reg.inv(),
            counters_ok(reg@),
            n3 == frame.deletions@.len(),
            k <= n3,
            reg@ == deletions_fold(rv2, frame.deletions@.take(k as int)),
        decreases n3 - k,
    {
        proof {
            assert(frame.deletions@.take(k as int + 1).drop_last() =~= frame.deletions@.take(
                k as int,
            ));
            lemma_delete_step_counters(reg@, frame.deletions@[k as int]);
        }
        apply_delete(reg, frame.deletions[k]);
        k = k + 1;
    }
    proof {
        assert(frame.deletions@.take(n3 as int) =~= frame.deletions@);
        assert(reg@ == frame_step(rv0, *roles, frame@));
    }
}

} // verus!
