//! Laws the frame projector obeys, stated and proved over the
//! specification model.
//!
//! The central ones: the registry's semantic invariant — in particular
//! that no player's car link ever dangles — is preserved by every frame
//! (cascade invariant); a player's color never changes once assigned
//! (color stability); and events naming an unknown actor leave the
//! registry untouched for that actor (tolerance).

use vstd::prelude::*;
use vstd::map::*;

use crate::data::{ActorId, AttrValueView, Creation, FrameView, PaletteColor, Side, Transform, UpdateView};
use crate::registry::{
    color_ok, colors_in_palette, empty_registry_view, link_ok, links_unique, links_valid,
    player_link, strip_link, strip_links, wf, EntityView, PlayerView, RegistryView,
};
use crate::projector::{
    ball_created, creation_step, creations_fold, default_player, delete_step, deletions_fold,
    demolition, dispatch_update, frame_step, frames_fold, palette_counter, team_assigned,
    team_created, update_name, update_owner, update_rigid, update_step, updates_fold,
};
use crate::schema::RoleMap;

verus! {

/// A map's link structure, uniqueness and colors survive inserting a
/// fresh entity that links no car.
proof fn lemma_maps_insert_fresh(m: Map<ActorId, EntityView>, a: ActorId, e: EntityView)
    requires
        links_valid(m),
        links_unique(m),
        colors_in_palette(m),
        !m.contains_key(a),
        player_link(e) is None,
        color_ok(e),
    ensures
        links_valid(m.insert(a, e)),
        links_unique(m.insert(a, e)),
        colors_in_palette(m.insert(a, e)),
{
    let m2 = m.insert(a, e);
    assert forall|x: ActorId| #[trigger] m2.contains_key(x) implies link_ok(m2, x) by {
        if x != a {
            assert(link_ok(m, x));
            match player_link(m[x]) {
                Some(c) => {
                    assert(c != a);
                }
                None => {}
            }
        }
    }
    assert forall|x1: ActorId, x2: ActorId|
        #![trigger player_link(m2[x1]), player_link(m2[x2])]
        m2.contains_key(x1) && m2.contains_key(x2) && x1 != x2 && player_link(m2[x1]) is Some
            implies player_link(m2[x1]) != player_link(m2[x2]) by {
        if x1 != a && x2 != a {
            assert(player_link(m[x1]) == player_link(m2[x1]));
            assert(player_link(m[x2]) == player_link(m2[x2]));
        }
    }
    assert forall|x: ActorId| #[trigger] m2.contains_key(x) implies color_ok(m2[x]) by {
        if x != a {
            assert(color_ok(m[x]));
        }
    }
}

/// The same survives overwriting any entry with a car.
proof fn lemma_maps_insert_car(m: Map<ActorId, EntityView>, a: ActorId, t: Option<Transform>)
    requires
        links_valid(m),
        links_unique(m),
        colors_in_palette(m),
    ensures
        links_valid(m.insert(a, EntityView::Car(t))),
        links_unique(m.insert(a, EntityView::Car(t))),
        colors_in_palette(m.insert(a, EntityView::Car(t))),
{
    let m2 = m.insert(a, EntityView::Car(t));
    assert forall|x: ActorId| #[trigger] m2.contains_key(x) implies link_ok(m2, x) by {
        if x != a {
            assert(link_ok(m, x));
        }
    }
    assert forall|x1: ActorId, x2: ActorId|
        #![trigger player_link(m2[x1]), player_link(m2[x2])]
        m2.contains_key(x1) && m2.contains_key(x2) && x1 != x2 && player_link(m2[x1]) is Some
            implies player_link(m2[x1]) != player_link(m2[x2]) by {
        if x1 != a && x2 != a {
            assert(player_link(m[x1]) == player_link(m2[x1]));
            assert(player_link(m[x2]) == player_link(m2[x2]));
        }
    }
    assert forall|x: ActorId| #[trigger] m2.contains_key(x) implies color_ok(m2[x]) by {
        if x != a {
            assert(color_ok(m[x]));
        }
    }
}

/// The same survives replacing a live player with one that keeps its car
/// link and carries a valid color.
proof fn lemma_maps_replace_player(m: Map<ActorId, EntityView>, a: ActorId, p2: PlayerView)
    requires
        links_valid(m),
        links_unique(m),
        colors_in_palette(m),
        m.contains_key(a),
        m[a] is Player,
        player_link(m[a]) == p2.car,
        color_ok(EntityView::Player(p2)),
    ensures
        links_valid(m.insert(a, EntityView::Player(p2))),
        links_unique(m.insert(a, EntityView::Player(p2))),
        colors_in_palette(m.insert(a, EntityView::Player(p2))),
{
    let m2 = m.insert(a, EntityView::Player(p2));
    assert forall|x: ActorId| #[trigger] m2.contains_key(x) implies link_ok(m2, x) by {
        assert(link_ok(m, x) || x == a);
        if x == a {
            assert(link_ok(m, a));
            match player_link(m2[a]) {
                Some(c) => {
                    assert(m.contains_key(c) && m[c] is Car);
                    assert(c != a);
                }
                None => {}
            }
        } else {
            match player_link(m[x]) {
                Some(c) => {
                    if c == a {
                        assert(m[a] is Car);
                    }
                }
                None => {}
            }
        }
    }
    assert forall|x1: ActorId, x2: ActorId|
        #![trigger player_link(m2[x1]), player_link(m2[x2])]
        m2.contains_key(x1) && m2.contains_key(x2) && x1 != x2 && player_link(m2[x1]) is Some
            implies player_link(m2[x1]) != player_link(m2[x2]) by {
        assert(player_link(m2[x1]) == player_link(m[x1]));
        assert(player_link(m2[x2]) == player_link(m[x2]));
    }
    assert forall|x: ActorId| #[trigger] m2.contains_key(x) implies color_ok(m2[x]) by {
        if x != a {
            assert(color_ok(m[x]));
        }
    }
}

/// The same survives removing an entry and dropping every link to it.
proof fn lemma_maps_remove_strip(m: Map<ActorId, EntityView>, v: ActorId)
    requires
        links_valid(m),
        links_unique(m),
        colors_in_palette(m),
    ensures
        links_valid(strip_links(m.remove(v), v)),
        links_unique(strip_links(m.remove(v), v)),
        colors_in_palette(strip_links(m.remove(v), v)),
{
    let m2 = strip_links(m.remove(v), v);
    assert forall|x: ActorId| #[trigger] m2.contains_key(x) implies link_ok(m2, x) by {
        assert(m.contains_key(x) && x != v);
        assert(link_ok(m, x));
        assert(m2[x] == strip_link(m[x], v));
        match player_link(m2[x]) {
            Some(c) => {
                assert(player_link(m[x]) == Some(c) && c != v);
                assert(m.contains_key(c) && m[c] is Car);
                assert(m2.contains_key(c));
                assert(m2[c] == strip_link(m[c], v));
                assert(m2[c] is Car);
            }
            None => {}
        }
    }
    assert forall|x1: ActorId, x2: ActorId|
        #![trigger player_link(m2[x1]), player_link(m2[x2])]
        m2.contains_key(x1) && m2.contains_key(x2) && x1 != x2 && player_link(m2[x1]) is Some
            implies player_link(m2[x1]) != player_link(m2[x2]) by {
        assert(m2[x1] == strip_link(m[x1], v));
        assert(m2[x2] == strip_link(m[x2], v));
        assert(player_link(m2[x1]) == player_link(m[x1]));
        match player_link(m2[x2]) {
            Some(c2) => {
                assert(player_link(m[x2]) == Some(c2));
            }
            None => {}
        }
    }
    assert forall|x: ActorId| #[trigger] m2.contains_key(x) implies color_ok(m2[x]) by {
        assert(color_ok(m[x]));
        assert(m2[x] == strip_link(m[x], v));
    }
}

/// The same survives dropping every link to one car.
proof fn lemma_maps_strip(m: Map<ActorId, EntityView>, v: ActorId)
    requires
        links_valid(m),
        links_unique(m),
        colors_in_palette(m),
    ensures
        links_valid(strip_links(m, v)),
        links_unique(strip_links(m, v)),
        colors_in_palette(strip_links(m, v)),
{
    let m2 = strip_links(m, v);
    assert forall|x: ActorId| #[trigger] m2.contains_key(x) implies link_ok(m2, x) by {
        assert(m.contains_key(x));
        assert(link_ok(m, x));
        assert(m2[x] == strip_link(m[x], v));
        match player_link(m2[x]) {
            Some(c) => {
                assert(player_link(m[x]) == Some(c));
                assert(m.contains_key(c) && m[c] is Car);
                assert(m2[c] == strip_link(m[c], v));
            }
            None => {}
        }
    }
    assert forall|x1: ActorId, x2: ActorId|
        #![trigger player_link(m2[x1]), player_link(m2[x2])]
        m2.contains_key(x1) && m2.contains_key(x2) && x1 != x2 && player_link(m2[x1]) is Some
            implies player_link(m2[x1]) != player_link(m2[x2]) by {
        assert(m2[x1] == strip_link(m[x1], v));
        assert(m2[x2] == strip_link(m[x2], v));
        assert(player_link(m2[x1]) == player_link(m[x1]));
        match player_link(m2[x2]) {
            Some(c2) => {
                assert(player_link(m[x2]) == Some(c2));
            }
            None => {}
        }
    }
    assert forall|x: ActorId| #[trigger] m2.contains_key(x) implies color_ok(m2[x]) by {
        assert(color_ok(m[x]));
        assert(m2[x] == strip_link(m[x], v));
    }
}

/// Shorthand: the three map-level invariant parts.
spec fn maps_ok(m: Map<ActorId, EntityView>) -> bool {
    links_valid(m) && links_unique(m) && colors_in_palette(m)
}

proof fn lemma_wf_ball_created(rv: RegistryView, a: ActorId)
    requires
        wf(rv),
    ensures
        wf(ball_created(rv, a)),
{
    let r = ball_created(rv, a);
    let m = rv.entities;
    if rv.ball_actor is None || rv.ball_actor == Some(a) {
        if !m.contains_key(a) {
            lemma_maps_insert_fresh(m, a, EntityView::Ball(None));
            assert forall|x: ActorId| #[trigger] r.entities.contains_key(x) implies (r.entities[x]
                is Ball ==> r.ball_actor == Some(x)) by {
                if x != a {
                    assert(m.contains_key(x));
                    if m[x] is Ball {
                        assert(rv.ball_actor == Some(x));
                    }
                }
            }
        } else {
            assert(r.entities == m);
            assert forall|x: ActorId| #[trigger] r.entities.contains_key(x) implies (r.entities[x]
                is Ball ==> r.ball_actor == Some(x)) by {
                if m[x] is Ball {
                    assert(rv.ball_actor == Some(x));
                }
            }
        }
    }
}

proof fn lemma_wf_team_created(rv: RegistryView, side: Side, a: ActorId)
    requires
        wf(rv),
    ensures
        wf(team_created(rv, side, a)),
{
    let r = team_created(rv, side, a);
    let m = rv.entities;
    if !m.contains_key(a) {
        lemma_maps_insert_fresh(m, a, EntityView::Team(side));
        assert forall|x: ActorId| #[trigger] r.entities.contains_key(x) implies (r.entities[x]
            is Ball ==> r.ball_actor == Some(x)) by {
            if x != a {
                assert(m.contains_key(x));
            }
        }
    }
}

proof fn lemma_wf_creation_step(rv: RegistryView, roles: RoleMap, c: Creation)
    requires
        wf(rv),
    ensures
        wf(creation_step(rv, roles, c)),
{
    let r1 = if roles.ball == Some(c.class) {
        ball_created(rv, c.actor)
    } else {
        rv
    };
    if roles.ball == Some(c.class) {
        lemma_wf_ball_created(rv, c.actor);
    }
    let r2 = if roles.car == Some(c.class) {
        RegistryView { entities: r1.entities.insert(c.actor, EntityView::Car(None)), ..r1 }
    } else {
        r1
    };
    if roles.car == Some(c.class) {
        lemma_maps_insert_car(r1.entities, c.actor, None);
        assert forall|x: ActorId| #[trigger] r2.entities.contains_key(x) implies (r2.entities[x]
            is Ball ==> r2.ball_actor == Some(x)) by {
            if x != c.actor {
                assert(r1.entities.contains_key(x));
            }
        }
    }
    let r3 = if roles.team_first == Some(c.class) {
        team_created(r2, Side::First, c.actor)
    } else {
        r2
    };
    if roles.team_first == Some(c.class) {
        lemma_wf_team_created(r2, Side::First, c.actor);
    }
    let r4 = if roles.team_second == Some(c.class) {
        team_created(r3, Side::Second, c.actor)
    } else {
        r3
    };
    if roles.team_second == Some(c.class) {
        lemma_wf_team_created(r3, Side::Second, c.actor);
    }
    if roles.player == Some(c.class) && !r4.entities.contains_key(c.actor) {
        lemma_maps_insert_fresh(r4.entities, c.actor, default_player());
        let r5 = creation_step(rv, roles, c);
        assert forall|x: ActorId| #[trigger] r5.entities.contains_key(x) implies (r5.entities[x]
            is Ball ==> r5.ball_actor == Some(x)) by {
            if x != c.actor {
                assert(r4.entities.contains_key(x));
            }
        }
    }
}

proof fn lemma_wf_team_assigned(rv: RegistryView, actor: ActorId, side: Side)
    requires
        wf(rv),
    ensures
        wf(team_assigned(rv, actor, side)),
{
    let r = team_assigned(rv, actor, side);
    let m = rv.entities;
    if m.contains_key(actor) {
        match m[actor] {
            EntityView::Player(p) => {
                assert(color_ok(m[actor]));
                let p2 = if p.color is None {
                    PlayerView {
                        team: Some(side),
                        color: Some(PaletteColor { side, slot: palette_counter(rv, side) }),
                        ..p
                    }
                } else {
                    PlayerView { team: Some(side), ..p }
                };
                assert(player_link(m[actor]) == p2.car);
                lemma_maps_replace_player(m, actor, p2);
                assert forall|x: ActorId| #[trigger] r.entities.contains_key(x) implies (
                    r.entities[x] is Ball ==> r.ball_actor == Some(x)) by {
                    if x != actor {
                        assert(m.contains_key(x));
                    }
                }
            }
            _ => {}
        }
    }
}

proof fn lemma_wf_update_name(rv: RegistryView, u: UpdateView)
    requires
        wf(rv),
    ensures
        wf(update_name(rv, u)),
{
    let r = update_name(rv, u);
    let m = rv.entities;
    if m.contains_key(u.actor) {
        match (m[u.actor], u.value) {
            (EntityView::Player(p), AttrValueView::Text(s)) => {
                let p2 = PlayerView { name: s, ..p };
                lemma_maps_replace_player(m, u.actor, p2);
                assert forall|x: ActorId| #[trigger] r.entities.contains_key(x) implies (
                    r.entities[x] is Ball ==> r.ball_actor == Some(x)) by {
                    if x != u.actor {
                        assert(m.contains_key(x));
                    }
                }
            }
            _ => {}
        }
    }
}

proof fn lemma_wf_update_owner(rv: RegistryView, u: UpdateView)
    requires
        wf(rv),
    ensures
        wf(update_owner(rv, u)),
{
    let r = update_owner(rv, u);
    let m = rv.entities;
    if m.contains_key(u.actor) && m[u.actor] is Car {
        match u.value {
            AttrValueView::ActorRef(po) => {
                if m.contains_key(po) {
                    match m[po] {
                        EntityView::Player(p) => {
                            let car = u.actor;
                            let ms = strip_links(m, car);
                            lemma_maps_strip(m, car);
                            let p2 = PlayerView { car: Some(car), ..p };
                            let m2 = ms.insert(po, EntityView::Player(p2));
                            assert(po != car);
                            assert(ms[car] is Car);
                            assert(ms[po] is Player);
                            // no player of ms links `car` any more
                            assert(forall|x: ActorId|
                                #[trigger] ms.contains_key(x) ==> player_link(ms[x]) != Some(car));
                            assert forall|x: ActorId| #[trigger] m2.contains_key(x) implies link_ok(
                                m2,
                                x,
                            ) by {
                                if x == po {
                                    assert(m2[po] == EntityView::Player(p2));
                                    assert(m2.contains_key(car) && m2[car] is Car);
                                } else {
                                    assert(link_ok(ms, x));
                                    match player_link(ms[x]) {
                                        Some(cx) => {
                                            assert(ms[cx] is Car);
                                            assert(cx != po);
                                        }
                                        None => {}
                                    }
                                }
                            }
                            assert forall|x1: ActorId, x2: ActorId|
                                #![trigger player_link(m2[x1]), player_link(m2[x2])]
                                m2.contains_key(x1) && m2.contains_key(x2) && x1 != x2
                                    && player_link(m2[x1]) is Some implies player_link(m2[x1])
                                != player_link(m2[x2]) by {
                                if x1 == po {
                                    assert(player_link(m2[x2]) == player_link(ms[x2]));
                                    assert(player_link(ms[x2]) != Some(car));
                                } else if x2 == po {
                                    assert(player_link(m2[x1]) == player_link(ms[x1]));
                                    assert(player_link(ms[x1]) != Some(car));
                                } else {
                                    assert(player_link(m2[x1]) == player_link(ms[x1]));
                                    assert(player_link(m2[x2]) == player_link(ms[x2]));
                                }
                            }
                            assert forall|x: ActorId| #[trigger] m2.contains_key(x) implies
                                color_ok(m2[x]) by {
                                if x != po {
                                    assert(color_ok(ms[x]));
                                } else {
                                    assert(color_ok(m[po]));
                                }
                            }
                            assert forall|x: ActorId| #[trigger] r.entities.contains_key(x)
                                implies (r.entities[x] is Ball ==> r.ball_actor == Some(x)) by {
                                if x != po {
                                    assert(m.contains_key(x));
                                    assert(m2[x] == strip_link(m[x], car));
                                }
                            }
                        }
                        _ => {}
                    }
                }
            }
            _ => {}
        }
    }
}

proof fn lemma_wf_update_rigid(rv: RegistryView, u: UpdateView)
    requires
        wf(rv),
    ensures
        wf(update_rigid(rv, u)),
{
    let r = update_rigid(rv, u);
    let m = rv.entities;
    if m.contains_key(u.actor) {
        match (m[u.actor], u.value) {
            (EntityView::Car(_), AttrValueView::Rigid(t)) => {
                lemma_maps_insert_car(m, u.actor, Some(t));
                assert forall|x: ActorId| #[trigger] r.entities.contains_key(x) implies (
                    r.entities[x] is Ball ==> r.ball_actor == Some(x)) by {
                    if x != u.actor {
                        assert(m.contains_key(x));
                    }
                }
            }
            (EntityView::Ball(_), AttrValueView::Rigid(t)) => {
                let m2 = m.insert(u.actor, EntityView::Ball(Some(t)));
                assert forall|x: ActorId| #[trigger] m2.contains_key(x) implies link_ok(m2, x) by {
                    assert(m.contains_key(x));
                    assert(link_ok(m, x));
                    match player_link(m[x]) {
                        Some(c) => {
                            assert(m[c] is Car);
                            assert(c != u.actor);
                        }
                        None => {}
                    }
                }
                assert forall|x1: ActorId, x2: ActorId|
                    #![trigger player_link(m2[x1]), player_link(m2[x2])]
                    m2.contains_key(x1) && m2.contains_key(x2) && x1 != x2 && player_link(m2[x1])
                        is Some implies player_link(m2[x1]) != player_link(m2[x2]) by {
                    assert(player_link(m2[x1]) == player_link(m[x1]));
                    assert(player_link(m2[x2]) == player_link(m[x2]));
                }
                assert forall|x: ActorId| #[trigger] m2.contains_key(x) implies color_ok(m2[x]) by {
                    if x != u.actor {
                        assert(color_ok(m[x]));
                    }
                }
                assert forall|x: ActorId| #[trigger] r.entities.contains_key(x) implies (
                    r.entities[x] is Ball ==> r.ball_actor == Some(x)) by {
                    assert(m.contains_key(x));
                    if x == u.actor {
                        assert(m[x] is Ball);
                    }
                }
            }
            _ => {}
        }
    }
}

proof fn lemma_wf_demolition(rv: RegistryView, u: UpdateView)
    requires
        wf(rv),
    ensures
        wf(demolition(rv, u)),
{
    let r = demolition(rv, u);
    match u.value {
        AttrValueView::Demolition(v) => {
            lemma_maps_remove_strip(rv.entities, v);
            assert forall|x: ActorId| #[trigger] r.entities.contains_key(x) implies (r.entities[x]
                is Ball ==> r.ball_actor == Some(x)) by {
                assert(rv.entities.contains_key(x));
                assert(r.entities[x] == strip_link(rv.entities[x], v));
            }
        }
        _ => {}
    }
}

proof fn lemma_wf_update_step(rv: RegistryView, roles: RoleMap, u: UpdateView)
    requires
        wf(rv),
    ensures
        wf(update_step(rv, roles, u)),
{
    if roles.player_team == Some(u.class) {
        match u.value {
            AttrValueView::ActorRef(t) => {
                if rv.team_first == Some(t) {
                    lemma_wf_team_assigned(rv, u.actor, Side::First);
                } else if rv.team_second == Some(t) {
                    lemma_wf_team_assigned(rv, u.actor, Side::Second);
                }
            }
            _ => {}
        }
    } else if roles.player_name == Some(u.class) {
        lemma_wf_update_name(rv, u);
    } else if roles.car_owner == Some(u.class) {
        lemma_wf_update_owner(rv, u);
    } else if roles.rigid_body == Some(u.class) {
        lemma_wf_update_rigid(rv, u);
    }
    lemma_wf_demolition(dispatch_update(rv, roles, u), u);
}

proof fn lemma_wf_delete_step(rv: RegistryView, actor: ActorId)
    requires
        wf(rv),
    ensures
        wf(delete_step(rv, actor)),
{
    let r = delete_step(rv, actor);
    let m = rv.entities;
    if m.contains_key(actor) {
        let removed = m[actor];
        let m1 = strip_links(m.remove(actor), actor);
        lemma_maps_remove_strip(m, actor);
        let mid = RegistryView { entities: m1, ..rv };
        assert forall|x: ActorId| #[trigger] m1.contains_key(x) implies (m1[x] is Ball
            ==> rv.ball_actor == Some(x)) by {
            assert(m.contains_key(x));
            assert(m1[x] == strip_link(m[x], actor));
        }
        assert(wf(mid));
        match player_link(removed) {
            Some(c) => {
                lemma_maps_remove_strip(m1, c);
                assert forall|x: ActorId| #[trigger] r.entities.contains_key(x) implies (
                    r.entities[x] is Ball ==> r.ball_actor == Some(x)) by {
                    assert(m1.contains_key(x));
                    assert(r.entities[x] == strip_link(m1[x], c));
                }
            }
            None => {}
        }
    }
}

proof fn lemma_wf_creations_fold(rv: RegistryView, roles: RoleMap, s: Seq<Creation>)
    requires
        wf(rv),
    ensures
        wf(creations_fold(rv, roles, s)),
    decreases s.len(),
{
    if s.len() > 0 {
        lemma_wf_creations_fold(rv, roles, s.drop_last());
        lemma_wf_creation_step(creations_fold(rv, roles, s.drop_last()), roles, s.last());
    }
}

proof fn lemma_wf_updates_fold(rv: RegistryView, roles: RoleMap, s: Seq<UpdateView>)
    requires
        wf(rv),
    ensures
        wf(updates_fold(rv, roles, s)),
    decreases s.len(),
{
    if s.len() > 0 {
        lemma_wf_updates_fold(rv, roles, s.drop_last());
        lemma_wf_update_step(updates_fold(rv, roles, s.drop_last()), roles, s.last());
    }
}

proof fn lemma_wf_deletions_fold(rv: RegistryView, s: Seq<ActorId>)
    requires
        wf(rv),
    ensures
        wf(deletions_fold(rv, s)),
    decreases s.len(),
{
    if s.len() > 0 {
        lemma_wf_deletions_fold(rv, s.drop_last());
        lemma_wf_delete_step(deletions_fold(rv, s.drop_last()), s.last());
    }
}

/// The registry starts well-formed.
pub proof fn lemma_empty_wf()
    ensures
        wf(empty_registry_view()),
{
}

/// Cascade invariant, per frame: a well-formed registry stays well-formed
/// under any frame — in particular, every player's linked car identifier
/// still names a live car entity, or is `None`, never a dangling
/// reference.
pub proof fn lemma_cascade_frame(rv: RegistryView, roles: RoleMap, f: FrameView)
    requires
        wf(rv),
    ensures
        wf(frame_step(rv, roles, f)),
        links_valid(frame_step(rv, roles, f).entities),
{
    lemma_wf_creations_fold(rv, roles, f.creations);
    lemma_wf_updates_fold(creations_fold(rv, roles, f.creations), roles, f.updates);
    lemma_wf_deletions_fold(
        updates_fold(creations_fold(rv, roles, f.creations), roles, f.updates),
        f.deletions,
    );
}

/// Cascade invariant, for any sequence of frames.
pub proof fn lemma_cascade_frames(rv: RegistryView, roles: RoleMap, fs: Seq<FrameView>)
    requires
        wf(rv),
    ensures
        wf(frames_fold(rv, roles, fs)),
        links_valid(frames_fold(rv, roles, fs).entities),
    decreases fs.len(),
{
    if fs.len() > 0 {
        lemma_cascade_frames(rv, roles, fs.drop_last());
        lemma_cascade_frame(frames_fold(rv, roles, fs.drop_last()), roles, fs.last());
    }
}

/// Player `a` is live with assigned color `col`.
pub open spec fn has_color(rv: RegistryView, a: ActorId, col: PaletteColor) -> bool {
    rv.entities.contains_key(a) && match rv.entities[a] {
        EntityView::Player(p) => p.color == Some(col),
        _ => false,
    }
}

/// Either player `a` still carries `col`, or `a` is no longer a live
/// player — its lifetime ended.
spec fn colored_or_gone(rv: RegistryView, a: ActorId, col: PaletteColor) -> bool {
    has_color(rv, a, col) || !(rv.entities.contains_key(a) && rv.entities[a] is Player)
}

/// During the creation phase: `a` stays live, and if it is a player it
/// still carries `col`.
spec fn present_colored(rv: RegistryView, a: ActorId, col: PaletteColor) -> bool {
    rv.entities.contains_key(a) && (has_color(rv, a, col) || !(rv.entities[a] is Player))
}

proof fn lemma_color_creation_step(
    rv: RegistryView,
    roles: RoleMap,
    c: Creation,
    a: ActorId,
    col: PaletteColor,
)
    requires
        present_colored(rv, a, col),
    ensures
        present_colored(creation_step(rv, roles, c), a, col),
{
    let r1 = if roles.ball == Some(c.class) {
        ball_created(rv, c.actor)
    } else {
        rv
    };
    assert(r1.entities.contains_key(a) && r1.entities[a] == rv.entities[a]);
    let r2 = if roles.car == Some(c.class) {
        RegistryView { entities: r1.entities.insert(c.actor, EntityView::Car(None)), ..r1 }
    } else {
        r1
    };
    assert(present_colored(r2, a, col));
    let r3 = if roles.team_first == Some(c.class) {
        team_created(r2, Side::First, c.actor)
    } else {
        r2
    };
    assert(r3.entities.contains_key(a) && r3.entities[a] == r2.entities[a]);
    let r4 = if roles.team_second == Some(c.class) {
        team_created(r3, Side::Second, c.actor)
    } else {
        r3
    };
    assert(r4.entities.contains_key(a) && r4.entities[a] == r3.entities[a]);
    let r5 = creation_step(rv, roles, c);
    assert(r5.entities.contains_key(a) && r5.entities[a] == r4.entities[a]);
}

proof fn lemma_color_update_step(
    rv: RegistryView,
    roles: RoleMap,
    u: UpdateView,
    a: ActorId,
    col: PaletteColor,
)
    requires
        colored_or_gone(rv, a, col),
    ensures
        colored_or_gone(update_step(rv, roles, u), a, col),
{
    let d = dispatch_update(rv, roles, u);
    assert(colored_or_gone(d, a, col)) by {
        if roles.player_team == Some(u.class) {
            match u.value {
                AttrValueView::ActorRef(t) => {
                    let side = if rv.team_first == Some(t) {
                        Some(Side::First)
                    } else if rv.team_second == Some(t) {
                        Some(Side::Second)
                    } else {
                        None
                    };
                    match side {
                        Some(s) => {
                            let r = team_assigned(rv, u.actor, s);
                            if u.actor != a {
                                assert(r.entities.contains_key(a) ==> r.entities[a]
                                    == rv.entities[a]);
                            }
                        }
                        None => {}
                    }
                }
                _ => {}
            }
        } else if roles.car_owner == Some(u.class) {
            let r = update_owner(rv, u);
            if r != rv {
                match u.value {
                    AttrValueView::ActorRef(po) => {
                        if a != po && rv.entities.contains_key(a) {
                            assert(r.entities[a] == strip_link(rv.entities[a], u.actor));
                        }
                    }
                    _ => {}
                }
            }
        }
    }
    match u.value {
        AttrValueView::Demolition(v) => {
            if a != v && d.entities.contains_key(a) {
                assert(update_step(rv, roles, u).entities[a] == strip_link(d.entities[a], v));
            }
        }
        _ => {}
    }
}

proof fn lemma_color_delete_step(rv: RegistryView, actor: ActorId, a: ActorId, col: PaletteColor)
    requires
        colored_or_gone(rv, a, col),
    ensures
        colored_or_gone(delete_step(rv, actor), a, col),
{
    let r = delete_step(rv, actor);
    if rv.entities.contains_key(actor) {
        let removed = rv.entities[actor];
        let m1 = strip_links(rv.entities.remove(actor), actor);
        if a != actor && rv.entities.contains_key(a) {
            assert(m1[a] == strip_link(rv.entities[a], actor));
        }
        match player_link(removed) {
            Some(c) => {
                if a != c && m1.contains_key(a) {
                    assert(r.entities[a] == strip_link(m1[a], c));
                }
            }
            None => {}
        }
    }
}

proof fn lemma_color_creations_fold(
    rv: RegistryView,
    roles: RoleMap,
    s: Seq<Creation>,
    a: ActorId,
    col: PaletteColor,
)
    requires
        present_colored(rv, a, col),
    ensures
        present_colored(creations_fold(rv, roles, s), a, col),
    decreases s.len(),
{
    if s.len() > 0 {
        lemma_color_creations_fold(rv, roles, s.drop_last(), a, col);
        lemma_color_creation_step(creations_fold(rv, roles, s.drop_last()), roles, s.last(), a, col);
    }
}

proof fn lemma_color_updates_fold(
    rv: RegistryView,
    roles: RoleMap,
    s: Seq<UpdateView>,
    a: ActorId,
    col: PaletteColor,
)
    requires
        colored_or_gone(rv, a, col),
    ensures
        colored_or_gone(updates_fold(rv, roles, s), a, col),
    decreases s.len(),
{
    if s.len() > 0 {
        lemma_color_updates_fold(rv, roles, s.drop_last(), a, col);
        lemma_color_update_step(updates_fold(rv, roles, s.drop_last()), roles, s.last(), a, col);
    }
}

proof fn lemma_color_deletions_fold(
    rv: RegistryView,
    s: Seq<ActorId>,
    a: ActorId,
    col: PaletteColor,
)
    requires
        colored_or_gone(rv, a, col),
    ensures
        colored_or_gone(deletions_fold(rv, s), a, col),
    decreases s.len(),
{
    if s.len() > 0 {
        lemma_color_deletions_fold(rv, s.drop_last(), a, col);
        lemma_color_delete_step(deletions_fold(rv, s.drop_last()), s.last(), a, col);
    }
}

/// Color stability, per frame: once player `a`'s color is assigned, a
/// frame either keeps that exact color or ends the player's lifetime; it
/// never re-colors a live player.
pub proof fn lemma_color_stability_frame(
    rv: RegistryView,
    roles: RoleMap,
    f: FrameView,
    a: ActorId,
    col: PaletteColor,
)
    requires
        has_color(rv, a, col),
    ensures
        ({
            let r = frame_step(rv, roles, f);
            r.entities.contains_key(a) && r.entities[a] is Player ==> has_color(r, a, col)
        }),
{
    lemma_color_creations_fold(rv, roles, f.creations, a, col);
    let r1 = creations_fold(rv, roles, f.creations);
    lemma_color_updates_fold(r1, roles, f.updates, a, col);
    lemma_color_deletions_fold(updates_fold(r1, roles, f.updates), f.deletions, a, col);
}

/// Player `a` is live as a player after every frame of `fs`.
pub open spec fn player_through(
    rv: RegistryView,
    roles: RoleMap,
    fs: Seq<FrameView>,
    a: ActorId,
) -> bool
    decreases fs.len(),
{
    fs.len() == 0 || {
        let r = frames_fold(rv, roles, fs);
        &&& player_through(rv, roles, fs.drop_last(), a)
        &&& r.entities.contains_key(a)
        &&& r.entities[a] is Player
    }
}

/// Color stability, across frames: once a player's color is assigned it
/// never changes for the remainder of that player's lifetime, however
/// many frames are processed and however often its team is re-assigned.
pub proof fn lemma_color_stability_frames(
    rv: RegistryView,
    roles: RoleMap,
    fs: Seq<FrameView>,
    a: ActorId,
    col: PaletteColor,
)
    requires
        has_color(rv, a, col),
        player_through(rv, roles, fs, a),
    ensures
        has_color(frames_fold(rv, roles, fs), a, col),
    decreases fs.len(),
{
    if fs.len() > 0 {
        lemma_color_stability_frames(rv, roles, fs.drop_last(), a, col);
        lemma_color_stability_frame(frames_fold(rv, roles, fs.drop_last()), roles, fs.last(), a, col);
    }
}

/// Tolerance, updates: an update addressed to an actor the registry does
/// not track never makes that actor live, and — unless it carries a
/// demolish notification naming some other victim — leaves the registry
/// exactly unchanged.
pub proof fn lemma_tolerance_update(rv: RegistryView, roles: RoleMap, u: UpdateView)
    requires
        !rv.entities.contains_key(u.actor),
    ensures
        !update_step(rv, roles, u).entities.contains_key(u.actor),
        !(u.value is Demolition) ==> update_step(rv, roles, u) == rv,
{
    assert(dispatch_update(rv, roles, u) == rv);
}

/// Tolerance, deletions: a delete naming an actor the registry does not
/// track leaves the registry exactly unchanged.
pub proof fn lemma_tolerance_delete(rv: RegistryView, actor: ActorId)
    requires
        !rv.entities.contains_key(actor),
    ensures
        delete_step(rv, actor) == rv,
{
}

} // verus!
