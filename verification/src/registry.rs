//! Actor registry: the mutable store of live entities keyed by actor
//! identifier.
//!
//! The registry is modeled as a finite map from actor identifier to
//! entity, together with the bookkeeping the projector needs: the actor
//! identifiers recorded as the two team instances and the ball, and the
//! per-side color allocation state. The entries are stored in insertion
//! order with unique keys; every operation's contract is stated over the
//! map view.

use vstd::prelude::*;
use vstd::map::*;

use crate::data::{ActorId, PaletteColor, Side, Transform, PALETTE_SIZE};

verus! {

/// The mutable per-player record.
#[derive(Debug, Clone, PartialEq)]
pub struct PlayerData {
    /// Display name; "Unknown" until named.
    pub name: String,
    /// Assigned palette color; fixed once assigned.
    pub color: Option<PaletteColor>,
    /// Team side; mutable until stable.
    pub team: Option<Side>,
    /// Linked car actor, set when the ownership property is observed.
    pub car: Option<ActorId>,
}

/// One live entity, polymorphic over the roles the projector recognizes.
#[derive(Debug, Clone, PartialEq)]
pub enum Entity {
    Player(PlayerData),
    /// A car with its last known transform, absent until first updated.
    Car(Option<Transform>),
    /// The actor standing for one team, used for identity comparison.
    Team(Side),
    /// The ball with its last known transform.
    Ball(Option<Transform>),
}

/// Specification-level shape of a [`PlayerData`].
pub struct PlayerView {
    pub name: Seq<char>,
    pub color: Option<PaletteColor>,
    pub team: Option<Side>,
    pub car: Option<ActorId>,
}

/// Specification-level shape of an [`Entity`].
pub enum EntityView {
    Player(PlayerView),
    Car(Option<Transform>),
    Team(Side),
    Ball(Option<Transform>),
}

impl View for PlayerData {
    type V = PlayerView;

    open spec fn view(&self) -> PlayerView {
        PlayerView { name: self.name@, color: self.color, team: self.team, car: self.car }
    }
}

impl View for Entity {
    type V = EntityView;

    open spec fn view(&self) -> EntityView {
        match self {
            Entity::Player(p) => EntityView::Player(p@),
            Entity::Car(t) => EntityView::Car(*t),
            Entity::Team(s) => EntityView::Team(*s),
            Entity::Ball(t) => EntityView::Ball(*t),
        }
    }
}

/// Specification-level shape of the whole registry.
#[verifier::ext_equal]
pub struct RegistryView {
    /// The live entities, keyed by actor identifier.
    pub entities: Map<ActorId, EntityView>,
    /// Actor recorded as the first team's instance.
    pub team_first: Option<ActorId>,
    /// Actor recorded as the second team's instance.
    pub team_second: Option<ActorId>,
    /// The ball's actor identifier, stable once observed.
    pub ball_actor: Option<ActorId>,
    /// Palette slot the first team's next color is drawn from.
    pub next_color_first: u8,
    /// Palette slot the second team's next color is drawn from.
    pub next_color_second: u8,
}

/// The map an ordered entry sequence denotes: later entries win.
pub open spec fn entries_to_map(s: Seq<(ActorId, EntityView)>) -> Map<ActorId, EntityView>
    decreases s.len(),
{
    if s.len() == 0 {
        Map::empty()
    } else {
        entries_to_map(s.drop_last()).insert(s.last().0, s.last().1)
    }
}

/// No two entries share a key.
pub open spec fn unique_keys(s: Seq<(ActorId, EntityView)>) -> bool {
    forall|i: int, j: int|
        0 <= i < s.len() && 0 <= j < s.len() && i != j ==> s[i].0 != s[j].0
}

pub proof fn lemma_entries_to_map_contains(s: Seq<(ActorId, EntityView)>, k: ActorId)
    ensures
        entries_to_map(s).contains_key(k) <==> exists|i: int| 0 <= i < s.len() && s[i].0 == k,
    decreases s.len(),
{
    if s.len() > 0 {
        lemma_entries_to_map_contains(s.drop_last(), k);
        if entries_to_map(s).contains_key(k) {
            if s.last().0 != k {
                let i = choose|i: int| 0 <= i < s.drop_last().len() && s.drop_last()[i].0 == k;
                assert(s[i].0 == k);
            }
        }
        if exists|i: int| 0 <= i < s.len() && s[i].0 == k {
            let i = choose|i: int| 0 <= i < s.len() && s[i].0 == k;
            if i < s.len() - 1 {
                assert(s.drop_last()[i].0 == k);
            }
        }
    }
}

pub proof fn lemma_entries_to_map_index(s: Seq<(ActorId, EntityView)>, i: int)
    requires
        unique_keys(s),
        0 <= i < s.len(),
    ensures
        entries_to_map(s).contains_key(s[i].0),
        entries_to_map(s)[s[i].0] == s[i].1,
    decreases s.len(),
{
    if i == s.len() - 1 {
        assert(entries_to_map(s) == entries_to_map(s.drop_last()).insert(s.last().0, s.last().1));
    } else {
        assert(unique_keys(s.drop_last())) by {
            assert(forall|p: int, q: int|
                0 <= p < s.drop_last().len() && 0 <= q < s.drop_last().len() && p != q
                    ==> s.drop_last()[p].0 == s[p].0 && s.drop_last()[q].0 == s[q].0);
        }
        lemma_entries_to_map_index(s.drop_last(), i);
        assert(s.last().0 != s[i].0);
    }
}

pub proof fn lemma_entries_to_map_update(s: Seq<(ActorId, EntityView)>, i: int, v: EntityView)
    requires
        unique_keys(s),
        0 <= i < s.len(),
    ensures
        entries_to_map(s.update(i, (s[i].0, v))) == entries_to_map(s).insert(s[i].0, v),
        unique_keys(s.update(i, (s[i].0, v))),
    decreases s.len(),
{
    let k = s[i].0;
    let su = s.update(i, (k, v));
    assert(unique_keys(su)) by {
        assert(forall|p: int| 0 <= p < s.len() ==> su[p].0 == s[p].0);
    }
    if i == s.len() - 1 {
        assert(su.drop_last() =~= s.drop_last());
        assert(entries_to_map(su) == entries_to_map(s.drop_last()).insert(k, v));
        assert(entries_to_map(s.drop_last()).insert(k, s[i].1).insert(k, v)
            =~= entries_to_map(s.drop_last()).insert(k, v));
    } else {
        assert(unique_keys(s.drop_last())) by {
            assert(forall|p: int| 0 <= p < s.len() - 1 ==> s.drop_last()[p].0 == s[p].0);
        }
        lemma_entries_to_map_update(s.drop_last(), i, v);
        assert(su.drop_last() =~= s.drop_last().update(i, (k, v)));
        assert(su.last() == s.last());
        // Inserting at k and then at the distinct last key commutes.
        assert(entries_to_map(s.drop_last()).insert(k, v).insert(s.last().0, s.last().1)
            =~= entries_to_map(s.drop_last()).insert(s.last().0, s.last().1).insert(k, v));
    }
}

pub proof fn lemma_entries_to_map_remove(s: Seq<(ActorId, EntityView)>, i: int)
    requires
        unique_keys(s),
        0 <= i < s.len(),
    ensures
        entries_to_map(s.remove(i)) == entries_to_map(s).remove(s[i].0),
        unique_keys(s.remove(i)),
    decreases s.len(),
{
    let k = s[i].0;
    let sr = s.remove(i);
    assert(unique_keys(sr)) by {
        assert(forall|p: int| 0 <= p < sr.len()
            ==> sr[p] == (if p < i { s[p] } else { s[p + 1] }));
    }
    if i == s.len() - 1 {
        assert(sr =~= s.drop_last());
        lemma_entries_to_map_contains(s.drop_last(), k);
        assert(!entries_to_map(s.drop_last()).contains_key(k));
        assert(entries_to_map(s.drop_last()).insert(k, s[i].1).remove(k)
            =~= entries_to_map(s.drop_last()));
    } else {
        assert(unique_keys(s.drop_last())) by {
            assert(forall|p: int| 0 <= p < s.len() - 1 ==> s.drop_last()[p].0 == s[p].0);
        }
        lemma_entries_to_map_remove(s.drop_last(), i);
        assert(sr.drop_last() =~= s.drop_last().remove(i));
        assert(sr.last() == s.last());
        assert(entries_to_map(s.drop_last()).remove(k).insert(s.last().0, s.last().1)
            =~= entries_to_map(s.drop_last()).insert(s.last().0, s.last().1).remove(k));
    }
}

pub proof fn lemma_entries_to_map_push(s: Seq<(ActorId, EntityView)>, k: ActorId, v: EntityView)
    ensures
        entries_to_map(s.push((k, v))) == entries_to_map(s).insert(k, v),
{
    assert(s.push((k, v)).drop_last() =~= s);
}

/// The car link an entity carries, if it is a player with one.
pub open spec fn player_link(e: EntityView) -> Option<ActorId> {
    match e {
        EntityView::Player(p) => p.car,
        _ => None,
    }
}

/// `e` with its car link removed, if it is a player linked to `car`.
pub open spec fn strip_link(e: EntityView, car: ActorId) -> EntityView {
    match e {
        EntityView::Player(p) => if p.car == Some(car) {
            EntityView::Player(PlayerView { car: None, ..p })
        } else {
            e
        },
        _ => e,
    }
}

/// Every player's link to `car` removed.
pub open spec fn strip_links(m: Map<ActorId, EntityView>, car: ActorId) -> Map<ActorId, EntityView> {
    Map::new(|a: ActorId| m.contains_key(a), |a: ActorId| strip_link(m[a], car))
}

/// The entry at `a` links no car, or links one that is live as a car.
pub open spec fn link_ok(m: Map<ActorId, EntityView>, a: ActorId) -> bool {
    match player_link(m[a]) {
        Some(c) => m.contains_key(c) && m[c] is Car,
        None => true,
    }
}

/// Every linked car is live in the registry as a car entity: no player's
/// car link dangles.
pub open spec fn links_valid(m: Map<ActorId, EntityView>) -> bool {
    forall|a: ActorId| #[trigger] m.contains_key(a) ==> link_ok(m, a)
}

/// A car is owned by at most one player.
pub open spec fn links_unique(m: Map<ActorId, EntityView>) -> bool {
    forall|a1: ActorId, a2: ActorId|
        #![trigger player_link(m[a1]), player_link(m[a2])]
        m.contains_key(a1) && m.contains_key(a2) && a1 != a2 && player_link(m[a1]) is Some
            ==> player_link(m[a1]) != player_link(m[a2])
}

/// At most one ball instance exists, keyed by the recorded ball actor.
pub open spec fn ball_single(rv: RegistryView) -> bool {
    forall|a: ActorId|
        #[trigger] rv.entities.contains_key(a) ==> (rv.entities[a] is Ball ==> rv.ball_actor == Some(a))
}

/// The entity's assigned color, if any, names a palette slot that exists.
pub open spec fn color_ok(e: EntityView) -> bool {
    match e {
        EntityView::Player(p) => match p.color {
            Some(col) => col.slot < PALETTE_SIZE,
            None => true,
        },
        _ => true,
    }
}

/// Every assigned color names a palette slot that exists.
pub open spec fn colors_in_palette(m: Map<ActorId, EntityView>) -> bool {
    forall|a: ActorId| #[trigger] m.contains_key(a) ==> color_ok(m[a])
}

/// The registry's semantic invariant, kept across every projected frame.
pub open spec fn wf(rv: RegistryView) -> bool {
    &&& links_valid(rv.entities)
    &&& links_unique(rv.entities)
    &&& ball_single(rv)
    &&& colors_in_palette(rv.entities)
    &&& rv.next_color_first < PALETTE_SIZE
    &&& rv.next_color_second < PALETTE_SIZE
}

/// The registry before any frame was projected.
pub open spec fn empty_registry_view() -> RegistryView {
    RegistryView {
        entities: Map::empty(),
        team_first: None,
        team_second: None,
        ball_actor: None,
        next_color_first: 0,
        next_color_second: 0,
    }
}

/// The palette slot drawn after `c`, wrapping at the palette size so a
/// side with more players than colors reuses slots instead of failing.
pub open spec fn next_slot(c: u8) -> u8 {
    if c + 1 >= PALETTE_SIZE {
        0
    } else {
        (c + 1) as u8
    }
}

/// The mutable store of live entities, with the bookkeeping the frame
/// projector needs.
pub struct Registry {
    entries: Vec<(ActorId, Entity)>,
    team_first: Option<ActorId>,
    team_second: Option<ActorId>,
    ball_actor: Option<ActorId>,
    next_color_first: u8,
    next_color_second: u8,
}

/// The entry sequence's specification-level shape.
pub open spec fn entries_view(s: Seq<(ActorId, Entity)>) -> Seq<(ActorId, EntityView)> {
    Seq::new(s.len(), |i: int| (s[i].0, s[i].1@))
}

impl View for Registry {
    type V = RegistryView;

    closed spec fn view(&self) -> RegistryView {
        RegistryView {
            entities: entries_to_map(entries_view(self.entries@)),
            team_first: self.team_first,
            team_second: self.team_second,
            ball_actor: self.ball_actor,
            next_color_first: self.next_color_first,
            next_color_second: self.next_color_second,
        }
    }
}

impl Registry {
    /// The live entries in storage order: insertion order, later
    /// re-insertions keeping an actor's original position.
    pub closed spec fn entries_seq(&self) -> Seq<(ActorId, EntityView)> {
        entries_view(self.entries@)
    }

    /// Representation invariant: no two entries share an actor identifier.
    pub closed spec fn inv(&self) -> bool {
        unique_keys(self.entries_seq())
    }

    /// An empty registry.
    pub fn new() -> (r: Registry)
        ensures
            r.inv(),
            r@ == empty_registry_view(),
            r.entries_seq() == Seq::<(ActorId, EntityView)>::empty(),
    {
        let r = Registry {
            entries: Vec::new(),
            team_first: None,
            team_second: None,
            ball_actor: None,
            next_color_first: 0,
            next_color_second: 0,
        };
        proof {
            assert(r.entries_seq() =~= Seq::<(ActorId, EntityView)>::empty());
            assert(r@ =~= empty_registry_view());
        }
        r
    }

    /// Index of the entry keyed by `actor`, if one exists.
    fn find(&self, actor: ActorId) -> (r: Option<usize>)
        ensures
            match r {
                Some(i) => i < self.entries_seq().len() && self.entries_seq()[i as int].0 == actor,
                None => forall|j: int|
                    0 <= j < self.entries_seq().len() ==> self.entries_seq()[j].0 != actor,
            },
    {
        let n = self.entries.len();
        let mut i: usize = 0;
        while i < n
            invariant
                n == self.entries@.len(),
                i <= n,
                forall|j: int| 0 <= j < i ==> self.entries_seq()[j].0 != actor,
            decreases n - i,
        {
            if self.entries[i].0 == actor {
                return Some(i);
            }
            i = i + 1;
        }
        None
    }

    /// Look up the entity keyed by `actor`.
    pub fn get(&self, actor: ActorId) -> (r: Option<&Entity>)
        requires
            self.inv(),
        ensures
            match r {
                Some(e) => self@.entities.contains_key(actor) && e@ == self@.entities[actor],
                None => !self@.entities.contains_key(actor),
            },
    {
        proof {
            lemma_entries_to_map_contains(self.entries_seq(), actor);
        }
        match self.find(actor) {
            Some(i) => {
                proof {
                    lemma_entries_to_map_index(self.entries_seq(), i as int);
                }
                Some(&self.entries[i].1)
            }
            None => None,
        }
    }

    /// Insert `e` under `actor`, replacing whatever was there.
    pub fn put(&mut self, actor: ActorId, e: Entity)
        requires
            old(self).inv(),
        ensures
            final(self).inv(),
            final(self)@ == (RegistryView { entities: old(self)@.entities.insert(actor, e@), ..old(self)@ }),
    {
        let ghost prev = self.entries_seq();
        match self.find(actor) {
            Some(i) => {
                proof {
                    lemma_entries_to_map_update(prev, i as int, e@);
                }
                self.entries[i] = (actor, e);
                proof {
                    assert(self.entries_seq() =~= prev.update(i as int, (actor, e@)));
                    assert(self@ =~= (RegistryView {
                        entities: old(self)@.entities.insert(actor, e@),
                        ..old(self)@
                    }));
                }
            }
            None => {
                proof {
                    lemma_entries_to_map_push(prev, actor, e@);
                }
                self.entries.push((actor, e));
                proof {
                    assert(self.entries_seq() =~= prev.push((actor, self.entries@.last().1@)));
                    assert(unique_keys(self.entries_seq())) by {
                        assert(forall|j: int|
                            0 <= j < prev.len() ==> self.entries_seq()[j].0 == prev[j].0);
                    }
                    assert(self@ =~= (RegistryView {
                        entities: old(self)@.entities.insert(actor, e@),
                        ..old(self)@
                    }));
                }
            }
        }
    }

    /// Insert `e` under `actor` only when nothing is keyed by it.
    pub fn put_if_absent(&mut self, actor: ActorId, e: Entity)
        requires
            old(self).inv(),
        ensures
            final(self).inv(),
            final(self)@ == if old(self)@.entities.contains_key(actor) {
                old(self)@
            } else {
                RegistryView { entities: old(self)@.entities.insert(actor, e@), ..old(self)@ }
            },
    {
        proof {
            lemma_entries_to_map_contains(self.entries_seq(), actor);
        }
        match self.find(actor) {
            Some(_) => {}
            None => {
                self.put(actor, e);
            }
        }
    }

    /// Remove and return the entity keyed by `actor`, if any.
    pub fn take(&mut self, actor: ActorId) -> (r: Option<Entity>)
        requires
            old(self).inv(),
        ensures
            final(self).inv(),
            match r {
                Some(e) => {
                    &&& old(self)@.entities.contains_key(actor)
                    &&& e@ == old(self)@.entities[actor]
                    &&& final(self)@ == (RegistryView {
                        entities: old(self)@.entities.remove(actor),
                        ..old(self)@
                    })
                },
                None => !old(self)@.entities.contains_key(actor) && final(self)@ == old(self)@,
            },
    {
        let ghost prev = self.entries_seq();
        proof {
            lemma_entries_to_map_contains(prev, actor);
        }
        match self.find(actor) {
            Some(i) => {
                proof {
                    lemma_entries_to_map_index(prev, i as int);
                    lemma_entries_to_map_remove(prev, i as int);
                }
                let (_, e) = self.entries.remove(i);
                proof {
                    assert(self.entries_seq() =~= prev.remove(i as int));
                    assert(self@ =~= (RegistryView {
                        entities: old(self)@.entities.remove(actor),
                        ..old(self)@
                    }));
                }
                Some(e)
            }
            None => None,
        }
    }

    /// The actor recorded as `side`'s team instance.
    pub fn team_actor(&self, side: Side) -> (r: Option<ActorId>)
        ensures
            r == team_actor_of(self@, side),
    {
        match side {
            Side::First => self.team_first,
            Side::Second => self.team_second,
        }
    }

    /// Record `actor` as the instance standing for `side`.
    pub fn record_team_actor(&mut self, side: Side, actor: ActorId)
        requires
            old(self).inv(),
        ensures
            final(self).inv(),
            final(self)@ == match side {
                Side::First => RegistryView { team_first: Some(actor), ..old(self)@ },
                Side::Second => RegistryView { team_second: Some(actor), ..old(self)@ },
            },
            final(self).entries_seq() == old(self).entries_seq(),
    {
        match side {
            Side::First => self.team_first = Some(actor),
            Side::Second => self.team_second = Some(actor),
        }
    }

    /// The ball's recorded actor identifier.
    pub fn ball_actor(&self) -> (r: Option<ActorId>)
        ensures
            r == self@.ball_actor,
    {
        self.ball_actor
    }

    /// Record `actor` as the ball's identifier.
    pub fn record_ball_actor(&mut self, actor: ActorId)
        requires
            old(self).inv(),
        ensures
            final(self).inv(),
            final(self)@ == (RegistryView { ball_actor: Some(actor), ..old(self)@ }),
            final(self).entries_seq() == old(self).entries_seq(),
    {
        self.ball_actor = Some(actor);
    }

    /// Draw the next color of `side`'s palette, advancing the allocation
    /// state with wraparound.
    pub fn allocate_color(&mut self, side: Side) -> (c: PaletteColor)
        requires
            old(self).inv(),
            side == Side::First ==> old(self)@.next_color_first < PALETTE_SIZE,
            side == Side::Second ==> old(self)@.next_color_second < PALETTE_SIZE,
        ensures
            final(self).inv(),
            final(self).entries_seq() == old(self).entries_seq(),
            match side {
                Side::First => {
                    &&& c == (PaletteColor { side, slot: old(self)@.next_color_first })
                    &&& final(self)@ == (RegistryView {
                        next_color_first: next_slot(old(self)@.next_color_first),
                        ..old(self)@
                    })
                },
                Side::Second => {
                    &&& c == (PaletteColor { side, slot: old(self)@.next_color_second })
                    &&& final(self)@ == (RegistryView {
                        next_color_second: next_slot(old(self)@.next_color_second),
                        ..old(self)@
                    })
                },
            },
    {
        match side {
            Side::First => {
                let slot = self.next_color_first;
                self.next_color_first = if slot + 1 >= PALETTE_SIZE {
                    0
                } else {
                    slot + 1
                };
                PaletteColor { side, slot }
            }
            Side::Second => {
                let slot = self.next_color_second;
                self.next_color_second = if slot + 1 >= PALETTE_SIZE {
                    0
                } else {
                    slot + 1
                };
                PaletteColor { side, slot }
            }
        }
    }

    /// Remove every player's link to `car`.
    pub fn clear_links(&mut self, car: ActorId)
        requires
            old(self).inv(),
        ensures
            final(self).inv(),
            final(self)@ == (RegistryView { entities: strip_links(old(self)@.entities, car), ..old(self)@ }),
    {
        let ghost orig = self.entries_seq();
        let n = self.entries.len();
        let mut i: usize = 0;
        while i < n
            invariant
                n == self.entries@.len(),
                i <= n,
                orig.len() == n,
                self.team_first == old(self).team_first,
                self.team_second == old(self).team_second,
                self.ball_actor == old(self).ball_actor,
                self.next_color_first == old(self).next_color_first,
                self.next_color_second == old(self).next_color_second,
                forall|j: int|
                    0 <= j < i ==> self.entries_seq()[j] == (orig[j].0, strip_link(orig[j].1, car)),
                forall|j: int| i <= j < n ==> self.entries_seq()[j] == orig[j],
            decreases n - i,
        {
            let ghost pre = self.entries_seq();
            proof {
                assert(pre[i as int] == orig[i as int]);
                assert(pre[i as int] == (self.entries@[i as int].0, self.entries@[i as int].1@));
            }
            let replacement: Option<Entity> = match &self.entries[i].1 {
                Entity::Player(p) => match p.car {
                    Some(c) => if c == car {
                        Some(Entity::Player(PlayerData {
                            name: p.name.clone(),
                            color: p.color,
                            team: p.team,
                            car: None,
                        }))
                    } else {
                        None
                    },
                    None => None,
                },
                _ => None,
            };
            match replacement {
                Some(e) => {
                    proof {
                        assert(e@ == strip_link(orig[i as int].1, car));
                    }
                    let k = self.entries[i].0;
                    self.entries[i] = (k, e);
                    proof {
                        assert(forall|j: int|
                            0 <= j < n && j != i ==> self.entries_seq()[j] == pre[j]);
                        assert(self.entries_seq()[i as int]
                            == (orig[i as int].0, strip_link(orig[i as int].1, car)));
                    }
                }
                None => {
                    proof {
                        assert(strip_link(orig[i as int].1, car) == orig[i as int].1);
                        assert(self.entries_seq()[i as int]
                            == (orig[i as int].0, strip_link(orig[i as int].1, car)));
                    }
                }
            }
            proof {
                assert forall|j: int| 0 <= j < i implies self.entries_seq()[j] == (
                    orig[j].0,
                    strip_link(orig[j].1, car),
                ) by {
                    assert(self.entries_seq()[j] == pre[j]);
                    assert(pre[j] == (orig[j].0, strip_link(orig[j].1, car)));
                }
                assert forall|j: int| i + 1 <= j < n implies self.entries_seq()[j] == orig[j] by {
                    assert(self.entries_seq()[j] == pre[j]);
                    assert(pre[j] == orig[j]);
                }
            }
            i = i + 1;
        }
        proof {
            let stripped = strip_entries(orig, car);
            assert(self.entries_seq() =~= stripped);
            assert(unique_keys(stripped)) by {
                assert(forall|j: int| 0 <= j < orig.len() ==> stripped[j].0 == orig[j].0);
            }
            lemma_strip_entries_map(orig, car);
            assert(self@ =~= (RegistryView {
                entities: strip_links(old(self)@.entities, car),
                ..old(self)@
            }));
        }
    }

    /// How many entities are live.
    pub fn entry_count(&self) -> (n: usize)
        ensures
            n == self.entries_seq().len(),
    {
        self.entries.len()
    }

    /// The entry at storage position `i`.
    pub fn entry_at(&self, i: usize) -> (r: (ActorId, &Entity))
        requires
            i < self.entries_seq().len(),
        ensures
            r.0 == self.entries_seq()[i as int].0,
            r.1@ == self.entries_seq()[i as int].1,
    {
        (self.entries[i].0, &self.entries[i].1)
    }

    /// An independent copy, for checkpointing.
    pub fn duplicate(&self) -> (r: Registry)
        requires
            self.inv(),
        ensures
            r.inv(),
            r@ == self@,
            r.entries_seq() == self.entries_seq(),
    {
        let n = self.entries.len();
        let mut entries: Vec<(ActorId, Entity)> = Vec::new();
        let mut i: usize = 0;
        while i < n
            invariant
                n == self.entries@.len(),
                i <= n,
                entries@.len() == i,
                forall|j: int| 0 <= j < i ==> entries@[j] == self.entries@[j],
            decreases n - i,
        {
            let k = self.entries[i].0;
            let e = clone_entity(&self.entries[i].1);
            entries.push((k, e));
            i = i + 1;
        }
        let r = Registry {
            entries,
            team_first: self.team_first,
            team_second: self.team_second,
            ball_actor: self.ball_actor,
            next_color_first: self.next_color_first,
            next_color_second: self.next_color_second,
        };
        proof {
            assert(r.entries@ =~= self.entries@);
            assert(r.entries_seq() =~= self.entries_seq());
            assert(r@ =~= self@);
        }
        r
    }
}

/// Which bookkeeping field holds `side`'s team instance.
pub open spec fn team_actor_of(rv: RegistryView, side: Side) -> Option<ActorId> {
    match side {
        Side::First => rv.team_first,
        Side::Second => rv.team_second,
    }
}

/// The entry sequence with every player's link to `car` removed.
pub open spec fn strip_entries(s: Seq<(ActorId, EntityView)>, car: ActorId) -> Seq<(ActorId, EntityView)> {
    Seq::new(s.len(), |i: int| (s[i].0, strip_link(s[i].1, car)))
}

pub proof fn lemma_strip_entries_map(s: Seq<(ActorId, EntityView)>, car: ActorId)
    ensures
        entries_to_map(strip_entries(s, car)) == strip_links(entries_to_map(s), car),
    decreases s.len(),
{
    if s.len() == 0 {
        assert(strip_entries(s, car) =~= Seq::<(ActorId, EntityView)>::empty());
        assert(entries_to_map(strip_entries(s, car)) =~= strip_links(entries_to_map(s), car));
    } else {
        lemma_strip_entries_map(s.drop_last(), car);
        let t = strip_entries(s, car);
        assert(t.drop_last() =~= strip_entries(s.drop_last(), car));
        assert(t.last() == (s.last().0, strip_link(s.last().1, car)));
        assert(strip_links(entries_to_map(s.drop_last()), car).insert(s.last().0, strip_link(s.last().1, car))
            =~= strip_links(entries_to_map(s), car));
    }
}

fn clone_entity(e: &Entity) -> (r: Entity)
    ensures
        r == *e,
{
    match e {
        Entity::Player(p) => Entity::Player(PlayerData {
            name: p.name.clone(),
            color: p.color,
            team: p.team,
            car: p.car,
        }),
        Entity::Car(t) => Entity::Car(*t),
        Entity::Team(s) => Entity::Team(*s),
        Entity::Ball(t) => Entity::Ball(*t),
    }
}

} // verus!
