use replay_core::data::{
    AttrValue, Creation, Frame, PaletteColor, QuatBits, Side, Transform, Update, Vec3Bits,
};
use replay_core::projector::apply_frame;
use replay_core::registry::{Entity, Registry};
use replay_core::schema::RoleMap;
use replay_core::snapshot::MarkKind;

const BALL: u32 = 0;
const TEAM0: u32 = 1;
const TEAM1: u32 = 2;
const CAR: u32 = 3;
const PLAYER: u32 = 4;
const CAR_OWNER: u32 = 5;
const PLAYER_TEAM: u32 = 6;
const PLAYER_NAME: u32 = 7;
const RIGID_BODY: u32 = 8;

fn roles() -> RoleMap {
    RoleMap {
        ball: Some(BALL),
        team_first: Some(TEAM0),
        team_second: Some(TEAM1),
        car: Some(CAR),
        player: Some(PLAYER),
        car_owner: Some(CAR_OWNER),
        player_team: Some(PLAYER_TEAM),
        player_name: Some(PLAYER_NAME),
        rigid_body: Some(RIGID_BODY),
    }
}

fn transform(tag: u32) -> Transform {
    Transform {
        location: Vec3Bits { x: tag, y: tag + 1, z: tag + 2 },
        rotation: QuatBits { x: 0, y: 0, z: 0, w: 1 },
        linear_velocity: None,
        angular_velocity: None,
    }
}

fn created(actor: u32, class: u32) -> Creation {
    Creation { actor, class, initial: None }
}

fn frame(creations: Vec<Creation>, updates: Vec<Update>, deletions: Vec<u32>) -> Frame {
    Frame { creations, updates, deletions }
}

fn player_of(reg: &Registry, actor: u32) -> (String, Option<PaletteColor>, Option<Side>, Option<u32>) {
    match reg.get(actor) {
        Some(Entity::Player(p)) => (p.name.clone(), p.color, p.team, p.car),
        other => panic!("actor {} is not a live player: {:?}", actor, other.is_some()),
    }
}

#[test]
fn car_ownership_links_the_player() {
    let roles = roles();
    let mut reg = Registry::new();
    apply_frame(&mut reg, &roles, &frame(vec![created(5, CAR)], vec![], vec![]));
    apply_frame(&mut reg, &roles, &frame(vec![created(2, PLAYER)], vec![], vec![]));
    apply_frame(
        &mut reg,
        &roles,
        &frame(
            vec![],
            vec![Update { actor: 5, class: CAR_OWNER, value: AttrValue::ActorRef(2) }],
            vec![],
        ),
    );
    let (_, _, _, car) = player_of(&reg, 2);
    assert_eq!(car, Some(5));
}

#[test]
fn team_assignment_sets_side_and_first_color() {
    let roles = roles();
    let mut reg = Registry::new();
    apply_frame(
        &mut reg,
        &roles,
        &frame(vec![created(7, TEAM0), created(3, PLAYER)], vec![], vec![]),
    );
    apply_frame(
        &mut reg,
        &roles,
        &frame(
            vec![],
            vec![Update { actor: 3, class: PLAYER_TEAM, value: AttrValue::ActorRef(7) }],
            vec![],
        ),
    );
    let (_, color, team, _) = player_of(&reg, 3);
    assert_eq!(team, Some(Side::First));
    assert_eq!(color, Some(PaletteColor { side: Side::First, slot: 0 }));
}

#[test]
fn demolish_removes_the_car_and_clears_the_owner_link() {
    let roles = roles();
    let mut reg = Registry::new();
    apply_frame(
        &mut reg,
        &roles,
        &frame(vec![created(5, CAR), created(2, PLAYER)], vec![], vec![]),
    );
    apply_frame(
        &mut reg,
        &roles,
        &frame(
            vec![],
            vec![Update { actor: 5, class: CAR_OWNER, value: AttrValue::ActorRef(2) }],
            vec![],
        ),
    );
    apply_frame(
        &mut reg,
        &roles,
        &frame(
            vec![],
            vec![Update { actor: 9, class: 99, value: AttrValue::Demolition(5) }],
            vec![],
        ),
    );
    assert!(reg.get(5).is_none());
    let (_, _, _, car) = player_of(&reg, 2);
    assert_eq!(car, None);
}

#[test]
fn unknown_actor_updates_and_deletes_are_tolerated() {
    let roles = roles();
    let mut reg = Registry::new();
    apply_frame(&mut reg, &roles, &frame(vec![created(2, PLAYER)], vec![], vec![]));
    apply_frame(
        &mut reg,
        &roles,
        &frame(
            vec![],
            vec![
                Update {
                    actor: 42,
                    class: PLAYER_NAME,
                    value: AttrValue::Text("Ghost".to_string()),
                },
                Update { actor: 42, class: PLAYER_TEAM, value: AttrValue::ActorRef(7) },
                Update { actor: 42, class: RIGID_BODY, value: AttrValue::Rigid(transform(1)) },
            ],
            vec![43],
        ),
    );
    assert!(reg.get(42).is_none());
    assert!(reg.get(43).is_none());
    let (name, color, team, car) = player_of(&reg, 2);
    assert_eq!(name, "Unknown");
    assert_eq!(color, None);
    assert_eq!(team, None);
    assert_eq!(car, None);
}

#[test]
fn a_players_color_survives_team_reassignment() {
    let roles = roles();
    let mut reg = Registry::new();
    apply_frame(
        &mut reg,
        &roles,
        &frame(
            vec![created(7, TEAM0), created(8, TEAM1), created(3, PLAYER)],
            vec![Update { actor: 3, class: PLAYER_TEAM, value: AttrValue::ActorRef(7) }],
            vec![],
        ),
    );
    let (_, color_before, _, _) = player_of(&reg, 3);
    apply_frame(
        &mut reg,
        &roles,
        &frame(
            vec![],
            vec![
                Update { actor: 3, class: PLAYER_TEAM, value: AttrValue::ActorRef(8) },
                Update { actor: 3, class: PLAYER_TEAM, value: AttrValue::ActorRef(7) },
            ],
            vec![],
        ),
    );
    let (_, color_after, team, _) = player_of(&reg, 3);
    assert_eq!(color_before, Some(PaletteColor { side: Side::First, slot: 0 }));
    assert_eq!(color_after, color_before);
    assert_eq!(team, Some(Side::First));
}

#[test]
fn a_fifth_player_on_one_side_wraps_to_the_first_slot() {
    let roles = roles();
    let mut reg = Registry::new();
    let mut creations = vec![created(7, TEAM0)];
    let mut updates = Vec::new();
    for i in 0..5u32 {
        creations.push(created(10 + i, PLAYER));
        updates.push(Update {
            actor: 10 + i,
            class: PLAYER_TEAM,
            value: AttrValue::ActorRef(7),
        });
    }
    apply_frame(&mut reg, &roles, &frame(creations, updates, vec![]));
    for (i, expected_slot) in [0u8, 1, 2, 3, 0].iter().enumerate() {
        let (_, color, _, _) = player_of(&reg, 10 + i as u32);
        assert_eq!(color, Some(PaletteColor { side: Side::First, slot: *expected_slot }));
    }
}

#[test]
fn name_updates_apply_verbatim_and_malformed_values_are_ignored() {
    let roles = roles();
    let mut reg = Registry::new();
    apply_frame(&mut reg, &roles, &frame(vec![created(3, PLAYER)], vec![], vec![]));
    apply_frame(
        &mut reg,
        &roles,
        &frame(
            vec![],
            vec![
                Update {
                    actor: 3,
                    class: PLAYER_NAME,
                    value: AttrValue::Text("Calculated".to_string()),
                },
                // a team assignment that is not an actor reference: ignored
                Update {
                    actor: 3,
                    class: PLAYER_TEAM,
                    value: AttrValue::Text("Orange".to_string()),
                },
            ],
            vec![],
        ),
    );
    let (name, color, team, _) = player_of(&reg, 3);
    assert_eq!(name, "Calculated");
    assert_eq!(color, None);
    assert_eq!(team, None);
}

#[test]
fn deleting_a_player_cascades_to_its_linked_car() {
    let roles = roles();
    let mut reg = Registry::new();
    apply_frame(
        &mut reg,
        &roles,
        &frame(
            vec![created(5, CAR), created(2, PLAYER)],
            vec![Update { actor: 5, class: CAR_OWNER, value: AttrValue::ActorRef(2) }],
            vec![],
        ),
    );
    apply_frame(&mut reg, &roles, &frame(vec![], vec![], vec![2]));
    assert!(reg.get(2).is_none());
    assert!(reg.get(5).is_none());
}

#[test]
fn deleting_a_car_clears_the_owner_link_but_keeps_the_player() {
    let roles = roles();
    let mut reg = Registry::new();
    apply_frame(
        &mut reg,
        &roles,
        &frame(
            vec![created(5, CAR), created(2, PLAYER)],
            vec![Update { actor: 5, class: CAR_OWNER, value: AttrValue::ActorRef(2) }],
            vec![],
        ),
    );
    apply_frame(&mut reg, &roles, &frame(vec![], vec![], vec![5]));
    assert!(reg.get(5).is_none());
    let (_, _, _, car) = player_of(&reg, 2);
    assert_eq!(car, None);
}

#[test]
fn a_car_is_owned_by_at_most_one_player() {
    let roles = roles();
    let mut reg = Registry::new();
    apply_frame(
        &mut reg,
        &roles,
        &frame(
            vec![created(5, CAR), created(2, PLAYER), created(3, PLAYER)],
            vec![],
            vec![],
        ),
    );
    apply_frame(
        &mut reg,
        &roles,
        &frame(
            vec![],
            vec![Update { actor: 5, class: CAR_OWNER, value: AttrValue::ActorRef(2) }],
            vec![],
        ),
    );
    apply_frame(
        &mut reg,
        &roles,
        &frame(
            vec![],
            vec![Update { actor: 5, class: CAR_OWNER, value: AttrValue::ActorRef(3) }],
            vec![],
        ),
    );
    let (_, _, _, car2) = player_of(&reg, 2);
    let (_, _, _, car3) = player_of(&reg, 3);
    assert_eq!(car2, None);
    assert_eq!(car3, Some(5));
}

#[test]
fn snapshot_lists_positioned_players_then_the_ball() {
    let roles = roles();
    let mut reg = Registry::new();
    apply_frame(
        &mut reg,
        &roles,
        &frame(
            vec![
                created(7, TEAM0),
                created(2, PLAYER),
                created(3, PLAYER),
                created(5, CAR),
                created(6, CAR),
                created(10, BALL),
            ],
            vec![
                Update { actor: 5, class: CAR_OWNER, value: AttrValue::ActorRef(2) },
                Update { actor: 6, class: CAR_OWNER, value: AttrValue::ActorRef(3) },
                Update { actor: 2, class: PLAYER_TEAM, value: AttrValue::ActorRef(7) },
                Update { actor: 5, class: RIGID_BODY, value: AttrValue::Rigid(transform(100)) },
                Update { actor: 10, class: RIGID_BODY, value: AttrValue::Rigid(transform(300)) },
            ],
            vec![],
        ),
    );
    let marks = reg.snapshot();
    // player 3's car has no transform yet, so only player 2 and the ball
    assert_eq!(marks.len(), 2);
    assert_eq!(marks[0].kind, MarkKind::PlayerMark);
    assert_eq!(marks[0].transform, transform(100));
    assert_eq!(marks[0].color, Some(PaletteColor { side: Side::First, slot: 0 }));
    assert_eq!(marks[1].kind, MarkKind::BallMark);
    assert_eq!(marks[1].transform, transform(300));
    assert_eq!(marks[1].color, None);
}

#[test]
fn the_empty_registry_renders_nothing() {
    let reg = Registry::new();
    assert!(reg.snapshot().is_empty());
}

#[test]
fn the_balls_identifier_stays_stable_once_observed() {
    let roles = roles();
    let mut reg = Registry::new();
    apply_frame(&mut reg, &roles, &frame(vec![created(10, BALL)], vec![], vec![]));
    // a second ball creation under another identifier is ignored
    apply_frame(&mut reg, &roles, &frame(vec![created(11, BALL)], vec![], vec![]));
    apply_frame(
        &mut reg,
        &roles,
        &frame(
            vec![],
            vec![Update { actor: 11, class: RIGID_BODY, value: AttrValue::Rigid(transform(9)) }],
            vec![],
        ),
    );
    assert!(reg.get(11).is_none());
    assert!(reg.snapshot().is_empty());
    apply_frame(
        &mut reg,
        &roles,
        &frame(
            vec![],
            vec![Update { actor: 10, class: RIGID_BODY, value: AttrValue::Rigid(transform(9)) }],
            vec![],
        ),
    );
    let marks = reg.snapshot();
    assert_eq!(marks.len(), 1);
    assert_eq!(marks[0].kind, MarkKind::BallMark);
}

#[test]
fn rigid_body_updates_overwrite_the_stored_transform() {
    let roles = roles();
    let mut reg = Registry::new();
    apply_frame(
        &mut reg,
        &roles,
        &frame(
            vec![created(5, CAR), created(2, PLAYER)],
            vec![Update { actor: 5, class: CAR_OWNER, value: AttrValue::ActorRef(2) }],
            vec![],
        ),
    );
    apply_frame(
        &mut reg,
        &roles,
        &frame(
            vec![],
            vec![Update { actor: 5, class: RIGID_BODY, value: AttrValue::Rigid(transform(1)) }],
            vec![],
        ),
    );
    apply_frame(
        &mut reg,
        &roles,
        &frame(
            vec![],
            vec![Update { actor: 5, class: RIGID_BODY, value: AttrValue::Rigid(transform(50)) }],
            vec![],
        ),
    );
    let marks = reg.snapshot();
    assert_eq!(marks.len(), 1);
    assert_eq!(marks[0].transform, transform(50));
}
