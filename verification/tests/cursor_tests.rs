use replay_core::cursor::Cursor;
use replay_core::data::{AttrValue, Creation, Frame, QuatBits, Transform, Update, Vec3Bits};
use replay_core::schema::RoleMap;

const CAR: u32 = 3;
const PLAYER: u32 = 4;
const RIGID_BODY: u32 = 8;

fn roles() -> RoleMap {
    RoleMap {
        ball: Some(0),
        team_first: Some(1),
        team_second: Some(2),
        car: Some(CAR),
        player: Some(PLAYER),
        car_owner: Some(5),
        player_team: Some(6),
        player_name: Some(7),
        rigid_body: Some(RIGID_BODY),
    }
}

fn transform(tag: u32) -> Transform {
    Transform {
        location: Vec3Bits { x: tag, y: tag, z: tag },
        rotation: QuatBits { x: 0, y: 0, z: 0, w: 1 },
        linear_velocity: None,
        angular_velocity: None,
    }
}

/// `count` frames; frame `i` creates a car with identifier `i`.
fn car_frames(count: u32) -> Vec<Frame> {
    let mut frames = Vec::new();
    for i in 0..count {
        frames.push(Frame {
            creations: vec![Creation { actor: i, class: CAR, initial: None }],
            updates: vec![Update {
                actor: i,
                class: RIGID_BODY,
                value: AttrValue::Rigid(transform(i)),
            }],
            deletions: vec![],
        });
    }
    frames
}

#[test]
fn stepping_past_the_last_frame_wraps_to_an_empty_registry() {
    let mut cursor = Cursor::new(roles(), car_frames(3));
    for _ in 0..3 {
        cursor.step();
    }
    assert_eq!(cursor.current_index(), 0);
    assert!(cursor.current_registry().get(0).is_none());
    assert!(cursor.current_registry().snapshot().is_empty());
}

#[test]
fn stepping_accumulates_state_frame_by_frame() {
    let mut cursor = Cursor::new(roles(), car_frames(5));
    cursor.step();
    cursor.step();
    assert_eq!(cursor.current_index(), 2);
    assert!(cursor.current_registry().get(0).is_some());
    assert!(cursor.current_registry().get(1).is_some());
    assert!(cursor.current_registry().get(2).is_none());
}

#[test]
fn seeking_forward_then_backward_reproduces_the_initial_state() {
    let mut cursor = Cursor::new(roles(), car_frames(12));
    cursor.seek(10);
    assert_eq!(cursor.current_index(), 10);
    assert!(cursor.current_registry().get(9).is_some());
    cursor.seek(-10);
    assert_eq!(cursor.current_index(), 0);
    for i in 0..12u32 {
        assert!(cursor.current_registry().get(i).is_none());
    }
    assert!(cursor.current_registry().snapshot().is_empty());
}

#[test]
fn seeking_backward_reproduces_an_intermediate_state_exactly() {
    let mut fast = Cursor::new(roles(), car_frames(9));
    fast.seek(7);
    fast.seek(-3);
    assert_eq!(fast.current_index(), 4);

    let mut slow = Cursor::new(roles(), car_frames(9));
    slow.seek(4);
    assert_eq!(slow.current_index(), 4);

    assert_eq!(fast.current_registry().snapshot(), slow.current_registry().snapshot());
    for i in 0..4u32 {
        assert!(fast.current_registry().get(i).is_some());
    }
    assert!(fast.current_registry().get(4).is_none());
}

#[test]
fn seeking_backward_past_frame_zero_wraps_around() {
    let mut cursor = Cursor::new(roles(), car_frames(6));
    cursor.seek(2);
    cursor.seek(-3);
    // 2 - 3 wraps to index 5 with the first five frames replayed
    assert_eq!(cursor.current_index(), 5);
    for i in 0..5u32 {
        assert!(cursor.current_registry().get(i).is_some());
    }
    assert!(cursor.current_registry().get(5).is_none());
}

#[test]
fn seeking_forward_by_the_whole_match_returns_to_the_start() {
    let mut cursor = Cursor::new(roles(), car_frames(4));
    cursor.seek(4);
    assert_eq!(cursor.current_index(), 0);
    assert!(cursor.current_registry().snapshot().is_empty());
}

#[test]
fn backward_seeks_restore_from_checkpoints_beyond_the_interval() {
    let mut cursor = Cursor::new(roles(), car_frames(130));
    cursor.seek(129);
    assert_eq!(cursor.current_index(), 129);
    cursor.seek(-1);
    assert_eq!(cursor.current_index(), 128);
    for i in 0..128u32 {
        assert!(cursor.current_registry().get(i).is_some());
    }
    assert!(cursor.current_registry().get(128).is_none());
}

#[test]
fn an_empty_match_leaves_the_cursor_parked() {
    let mut cursor = Cursor::new(roles(), Vec::new());
    cursor.step();
    cursor.seek(5);
    cursor.seek(-5);
    assert_eq!(cursor.current_index(), 0);
    assert_eq!(cursor.total_frames(), 0);
    assert!(cursor.current_registry().snapshot().is_empty());
}

#[test]
fn load_resolves_the_schema_and_projects_frames() {
    let names = vec![
        "Archetypes.Car.Car_Default".to_string(),
        "TAGame.RBActor_TA:ReplicatedRBState".to_string(),
    ];
    let frames = vec![
        Frame {
            creations: vec![Creation { actor: 5, class: 0, initial: None }],
            updates: vec![Update { actor: 5, class: 1, value: AttrValue::Rigid(transform(77)) }],
            deletions: vec![],
        },
        Frame { creations: vec![], updates: vec![], deletions: vec![] },
    ];
    let mut cursor = Cursor::load(&names, frames);
    assert_eq!(cursor.total_frames(), 2);
    cursor.step();
    assert_eq!(cursor.current_index(), 1);
    assert!(cursor.current_registry().get(5).is_some());
    cursor.step();
    assert_eq!(cursor.current_index(), 0);
    assert!(cursor.current_registry().get(5).is_none());
}
