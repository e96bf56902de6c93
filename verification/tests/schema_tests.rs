use replay_core::schema::resolve;

fn table_with_all_roles() -> Vec<String> {
    vec![
        "Something.Else".to_string(),
        "Archetypes.Ball.Ball_Default".to_string(),
        "Archetypes.Teams.Team0".to_string(),
        "Archetypes.Teams.Team1".to_string(),
        "Archetypes.Car.Car_Default".to_string(),
        "TAGame.Default__PRI_TA".to_string(),
        "Engine.Pawn:PlayerReplicationInfo".to_string(),
        "Engine.PlayerReplicationInfo:Team".to_string(),
        "Engine.PlayerReplicationInfo:PlayerName".to_string(),
        "TAGame.RBActor_TA:ReplicatedRBState".to_string(),
        "Another.Unrelated.Name".to_string(),
    ]
}

#[test]
fn resolve_finds_every_role_at_its_index() {
    let roles = resolve(&table_with_all_roles());
    assert_eq!(roles.ball, Some(1));
    assert_eq!(roles.team_first, Some(2));
    assert_eq!(roles.team_second, Some(3));
    assert_eq!(roles.car, Some(4));
    assert_eq!(roles.player, Some(5));
    assert_eq!(roles.car_owner, Some(6));
    assert_eq!(roles.player_team, Some(7));
    assert_eq!(roles.player_name, Some(8));
    assert_eq!(roles.rigid_body, Some(9));
}

#[test]
fn resolve_leaves_missing_roles_unresolved() {
    let names = vec![
        "Archetypes.Car.Car_Default".to_string(),
        "TAGame.Default__PRI_TA".to_string(),
    ];
    let roles = resolve(&names);
    assert_eq!(roles.car, Some(0));
    assert_eq!(roles.player, Some(1));
    assert_eq!(roles.ball, None);
    assert_eq!(roles.team_first, None);
    assert_eq!(roles.team_second, None);
    assert_eq!(roles.car_owner, None);
    assert_eq!(roles.player_team, None);
    assert_eq!(roles.player_name, None);
    assert_eq!(roles.rigid_body, None);
}

#[test]
fn resolve_twice_yields_identical_mapping() {
    let names = table_with_all_roles();
    let first = resolve(&names);
    let second = resolve(&names);
    assert_eq!(first, second);
}

#[test]
fn resolve_of_empty_table_resolves_nothing() {
    let roles = resolve(&Vec::new());
    assert_eq!(roles.ball, None);
    assert_eq!(roles.rigid_body, None);
}

#[test]
fn resolve_takes_the_last_occurrence() {
    let names = vec![
        "Archetypes.Car.Car_Default".to_string(),
        "Filler".to_string(),
        "Archetypes.Car.Car_Default".to_string(),
    ];
    let roles = resolve(&names);
    assert_eq!(roles.car, Some(2));
}
