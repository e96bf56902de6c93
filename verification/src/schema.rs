//! Schema resolver: a one-time pass over the match's class/property name
//! table.
//!
//! Each well-known role the projector must recognize is matched exactly
//! against the table's entries; the entry's index becomes that role's
//! class identifier for the match. A role whose name never appears stays
//! unresolved, which only means the feature is never observed this match.

use vstd::prelude::*;

use crate::data::ClassId;

verus! {

/// The immutable role mapping produced at load: for every well-known role,
/// the class identifier it carries this match, or `None` if the name table
/// does not mention it.
#[derive(Debug, Clone, Copy, PartialEq, Eq)]
pub struct RoleMap {
    /// Ball archetype.
    pub ball: Option<ClassId>,
    /// First team's archetype.
    pub team_first: Option<ClassId>,
    /// Second team's archetype.
    pub team_second: Option<ClassId>,
    /// Car archetype.
    pub car: Option<ClassId>,
    /// Player archetype.
    pub player: Option<ClassId>,
    /// "Car owned by player" property.
    pub car_owner: Option<ClassId>,
    /// "Player's team" property.
    pub player_team: Option<ClassId>,
    /// "Player's display name" property.
    pub player_name: Option<ClassId>,
    /// "Rigid-body transform changed" property.
    pub rigid_body: Option<ClassId>,
}

pub open spec fn ball_name() -> Seq<char> {
    "Archetypes.Ball.Ball_Default"@
}

pub open spec fn team_first_name() -> Seq<char> {
    "Archetypes.Teams.Team0"@
}

pub open spec fn team_second_name() -> Seq<char> {
    "Archetypes.Teams.Team1"@
}

pub open spec fn car_name() -> Seq<char> {
    "Archetypes.Car.Car_Default"@
}

pub open spec fn player_name() -> Seq<char> {
    "TAGame.Default__PRI_TA"@
}

pub open spec fn car_owner_name() -> Seq<char> {
    "Engine.Pawn:PlayerReplicationInfo"@
}

pub open spec fn player_team_name() -> Seq<char> {
    "Engine.PlayerReplicationInfo:Team"@
}

pub open spec fn player_name_name() -> Seq<char> {
    "Engine.PlayerReplicationInfo:PlayerName"@
}

pub open spec fn rigid_body_name() -> Seq<char> {
    "TAGame.RBActor_TA:ReplicatedRBState"@
}

/// The class identifier a key resolves to in a name table: the index of
/// the last entry equal to `key`, or `None` when no entry matches.
pub open spec fn role_index(names: Seq<Seq<char>>, key: Seq<char>) -> Option<ClassId>
    decreases names.len(),
{
    if names.len() == 0 {
        None
    } else if names.last() == key {
        Some((names.len() - 1) as ClassId)
    } else {
        role_index(names.drop_last(), key)
    }
}

/// The role mapping a name table resolves to.
pub open spec fn resolve_spec(names: Seq<Seq<char>>) -> RoleMap {
    RoleMap {
        ball: role_index(names, ball_name()),
        team_first: role_index(names, team_first_name()),
        team_second: role_index(names, team_second_name()),
        car: role_index(names, car_name()),
        player: role_index(names, player_name()),
        car_owner: role_index(names, car_owner_name()),
        player_team: role_index(names, player_team_name()),
        player_name: role_index(names, player_name_name()),
        rigid_body: role_index(names, rigid_body_name()),
    }
}

proof fn lemma_role_index_step(names: Seq<Seq<char>>, key: Seq<char>, i: int)
    requires
        0 <= i < names.len(),
    ensures
        role_index(names.take(i + 1), key) == if names[i] == key {
            Some(i as ClassId)
        } else {
            role_index(names.take(i), key)
        },
{
    let t = names.take(i + 1);
    assert(t.drop_last() =~= names.take(i));
    assert(t.last() == names[i]);
}

/// Scan the name table once and record, for each well-known role, the
/// index of the entry naming it.
pub fn resolve(names: &Vec<String>) -> (roles: RoleMap)
    requires
        names@.len() <= u32::MAX as int,
    ensures
        roles == resolve_spec(names.deep_view()),
{
    let key_ball: String = "Archetypes.Ball.Ball_Default".to_owned();
    let key_team_first: String = "Archetypes.Teams.Team0".to_owned();
    let key_team_second: String = "Archetypes.Teams.Team1".to_owned();
    let key_car: String = "Archetypes.Car.Car_Default".to_owned();
    let key_player: String = "TAGame.Default__PRI_TA".to_owned();
    let key_car_owner: String = "Engine.Pawn:PlayerReplicationInfo".to_owned();
    let key_player_team: String = "Engine.PlayerReplicationInfo:Team".to_owned();
    let key_player_name: String = "Engine.PlayerReplicationInfo:PlayerName".to_owned();
    let key_rigid_body: String = "TAGame.RBActor_TA:ReplicatedRBState".to_owned();

    let mut roles = RoleMap {
        ball: None,
        team_first: None,
        team_second: None,
        car: None,
        player: None,
        car_owner: None,
        player_team: None,
        player_name: None,
        rigid_body: None,
    };

    let ghost table: Seq<Seq<char>> = names.deep_view();
    let n = names.len();
    let mut i: usize = 0;
    while i < n
        invariant
            n == names@.len(),
            names@.len() <= u32::MAX as int,
            i <= n,
            table == names.deep_view(),
            key_ball@ == ball_name(),
            key_team_first@ == team_first_name(),
            key_team_second@ == team_second_name(),
            key_car@ == car_name(),
            key_player@ == player_name(),
            key_car_owner@ == car_owner_name(),
            key_player_team@ == player_team_name(),
            key_player_name@ == player_name_name(),
            key_rigid_body@ == rigid_body_name(),
            roles.ball == role_index(table.take(i as int), ball_name()),
            roles.team_first == role_index(table.take(i as int), team_first_name()),
            roles.team_second == role_index(table.take(i as int), team_second_name()),
            roles.car == role_index(table.take(i as int), car_name()),
            roles.player == role_index(table.take(i as int), player_name()),
            roles.car_owner == role_index(table.take(i as int), car_owner_name()),
            roles.player_team == role_index(table.take(i as int), player_team_name()),
            roles.player_name == role_index(table.take(i as int), player_name_name()),
            roles.rigid_body == role_index(table.take(i as int), rigid_body_name()),
        decreases n - i,
    {
        let name = &names[i];
        proof {
            assert(table[i as int] == name@);
        }
        if *name == key_ball {
            roles.ball = Some(i as u32);
        }
        proof {
            lemma_role_index_step(table, ball_name(), i as int);
        }
        if *name == key_team_first {
            roles.team_first = Some(i as u32);
        }
        proof {
            lemma_role_index_step(table, team_first_name(), i as int);
        }
        if *name == key_team_second {
            roles.team_second = Some(i as u32);
        }
        proof {
            lemma_role_index_step(table, team_second_name(), i as int);
        }
        if *name == key_car {
            roles.car = Some(i as u32);
        }
        proof {
            lemma_role_index_step(table, car_name(), i as int);
        }
        if *name == key_player {
            roles.player = Some(i as u32);
        }
        proof {
            lemma_role_index_step(table, player_name(), i as int);
        }
        if *name == key_car_owner {
            roles.car_owner = Some(i as u32);
        }
        proof {
            lemma_role_index_step(table, car_owner_name(), i as int);
        }
        if *name == key_player_team {
            roles.player_team = Some(i as u32);
        }
        proof {
            lemma_role_index_step(table, player_team_name(), i as int);
        }
        if *name == key_player_name {
            roles.player_name = Some(i as u32);
        }
        proof {
            lemma_role_index_step(table, player_name_name(), i as int);
        }
        if *name == key_rigid_body {
            roles.rigid_body = Some(i as u32);
        }
        proof {
            lemma_role_index_step(table, rigid_body_name(), i as int);
        }
        i = i + 1;
    }
    proof {
        assert(table.take(n as int) =~= table);
    }
    roles
}

/// Idempotent resolution: two runs of the resolver over the same name
/// table yield an identical role mapping.
pub proof fn lemma_resolve_idempotent(first: RoleMap, second: RoleMap, names: Seq<Seq<char>>)
    requires
        first == resolve_spec(names),
        second == resolve_spec(names),
    ensures
        first == second,
{
}

} // verus!
