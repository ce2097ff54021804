use db_sim_core::error::SimError;
use db_sim_core::match_setup::{
    is_valid_match_local_id, validate_player_count, validate_roster, Appearance, Loadout,
    MatchMode, MatchPlayerConfig, MAX_MATCH_PLAYERS, MAX_PLAYER_ID_BYTES, MIN_MATCH_PLAYERS,
};

fn player(id: &str, team: u8) -> MatchPlayerConfig {
    MatchPlayerConfig {
        player_id: id.to_owned(),
        team,
        loadout: Loadout {
            main: "launcher".to_owned(),
            secondary: "sidearm".to_owned(),
            melee_tool: "knife".to_owned(),
        },
        appearance: Appearance {
            skin_id: "default".to_owned(),
            ability_skin_ids: Vec::new(),
            victory_pose_id: "default".to_owned(),
        },
    }
}

fn duel() -> Vec<MatchPlayerConfig> {
    vec![player("z_right", 1), player("a_left", 0)]
}

fn check(players: &Vec<MatchPlayerConfig>) -> Result<(), SimError> {
    let resolved = vec![true; players.len()];
    validate_player_count(players.len())?;
    validate_roster(players, &resolved)
}

#[test]
fn invalid_player_counts_fail_closed() {
    let mut too_few = duel();
    too_few.pop();
    assert_eq!(check(&too_few).err(), Some(SimError::OutOfRange { field: "player count" }));

    let mut too_many = duel();
    too_many.extend([player("c", 2), player("d", 3), player("e", 4)]);
    assert_eq!(check(&too_many).err(), Some(SimError::OutOfRange { field: "player count" }));
}

#[test]
fn duplicate_or_malformed_player_ids_fail_closed() {
    let mut duplicate = duel();
    duplicate[1].player_id = duplicate[0].player_id.clone();
    assert_eq!(check(&duplicate).err(), Some(SimError::OutOfRange { field: "player id" }));

    let mut empty = duel();
    empty[0].player_id.clear();
    assert_eq!(check(&empty).err(), Some(SimError::OutOfRange { field: "player id" }));

    let mut nul = duel();
    nul[0].player_id = "bad\0id".to_owned();
    assert_eq!(check(&nul).err(), Some(SimError::OutOfRange { field: "player id" }));

    let mut whitespace = duel();
    whitespace[0].player_id = "bad id".to_owned();
    assert_eq!(check(&whitespace).err(), Some(SimError::OutOfRange { field: "player id" }));

    let mut non_ascii = duel();
    non_ascii[0].player_id = "joueur-é".to_owned();
    assert_eq!(check(&non_ascii).err(), Some(SimError::OutOfRange { field: "player id" }));
}

#[test]
fn a_roster_must_contain_opponents() {
    let mut config = duel();
    config[1].team = config[0].team;
    assert_eq!(check(&config).err(), Some(SimError::OutOfRange { field: "team count" }));
}

#[test]
fn a_valid_duel_roster_passes_and_an_unresolved_or_illegal_loadout_does_not() {
    assert_eq!(check(&duel()), Ok(()));
    let roster = duel();
    assert_eq!(validate_roster(&roster, &vec![false, true]), Err(SimError::UnknownDefinition));
    let mut illegal = duel();
    illegal[1].loadout.main = "bad\0item".to_owned();
    assert_eq!(
        validate_roster(&illegal, &vec![true, true]),
        Err(SimError::OutOfRange { field: "loadout" })
    );
    illegal[1].loadout.main.clear();
    assert_eq!(
        validate_roster(&illegal, &vec![true, true]),
        Err(SimError::OutOfRange { field: "loadout" })
    );
}

#[test]
fn player_id_alphabet_and_byte_limit_are_exact() {
    assert!(is_valid_match_local_id("Player_9.local:blue-team"));
    assert!(!is_valid_match_local_id("contains space"));
    assert!(!is_valid_match_local_id("é"));
    assert!(is_valid_match_local_id(&"a".repeat(MAX_PLAYER_ID_BYTES)));
    assert!(!is_valid_match_local_id(&"a".repeat(MAX_PLAYER_ID_BYTES.saturating_add(1))));
}

#[test]
fn empty_and_control_byte_ids_are_refused() {
    assert!(!is_valid_match_local_id(""));
    assert!(!is_valid_match_local_id("bad\0id"));
    assert!(!is_valid_match_local_id("tab\tid"));
    assert!(!is_valid_match_local_id("slash/id"));
    assert!(is_valid_match_local_id("-"));
    assert!(is_valid_match_local_id("0"));
    assert!(is_valid_match_local_id("Z"));
}

#[test]
fn roster_limits_describe_duels_through_four_player_matches() {
    assert_eq!(MIN_MATCH_PLAYERS, 2);
    assert_eq!(MAX_MATCH_PLAYERS, 4);
    assert_eq!(MatchMode::TurnBased, MatchMode::TurnBased);
}
