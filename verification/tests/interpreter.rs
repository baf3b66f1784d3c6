use encounter_tracker::command::Outcome;
use encounter_tracker::game::Game;
use encounter_tracker::text::parse_u16;
use encounter_tracker::CmdError;

fn reply(g: &mut Game, line: &str) -> Result<String, CmdError> {
    match g.process_command(line.to_string()) {
        Outcome::Done(res) => res,
        _ => panic!("expected a finished reply, got a file request"),
    }
}

#[test]
fn abbreviation_d_behaves_like_damage() {
    let mut a = Game::new();
    let mut b = Game::new();
    assert_eq!(reply(&mut a, "add_entity Orc enemy"), Ok("Added entity".to_string()));
    assert_eq!(reply(&mut b, "add_entity Orc enemy"), Ok("Added entity".to_string()));
    assert_eq!(reply(&mut a, "d 5 orc"), reply(&mut b, "damage 5 orc"));
    assert_eq!(a.get_entities_list(), b.get_entities_list());
    assert!(a.get_entities_list().contains("Orc, Damage Taken: 5\n"));
}

#[test]
fn every_abbreviation_resolves() {
    let mut g = Game::new();
    assert_eq!(reply(&mut g, "ae Orc enemy"), Ok("Added entity".to_string()));
    assert_eq!(reply(&mut g, "as poison 3 turns orc"), Ok("Added effects".to_string()));
    assert_eq!(reply(&mut g, "rs poison orc"), Ok("Removed effects".to_string()));
    assert_eq!(reply(&mut g, "d 5 orc"), Ok("Damaged entities".to_string()));
    assert_eq!(reply(&mut g, "h 2 orc"), Ok("Healed entities".to_string()));
    assert_eq!(reply(&mut g, "re orc"), Ok("Removed entity".to_string()));
    assert_eq!(g.get_matchable_names().len(), 0);
}

#[test]
fn scenario_party_before_enemy_with_clamped_heal() {
    let mut g = Game::new();
    assert_eq!(reply(&mut g, "add_entity Goblin enemy"), Ok("Added entity".to_string()));
    assert_eq!(reply(&mut g, "add_entity Hero party"), Ok("Added entity".to_string()));
    assert_eq!(reply(&mut g, "damage 3 goblin"), Ok("Damaged entities".to_string()));
    assert_eq!(reply(&mut g, "heal 1 Hero"), Ok("Healed entities".to_string()));
    let listing = g.get_entities_list();
    assert!(listing.contains(
        "Party\nHero, Damage Taken: 0\n\nEnemy\nGoblin, Damage Taken: 3\n"
    ));
}

#[test]
fn unknown_command_is_reported() {
    let mut g = Game::new();
    assert_eq!(reply(&mut g, "frobnicate"), Err(CmdError::UnknownCommand));
}

#[test]
fn empty_line_is_unknown_command() {
    let mut g = Game::new();
    assert_eq!(reply(&mut g, ""), Err(CmdError::UnknownCommand));
    assert_eq!(reply(&mut g, "   "), Err(CmdError::UnknownCommand));
}

#[test]
fn missing_arguments_are_rejected_per_verb() {
    let mut g = Game::new();
    assert_eq!(reply(&mut g, "add_entity"), Err(CmdError::MissingArguments));
    assert_eq!(reply(&mut g, "remove_entity"), Err(CmdError::MissingArguments));
    assert_eq!(reply(&mut g, "add_effect poison 3"), Err(CmdError::MissingArguments));
    assert_eq!(reply(&mut g, "remove_effect"), Err(CmdError::MissingArguments));
    assert_eq!(reply(&mut g, "damage 5"), Err(CmdError::MissingArguments));
    assert_eq!(reply(&mut g, "heal"), Err(CmdError::MissingArguments));
    assert_eq!(reply(&mut g, "save all"), Err(CmdError::MissingArguments));
    assert_eq!(reply(&mut g, "load"), Err(CmdError::MissingArguments));
}

#[test]
fn invalid_amounts_are_rejected_before_any_mutation() {
    let mut g = Game::new();
    assert_eq!(reply(&mut g, "add_entity Orc enemy"), Ok("Added entity".to_string()));
    let before = g.get_entities_list();
    assert_eq!(reply(&mut g, "damage five orc"), Err(CmdError::InvalidNumber));
    assert_eq!(reply(&mut g, "damage 70000 orc"), Err(CmdError::InvalidNumber));
    assert_eq!(reply(&mut g, "heal -1 orc"), Err(CmdError::InvalidNumber));
    assert_eq!(
        reply(&mut g, "add_effect poison long turns orc"),
        Err(CmdError::InvalidNumber)
    );
    assert_eq!(g.get_entities_list(), before);
}

#[test]
fn damage_hits_several_targets_at_once() {
    let mut g = Game::new();
    assert_eq!(reply(&mut g, "add_entity Orc1 enemy"), Ok("Added entity".to_string()));
    assert_eq!(reply(&mut g, "add_entity Orc2 enemy"), Ok("Added entity".to_string()));
    assert_eq!(reply(&mut g, "add_entity Hero party"), Ok("Added entity".to_string()));
    assert_eq!(reply(&mut g, "damage 5 orc1 orc2"), Ok("Damaged entities".to_string()));
    let listing = g.get_entities_list();
    assert!(listing.contains("Orc1, Damage Taken: 5\n"));
    assert!(listing.contains("Orc2, Damage Taken: 5\n"));
    assert!(listing.contains("Hero, Damage Taken: 0\n"));
}

#[test]
fn runs_of_spaces_are_collapsed() {
    let mut g = Game::new();
    assert_eq!(reply(&mut g, "add_entity   Orc   enemy"), Ok("Added entity".to_string()));
    assert_eq!(reply(&mut g, "  damage  5    orc "), Ok("Damaged entities".to_string()));
    assert!(g.get_entities_list().contains("Orc, Damage Taken: 5\n"));
}

#[test]
fn target_matching_ignores_ascii_case() {
    let mut g = Game::new();
    assert_eq!(reply(&mut g, "add_entity Hero party"), Ok("Added entity".to_string()));
    assert_eq!(reply(&mut g, "damage 3 HERO"), Ok("Damaged entities".to_string()));
    assert!(g.get_entities_list().contains("Hero, Damage Taken: 3\n"));
}

#[test]
fn team_codes_parse_case_insensitively() {
    let mut g = Game::new();
    assert_eq!(reply(&mut g, "add_entity Orc E"), Ok("Added entity".to_string()));
    assert_eq!(reply(&mut g, "add_entity Pat Party"), Ok("Added entity".to_string()));
    assert_eq!(reply(&mut g, "add_entity Who zzz"), Ok("Added entity".to_string()));
    let listing = g.get_entities_list();
    assert!(listing.contains("\nEnemy\nOrc, Damage Taken: 0\n"));
    assert!(listing.contains("\nParty\nPat, Damage Taken: 0\n"));
    assert!(listing.contains("\nUnknown Team\nWho, Damage Taken: 0\n"));
}

#[test]
fn add_entity_without_team_is_unknown() {
    let mut g = Game::new();
    assert_eq!(reply(&mut g, "add_entity Drifter"), Ok("Added entity".to_string()));
    assert!(g.get_entities_list().contains("\nUnknown Team\nDrifter, Damage Taken: 0\n"));
}

#[test]
fn duplicate_entity_through_interpreter() {
    let mut g = Game::new();
    assert_eq!(reply(&mut g, "add_entity Hero party"), Ok("Added entity".to_string()));
    assert_eq!(reply(&mut g, "add_entity hero enemy"), Err(CmdError::DuplicateEntity));
}

#[test]
fn clear_through_interpreter() {
    let mut g = Game::new();
    assert_eq!(reply(&mut g, "add_entity Hero party"), Ok("Added entity".to_string()));
    assert_eq!(reply(&mut g, "clear"), Ok("Cleared entities".to_string()));
    assert_eq!(g.get_entities_list(), "");
}

#[test]
fn help_lists_commands_and_topics() {
    let mut g = Game::new();
    assert_eq!(
        reply(&mut g, "help"),
        Ok("Valid Commands: add_entity, remove_entity, add_effect, remove_effect, damage, \
            heal, clear, save, load. Use help <command> for more info"
            .to_string())
    );
    assert_eq!(reply(&mut g, "help damage"), Ok("damage <amount> <names[]>".to_string()));
    assert_eq!(
        reply(&mut g, "help save"),
        Ok("save <party | enemy | all> <filename>".to_string())
    );
    assert_eq!(
        reply(&mut g, "help nonsense"),
        Ok("Valid Commands: add_entity, remove_entity, add_effect, remove_effect, damage, \
            heal, clear, save, load"
            .to_string())
    );
}

#[test]
fn effect_command_reads_length_and_unit() {
    let mut g = Game::new();
    assert_eq!(reply(&mut g, "add_entity Orc enemy"), Ok("Added entity".to_string()));
    assert_eq!(
        reply(&mut g, "add_effect poison 3 turns orc"),
        Ok("Added effects".to_string())
    );
    assert!(g
        .get_entities_list()
        .contains("Orc, Damage Taken: 0, Status Effects: poison, 3 Turns; \n"));
}

#[test]
fn effect_command_with_no_targets_affects_nobody() {
    let mut g = Game::new();
    assert_eq!(reply(&mut g, "add_entity Orc enemy"), Ok("Added entity".to_string()));
    assert_eq!(reply(&mut g, "add_effect poison 3 turns"), Ok("Added effects".to_string()));
    assert!(g.get_entities_list().contains("Orc, Damage Taken: 0\n"));
}

#[test]
fn parse_u16_accepts_plain_decimal_digits_only() {
    assert_eq!(parse_u16("0"), Some(0));
    assert_eq!(parse_u16("007"), Some(7));
    assert_eq!(parse_u16("65535"), Some(65535));
    assert_eq!(parse_u16("65536"), None);
    assert_eq!(parse_u16(""), None);
    assert_eq!(parse_u16("12a"), None);
    assert_eq!(parse_u16("-3"), None);
    assert_eq!(parse_u16("+3"), None);
}
