use encounter_tracker::command::Outcome;
use encounter_tracker::game::Game;
use encounter_tracker::team::Team;
use encounter_tracker::CmdError;

fn ok_reply(g: &mut Game, line: &str) -> String {
    match g.process_command(line.to_string()) {
        Outcome::Done(Ok(m)) => m,
        _ => panic!("expected success"),
    }
}

#[test]
fn save_line_format_is_name_bar_code() {
    let mut g = Game::new();
    assert!(g.add_entity("Orc".to_string(), Team::Enemy).is_ok());
    assert_eq!(g.save_text(Team::Unknown), "Orc|enemy\n");
}

#[test]
fn save_all_then_load_reproduces_names_and_teams() {
    let mut g = Game::new();
    assert!(g.add_entity("Hero".to_string(), Team::Party).is_ok());
    assert!(g.add_entity("Orc".to_string(), Team::Enemy).is_ok());
    assert!(g.add_entity("Wolf".to_string(), Team::Neutral).is_ok());
    assert!(g.add_entity("Friend".to_string(), Team::Allies).is_ok());
    assert!(g.add_entity("Who".to_string(), Team::Unknown).is_ok());
    let saved = g.save_text(Team::Unknown);
    let mut fresh = Game::new();
    assert_eq!(fresh.load_from(&saved), Ok("Loaded".to_string()));
    assert_eq!(fresh.get_matchable_names(), g.get_matchable_names());
    assert_eq!(fresh.save_text(Team::Unknown), saved);
}

#[test]
fn save_filters_by_team() {
    let mut g = Game::new();
    assert!(g.add_entity("Hero".to_string(), Team::Party).is_ok());
    assert!(g.add_entity("Orc".to_string(), Team::Enemy).is_ok());
    assert_eq!(g.save_text(Team::Party), "Hero|party\n");
    assert_eq!(g.save_text(Team::Enemy), "Orc|enemy\n");
}

#[test]
fn save_command_requests_a_file_write() {
    let mut g = Game::new();
    assert!(g.add_entity("Hero".to_string(), Team::Party).is_ok());
    match g.process_command("save p campsite".to_string()) {
        Outcome::SaveFile {
            filename,
            contents,
            message,
        } => {
            assert_eq!(filename, "campsite");
            assert_eq!(contents, "Hero|party\n");
            assert_eq!(message, "Saved Party to campsite");
        }
        _ => panic!("expected a save request"),
    }
}

#[test]
fn save_all_uses_unknown_filter() {
    let mut g = Game::new();
    assert!(g.add_entity("Hero".to_string(), Team::Party).is_ok());
    assert!(g.add_entity("Orc".to_string(), Team::Enemy).is_ok());
    match g.process_command("save all everyone".to_string()) {
        Outcome::SaveFile {
            filename,
            contents,
            message,
        } => {
            assert_eq!(filename, "everyone");
            assert_eq!(contents, "Hero|party\nOrc|enemy\n");
            assert_eq!(message, "Saved Unknown Team to everyone");
        }
        _ => panic!("expected a save request"),
    }
}

#[test]
fn load_command_requests_a_file_read() {
    let mut g = Game::new();
    match g.process_command("load campsite".to_string()) {
        Outcome::LoadFile { filename } => assert_eq!(filename, "campsite"),
        _ => panic!("expected a load request"),
    }
}

#[test]
fn load_malformed_line_fails_and_mutates_nothing() {
    let mut g = Game::new();
    assert!(g.add_entity("Hero".to_string(), Team::Party).is_ok());
    let before = g.get_entities_list();
    assert_eq!(
        g.load_from("no separator here"),
        Err(CmdError::InvalidSaveFormat)
    );
    assert_eq!(
        g.load_from("Orc|enemy\nbroken|line|extra\n"),
        Err(CmdError::InvalidSaveFormat)
    );
    assert_eq!(g.get_entities_list(), before);
}

#[test]
fn load_appends_without_duplicate_check() {
    let mut g = Game::new();
    assert!(g.add_entity("Orc".to_string(), Team::Enemy).is_ok());
    assert_eq!(g.load_from("Orc|enemy\n"), Ok("Loaded".to_string()));
    assert_eq!(g.get_matchable_names().len(), 2);
}

#[test]
fn load_unrecognized_team_code_becomes_unknown() {
    let mut g = Game::new();
    assert_eq!(g.load_from("Who|martian\n"), Ok("Loaded".to_string()));
    assert!(g.get_entities_list().contains("\nUnknown Team\nWho, Damage Taken: 0\n"));
}

#[test]
fn loaded_entities_start_fresh() {
    let mut g = Game::new();
    assert!(g.add_entity("Orc".to_string(), Team::Enemy).is_ok());
    g.damage(9, &vec!["orc".to_string()]);
    let saved = g.save_text(Team::Unknown);
    let mut fresh = Game::new();
    assert_eq!(fresh.load_from(&saved), Ok("Loaded".to_string()));
    assert!(fresh.get_entities_list().contains("Orc, Damage Taken: 0\n"));
    let _ = ok_reply(&mut fresh, "clear");
    assert_eq!(fresh.get_entities_list(), "");
}
