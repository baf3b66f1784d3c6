use encounter_tracker::game::Game;
use encounter_tracker::team::{DurationUnit, Team};
use encounter_tracker::CmdError;

fn names(v: &[&str]) -> Vec<String> {
    v.iter().map(|s| s.to_string()).collect()
}

#[test]
fn add_entities_distinct_names_grow_roster() {
    let mut g = Game::new();
    assert!(g.add_entity("Hero".to_string(), Team::Party).is_ok());
    assert!(g.add_entity("Orc".to_string(), Team::Enemy).is_ok());
    assert!(g.add_entity("Bystander".to_string(), Team::Neutral).is_ok());
    assert_eq!(g.get_matchable_names().len(), 3);
}

#[test]
fn add_entity_duplicate_name_any_case_fails() {
    let mut g = Game::new();
    assert!(g.add_entity("Hero".to_string(), Team::Party).is_ok());
    let before = g.get_entities_list();
    assert_eq!(
        g.add_entity("HERO".to_string(), Team::Enemy),
        Err(CmdError::DuplicateEntity)
    );
    assert_eq!(g.get_entities_list(), before);
    assert_eq!(g.get_matchable_names().len(), 1);
}

#[test]
fn remove_entity_absent_is_noop() {
    let mut g = Game::new();
    assert!(g.add_entity("Hero".to_string(), Team::Party).is_ok());
    let before = g.get_entities_list();
    g.remove_entity("ghost");
    assert_eq!(g.get_entities_list(), before);
}

#[test]
fn remove_entity_is_case_insensitive() {
    let mut g = Game::new();
    assert!(g.add_entity("Hero".to_string(), Team::Party).is_ok());
    g.remove_entity("hero");
    assert_eq!(g.get_matchable_names().len(), 0);
}

#[test]
fn damage_then_heal_restores_prior_value() {
    let mut g = Game::new();
    assert!(g.add_entity("Orc1".to_string(), Team::Enemy).is_ok());
    assert!(g.add_entity("Orc2".to_string(), Team::Enemy).is_ok());
    let targets = names(&["orc1", "orc2"]);
    g.damage(7, &targets);
    let before = g.get_entities_list();
    g.damage(5, &targets);
    g.heal(5, &targets);
    assert_eq!(g.get_entities_list(), before);
    assert!(before.contains("Orc1, Damage Taken: 7\n"));
    assert!(before.contains("Orc2, Damage Taken: 7\n"));
}

#[test]
fn heal_past_zero_clamps_to_zero() {
    let mut g = Game::new();
    assert!(g.add_entity("Orc".to_string(), Team::Enemy).is_ok());
    g.damage(1, &names(&["orc"]));
    g.heal(5, &names(&["orc"]));
    assert!(g.get_entities_list().contains("Orc, Damage Taken: 0\n"));
}

#[test]
fn damage_saturates_at_sixteen_bit_maximum() {
    let mut g = Game::new();
    assert!(g.add_entity("Orc".to_string(), Team::Enemy).is_ok());
    g.damage(65535, &names(&["orc"]));
    g.damage(9, &names(&["orc"]));
    assert!(g.get_entities_list().contains("Orc, Damage Taken: 65535\n"));
}

#[test]
fn damage_touches_only_listed_names() {
    let mut g = Game::new();
    assert!(g.add_entity("Orc".to_string(), Team::Enemy).is_ok());
    assert!(g.add_entity("Hero".to_string(), Team::Party).is_ok());
    g.damage(4, &names(&["orc"]));
    let listing = g.get_entities_list();
    assert!(listing.contains("Orc, Damage Taken: 4\n"));
    assert!(listing.contains("Hero, Damage Taken: 0\n"));
}

#[test]
fn render_groups_teams_in_fixed_order() {
    let mut g = Game::new();
    assert!(g.add_entity("Stranger".to_string(), Team::Unknown).is_ok());
    assert!(g.add_entity("Wolf".to_string(), Team::Neutral).is_ok());
    assert!(g.add_entity("Orc".to_string(), Team::Enemy).is_ok());
    assert!(g.add_entity("Friend".to_string(), Team::Allies).is_ok());
    assert!(g.add_entity("Hero".to_string(), Team::Party).is_ok());
    let listing = g.get_entities_list();
    assert_eq!(
        listing,
        "\nParty\nHero, Damage Taken: 0\n\
         \nAllies\nFriend, Damage Taken: 0\n\
         \nEnemy\nOrc, Damage Taken: 0\n\
         \nNeutral\nWolf, Damage Taken: 0\n\
         \nUnknown Team\nStranger, Damage Taken: 0\n"
    );
}

#[test]
fn render_keeps_insertion_order_within_a_team() {
    let mut g = Game::new();
    assert!(g.add_entity("Zed".to_string(), Team::Party).is_ok());
    assert!(g.add_entity("Orc".to_string(), Team::Enemy).is_ok());
    assert!(g.add_entity("Abe".to_string(), Team::Party).is_ok());
    let listing = g.get_entities_list();
    assert_eq!(
        listing,
        "\nParty\nZed, Damage Taken: 0\nAbe, Damage Taken: 0\n\
         \nEnemy\nOrc, Damage Taken: 0\n"
    );
}

#[test]
fn clear_empties_roster() {
    let mut g = Game::new();
    assert!(g.add_entity("Hero".to_string(), Team::Party).is_ok());
    g.clear();
    assert_eq!(g.get_matchable_names().len(), 0);
    assert_eq!(g.get_entities_list(), "");
}

#[test]
fn add_effect_shows_in_listing() {
    let mut g = Game::new();
    assert!(g.add_entity("Orc".to_string(), Team::Enemy).is_ok());
    g.add_effect(
        &"poison".to_string(),
        3,
        DurationUnit::Turns,
        &names(&["orc"]),
    );
    assert!(g
        .get_entities_list()
        .contains("Orc, Damage Taken: 0, Status Effects: poison, 3 Turns; \n"));
}

#[test]
fn add_effect_unknown_unit_shows_blank_label() {
    let mut g = Game::new();
    assert!(g.add_entity("Orc".to_string(), Team::Enemy).is_ok());
    g.add_effect(
        &"dazed".to_string(),
        2,
        DurationUnit::Unknown,
        &names(&["orc"]),
    );
    assert!(g
        .get_entities_list()
        .contains("Orc, Damage Taken: 0, Status Effects: dazed, 2 ; \n"));
}

#[test]
fn same_effect_may_stack() {
    let mut g = Game::new();
    assert!(g.add_entity("Orc".to_string(), Team::Enemy).is_ok());
    g.add_effect(&"burn".to_string(), 1, DurationUnit::Turns, &names(&["orc"]));
    g.add_effect(&"burn".to_string(), 2, DurationUnit::Turns, &names(&["orc"]));
    assert!(g
        .get_entities_list()
        .contains("Status Effects: burn, 1 Turns; burn, 2 Turns; \n"));
}

#[test]
fn remove_effect_matches_name_case_sensitively() {
    let mut g = Game::new();
    assert!(g.add_entity("Orc".to_string(), Team::Enemy).is_ok());
    g.add_effect(&"Burn".to_string(), 1, DurationUnit::Turns, &names(&["orc"]));
    g.remove_effect(&"burn".to_string(), &names(&["orc"]));
    assert!(g.get_entities_list().contains("Burn, 1 Turns; "));
    g.remove_effect(&"Burn".to_string(), &names(&["orc"]));
    assert!(g.get_entities_list().contains("Orc, Damage Taken: 0\n"));
}

#[test]
fn remove_effect_strips_every_copy() {
    let mut g = Game::new();
    assert!(g.add_entity("Orc".to_string(), Team::Enemy).is_ok());
    g.add_effect(&"burn".to_string(), 1, DurationUnit::Turns, &names(&["orc"]));
    g.add_effect(&"burn".to_string(), 5, DurationUnit::Hours, &names(&["orc"]));
    g.remove_effect(&"burn".to_string(), &names(&["orc"]));
    assert!(!g.get_entities_list().contains("burn"));
}

#[test]
fn matchable_names_follow_roster() {
    let mut g = Game::new();
    assert!(g.add_entity("Hero".to_string(), Team::Party).is_ok());
    assert!(g.add_entity("Orc".to_string(), Team::Enemy).is_ok());
    assert_eq!(g.get_matchable_names(), vec!["Hero".to_string(), "Orc".to_string()]);
}
