//! Team affiliations and status-effect duration units, with their textual
//! codes and display labels.
use vstd::prelude::*;
use crate::text::{count_occ, eq_ignore_case, lemma_count_occ_absent, lower};

verus! {

/// A combat participant's affiliation. Display grouping uses the fixed
/// order Party, Allies, Enemy, Neutral, Unknown: Neutral sorts after
/// Enemy on purpose.
#[derive(Debug, Copy, Clone, PartialEq, Eq, Structural)]
pub enum Team {
    Party,
    Allies,
    Neutral,
    Enemy,
    Unknown,
}

/// Display rank of a team: groups are rendered in increasing rank.
pub open spec fn team_rank(t: Team) -> int {
    match t {
        Team::Party => 0,
        Team::Allies => 1,
        Team::Enemy => 2,
        Team::Neutral => 3,
        Team::Unknown => 4,
    }
}

/// The team named by a textual code, compared up to ASCII case; any
/// unrecognized code means `Unknown`, never an error.
pub open spec fn spec_team_from(s: Seq<char>) -> Team {
    if lower(s) == "p"@ || lower(s) == "party"@ {
        Team::Party
    } else if lower(s) == "a"@ || lower(s) == "ally"@ || lower(s) == "allies"@ {
        Team::Allies
    } else if lower(s) == "n"@ || lower(s) == "neutral"@ {
        Team::Neutral
    } else if lower(s) == "e"@ || lower(s) == "enemy"@ {
        Team::Enemy
    } else {
        Team::Unknown
    }
}

/// The display label of a team.
pub open spec fn spec_team_label(t: Team) -> Seq<char> {
    match t {
        Team::Party => "Party"@,
        Team::Allies => "Allies"@,
        Team::Neutral => "Neutral"@,
        Team::Enemy => "Enemy"@,
        Team::Unknown => "Unknown Team"@,
    }
}

/// The lowercase code a team is saved under.
pub open spec fn spec_team_code(t: Team) -> Seq<char> {
    match t {
        Team::Party => "party"@,
        Team::Allies => "ally"@,
        Team::Neutral => "neutral"@,
        Team::Enemy => "enemy"@,
        Team::Unknown => "unknown"@,
    }
}

impl Team {
    /// Reads a team from its short or long code, ignoring ASCII case.
    pub fn from_code(s: &str) -> (r: Team)
        ensures
            r == spec_team_from(s@),
    {
        if eq_ignore_case(s, "p") || eq_ignore_case(s, "party") {
            proof {
                lemma_codes_lowercase();
            }
            Team::Party
        } else if eq_ignore_case(s, "a") || eq_ignore_case(s, "ally") || eq_ignore_case(
            s,
            "allies",
        ) {
            proof {
                lemma_codes_lowercase();
            }
            Team::Allies
        } else if eq_ignore_case(s, "n") || eq_ignore_case(s, "neutral") {
            proof {
                lemma_codes_lowercase();
            }
            Team::Neutral
        } else if eq_ignore_case(s, "e") || eq_ignore_case(s, "enemy") {
            proof {
                lemma_codes_lowercase();
            }
            Team::Enemy
        } else {
            proof {
                lemma_codes_lowercase();
            }
            Team::Unknown
        }
    }

    /// The label shown above a team's group in the roster listing.
    pub fn to_string(&self) -> (r: String)
        ensures
            r@ == spec_team_label(*self),
    {
        match self {
            Team::Party => String::from_str("Party"),
            Team::Allies => String::from_str("Allies"),
            Team::Neutral => String::from_str("Neutral"),
            Team::Enemy => String::from_str("Enemy"),
            Team::Unknown => String::from_str("Unknown Team"),
        }
    }

    /// The lowercase code written to a save file.
    pub fn save_code(&self) -> (r: String)
        ensures
            r@ == spec_team_code(*self),
    {
        match self {
            Team::Party => String::from_str("party"),
            Team::Allies => String::from_str("ally"),
            Team::Neutral => String::from_str("neutral"),
            Team::Enemy => String::from_str("enemy"),
            Team::Unknown => String::from_str("unknown"),
        }
    }

    /// Display rank, used to group the roster listing.
    pub fn rank(&self) -> (r: u8)
        ensures
            r as int == team_rank(*self),
    {
        match self {
            Team::Party => 0,
            Team::Allies => 1,
            Team::Enemy => 2,
            Team::Neutral => 3,
            Team::Unknown => 4,
        }
    }
}

/// The team codes hold no uppercase letter, so folding them is the
/// identity.
pub proof fn lemma_codes_lowercase()
    ensures
        lower("p"@) == "p"@,
        lower("party"@) == "party"@,
        lower("a"@) == "a"@,
        lower("ally"@) == "ally"@,
        lower("allies"@) == "allies"@,
        lower("n"@) == "n"@,
        lower("neutral"@) == "neutral"@,
        lower("e"@) == "e"@,
        lower("enemy"@) == "enemy"@,
        lower("unknown"@) == "unknown"@,
{
    reveal_strlit("p");
    reveal_strlit("party");
    reveal_strlit("a");
    reveal_strlit("ally");
    reveal_strlit("allies");
    reveal_strlit("n");
    reveal_strlit("neutral");
    reveal_strlit("e");
    reveal_strlit("enemy");
    reveal_strlit("unknown");
    assert(lower("p"@) =~= "p"@);
    assert(lower("party"@) =~= "party"@);
    assert(lower("a"@) =~= "a"@);
    assert(lower("ally"@) =~= "ally"@);
    assert(lower("allies"@) =~= "allies"@);
    assert(lower("n"@) =~= "n"@);
    assert(lower("neutral"@) =~= "neutral"@);
    assert(lower("e"@) =~= "e"@);
    assert(lower("enemy"@) =~= "enemy"@);
    assert(lower("unknown"@) =~= "unknown"@);
}

/// A team's save code reads back as the same team, and holds neither a
/// field separator nor a line break, so a saved record always parses.
pub proof fn lemma_team_code_round_trip(t: Team)
    ensures
        spec_team_from(spec_team_code(t)) == t,
        count_occ(spec_team_code(t), '|') == 0,
        count_occ(spec_team_code(t), '\n') == 0,
{
    broadcast use vstd::string::group_string_axioms;

    lemma_codes_lowercase();
    reveal_strlit("p");
    reveal_strlit("party");
    reveal_strlit("a");
    reveal_strlit("ally");
    reveal_strlit("allies");
    reveal_strlit("n");
    reveal_strlit("neutral");
    reveal_strlit("e");
    reveal_strlit("enemy");
    reveal_strlit("unknown");
    assert("p"@.len() == 1 && "a"@.len() == 1 && "n"@.len() == 1 && "e"@.len() == 1);
    assert("party"@.len() == 5 && "ally"@.len() == 4 && "allies"@.len() == 6);
    assert("neutral"@.len() == 7 && "enemy"@.len() == 5 && "unknown"@.len() == 7);
    assert("party"@[0] == 'p' && "ally"@[0] == 'a' && "allies"@[0] == 'a');
    assert("neutral"@[0] == 'n' && "enemy"@[0] == 'e' && "unknown"@[0] == 'u');
    let code = spec_team_code(t);
    assert(count_occ(code, '|') == 0 && count_occ(code, '\n') == 0) by {
        match t {
            Team::Party => {
                assert(forall|k: int| 0 <= k < 5 ==> #[trigger] "party"@[k] != '|');
                assert(forall|k: int| 0 <= k < 5 ==> #[trigger] "party"@[k] != '\n');
            },
            Team::Allies => {
                assert(forall|k: int| 0 <= k < 4 ==> #[trigger] "ally"@[k] != '|');
                assert(forall|k: int| 0 <= k < 4 ==> #[trigger] "ally"@[k] != '\n');
            },
            Team::Neutral => {
                assert(forall|k: int| 0 <= k < 7 ==> #[trigger] "neutral"@[k] != '|');
                assert(forall|k: int| 0 <= k < 7 ==> #[trigger] "neutral"@[k] != '\n');
            },
            Team::Enemy => {
                assert(forall|k: int| 0 <= k < 5 ==> #[trigger] "enemy"@[k] != '|');
                assert(forall|k: int| 0 <= k < 5 ==> #[trigger] "enemy"@[k] != '\n');
            },
            Team::Unknown => {
                assert(forall|k: int| 0 <= k < 7 ==> #[trigger] "unknown"@[k] != '|');
                assert(forall|k: int| 0 <= k < 7 ==> #[trigger] "unknown"@[k] != '\n');
            },
        }
        lemma_count_occ_absent(code, '|');
        lemma_count_occ_absent(code, '\n');
    }
}

/// A status effect's duration unit: a display label only, never counted
/// down.
#[derive(Debug, Copy, Clone, PartialEq, Eq, Structural)]
pub enum DurationUnit {
    Unknown,
    Turns,
    Minutes,
    Hours,
}

/// The duration unit named by a textual code, compared exactly; any
/// unrecognized code means `Unknown`.
pub open spec fn spec_unit_from(s: Seq<char>) -> DurationUnit {
    if s == "turns"@ || s == "t"@ {
        DurationUnit::Turns
    } else if s == "minutes"@ || s == "m"@ {
        DurationUnit::Minutes
    } else if s == "hours"@ || s == "h"@ {
        DurationUnit::Hours
    } else {
        DurationUnit::Unknown
    }
}

/// The display label of a duration unit; `Unknown` shows as nothing.
pub open spec fn spec_unit_label(u: DurationUnit) -> Seq<char> {
    match u {
        DurationUnit::Unknown => Seq::empty(),
        DurationUnit::Turns => "Turns"@,
        DurationUnit::Minutes => "Minutes"@,
        DurationUnit::Hours => "Hours"@,
    }
}

impl DurationUnit {
    /// Reads a duration unit from its short or long code.
    pub fn from_code(s: &str) -> (r: DurationUnit)
        ensures
            r == spec_unit_from(s@),
    {
        let st = String::from_str(s);
        if st == String::from_str("turns") || st == String::from_str("t") {
            DurationUnit::Turns
        } else if st == String::from_str("minutes") || st == String::from_str("m") {
            DurationUnit::Minutes
        } else if st == String::from_str("hours") || st == String::from_str("h") {
            DurationUnit::Hours
        } else {
            DurationUnit::Unknown
        }
    }

    /// The label shown after an effect's length in the roster listing.
    pub fn to_string(&self) -> (r: String)
        ensures
            r@ == spec_unit_label(*self),
    {
        match self {
            DurationUnit::Unknown => {
                let r = String::new();
                proof {
                    assert(r@ =~= spec_unit_label(DurationUnit::Unknown));
                }
                r
            },
            DurationUnit::Turns => String::from_str("Turns"),
            DurationUnit::Minutes => String::from_str("Minutes"),
            DurationUnit::Hours => String::from_str("Hours"),
        }
    }
}

} // verus!
