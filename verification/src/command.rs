//! The command interpreter: tokenizing a line, resolving verb
//! abbreviations, validating arguments, and dispatching to the roster
//! model.
//!
//! Numeric arguments are validated uniformly: a `damage`, `heal` or
//! `add_effect` line whose amount or length is not a 16-bit decimal
//! number is rejected with [`CmdError::InvalidNumber`] before anything
//! is mutated.
use vstd::prelude::*;
use crate::CmdError;
use crate::game::{
    has_entity, name_matches, spec_damaged, spec_healed, spec_save_text, spec_with_effect,
    spec_without_effect, Game,
};
use crate::entity::{EffectView, spec_new_entity};
use crate::team::{spec_team_from, spec_team_label, spec_unit_from, DurationUnit, Team};
use crate::text::{dec_val, parse_u16, parses_as_u16, spec_tokenize, tokenize};

verus! {

/// A parsed command, ready to run against a roster.
pub enum Command {
    AddEntity { name: String, team: Team },
    RemoveEntity { name: String },
    AddEffect { effect: String, length: u16, unit: DurationUnit, names: Vec<String> },
    RemoveEffect { effect: String, names: Vec<String> },
    Damage { amount: u16, names: Vec<String> },
    Heal { amount: u16, names: Vec<String> },
    Save { team: Team, filename: String },
    Load { filename: String },
    Clear,
    Help { topic: Option<String> },
}

/// Mathematical image of a parsed command.
pub ghost enum CommandV {
    AddEntity { name: Seq<char>, team: Team },
    RemoveEntity { name: Seq<char> },
    AddEffect { effect: Seq<char>, length: u16, unit: DurationUnit, names: Seq<Seq<char>> },
    RemoveEffect { effect: Seq<char>, names: Seq<Seq<char>> },
    Damage { amount: u16, names: Seq<Seq<char>> },
    Heal { amount: u16, names: Seq<Seq<char>> },
    Save { team: Team, filename: Seq<char> },
    Load { filename: Seq<char> },
    Clear,
    Help { topic: Option<Seq<char>> },
}

impl View for Command {
    type V = CommandV;

    open spec fn view(&self) -> CommandV {
        match self {
            Command::AddEntity { name, team } => CommandV::AddEntity { name: name@, team: *team },
            Command::RemoveEntity { name } => CommandV::RemoveEntity { name: name@ },
            Command::AddEffect { effect, length, unit, names } => CommandV::AddEffect {
                effect: effect@,
                length: *length,
                unit: *unit,
                names: names.deep_view(),
            },
            Command::RemoveEffect { effect, names } => CommandV::RemoveEffect {
                effect: effect@,
                names: names.deep_view(),
            },
            Command::Damage { amount, names } => CommandV::Damage {
                amount: *amount,
                names: names.deep_view(),
            },
            Command::Heal { amount, names } => CommandV::Heal {
                amount: *amount,
                names: names.deep_view(),
            },
            Command::Save { team, filename } => CommandV::Save {
                team: *team,
                filename: filename@,
            },
            Command::Load { filename } => CommandV::Load { filename: filename@ },
            Command::Clear => CommandV::Clear,
            Command::Help { topic } => CommandV::Help {
                topic: match topic {
                    Some(t) => Some(t@),
                    None => None,
                },
            },
        }
    }
}

/// The canonical verb an abbreviation stands for; any other token stands
/// for itself.
pub open spec fn spec_resolve(v: Seq<char>) -> Seq<char> {
    if v == "as"@ {
        "add_effect"@
    } else if v == "rs"@ {
        "remove_effect"@
    } else if v == "ae"@ {
        "add_entity"@
    } else if v == "re"@ {
        "remove_entity"@
    } else if v == "d"@ {
        "damage"@
    } else if v == "h"@ {
        "heal"@
    } else {
        v
    }
}

/// Replaces an abbreviated verb by its canonical spelling.
pub fn resolve_abbreviation(verb: &String) -> (r: String)
    ensures
        r@ == spec_resolve(verb@),
{
    if *verb == String::from_str("as") {
        String::from_str("add_effect")
    } else if *verb == String::from_str("rs") {
        String::from_str("remove_effect")
    } else if *verb == String::from_str("ae") {
        String::from_str("add_entity")
    } else if *verb == String::from_str("re") {
        String::from_str("remove_entity")
    } else if *verb == String::from_str("d") {
        String::from_str("damage")
    } else if *verb == String::from_str("h") {
        String::from_str("heal")
    } else {
        verb.clone()
    }
}

/// What a token list parses as: the command, or the error the interpreter
/// reports. Empty lines and unknown verbs are unknown commands; each verb
/// checks its argument count first, then its numeric argument if it has
/// one.
pub open spec fn spec_parse(toks: Seq<Seq<char>>) -> Result<CommandV, CmdError> {
    if toks.len() == 0 {
        Err(CmdError::UnknownCommand)
    } else {
        let verb = spec_resolve(toks[0]);
        if verb == "add_effect"@ {
            if toks.len() < 4 {
                Err(CmdError::MissingArguments)
            } else if !parses_as_u16(toks[2]) {
                Err(CmdError::InvalidNumber)
            } else {
                Ok(
                    CommandV::AddEffect {
                        effect: toks[1],
                        length: dec_val(toks[2]) as u16,
                        unit: spec_unit_from(toks[3]),
                        names: toks.skip(4),
                    },
                )
            }
        } else if verb == "remove_effect"@ {
            if toks.len() < 3 {
                Err(CmdError::MissingArguments)
            } else {
                Ok(CommandV::RemoveEffect { effect: toks[1], names: toks.skip(2) })
            }
        } else if verb == "add_entity"@ {
            if toks.len() < 2 {
                Err(CmdError::MissingArguments)
            } else {
                Ok(
                    CommandV::AddEntity {
                        name: toks[1],
                        team: if toks.len() > 2 {
                            spec_team_from(toks[2])
                        } else {
                            Team::Unknown
                        },
                    },
                )
            }
        } else if verb == "remove_entity"@ {
            if toks.len() < 2 {
                Err(CmdError::MissingArguments)
            } else {
                Ok(CommandV::RemoveEntity { name: toks[1] })
            }
        } else if verb == "damage"@ {
            if toks.len() < 3 {
                Err(CmdError::MissingArguments)
            } else if !parses_as_u16(toks[1]) {
                Err(CmdError::InvalidNumber)
            } else {
                Ok(CommandV::Damage { amount: dec_val(toks[1]) as u16, names: toks.skip(2) })
            }
        } else if verb == "heal"@ {
            if toks.len() < 3 {
                Err(CmdError::MissingArguments)
            } else if !parses_as_u16(toks[1]) {
                Err(CmdError::InvalidNumber)
            } else {
                Ok(CommandV::Heal { amount: dec_val(toks[1]) as u16, names: toks.skip(2) })
            }
        } else if verb == "save"@ {
            if toks.len() < 3 {
                Err(CmdError::MissingArguments)
            } else {
                Ok(CommandV::Save { team: spec_team_from(toks[1]), filename: toks[2] })
            }
        } else if verb == "load"@ {
            if toks.len() < 2 {
                Err(CmdError::MissingArguments)
            } else {
                Ok(CommandV::Load { filename: toks[1] })
            }
        } else if verb == "clear"@ {
            Ok(CommandV::Clear)
        } else if verb == "help"@ {
            Ok(
                CommandV::Help {
                    topic: if toks.len() == 2 {
                        Some(toks[1])
                    } else {
                        None
                    },
                },
            )
        } else {
            Err(CmdError::UnknownCommand)
        }
    }
}

/// Copies the tokens from position `from` on: the target names of a
/// multi-target command.
fn tail_names(tokens: &Vec<String>, from: usize) -> (r: Vec<String>)
    requires
        from <= tokens@.len(),
    ensures
        r.deep_view() == tokens.deep_view().skip(from as int),
{
    let mut names: Vec<String> = Vec::new();
    let mut j: usize = from;
    while j < tokens.len()
        invariant
            from <= j <= tokens@.len(),
            names.deep_view() =~= tokens.deep_view().subrange(from as int, j as int),
        decreases tokens@.len() - j,
    {
        let ghost pre = names.deep_view();
        let t = tokens[j].clone();
        names.push(t);
        proof {
            assert(tokens.deep_view().subrange(from as int, j as int).len() == j - from);
            assert(pre.len() == j - from);
            assert(names.deep_view() =~= tokens.deep_view().subrange(from as int, j + 1));
        }
        j = j + 1;
    }
    proof {
        assert(names.deep_view() =~= tokens.deep_view().skip(from as int));
    }
    names
}

/// Parses a token list into a command, reporting exactly the errors of
/// [`spec_parse`].
pub fn parse_command(tokens: &Vec<String>) -> (r: Result<Command, CmdError>)
    ensures
        match spec_parse(tokens.deep_view()) {
            Ok(cv) => r matches Ok(c) && c@ == cv,
            Err(e) => r == Err::<Command, CmdError>(e),
        },
{
    let ghost td = tokens.deep_view();
    if tokens.len() == 0 {
        return Err(CmdError::UnknownCommand);
    }
    let verb = resolve_abbreviation(&tokens[0]);
    if verb == String::from_str("add_effect") {
        if tokens.len() < 4 {
            Err(CmdError::MissingArguments)
        } else {
            match parse_u16(tokens[2].as_str()) {
                None => Err(CmdError::InvalidNumber),
                Some(length) => {
                    let names = tail_names(tokens, 4);
                    let effect = tokens[1].clone();
                    let unit = DurationUnit::from_code(tokens[3].as_str());
                    Ok(Command::AddEffect { effect, length, unit, names })
                },
            }
        }
    } else if verb == String::from_str("remove_effect") {
        if tokens.len() < 3 {
            Err(CmdError::MissingArguments)
        } else {
            let names = tail_names(tokens, 2);
            let effect = tokens[1].clone();
            Ok(Command::RemoveEffect { effect, names })
        }
    } else if verb == String::from_str("add_entity") {
        if tokens.len() < 2 {
            Err(CmdError::MissingArguments)
        } else {
            let name = tokens[1].clone();
            let team = if tokens.len() > 2 {
                Team::from_code(tokens[2].as_str())
            } else {
                Team::Unknown
            };
            Ok(Command::AddEntity { name, team })
        }
    } else if verb == String::from_str("remove_entity") {
        if tokens.len() < 2 {
            Err(CmdError::MissingArguments)
        } else {
            let name = tokens[1].clone();
            Ok(Command::RemoveEntity { name })
        }
    } else if verb == String::from_str("damage") {
        if tokens.len() < 3 {
            Err(CmdError::MissingArguments)
        } else {
            match parse_u16(tokens[1].as_str()) {
                None => Err(CmdError::InvalidNumber),
                Some(amount) => {
                    let names = tail_names(tokens, 2);
                    Ok(Command::Damage { amount, names })
                },
            }
        }
    } else if verb == String::from_str("heal") {
        if tokens.len() < 3 {
            Err(CmdError::MissingArguments)
        } else {
            match parse_u16(tokens[1].as_str()) {
                None => Err(CmdError::InvalidNumber),
                Some(amount) => {
                    let names = tail_names(tokens, 2);
                    Ok(Command::Heal { amount, names })
                },
            }
        }
    } else if verb == String::from_str("save") {
        if tokens.len() < 3 {
            Err(CmdError::MissingArguments)
        } else {
            let team = Team::from_code(tokens[1].as_str());
            let filename = tokens[2].clone();
            Ok(Command::Save { team, filename })
        }
    } else if verb == String::from_str("load") {
        if tokens.len() < 2 {
            Err(CmdError::MissingArguments)
        } else {
            let filename = tokens[1].clone();
            Ok(Command::Load { filename })
        }
    } else if verb == String::from_str("clear") {
        Ok(Command::Clear)
    } else if verb == String::from_str("help") {
        let topic = if tokens.len() == 2 {
            Some(tokens[1].clone())
        } else {
            None
        };
        Ok(Command::Help { topic })
    } else {
        Err(CmdError::UnknownCommand)
    }
}

/// The help text for a topic: a verb's usage line, or the list of verbs
/// when the topic is missing or unknown.
pub open spec fn spec_help_text(topic: Option<Seq<char>>) -> Seq<char> {
    match topic {
        None => "Valid Commands: add_entity, remove_entity, add_effect, remove_effect, damage, heal, clear, save, load. Use help <command> for more info"@,
        Some(t) => {
            if t == "add_entity"@ {
                "add_entity <name> <team>"@
            } else if t == "remove_entity"@ {
                "remove_entity <name>"@
            } else if t == "add_effect"@ {
                "add_effect <effect> <length> <unit> <names[]>"@
            } else if t == "remove_effect"@ {
                "remove_effect <effect> <names[]>"@
            } else if t == "damage"@ {
                "damage <amount> <names[]>"@
            } else if t == "heal"@ {
                "heal <amount> <names[]>"@
            } else if t == "clear"@ {
                "clear"@
            } else if t == "save"@ {
                "save <party | enemy | all> <filename>"@
            } else if t == "load"@ {
                "load <filename>"@
            } else {
                "Valid Commands: add_entity, remove_entity, add_effect, remove_effect, damage, heal, clear, save, load"@
            }
        },
    }
}

/// The help text for a topic.
fn help_text(topic: &Option<String>) -> (r: String)
    ensures
        r@ == spec_help_text(match topic {
            Some(t) => Some(t@),
            None => None,
        }),
{
    match topic {
        None => String::from_str(
            "Valid Commands: add_entity, remove_entity, add_effect, remove_effect, damage, heal, clear, save, load. Use help <command> for more info",
        ),
        Some(t) => {
            if *t == String::from_str("add_entity") {
                String::from_str("add_entity <name> <team>")
            } else if *t == String::from_str("remove_entity") {
                String::from_str("remove_entity <name>")
            } else if *t == String::from_str("add_effect") {
                String::from_str("add_effect <effect> <length> <unit> <names[]>")
            } else if *t == String::from_str("remove_effect") {
                String::from_str("remove_effect <effect> <names[]>")
            } else if *t == String::from_str("damage") {
                String::from_str("damage <amount> <names[]>")
            } else if *t == String::from_str("heal") {
                String::from_str("heal <amount> <names[]>")
            } else if *t == String::from_str("clear") {
                String::from_str("clear")
            } else if *t == String::from_str("save") {
                String::from_str("save <party | enemy | all> <filename>")
            } else if *t == String::from_str("load") {
                String::from_str("load <filename>")
            } else {
                String::from_str(
                    "Valid Commands: add_entity, remove_entity, add_effect, remove_effect, damage, heal, clear, save, load",
                )
            }
        },
    }
}

/// What one line of input did: a finished reply, or a file request the
/// caller must carry out (the interpreter itself never touches a file).
pub enum Outcome {
    /// The command finished: its success message, or its error.
    Done(Result<String, CmdError>),
    /// A `save` line: write `contents` to the file `filename` names and
    /// report `message` on success.
    SaveFile { filename: String, contents: String, message: String },
    /// A `load` line: read the file `filename` names and hand its text to
    /// [`Game::load_from`].
    LoadFile { filename: String },
}

impl Game {
    /// Runs one line of input against the roster: tokenizes it, resolves
    /// the verb, checks the arguments, and applies the operation. Every
    /// error is detected before the roster is touched; `save` and `load`
    /// mutate nothing here and come back as file requests.
    pub fn process_command(&mut self, command: String) -> (r: Outcome)
        ensures
            ({
                let p = spec_parse(spec_tokenize(command@));
                match p {
                    Err(e) => {
                        &&& final(self)@ == old(self)@
                        &&& r matches Outcome::Done(res)
                        &&& res == Err::<String, CmdError>(e)
                    },
                    Ok(cv) => match cv {
                        CommandV::AddEntity { name, team } => {
                            if has_entity(old(self)@, name) {
                                &&& final(self)@ == old(self)@
                                &&& r matches Outcome::Done(res)
                                &&& res == Err::<String, CmdError>(CmdError::DuplicateEntity)
                            } else {
                                &&& final(self)@ == old(self)@.push(spec_new_entity(name, team))
                                &&& r matches Outcome::Done(res)
                                &&& res matches Ok(m)
                                &&& m@ == "Added entity"@
                            }
                        },
                        CommandV::RemoveEntity { name } => {
                            &&& final(self)@ == old(self)@.filter(
                                |e: crate::entity::EntityView| !name_matches(e.name, name),
                            )
                            &&& r matches Outcome::Done(res)
                            &&& res matches Ok(m)
                            &&& m@ == "Removed entity"@
                        },
                        CommandV::AddEffect { effect, length, unit, names } => {
                            &&& final(self)@ == old(self)@.map_values(
                                |e: crate::entity::EntityView| spec_with_effect(
                                    e,
                                    EffectView { name: effect, length: length, unit: unit },
                                    names,
                                ),
                            )
                            &&& r matches Outcome::Done(res)
                            &&& res matches Ok(m)
                            &&& m@ == "Added effects"@
                        },
                        CommandV::RemoveEffect { effect, names } => {
                            &&& final(self)@ == old(self)@.map_values(
                                |e: crate::entity::EntityView| spec_without_effect(
                                    e,
                                    effect,
                                    names,
                                ),
                            )
                            &&& r matches Outcome::Done(res)
                            &&& res matches Ok(m)
                            &&& m@ == "Removed effects"@
                        },
                        CommandV::Damage { amount, names } => {
                            &&& final(self)@ == old(self)@.map_values(
                                |e: crate::entity::EntityView| spec_damaged(e, amount, names),
                            )
                            &&& r matches Outcome::Done(res)
                            &&& res matches Ok(m)
                            &&& m@ == "Damaged entities"@
                        },
                        CommandV::Heal { amount, names } => {
                            &&& final(self)@ == old(self)@.map_values(
                                |e: crate::entity::EntityView| spec_healed(e, amount, names),
                            )
                            &&& r matches Outcome::Done(res)
                            &&& res matches Ok(m)
                            &&& m@ == "Healed entities"@
                        },
                        CommandV::Save { team, filename } => {
                            &&& final(self)@ == old(self)@
                            &&& r matches Outcome::SaveFile { filename: f, contents: c, message: m }
                            &&& f@ == filename
                            &&& c@ == spec_save_text(old(self)@, team)
                            &&& m@ == "Saved "@ + spec_team_label(team) + " to "@ + filename
                        },
                        CommandV::Load { filename } => {
                            &&& final(self)@ == old(self)@
                            &&& r matches Outcome::LoadFile { filename: f }
                            &&& f@ == filename
                        },
                        CommandV::Clear => {
                            &&& final(self)@ =~= Seq::<crate::entity::EntityView>::empty()
                            &&& r matches Outcome::Done(res)
                            &&& res matches Ok(m)
                            &&& m@ == "Cleared entities"@
                        },
                        CommandV::Help { topic } => {
                            &&& final(self)@ == old(self)@
                            &&& r matches Outcome::Done(res)
                            &&& res matches Ok(m)
                            &&& m@ == spec_help_text(topic)
                        },
                    },
                }
            }),
    {
        let tokens = tokenize(command.as_str());
        match parse_command(&tokens) {
            Err(e) => Outcome::Done(Err(e)),
            Ok(cmd) => match cmd {
                Command::AddEntity { name, team } => match self.add_entity(name, team) {
                    Ok(()) => Outcome::Done(Ok(String::from_str("Added entity"))),
                    Err(e) => Outcome::Done(Err(e)),
                },
                Command::RemoveEntity { name } => {
                    self.remove_entity(name.as_str());
                    Outcome::Done(Ok(String::from_str("Removed entity")))
                },
                Command::AddEffect { effect, length, unit, names } => {
                    self.add_effect(&effect, length, unit, &names);
                    Outcome::Done(Ok(String::from_str("Added effects")))
                },
                Command::RemoveEffect { effect, names } => {
                    self.remove_effect(&effect, &names);
                    Outcome::Done(Ok(String::from_str("Removed effects")))
                },
                Command::Damage { amount, names } => {
                    self.damage(amount, &names);
                    Outcome::Done(Ok(String::from_str("Damaged entities")))
                },
                Command::Heal { amount, names } => {
                    self.heal(amount, &names);
                    Outcome::Done(Ok(String::from_str("Healed entities")))
                },
                Command::Save { team, filename } => {
                    let contents = self.save_text(team);
                    let mut message = String::from_str("Saved ");
                    let lbl = team.to_string();
                    message.append(lbl.as_str());
                    message.append(" to ");
                    message.append(filename.as_str());
                    Outcome::SaveFile { filename, contents, message }
                },
                Command::Load { filename } => Outcome::LoadFile { filename },
                Command::Clear => {
                    self.clear();
                    Outcome::Done(Ok(String::from_str("Cleared entities")))
                },
                Command::Help { topic } => Outcome::Done(Ok(help_text(&topic))),
            },
        }
    }
}

} // verus!
