//! The roster model: the set of tracked entities and every operation the
//! command interpreter applies to it.
use vstd::prelude::*;
use vstd::seq_lib::*;
use crate::CmdError;
use crate::entity::{EffectView, Entity, EntityView, StatusEffect, Duration};
use crate::team::{
    spec_team_code, spec_team_from, spec_team_label, spec_unit_label, DurationUnit, Team,
};
use crate::text::{
    count_and_first, count_occ, dec_digits, eq_ignore_case, first_occ, lemma_first_occ_props,
    lower, spec_lines, split_lines, u16_to_string,
};

verus! {

/// Two entity names refer to the same entity: equal up to ASCII case.
pub open spec fn name_matches(a: Seq<char>, b: Seq<char>) -> bool {
    lower(a) == lower(b)
}

/// Some entity of the roster already carries this name, up to ASCII case.
pub open spec fn has_entity(ents: Seq<EntityView>, name: Seq<char>) -> bool {
    exists|i: int| 0 <= i < ents.len() && name_matches(ents[i].name, name)
}

/// The name appears in a command's list of target names, up to ASCII case.
pub open spec fn name_listed(names: Seq<Seq<char>>, name: Seq<char>) -> bool {
    exists|k: int| 0 <= k < names.len() && name_matches(names[k], name)
}

/// Addition on damage counters, clamped to the 16-bit maximum.
pub open spec fn sat_add(a: u16, b: u16) -> u16 {
    if a + b > 0xffff {
        0xffff as u16
    } else {
        (a + b) as u16
    }
}

/// Subtraction on damage counters, clamped to zero.
pub open spec fn sat_sub(a: u16, b: u16) -> u16 {
    if b > a {
        0 as u16
    } else {
        (a - b) as u16
    }
}

/// The image of an entity after a `damage` command targeting `names`.
pub open spec fn spec_damaged(e: EntityView, amount: u16, names: Seq<Seq<char>>) -> EntityView {
    if name_listed(names, e.name) {
        EntityView { damage_taken: sat_add(e.damage_taken, amount), ..e }
    } else {
        e
    }
}

/// The image of an entity after a `heal` command targeting `names`.
pub open spec fn spec_healed(e: EntityView, amount: u16, names: Seq<Seq<char>>) -> EntityView {
    if name_listed(names, e.name) {
        EntityView { damage_taken: sat_sub(e.damage_taken, amount), ..e }
    } else {
        e
    }
}

/// The image of an entity after an `add_effect` command targeting `names`.
pub open spec fn spec_with_effect(e: EntityView, eff: EffectView, names: Seq<Seq<char>>) -> EntityView {
    if name_listed(names, e.name) {
        EntityView { effects: e.effects.push(eff), ..e }
    } else {
        e
    }
}

/// The image of an entity after a `remove_effect` command targeting
/// `names`: every effect whose name equals `eff_name` exactly is dropped.
pub open spec fn spec_without_effect(
    e: EntityView,
    eff_name: Seq<char>,
    names: Seq<Seq<char>>,
) -> EntityView {
    if name_listed(names, e.name) {
        EntityView { effects: e.effects.filter(|f: EffectView| f.name != eff_name), ..e }
    } else {
        e
    }
}

/// Whether `name` occurs in `names`, ignoring ASCII case.
pub fn names_contain(names: &Vec<String>, name: &str) -> (r: bool)
    ensures
        r == name_listed(names.deep_view(), name@),
{
    let mut k: usize = 0;
    while k < names.len()
        invariant
            k <= names.len(),
            forall|j: int| 0 <= j < k ==> !name_matches(names.deep_view()[j], name@),
        decreases names.len() - k,
    {
        if eq_ignore_case(names[k].as_str(), name) {
            assert(name_matches(names.deep_view()[k as int], name@));
            return true;
        }
        k = k + 1;
    }
    false
}

/// The full set of entities in the current session, in insertion order at
/// rest; listing the roster regroups it by team.
#[derive(Debug)]
pub struct Game {
    pub entities: Vec<Entity>,
}

impl View for Game {
    type V = Seq<EntityView>;

    open spec fn view(&self) -> Seq<EntityView> {
        self.entities.deep_view()
    }
}

impl Game {
    /// An empty roster.
    pub fn new() -> (r: Game)
        ensures
            r@ =~= Seq::<EntityView>::empty(),
    {
        Game { entities: Vec::new() }
    }

    /// Appends a fresh entity, unless the name is already taken (ignoring
    /// ASCII case), in which case the roster is left unchanged.
    pub fn add_entity(&mut self, name: String, team: Team) -> (r: Result<(), CmdError>)
        ensures
            has_entity(old(self)@, name@) ==> r == Err::<(), CmdError>(CmdError::DuplicateEntity)
                && final(self)@ == old(self)@,
            !has_entity(old(self)@, name@) ==> r == Ok::<(), CmdError>(())
                && final(self)@ == old(self)@.push(crate::entity::spec_new_entity(name@, team)),
    {
        let n = self.entities.len();
        let mut i: usize = 0;
        while i < n
            invariant
                n == self@.len(),
                i <= n,
                forall|j: int| 0 <= j < i ==> !name_matches(self@[j].name, name@),
        decreases n - i,
        {
            if eq_ignore_case(self.entities[i].name.as_str(), name.as_str()) {
                assert(name_matches(self@[i as int].name, name@));
                return Err(CmdError::DuplicateEntity);
            }
            i = i + 1;
        }
        let ghost pre = self@;
        let e = Entity::new(name, team);
        self.entities.push(e);
        proof {
            assert(self@ =~= pre.push(e@));
        }
        Ok(())
    }

    /// Removes every entity whose name matches, ignoring ASCII case; a
    /// name that matches nothing is a no-op, not an error.
    pub fn remove_entity(&mut self, name: &str)
        ensures
            final(self)@ == old(self)@.filter(|e: EntityView| !name_matches(e.name, name@)),
    {
        let n = self.entities.len();
        let mut kept: Vec<Entity> = Vec::new();
        let mut i: usize = 0;
        while i < n
            invariant
                n == self@.len(),
                i <= n,
                kept.deep_view() == self@.take(i as int).filter(
                    |e: EntityView| !name_matches(e.name, name@)),
            decreases n - i,
        {
            let ghost pre = kept.deep_view();
            proof {
                lemma_filter_take_step(self@, |e: EntityView| !name_matches(e.name, name@),
                    i as int);
            }
            if !eq_ignore_case(self.entities[i].name.as_str(), name) {
                let e = self.entities[i].duplicate();
                kept.push(e);
                proof {
                    assert(kept.deep_view() =~= pre.push(self@[i as int]));
                    assert(pre.push(self@[i as int]) =~= self@.take(i + 1).filter(
                        |e: EntityView| !name_matches(e.name, name@)));
                }
            } else {
                proof {
                    assert(kept.deep_view() =~= self@.take(i + 1).filter(
                        |e: EntityView| !name_matches(e.name, name@)));
                }
            }
            i = i + 1;
        }
        proof {
            assert(self@.take(n as int) =~= self@);
        }
        self.entities = kept;
    }

    /// Empties the roster unconditionally.
    pub fn clear(&mut self)
        ensures
            final(self)@ =~= Seq::<EntityView>::empty(),
    {
        self.entities.clear();
    }

    /// Adds `amount` to the damage counter of every entity whose name is
    /// listed, clamping at the 16-bit maximum; other entities are
    /// untouched.
    pub fn damage(&mut self, amount: u16, names: &Vec<String>)
        ensures
            final(self)@ == old(self)@.map_values(
                |e: EntityView| spec_damaged(e, amount, names.deep_view())),
    {
        let n = self.entities.len();
        let mut i: usize = 0;
        while i < n
            invariant
                n == self@.len(),
                i <= n,
                forall|j: int| i <= j < n ==> self@[j] == old(self)@[j],
                forall|j: int| 0 <= j < i ==> self@[j] == spec_damaged(
                    #[trigger] old(self)@[j], amount, names.deep_view()),
            decreases n - i,
        {
            let ghost pre = self@;
            let ghost pre_vec = self.entities@;
            if names_contain(names, self.entities[i].name.as_str()) {
                let dt = self.entities[i].damage_taken;
                let new_dt: u16 = if dt > 0xffff - amount {
                    0xffff
                } else {
                    dt + amount
                };
                self.entities[i].damage_taken = new_dt;
                proof {
                    assert forall|j: int| 0 <= j < n && j != i implies self@[j] == pre[j] by {
                        assert(self.entities@[j] == pre_vec[j]);
                    }
                    assert(self@[i as int] == spec_damaged(pre[i as int], amount,
                        names.deep_view()));
                }
            }
            i = i + 1;
        }
        proof {
            assert(self@ =~= old(self)@.map_values(
                |e: EntityView| spec_damaged(e, amount, names.deep_view())));
        }
    }

    /// Subtracts `amount` from the damage counter of every entity whose
    /// name is listed, clamping at zero; other entities are untouched.
    pub fn heal(&mut self, amount: u16, names: &Vec<String>)
        ensures
            final(self)@ == old(self)@.map_values(
                |e: EntityView| spec_healed(e, amount, names.deep_view())),
    {
        let n = self.entities.len();
        let mut i: usize = 0;
        while i < n
            invariant
                n == self@.len(),
                i <= n,
                forall|j: int| i <= j < n ==> self@[j] == old(self)@[j],
                forall|j: int| 0 <= j < i ==> self@[j] == spec_healed(
                    #[trigger] old(self)@[j], amount, names.deep_view()),
            decreases n - i,
        {
            let ghost pre = self@;
            let ghost pre_vec = self.entities@;
            if names_contain(names, self.entities[i].name.as_str()) {
                let dt = self.entities[i].damage_taken;
                let new_dt: u16 = if amount > dt {
                    0
                } else {
                    dt - amount
                };
                self.entities[i].damage_taken = new_dt;
                proof {
                    assert forall|j: int| 0 <= j < n && j != i implies self@[j] == pre[j] by {
                        assert(self.entities@[j] == pre_vec[j]);
                    }
                    assert(self@[i as int] == spec_healed(pre[i as int], amount,
                        names.deep_view()));
                }
            }
            i = i + 1;
        }
        proof {
            assert(self@ =~= old(self)@.map_values(
                |e: EntityView| spec_healed(e, amount, names.deep_view())));
        }
    }

    /// Appends a status effect to every entity whose name is listed.
    pub fn add_effect(
        &mut self,
        effect: &String,
        length: u16,
        unit: DurationUnit,
        names: &Vec<String>,
    )
        ensures
            final(self)@ == old(self)@.map_values(
                |e: EntityView| spec_with_effect(
                    e,
                    EffectView { name: effect@, length: length, unit: unit },
                    names.deep_view(),
                )),
    {
        let n = self.entities.len();
        let mut i: usize = 0;
        while i < n
            invariant
                n == self@.len(),
                i <= n,
                forall|j: int| i <= j < n ==> self@[j] == old(self)@[j],
                forall|j: int| 0 <= j < i ==> self@[j] == spec_with_effect(
                    #[trigger] old(self)@[j],
                    EffectView { name: effect@, length: length, unit: unit },
                    names.deep_view()),
            decreases n - i,
        {
            let ghost pre = self@;
            let ghost pre_vec = self.entities@;
            if names_contain(names, self.entities[i].name.as_str()) {
                let ghost pre_effects = self.entities@[i as int].status_effects.deep_view();
                let eff = StatusEffect {
                    name: effect.clone(),
                    duration: Duration { length: length, unit: unit },
                };
                self.entities[i].status_effects.push(eff);
                proof {
                    assert forall|j: int| 0 <= j < n && j != i implies self@[j] == pre[j] by {
                        assert(self.entities@[j] == pre_vec[j]);
                    }
                    assert(self.entities@[i as int].status_effects.deep_view() =~= pre_effects.push(
                        EffectView { name: effect@, length: length, unit: unit }));
                    assert(self@[i as int] == spec_with_effect(pre[i as int],
                        EffectView { name: effect@, length: length, unit: unit },
                        names.deep_view()));
                }
            }
            i = i + 1;
        }
        proof {
            assert(self@ =~= old(self)@.map_values(
                |e: EntityView| spec_with_effect(
                    e,
                    EffectView { name: effect@, length: length, unit: unit },
                    names.deep_view(),
                )));
        }
    }

    /// Removes every effect named exactly `effect` from every entity whose
    /// name is listed; effect names are compared case-sensitively.
    pub fn remove_effect(&mut self, effect: &String, names: &Vec<String>)
        ensures
            final(self)@ == old(self)@.map_values(
                |e: EntityView| spec_without_effect(e, effect@, names.deep_view())),
    {
        let n = self.entities.len();
        let mut i: usize = 0;
        while i < n
            invariant
                n == self@.len(),
                i <= n,
                forall|j: int| i <= j < n ==> self@[j] == old(self)@[j],
                forall|j: int| 0 <= j < i ==> self@[j] == spec_without_effect(
                    #[trigger] old(self)@[j], effect@, names.deep_view()),
            decreases n - i,
        {
            let ghost pre = self@;
            let ghost pre_vec = self.entities@;
            if names_contain(names, self.entities[i].name.as_str()) {
                let m = self.entities[i].status_effects.len();
                let ghost effs = self.entities@[i as int].status_effects.deep_view();
                let mut kept: Vec<StatusEffect> = Vec::new();
                let mut j: usize = 0;
                while j < m
                    invariant
                        i < self.entities@.len(),
                        m == self.entities@[i as int].status_effects@.len(),
                        effs == self.entities@[i as int].status_effects.deep_view(),
                        j <= m,
                        kept.deep_view() == effs.take(j as int).filter(
                            |f: EffectView| f.name != effect@),
                    decreases m - j,
                {
                    let ghost pre_kept = kept.deep_view();
                    proof {
                        lemma_filter_take_step(effs, |f: EffectView| f.name != effect@, j as int);
                    }
                    if !(self.entities[i].status_effects[j].name == *effect) {
                        let f = self.entities[i].status_effects[j].duplicate();
                        kept.push(f);
                        proof {
                            assert(kept.deep_view() =~= pre_kept.push(effs[j as int]));
                            assert(pre_kept.push(effs[j as int]) =~= effs.take(j + 1).filter(
                                |f: EffectView| f.name != effect@));
                        }
                    } else {
                        proof {
                            assert(kept.deep_view() =~= effs.take(j + 1).filter(
                                |f: EffectView| f.name != effect@));
                        }
                    }
                    j = j + 1;
                }
                proof {
                    assert(effs.take(m as int) =~= effs);
                }
                self.entities[i].status_effects = kept;
                proof {
                    assert forall|j: int| 0 <= j < n && j != i implies self@[j] == pre[j] by {
                        assert(self.entities@[j] == pre_vec[j]);
                    }
                    assert(self@[i as int] == spec_without_effect(pre[i as int], effect@,
                        names.deep_view()));
                }
            }
            i = i + 1;
        }
        proof {
            assert(self@ =~= old(self)@.map_values(
                |e: EntityView| spec_without_effect(e, effect@, names.deep_view())));
        }
    }

    /// The current entity names in roster order, for autocompletion.
    pub fn get_matchable_names(&mut self) -> (r: Vec<String>)
        ensures
            final(self)@ == old(self)@,
            r.deep_view() == old(self)@.map_values(|e: EntityView| e.name),
    {
        let mut names: Vec<String> = Vec::new();
        let n = self.entities.len();
        let mut i: usize = 0;
        while i < n
            invariant
                n == self@.len(),
                i <= n,
                names.deep_view() =~= self@.map_values(|e: EntityView| e.name).take(i as int),
            decreases n - i,
        {
            let ghost pre = names.deep_view();
            let nm = self.entities[i].name.clone();
            names.push(nm);
            proof {
                assert(self@.map_values(|e: EntityView| e.name).take(i as int).len() == i);
                assert(pre.len() == i);
                assert(names.deep_view() =~= self@.map_values(
                    |e: EntityView| e.name).take(i + 1));
            }
            i = i + 1;
        }
        proof {
            assert(self@.map_values(|e: EntityView| e.name).take(n as int) =~= self@.map_values(
                |e: EntityView| e.name));
        }
        names
    }
}

/// Entities regrouped for display: Party first, then Allies, Enemy,
/// Neutral, Unknown, each group keeping its original relative order.
pub open spec fn spec_grouped(s: Seq<EntityView>) -> Seq<EntityView> {
    s.filter(|e: EntityView| e.team == Team::Party) + s.filter(
        |e: EntityView| e.team == Team::Allies,
    ) + s.filter(|e: EntityView| e.team == Team::Enemy) + s.filter(
        |e: EntityView| e.team == Team::Neutral,
    ) + s.filter(|e: EntityView| e.team == Team::Unknown)
}

/// The listing text of one status effect.
pub open spec fn spec_effect_text(f: EffectView) -> Seq<char> {
    f.name + ", "@ + dec_digits(f.length as nat) + " "@ + spec_unit_label(f.unit) + "; "@
}

/// The listing text of a run of status effects.
pub open spec fn spec_effects_text(effs: Seq<EffectView>) -> Seq<char>
    decreases effs.len(),
{
    if effs.len() == 0 {
        Seq::empty()
    } else {
        spec_effects_text(effs.drop_last()) + spec_effect_text(effs.last())
    }
}

/// The listing line of one entity: its name, damage counter and, if it
/// has any, its status effects.
pub open spec fn spec_entity_line(e: EntityView) -> Seq<char> {
    e.name + ", Damage Taken: "@ + dec_digits(e.damage_taken as nat) + (if e.effects.len() > 0 {
        ", Status Effects: "@ + spec_effects_text(e.effects)
    } else {
        Seq::<char>::empty()
    }) + "\n"@
}

/// The roster listing of an already grouped run of entities: a blank line
/// and a team header before each group's first member, then one line per
/// entity.
pub open spec fn spec_listing(s: Seq<EntityView>) -> Seq<char>
    decreases s.len(),
{
    if s.len() == 0 {
        Seq::empty()
    } else {
        spec_listing(s.drop_last()) + (if s.len() == 1 || s[s.len() - 2].team != s.last().team {
            "\n"@ + spec_team_label(s.last().team) + "\n"@
        } else {
            Seq::<char>::empty()
        }) + spec_entity_line(s.last())
    }
}

/// Whether an entity of team `t` belongs to a save of team `filter`:
/// filtering by `Unknown` saves everything.
pub open spec fn team_saved(t: Team, filter: Team) -> bool {
    t == filter || filter == Team::Unknown
}

/// The save-file record of one entity.
pub open spec fn spec_save_line(e: EntityView) -> Seq<char> {
    e.name + "|"@ + spec_team_code(e.team) + "\n"@
}

/// The save-file text of a roster under a team filter: one record per
/// saved entity, in roster order.
pub open spec fn spec_save_text(s: Seq<EntityView>, filter: Team) -> Seq<char>
    decreases s.len(),
{
    if s.len() == 0 {
        Seq::empty()
    } else {
        spec_save_text(s.drop_last(), filter) + (if team_saved(s.last().team, filter) {
            spec_save_line(s.last())
        } else {
            Seq::<char>::empty()
        })
    }
}

/// A save text is terminated: it is empty or ends with a newline.
pub proof fn lemma_save_text_terminated(s: Seq<EntityView>, filter: Team)
    ensures
        spec_save_text(s, filter).len() == 0 || spec_save_text(s, filter).last() == '\n',
    decreases s.len(),
{
    reveal_strlit("\n");
    assert("\n"@.len() == 1);
    assert("\n"@[0] == '\n');
    if s.len() > 0 {
        lemma_save_text_terminated(s.drop_last(), filter);
        let pre = spec_save_text(s.drop_last(), filter);
        if team_saved(s.last().team, filter) {
            let line = spec_save_line(s.last());
            assert(line.len() > 0);
            assert(line.last() == '\n');
            assert((pre + line).last() == '\n');
        } else {
            assert(spec_save_text(s, filter) =~= pre);
        }
    }
}

/// The entity a well-formed save line describes: the name before the
/// `|`, the team code after it, no damage and no effects.
pub open spec fn spec_line_entity(l: Seq<char>) -> EntityView {
    crate::entity::spec_new_entity(
        l.take(first_occ(l, '|')),
        spec_team_from(l.skip(first_occ(l, '|') + 1)),
    )
}

/// What a save text loads as: one fresh entity per line if every line
/// holds exactly one `|`, nothing otherwise.
pub open spec fn spec_load(content: Seq<char>) -> Option<Seq<EntityView>> {
    let lines = spec_lines(content);
    if forall|i: int| 0 <= i < lines.len() ==> count_occ(#[trigger] lines[i], '|') == 1 {
        Some(Seq::new(lines.len(), |i: int| spec_line_entity(lines[i])))
    } else {
        None
    }
}

/// Reads the entities of a save text; a single malformed line fails the
/// whole load.
pub fn load_entities(contents: &str) -> (r: Result<Vec<Entity>, CmdError>)
    ensures
        match spec_load(contents@) {
            Some(es) => r matches Ok(v) && v.deep_view() == es,
            None => r == Err::<Vec<Entity>, CmdError>(CmdError::InvalidSaveFormat),
        },
{
    let lines = split_lines(contents);
    let ghost lv = lines.deep_view();
    let mut es: Vec<Entity> = Vec::new();
    let n = lines.len();
    let mut i: usize = 0;
    while i < n
        invariant
            i <= n,
            n == lv.len(),
            lv == lines.deep_view(),
            lv == spec_lines(contents@),
            forall|k: int| 0 <= k < i ==> count_occ(#[trigger] lv[k], '|') == 1,
            es.deep_view() =~= Seq::new(i as nat, |k: int| spec_line_entity(lv[k])),
        decreases n - i,
    {
        let line = &lines[i];
        let (count, first) = count_and_first(line.as_str(), '|');
        if count != 1 {
            assert(count_occ(lv[i as int], '|') != 1);
            assert(spec_load(contents@) is None);
            return Err(CmdError::InvalidSaveFormat);
        }
        proof {
            lemma_first_occ_props(line@, '|');
        }
        let len = line.as_str().unicode_len();
        let name = String::from_str(line.as_str().substring_char(0, first));
        let team = Team::from_code(line.as_str().substring_char(first + 1, len));
        let ghost pre = es.deep_view();
        let e = Entity::new(name, team);
        es.push(e);
        proof {
            assert(line@.take(first as int) =~= line@.subrange(0, first as int));
            assert(line@.skip(first + 1) =~= line@.subrange(first + 1, line@.len() as int));
            assert(es.deep_view() =~= pre.push(e@));
            assert(es.deep_view() =~= Seq::new((i + 1) as nat, |k: int| spec_line_entity(lv[k])));
        }
        i = i + 1;
    }
    proof {
        assert(spec_load(contents@) matches Some(s) && s =~= es.deep_view());
    }
    Ok(es)
}

/// The listing text of one entity's status effects.
fn effect_text(f: &StatusEffect) -> (r: String)
    ensures
        r@ == spec_effect_text(f@),
{
    let mut s = String::new();
    s.append(f.name.as_str());
    s.append(", ");
    let num = u16_to_string(f.duration.length);
    s.append(num.as_str());
    s.append(" ");
    let ul = f.duration.unit.to_string();
    s.append(ul.as_str());
    s.append("; ");
    proof {
        assert(s@ =~= spec_effect_text(f@));
    }
    s
}

/// The listing line of one entity.
fn entity_line(e: &Entity) -> (r: String)
    ensures
        r@ == spec_entity_line(e@),
{
    let mut s = String::new();
    s.append(e.name.as_str());
    s.append(", Damage Taken: ");
    let num = u16_to_string(e.damage_taken);
    s.append(num.as_str());
    let m = e.status_effects.len();
    if m > 0 {
        s.append(", Status Effects: ");
        let ghost effs = e.status_effects.deep_view();
        let ghost base = s@;
        let mut j: usize = 0;
        while j < m
            invariant
                j <= m,
                m == e.status_effects@.len(),
                effs == e.status_effects.deep_view(),
                s@ == base + spec_effects_text(effs.take(j as int)),
            decreases m - j,
        {
            let ghost pre = s@;
            let ft = effect_text(&e.status_effects[j]);
            s.append(ft.as_str());
            proof {
                assert(effs.take(j + 1).drop_last() =~= effs.take(j as int));
                assert(effs.take(j + 1).last() == effs[j as int]);
                assert(s@ =~= base + spec_effects_text(effs.take(j + 1)));
            }
            j = j + 1;
        }
        proof {
            assert(effs.take(m as int) =~= effs);
        }
    }
    s.append("\n");
    proof {
        assert(s@ =~= spec_entity_line(e@));
    }
    s
}

/// Appends a copy of every entity of `src` on the given team to `dst`,
/// keeping their relative order.
fn push_team(src: &Vec<Entity>, dst: &mut Vec<Entity>, team: Team)
    ensures
        final(dst).deep_view() == old(dst).deep_view() + src.deep_view().filter(
            |e: EntityView| e.team == team),
{
    let n = src.len();
    let mut i: usize = 0;
    while i < n
        invariant
            i <= n,
            n == src.deep_view().len(),
            dst.deep_view() == old(dst).deep_view() + src.deep_view().take(i as int).filter(
                |e: EntityView| e.team == team),
        decreases n - i,
    {
        let ghost pre = dst.deep_view();
        proof {
            lemma_filter_take_step(src.deep_view(), |e: EntityView| e.team == team, i as int);
        }
        if src[i].team == team {
            let e = src[i].duplicate();
            dst.push(e);
            proof {
                assert(dst.deep_view() =~= pre.push(src.deep_view()[i as int]));
                assert(dst.deep_view() =~= old(dst).deep_view() + src.deep_view().take(
                    i + 1).filter(|e: EntityView| e.team == team));
            }
        } else {
            proof {
                assert(dst.deep_view() =~= old(dst).deep_view() + src.deep_view().take(
                    i + 1).filter(|e: EntityView| e.team == team));
            }
        }
        i = i + 1;
    }
    proof {
        assert(src.deep_view().take(n as int) =~= src.deep_view());
    }
}

impl Game {
    /// Regroups the roster by team in display order and returns its
    /// listing: entities grouped as Party, Allies, Enemy, Neutral,
    /// Unknown, insertion order kept within each group, a team header
    /// before each group and one line per entity.
    pub fn get_entities_list(&mut self) -> (r: String)
        ensures
            final(self)@ == spec_grouped(old(self)@),
            r@ == spec_listing(spec_grouped(old(self)@)),
    {
        let mut grouped: Vec<Entity> = Vec::new();
        push_team(&self.entities, &mut grouped, Team::Party);
        push_team(&self.entities, &mut grouped, Team::Allies);
        push_team(&self.entities, &mut grouped, Team::Enemy);
        push_team(&self.entities, &mut grouped, Team::Neutral);
        push_team(&self.entities, &mut grouped, Team::Unknown);
        proof {
            assert(grouped.deep_view() =~= spec_grouped(self@));
        }
        self.entities = grouped;
        let ghost g = self@;
        let mut out = String::new();
        let n = self.entities.len();
        let mut i: usize = 0;
        while i < n
            invariant
                i <= n,
                n == g.len(),
                g == self@,
                out@ == spec_listing(g.take(i as int)),
            decreases n - i,
        {
            let ghost pre = out@;
            proof {
                assert(g.take(i + 1).drop_last() =~= g.take(i as int));
                assert(g.take(i + 1).last() == g[i as int]);
            }
            let header = if i == 0 {
                true
            } else {
                !(self.entities[i - 1].team == self.entities[i].team)
            };
            if header {
                out.append("\n");
                let lbl = self.entities[i].team.to_string();
                out.append(lbl.as_str());
                out.append("\n");
            }
            let line = entity_line(&self.entities[i]);
            out.append(line.as_str());
            proof {
                assert(out@ =~= spec_listing(g.take(i + 1)));
            }
            i = i + 1;
        }
        proof {
            assert(g.take(n as int) =~= g);
        }
        out
    }

    /// The save-file text of this roster under a team filter; filtering
    /// by `Unknown` saves every entity.
    pub fn save_text(&self, filter: Team) -> (r: String)
        ensures
            r@ == spec_save_text(self@, filter),
    {
        let mut out = String::new();
        let n = self.entities.len();
        let mut i: usize = 0;
        while i < n
            invariant
                i <= n,
                n == self@.len(),
                out@ == spec_save_text(self@.take(i as int), filter),
            decreases n - i,
        {
            proof {
                assert(self@.take(i + 1).drop_last() =~= self@.take(i as int));
                assert(self@.take(i + 1).last() == self@[i as int]);
            }
            let saved = if self.entities[i].team == filter {
                true
            } else {
                filter == Team::Unknown
            };
            if saved {
                out.append(self.entities[i].name.as_str());
                out.append("|");
                let code = self.entities[i].team.save_code();
                out.append(code.as_str());
                out.append("\n");
            }
            proof {
                assert(out@ =~= spec_save_text(self@.take(i + 1), filter));
            }
            i = i + 1;
        }
        proof {
            assert(self@.take(n as int) =~= self@);
        }
        out
    }

    /// Appends the entities of a save text to the roster; a malformed
    /// line fails the whole load and mutates nothing. Duplicate names are
    /// not rejected here, on purpose: bulk import is laxer than
    /// `add_entity`.
    pub fn load_from(&mut self, contents: &str) -> (r: Result<String, CmdError>)
        ensures
            match spec_load(contents@) {
                Some(es) => final(self)@ == old(self)@ + es && (r matches Ok(m) && m@
                    == "Loaded"@),
                None => final(self)@ == old(self)@ && r == Err::<String, CmdError>(
                    CmdError::InvalidSaveFormat,
                ),
            },
{
        match load_entities(contents) {
            Ok(es) => {
                let ghost parsed = es.deep_view();
                let m = es.len();
                let mut j: usize = 0;
                while j < m
                    invariant
                        j <= m,
                        m == parsed.len(),
                        parsed == es.deep_view(),
                        self@ =~= old(self)@ + parsed.take(j as int),
                    decreases m - j,
                {
                    let ghost pre = self@;
                    let e = es[j].duplicate();
                    self.entities.push(e);
                    proof {
                        assert(self@ =~= pre.push(parsed[j as int]));
                        assert(self@ =~= old(self)@ + parsed.take(j + 1));
                    }
                    j = j + 1;
                }
                proof {
                    assert(parsed.take(m as int) =~= parsed);
                    assert(self@ =~= old(self)@ + parsed);
                }
                Ok(String::from_str("Loaded"))
            },
            Err(e) => Err(e),
        }
    }
}

/// Filtering one more element keeps the filtered prefix and appends the
/// element exactly when it passes.
pub proof fn lemma_filter_take_step<A>(s: Seq<A>, p: spec_fn(A) -> bool, j: int)
    requires
        0 <= j < s.len(),
    ensures
        s.take(j + 1).filter(p) == s.take(j).filter(p) + (if p(s[j]) {
            seq![s[j]]
        } else {
            Seq::<A>::empty()
        }),
{
    reveal(Seq::filter);
    assert(s.take(j + 1).drop_last() =~= s.take(j));
    assert(s.take(j + 1).last() == s[j]);
    if p(s[j]) {
        assert(s.take(j).filter(p).push(s[j]) =~= s.take(j).filter(p) + seq![s[j]]);
    } else {
        assert(s.take(j).filter(p) =~= s.take(j).filter(p) + Seq::<A>::empty());
    }
}

} // verus!
