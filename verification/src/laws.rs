//! The guarantees that relate several operations to one another, proved
//! once and for all over the roster's mathematical model.
use vstd::prelude::*;
use crate::entity::{spec_new_entity, EntityView};
use crate::game::{
    has_entity, lemma_save_text_terminated, name_listed, name_matches, sat_add, sat_sub,
    spec_damaged, spec_grouped, spec_healed, spec_line_entity, spec_load, spec_save_line,
    spec_save_text, team_saved,
};
use crate::team::lemma_team_code_round_trip;
use crate::team::{spec_team_code, spec_team_from};
use crate::text::{
    count_occ, first_occ, lemma_count_occ_add, lemma_first_occ_at, lemma_first_occ_props,
    lemma_lines_append_record, spec_lines,
};
use crate::command::{spec_parse, spec_resolve};
use crate::team::{team_rank, Team};

verus! {

/// Adding a fresh name grows the roster by exactly one entity; adding a
/// name already present (in any case) is refused by `Game::add_entity`
/// and leaves the roster unchanged, as its contract states.
pub proof fn lemma_add_entity_grows(ents: Seq<EntityView>, name: Seq<char>, team: Team)
    requires
        !has_entity(ents, name),
    ensures
        ents.push(spec_new_entity(name, team)).len() == ents.len() + 1,
        has_entity(ents.push(spec_new_entity(name, team)), name),
{
    let grown = ents.push(spec_new_entity(name, team));
    assert(name_matches(grown[ents.len() as int].name, name));
}

/// What one `add_entity` call leaves behind, as its contract states: the
/// roster unchanged when the name is taken, one more entity otherwise.
pub open spec fn spec_added(ents: Seq<EntityView>, name: Seq<char>, team: Team) -> Seq<
    EntityView,
> {
    if has_entity(ents, name) {
        ents
    } else {
        ents.push(spec_new_entity(name, team))
    }
}

/// What a run of `add_entity` calls leaves behind, applied left to right.
pub open spec fn spec_added_all(
    ents: Seq<EntityView>,
    calls: Seq<(Seq<char>, Team)>,
) -> Seq<EntityView>
    decreases calls.len(),
{
    if calls.len() == 0 {
        ents
    } else {
        spec_added(spec_added_all(ents, calls.drop_last()), calls.last().0, calls.last().1)
    }
}

/// A run of `add_entity` calls introduces exactly the requested names:
/// afterwards a name is present when it was present before or was one of
/// the calls.
proof fn lemma_added_all_names(
    ents: Seq<EntityView>,
    calls: Seq<(Seq<char>, Team)>,
    name: Seq<char>,
)
    ensures
        has_entity(spec_added_all(ents, calls), name) <==> has_entity(ents, name) || exists|k: int|
            0 <= k < calls.len() && name_matches(#[trigger] calls[k].0, name),
    decreases calls.len(),
{
    if calls.len() > 0 {
        let shorter = calls.drop_last();
        assert(forall|k: int|
            0 <= k < calls.len() - 1 ==> #[trigger] shorter[k] == calls[k]);
        lemma_added_all_names(ents, shorter, name);
        let pre = spec_added_all(ents, shorter);
        let after = spec_added_all(ents, calls);
        let last = calls.last();
        if has_entity(after, name) {
            if has_entity(pre, last.0) {
                assert(has_entity(pre, name));
            } else {
                let w = choose|i: int|
                    0 <= i < after.len() && name_matches(#[trigger] after[i].name, name);
                assert(forall|i: int| 0 <= i < pre.len() ==> #[trigger] after[i] == pre[i]);
                if w < pre.len() {
                    assert(name_matches(pre[w].name, name));
                } else {
                    assert(after[w] == spec_new_entity(last.0, last.1));
                    assert(name_matches(calls[calls.len() - 1].0, name));
                }
            }
            if has_entity(pre, name) {
                assert(has_entity(ents, name) || exists|k: int|
                    0 <= k < shorter.len() && name_matches(#[trigger] shorter[k].0, name));
                if !has_entity(ents, name) {
                    let k = choose|k: int|
                        0 <= k < shorter.len() && name_matches(#[trigger] shorter[k].0, name);
                    assert(name_matches(calls[k].0, name));
                }
            }
        }
        if has_entity(ents, name) {
            assert(has_entity(pre, name));
            let w = choose|i: int|
                0 <= i < pre.len() && name_matches(#[trigger] pre[i].name, name);
            if has_entity(pre, last.0) {
                assert(after == pre);
            } else {
                assert(after[w] == pre[w]);
                assert(name_matches(after[w].name, name));
            }
            assert(has_entity(after, name));
        }
        if exists|k: int| 0 <= k < calls.len() && name_matches(#[trigger] calls[k].0, name) {
            let k = choose|k: int|
                0 <= k < calls.len() && name_matches(#[trigger] calls[k].0, name);
            if k < calls.len() - 1 {
                assert(name_matches(shorter[k].0, name));
                assert(has_entity(pre, name));
                let w = choose|i: int|
                    0 <= i < pre.len() && name_matches(#[trigger] pre[i].name, name);
                if has_entity(pre, last.0) {
                    assert(after == pre);
                } else {
                    assert(after[w] == pre[w]);
                    assert(name_matches(after[w].name, name));
                }
                assert(has_entity(after, name));
            } else {
                assert(name_matches(last.0, name));
                if has_entity(pre, last.0) {
                    let w = choose|i: int|
                        0 <= i < pre.len() && name_matches(#[trigger] pre[i].name, last.0);
                    assert(name_matches(pre[w].name, name));
                    assert(after == pre);
                    assert(has_entity(after, name));
                } else {
                    assert(name_matches(after[pre.len() as int].name, name));
                    assert(has_entity(after, name));
                }
            }
        }
    }
}

/// A run of `add_entity` calls whose names are fresh and pairwise
/// distinct (ignoring ASCII case) grows the roster by exactly one entity
/// per call.
pub proof fn lemma_added_all_len(ents: Seq<EntityView>, calls: Seq<(Seq<char>, Team)>)
    requires
        forall|k: int| 0 <= k < calls.len() ==> !has_entity(ents, #[trigger] calls[k].0),
        forall|j: int, k: int|
            0 <= j < k < calls.len() ==> !name_matches(#[trigger] calls[j].0, #[trigger] calls[k].0),
    ensures
        spec_added_all(ents, calls).len() == ents.len() + calls.len(),
    decreases calls.len(),
{
    if calls.len() > 0 {
        let shorter = calls.drop_last();
        assert(forall|k: int|
            0 <= k < calls.len() - 1 ==> #[trigger] shorter[k] == calls[k]);
        lemma_added_all_len(ents, shorter);
        let pre = spec_added_all(ents, shorter);
        let last = calls.last();
        lemma_added_all_names(ents, shorter, last.0);
        assert(!has_entity(ents, last.0));
        assert forall|k: int| 0 <= k < shorter.len() implies !name_matches(
            #[trigger] shorter[k].0,
            last.0,
        ) by {
            assert(shorter[k] == calls[k]);
            assert(!name_matches(calls[k].0, calls[calls.len() - 1].0));
        }
        assert(!has_entity(pre, last.0));
    }
}

/// Removing a name that no entity carries changes nothing: the removal
/// filter keeps every entity.
pub proof fn lemma_remove_absent_is_noop(ents: Seq<EntityView>, name: Seq<char>)
    requires
        !has_entity(ents, name),
    ensures
        ents.filter(|e: EntityView| !name_matches(e.name, name)) == ents,
    decreases ents.len(),
{
    reveal(Seq::filter);
    if ents.len() > 0 {
        assert(!name_matches(ents.last().name, name));
        assert(!has_entity(ents.drop_last(), name)) by {
            assert(forall|i: int|
                0 <= i < ents.len() - 1 ==> #[trigger] ents.drop_last()[i] == ents[i]);
        }
        lemma_remove_absent_is_noop(ents.drop_last(), name);
        assert(ents.filter(|e: EntityView| !name_matches(e.name, name)) =~= ents);
    } else {
        assert(ents.filter(|e: EntityView| !name_matches(e.name, name)) =~= ents);
    }
}

/// Damaging then healing by the same amount restores every targeted
/// entity's damage counter, provided no damage was clamped at the 16-bit
/// maximum; untargeted entities never move at all.
pub proof fn lemma_damage_heal_round_trip(
    ents: Seq<EntityView>,
    amount: u16,
    names: Seq<Seq<char>>,
)
    requires
        forall|i: int|
            0 <= i < ents.len() && name_listed(names, #[trigger] ents[i].name) ==> ents[
                i
            ].damage_taken + amount <= 0xffff,
    ensures
        ents.map_values(|e: EntityView| spec_damaged(e, amount, names)).map_values(
            |e: EntityView| spec_healed(e, amount, names),
        ) == ents,
{
    let damaged = ents.map_values(|e: EntityView| spec_damaged(e, amount, names));
    let back = damaged.map_values(|e: EntityView| spec_healed(e, amount, names));
    assert forall|i: int| 0 <= i < ents.len() implies back[i] == ents[i] by {
        let e = ents[i];
        if name_listed(names, e.name) {
            assert(sat_add(e.damage_taken, amount) == e.damage_taken + amount);
            assert(sat_sub(sat_add(e.damage_taken, amount), amount) == e.damage_taken);
        }
    }
    assert(back =~= ents);
}

/// Healing more than an entity has taken clamps its damage counter to
/// zero; it never wraps around.
pub proof fn lemma_heal_clamps_at_zero(e: EntityView, amount: u16, names: Seq<Seq<char>>)
    requires
        name_listed(names, e.name),
        amount > e.damage_taken,
    ensures
        spec_healed(e, amount, names).damage_taken == 0,
{
}

/// Every element passing the test means filtering changes nothing.
proof fn lemma_filter_all_pass<A>(s: Seq<A>, p: spec_fn(A) -> bool)
    requires
        forall|i: int| 0 <= i < s.len() ==> p(#[trigger] s[i]),
    ensures
        s.filter(p) == s,
    decreases s.len(),
{
    reveal(Seq::filter);
    if s.len() > 0 {
        assert(forall|i: int|
            0 <= i < s.len() - 1 ==> #[trigger] s.drop_last()[i] == s[i]);
        lemma_filter_all_pass(s.drop_last(), p);
        assert(s.filter(p) =~= s);
    } else {
        assert(s.filter(p) =~= s);
    }
}

/// No element passing the test means filtering leaves nothing.
proof fn lemma_filter_none_pass<A>(s: Seq<A>, p: spec_fn(A) -> bool)
    requires
        forall|i: int| 0 <= i < s.len() ==> !p(#[trigger] s[i]),
    ensures
        s.filter(p) == Seq::<A>::empty(),
    decreases s.len(),
{
    reveal(Seq::filter);
    if s.len() > 0 {
        assert(forall|i: int|
            0 <= i < s.len() - 1 ==> #[trigger] s.drop_last()[i] == s[i]);
        lemma_filter_none_pass(s.drop_last(), p);
    }
}

/// The regrouped roster never places a later-ranked team before an
/// earlier-ranked one: the listing shows the groups in the fixed order
/// Party, Allies, Enemy, Neutral, Unknown, whatever the insertion order
/// was.
pub proof fn lemma_grouped_ranks_sorted(s: Seq<EntityView>)
    ensures
        forall|i: int, j: int|
            0 <= i < j < spec_grouped(s).len() ==> team_rank(#[trigger] spec_grouped(s)[i].team)
                <= team_rank(#[trigger] spec_grouped(s)[j].team),
{
    broadcast use vstd::seq_lib::group_filter_ensures;

    let g = spec_grouped(s);
    assert forall|i: int| 0 <= i < g.len() implies team_rank(#[trigger] g[i].team) == rank_at(
        s,
        i,
    ) by {
        lemma_grouped_index(s, i);
    }
    assert forall|i: int, j: int|
        0 <= i < j < g.len() implies team_rank(#[trigger] g[i].team) <= team_rank(
        #[trigger] g[j].team,
    ) by {
        lemma_grouped_index(s, i);
        lemma_grouped_index(s, j);
    }
}

/// The display rank of the entity standing at position `i` of the
/// regrouped roster, read off the part boundaries.
spec fn rank_at(s: Seq<EntityView>, i: int) -> int {
    let end_party = s.filter(|e: EntityView| e.team == Team::Party).len();
    let end_allies = end_party + s.filter(|e: EntityView| e.team == Team::Allies).len();
    let end_enemy = end_allies + s.filter(|e: EntityView| e.team == Team::Enemy).len();
    let end_neutral = end_enemy + s.filter(|e: EntityView| e.team == Team::Neutral).len();
    if i < end_party {
        0
    } else if i < end_allies {
        1
    } else if i < end_enemy {
        2
    } else if i < end_neutral {
        3
    } else {
        4
    }
}

/// Positions within the regrouped roster carry the team their part was
/// filtered for, so their rank grows with the position.
proof fn lemma_grouped_index(s: Seq<EntityView>, i: int)
    requires
        0 <= i < spec_grouped(s).len(),
    ensures
        team_rank(spec_grouped(s)[i].team) == rank_at(s, i),
{
    broadcast use vstd::seq_lib::group_filter_ensures;

    let party_part = s.filter(|e: EntityView| e.team == Team::Party);
    let allies_part = s.filter(|e: EntityView| e.team == Team::Allies);
    let enemy_part = s.filter(|e: EntityView| e.team == Team::Enemy);
    let neutral_part = s.filter(|e: EntityView| e.team == Team::Neutral);
    let unknown_part = s.filter(|e: EntityView| e.team == Team::Unknown);
    let g = spec_grouped(s);
    let end_party = party_part.len() as int;
    let end_allies = end_party + allies_part.len();
    let end_enemy = end_allies + enemy_part.len();
    let end_neutral = end_enemy + neutral_part.len();
    if i < end_party {
        assert(g[i] == party_part[i]);
    } else if i < end_allies {
        assert(g[i] == allies_part[i - end_party]);
    } else if i < end_enemy {
        assert(g[i] == enemy_part[i - end_allies]);
    } else if i < end_neutral {
        assert(g[i] == neutral_part[i - end_enemy]);
    } else {
        assert(g[i] == unknown_part[i - end_neutral]);
    }
}

/// Within one team, regrouping preserves the original relative order:
/// picking a team's entities out of the regrouped roster gives exactly
/// the same run as picking them out of the roster as inserted.
pub proof fn lemma_grouped_stable(s: Seq<EntityView>, t: Team)
    ensures
        spec_grouped(s).filter(|e: EntityView| e.team == t) == s.filter(
            |e: EntityView| e.team == t,
        ),
{
    broadcast use vstd::seq_lib::group_filter_ensures;
    broadcast use Seq::filter_distributes_over_add;

    let pt = |e: EntityView| e.team == t;
    let party_part = s.filter(|e: EntityView| e.team == Team::Party);
    let allies_part = s.filter(|e: EntityView| e.team == Team::Allies);
    let enemy_part = s.filter(|e: EntityView| e.team == Team::Enemy);
    let neutral_part = s.filter(|e: EntityView| e.team == Team::Neutral);
    let unknown_part = s.filter(|e: EntityView| e.team == Team::Unknown);
    part_filter(s, Team::Party, t);
    part_filter(s, Team::Allies, t);
    part_filter(s, Team::Enemy, t);
    part_filter(s, Team::Neutral, t);
    part_filter(s, Team::Unknown, t);
    assert(spec_grouped(s).filter(pt) == party_part.filter(pt) + allies_part.filter(pt) + enemy_part.filter(pt) + neutral_part.filter(
        pt,
    ) + unknown_part.filter(pt));
    if t == Team::Party {
        assert(spec_grouped(s).filter(pt) =~= s.filter(pt));
    } else if t == Team::Allies {
        assert(spec_grouped(s).filter(pt) =~= s.filter(pt));
    } else if t == Team::Enemy {
        assert(spec_grouped(s).filter(pt) =~= s.filter(pt));
    } else if t == Team::Neutral {
        assert(spec_grouped(s).filter(pt) =~= s.filter(pt));
    } else {
        assert(spec_grouped(s).filter(pt) =~= s.filter(pt));
    }
}

/// Filtering one team's part for another team leaves nothing; filtering
/// it for its own team changes nothing.
proof fn part_filter(s: Seq<EntityView>, part: Team, t: Team)
    ensures
        part == t ==> s.filter(|e: EntityView| e.team == part).filter(|e: EntityView| e.team == t)
            == s.filter(|e: EntityView| e.team == t),
        part != t ==> s.filter(|e: EntityView| e.team == part).filter(|e: EntityView| e.team == t)
            == Seq::<EntityView>::empty(),
{
    broadcast use vstd::seq_lib::group_filter_ensures;

    let p = s.filter(|e: EntityView| e.team == part);
    if part == t {
        assert((|e: EntityView| e.team == part) =~= (|e: EntityView| e.team == t));
        lemma_filter_all_pass(p, |e: EntityView| e.team == t);
    } else {
        lemma_filter_none_pass(p, |e: EntityView| e.team == t);
    }
}

/// Regrouping loses no entity and invents none: the regrouped roster has
/// exactly as many entities as the roster held.
pub proof fn lemma_grouped_len(s: Seq<EntityView>)
    ensures
        spec_grouped(s).len() == s.len(),
    decreases s.len(),
{
    reveal(Seq::filter);
    if s.len() > 0 {
        lemma_grouped_len(s.drop_last());
    }
}

/// Parsing looks at the first token only through its resolved verb, so
/// two lines with the same resolved verb and the same arguments parse
/// alike.
proof fn lemma_parse_same_resolve(t1: Seq<Seq<char>>, t2: Seq<Seq<char>>)
    requires
        t1.len() == t2.len(),
        t1.len() > 0,
        spec_resolve(t1[0]) == spec_resolve(t2[0]),
        forall|i: int| 1 <= i < t1.len() ==> t1[i] == t2[i],
    ensures
        spec_parse(t1) == spec_parse(t2),
{
    if t1.len() >= 2 {
        assert(t1.skip(2) =~= t2.skip(2));
    }
    if t1.len() >= 4 {
        assert(t1.skip(4) =~= t2.skip(4));
    }
}

/// An abbreviated verb behaves exactly as its canonical spelling: the
/// line parses to the same command or the same error, so the roster and
/// the reply come out the same.
pub proof fn lemma_abbreviations_equivalent(toks: Seq<Seq<char>>)
    requires
        toks.len() > 0,
    ensures
        toks[0] == "d"@ ==> spec_parse(toks) == spec_parse(toks.update(0, "damage"@)),
        toks[0] == "h"@ ==> spec_parse(toks) == spec_parse(toks.update(0, "heal"@)),
        toks[0] == "ae"@ ==> spec_parse(toks) == spec_parse(toks.update(0, "add_entity"@)),
        toks[0] == "re"@ ==> spec_parse(toks) == spec_parse(toks.update(0, "remove_entity"@)),
        toks[0] == "as"@ ==> spec_parse(toks) == spec_parse(toks.update(0, "add_effect"@)),
        toks[0] == "rs"@ ==> spec_parse(toks) == spec_parse(toks.update(0, "remove_effect"@)),
{
    broadcast use vstd::string::group_string_axioms;

    reveal_strlit("as");
    reveal_strlit("rs");
    reveal_strlit("ae");
    reveal_strlit("re");
    reveal_strlit("d");
    reveal_strlit("h");
    reveal_strlit("add_effect");
    reveal_strlit("remove_effect");
    reveal_strlit("add_entity");
    reveal_strlit("remove_entity");
    reveal_strlit("damage");
    reveal_strlit("heal");
    assert("as"@.len() == 2 && "rs"@.len() == 2 && "ae"@.len() == 2 && "re"@.len() == 2);
    assert("d"@.len() == 1 && "h"@.len() == 1);
    assert("add_effect"@.len() == 10 && "remove_effect"@.len() == 13);
    assert("add_entity"@.len() == 10 && "remove_entity"@.len() == 13);
    assert("damage"@.len() == 6 && "heal"@.len() == 4);
    assert("d"@[0] == 'd' && "h"@[0] == 'h');
    assert("as"@[0] == 'a' && "as"@[1] == 's');
    assert("rs"@[0] == 'r' && "rs"@[1] == 's');
    assert("ae"@[0] == 'a' && "ae"@[1] == 'e');
    assert("re"@[0] == 'r' && "re"@[1] == 'e');
    if toks[0] == "d"@ {
        lemma_parse_same_resolve(toks, toks.update(0, "damage"@));
    }
    if toks[0] == "h"@ {
        lemma_parse_same_resolve(toks, toks.update(0, "heal"@));
    }
    if toks[0] == "ae"@ {
        lemma_parse_same_resolve(toks, toks.update(0, "add_entity"@));
    }
    if toks[0] == "re"@ {
        lemma_parse_same_resolve(toks, toks.update(0, "remove_entity"@));
    }
    if toks[0] == "as"@ {
        lemma_parse_same_resolve(toks, toks.update(0, "add_effect"@));
    }
    if toks[0] == "rs"@ {
        lemma_parse_same_resolve(toks, toks.update(0, "remove_effect"@));
    }
}

/// Saving a whole roster and loading the text back yields one fresh
/// entity per saved one, with the same name and the same team, in the
/// same order — as long as no name holds a `|` or a line break, the
/// documented limits of the format.
pub proof fn lemma_save_load_round_trip(ents: Seq<EntityView>)
    requires
        forall|i: int|
            0 <= i < ents.len() ==> count_occ(#[trigger] ents[i].name, '|') == 0 && count_occ(
                ents[i].name,
                '\n',
            ) == 0,
    ensures
        ({
            &&& spec_load(spec_save_text(ents, Team::Unknown)) matches Some(loaded)
            &&& loaded.len() == ents.len()
            &&& forall|i: int|
                0 <= i < ents.len() ==> loaded[i] == spec_new_entity(
                    #[trigger] ents[i].name,
                    ents[i].team,
                )
        }),
    decreases ents.len(),
{
    broadcast use vstd::string::group_string_axioms;

    reveal_strlit("|");
    reveal_strlit("\n");
    assert("|"@.len() == 1 && "|"@[0] == '|');
    assert("\n"@.len() == 1 && "\n"@[0] == '\n');
    if ents.len() == 0 {
        assert(spec_save_text(ents, Team::Unknown) =~= Seq::<char>::empty());
        assert(spec_lines(Seq::<char>::empty()) == Seq::<Seq<char>>::empty());
        assert(spec_load(spec_save_text(ents, Team::Unknown)) matches Some(loaded)
            && loaded =~= Seq::<EntityView>::empty());
    } else {
        let pre = ents.drop_last();
        let e = ents.last();
        assert(forall|i: int|
            0 <= i < pre.len() ==> #[trigger] pre[i] == ents[i]);
        lemma_save_load_round_trip(pre);
        let a = spec_save_text(pre, Team::Unknown);
        let code = spec_team_code(e.team);
        lemma_team_code_round_trip(e.team);
        let u = e.name + "|"@ + code;
        assert(team_saved(e.team, Team::Unknown));
        assert(spec_save_text(ents, Team::Unknown) == a + spec_save_line(e));
        assert(spec_save_line(e) =~= u + "\n"@);
        let text = spec_save_text(ents, Team::Unknown);
        assert(text =~= a + u + "\n"@);
        lemma_save_text_terminated(pre, Team::Unknown);
        assert forall|k: int| 0 <= k < u.len() implies #[trigger] u[k] != '\n' by {
            lemma_first_occ_props(e.name, '\n');
            lemma_first_occ_props(code, '\n');
            if k < e.name.len() {
                assert(u[k] == e.name[k]);
            } else if k == e.name.len() {
                assert(u[k] == '|');
            } else {
                assert(u[k] == code[k - e.name.len() - 1]);
            }
        }
        lemma_lines_append_record(a, u);
        let lines_a = spec_lines(a);
        let lines = spec_lines(text);
        assert(lines == lines_a.push(u));
        // the new record is well formed: exactly one separator, at the
        // end of the name
        lemma_count_occ_add(e.name, "|"@, '|');
        lemma_count_occ_add(e.name + "|"@, code, '|');
        assert(count_occ("|"@, '|') == 1) by {
            assert("|"@.drop_last() =~= Seq::<char>::empty());
            assert(count_occ(Seq::<char>::empty(), '|') == 0);
        }
        assert(u =~= (e.name + "|"@) + code);
        assert(count_occ(u, '|') == 1);
        assert forall|j: int| 0 <= j < e.name.len() implies #[trigger] u[j] != '|' by {
            lemma_first_occ_props(e.name, '|');
            assert(u[j] == e.name[j]);
        }
        assert(u[e.name.len() as int] == '|');
        lemma_first_occ_at(u, '|', e.name.len() as int);
        assert(first_occ(u, '|') == e.name.len());
        assert(u.take(e.name.len() as int) =~= e.name);
        assert(u.skip(e.name.len() as int + 1) =~= code);
        assert(spec_line_entity(u) == spec_new_entity(e.name, e.team));
        // every line of the whole text is well formed
        assert(spec_load(a) matches Some(loaded_a) && loaded_a.len() == pre.len());
        assert(forall|k: int|
            0 <= k < lines_a.len() ==> count_occ(#[trigger] lines_a[k], '|') == 1);
        assert forall|k: int| 0 <= k < lines.len() implies count_occ(
            #[trigger] lines[k],
            '|',
        ) == 1 by {
            if k < lines_a.len() {
                assert(lines[k] == lines_a[k]);
            } else {
                assert(lines[k] == u);
            }
        }
        let loaded = Seq::new(lines.len(), |i: int| spec_line_entity(lines[i]));
        assert(spec_load(text) == Some(loaded));
        assert(loaded.len() == ents.len()) by {
            assert(lines_a.len() == pre.len()) by {
                assert(spec_load(a) matches Some(la) && la.len() == lines_a.len());
            }
        }
        assert forall|i: int| 0 <= i < ents.len() implies loaded[i] == spec_new_entity(
            #[trigger] ents[i].name,
            ents[i].team,
        ) by {
            if i < pre.len() {
                assert(lines[i] == lines_a[i]);
                assert(pre[i].name == ents[i].name && pre[i].team == ents[i].team);
                assert(spec_load(a) matches Some(la) && la[i] == spec_line_entity(lines_a[i])
                    && la[i] == spec_new_entity(pre[i].name, pre[i].team));
                assert(loaded[i] == spec_line_entity(lines[i]));
            } else {
                assert(i == ents.len() - 1);
                assert(lines[i] == u);
                assert(loaded[i] == spec_line_entity(u));
            }
        }
    }
}

} // verus!
