//! Combat participants and their timed status effects.
use vstd::prelude::*;
use crate::team::{DurationUnit, Team};

verus! {

/// How long a status effect lasts. `length` defaults to 0; the unit is a
/// display label only.
#[derive(Debug, Copy, Clone, PartialEq, Eq, Structural)]
pub struct Duration {
    pub length: u16,
    pub unit: DurationUnit,
}

/// A named, optionally timed condition attached to an entity. An entity
/// may carry several effects with the same name.
#[derive(Debug)]
pub struct StatusEffect {
    pub name: String,
    pub duration: Duration,
}

/// Mathematical image of a status effect.
pub ghost struct EffectView {
    pub name: Seq<char>,
    pub length: u16,
    pub unit: DurationUnit,
}

impl View for StatusEffect {
    type V = EffectView;

    open spec fn view(&self) -> EffectView {
        EffectView { name: self.name@, length: self.duration.length, unit: self.duration.unit }
    }
}

impl DeepView for StatusEffect {
    type V = EffectView;

    open spec fn deep_view(&self) -> EffectView {
        self.view()
    }
}

impl StatusEffect {
    /// A copy whose image equals this effect's image.
    pub fn duplicate(&self) -> (r: StatusEffect)
        ensures
            r@ == self@,
    {
        StatusEffect { name: self.name.clone(), duration: self.duration }
    }
}

/// A tracked combat participant: a user-supplied name (unique in a roster
/// up to ASCII case at creation time), accumulated damage, an affiliation,
/// and its status effects in the order they were added.
#[derive(Debug)]
pub struct Entity {
    pub name: String,
    pub damage_taken: u16,
    pub team: Team,
    pub status_effects: Vec<StatusEffect>,
}

/// Mathematical image of an entity.
pub ghost struct EntityView {
    pub name: Seq<char>,
    pub damage_taken: u16,
    pub team: Team,
    pub effects: Seq<EffectView>,
}

impl View for Entity {
    type V = EntityView;

    open spec fn view(&self) -> EntityView {
        EntityView {
            name: self.name@,
            damage_taken: self.damage_taken,
            team: self.team,
            effects: self.status_effects.deep_view(),
        }
    }
}

impl DeepView for Entity {
    type V = EntityView;

    open spec fn deep_view(&self) -> EntityView {
        self.view()
    }
}

/// The image of a freshly created entity: no damage, no effects.
pub open spec fn spec_new_entity(name: Seq<char>, team: Team) -> EntityView {
    EntityView { name: name, damage_taken: 0, team: team, effects: Seq::empty() }
}

impl Entity {
    /// A new participant on the given team, with no damage and no effects.
    pub fn new(name: String, team: Team) -> (r: Entity)
        ensures
            r@ == spec_new_entity(name@, team),
    {
        let r = Entity { name: name, damage_taken: 0, team: team, status_effects: Vec::new() };
        proof {
            assert(r@.effects =~= Seq::<EffectView>::empty());
        }
        r
    }

    /// A copy whose image equals this entity's image.
    pub fn duplicate(&self) -> (r: Entity)
        ensures
            r@ == self@,
    {
        let mut effects: Vec<StatusEffect> = Vec::new();
        let mut i: usize = 0;
        while i < self.status_effects.len()
            invariant
                i <= self.status_effects.len(),
                effects.deep_view() =~= self.status_effects.deep_view().take(i as int),
            decreases self.status_effects.len() - i,
        {
            let ghost dv = effects.deep_view();
            let ghost ov = effects@;
            let e = self.status_effects[i].duplicate();
            let ghost ev = e@;
            effects.push(e);
            proof {
                assert(self.status_effects.deep_view().take(i as int).len() == i);
                assert(dv.len() == ov.len());
                assert(effects@ == ov.push(e));
                assert(effects@.len() == ov.len() + 1);
                assert(effects.deep_view().len() == ov.len() + 1);
                assert(ov.len() == i);
                assert(effects.deep_view()[i as int] == ev);
                assert(forall|k: int| 0 <= k < i ==> effects.deep_view()[k] == dv[k]);
                assert(effects.deep_view() =~= self.status_effects.deep_view().take(i + 1));
            }
            i = i + 1;
        }
        let r = Entity {
            name: self.name.clone(),
            damage_taken: self.damage_taken,
            team: self.team,
            status_effects: effects,
        };
        proof {
            assert(r.status_effects.deep_view() =~= self.status_effects.deep_view());
        }
        r
    }
}

} // verus!
