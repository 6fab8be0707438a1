//! Location checks, items, events, actions and commands: things in the game that can be
//! checked off, with the RAM address and mask that tell when they happen.
use crate::condition::{Conditions, ConditionsModel, clone_conditions_vec, conditions_models};
use vstd::prelude::*;

verus! {

#[derive(Debug, PartialEq)]
pub struct Check {
    pub id: usize,
    pub name: String,
    pub sram_offset: Option<u32>,
    pub sram_mask: Option<u8>,
    pub is_checked: bool,
    /// Milliseconds since the Unix epoch.
    pub time_of_check: Option<i64>,
    pub item: Option<String>,
    pub is_progressive: bool,
    pub progressive_level: usize,
    pub snes_value: u8,
    pub is_item: bool,
    pub conditions: Option<Vec<Conditions>>,
}

/// The mathematical value of a `Check`.
pub struct CheckModel {
    pub id: usize,
    pub name: Seq<char>,
    pub sram_offset: Option<u32>,
    pub sram_mask: Option<u8>,
    pub is_checked: bool,
    pub time_of_check: Option<i64>,
    pub item: Option<Seq<char>>,
    pub is_progressive: bool,
    pub progressive_level: usize,
    pub snes_value: u8,
    pub is_item: bool,
    pub conditions: Option<Seq<ConditionsModel>>,
}

pub open spec fn opt_string_model(s: Option<String>) -> Option<Seq<char>> {
    match s {
        Some(s) => Some(s@),
        None => None,
    }
}

pub open spec fn opt_conditions_model(c: Option<Vec<Conditions>>) -> Option<Seq<ConditionsModel>> {
    match c {
        Some(v) => Some(conditions_models(v@)),
        None => None,
    }
}

/// A copy of an optional string.
pub fn clone_opt_string(s: &Option<String>) -> (r: Option<String>)
    ensures
        opt_string_model(r) == opt_string_model(*s),
{
    match s {
        Some(s) => Some(s.clone()),
        None => None,
    }
}

/// A copy of optional conditions, with the same models.
pub fn clone_opt_conditions(c: &Option<Vec<Conditions>>) -> (r: Option<Vec<Conditions>>)
    ensures
        opt_conditions_model(r) == opt_conditions_model(*c),
{
    match c {
        Some(v) => Some(clone_conditions_vec(v)),
        None => None,
    }
}

impl Check {
    pub open spec fn model(&self) -> CheckModel {
        CheckModel {
            id: self.id,
            name: self.name@,
            sram_offset: self.sram_offset,
            sram_mask: self.sram_mask,
            is_checked: self.is_checked,
            time_of_check: self.time_of_check,
            item: opt_string_model(self.item),
            is_progressive: self.is_progressive,
            progressive_level: self.progressive_level,
            snes_value: self.snes_value,
            is_item: self.is_item,
            conditions: opt_conditions_model(self.conditions),
        }
    }

    /// A copy with the same model.
    pub fn deep_clone(&self) -> (r: Check)
        ensures
            r.model() == self.model(),
    {
        Check {
            id: self.id,
            name: self.name.clone(),
            sram_offset: self.sram_offset,
            sram_mask: self.sram_mask,
            is_checked: self.is_checked,
            time_of_check: self.time_of_check,
            item: clone_opt_string(&self.item),
            is_progressive: self.is_progressive,
            progressive_level: self.progressive_level,
            snes_value: self.snes_value,
            is_item: self.is_item,
            conditions: clone_opt_conditions(&self.conditions),
        }
    }

    /// A check with the given id, an empty name, and everything else unset, false or zero.
    pub fn new(id: usize) -> (c: Self)
        ensures
            c.model() == (CheckModel { id, ..default_check_model() }),
    {
        Check { id, ..Check::default() }
    }

    /// Records a check: a progressive check goes up one level, any other is marked as
    /// checked; either way the time is stored.
    pub fn update_check(&mut self, time_of_check: i64)
        requires
            old(self).is_progressive ==> old(self).progressive_level < usize::MAX,
        ensures
            final(self).model() == (if old(self).is_progressive {
                CheckModel {
                    progressive_level: (old(self).progressive_level + 1) as usize,
                    time_of_check: Some(time_of_check),
                    ..old(self).model()
                }
            } else {
                CheckModel {
                    is_checked: true,
                    time_of_check: Some(time_of_check),
                    ..old(self).model()
                }
            }),
    {
        if self.is_progressive {
            self.progressive_level = self.progressive_level + 1;
        } else {
            self.is_checked = true;
        }
        self.time_of_check = Some(time_of_check);
    }

    pub fn mark_as_checked(&mut self, time_of_check: i64)
        ensures
            final(self).model() == (CheckModel {
                is_checked: true,
                time_of_check: Some(time_of_check),
                ..old(self).model()
            }),
    {
        self.is_checked = true;
        self.time_of_check = Some(time_of_check);
    }

    /// Goes up one level, remembering the value read from the SNES and the time.
    pub fn progress_item(&mut self, snes_value: u8, time_of_check: i64)
        requires
            old(self).progressive_level < usize::MAX,
        ensures
            final(self).model() == (CheckModel {
                progressive_level: (old(self).progressive_level + 1) as usize,
                snes_value,
                time_of_check: Some(time_of_check),
                ..old(self).model()
            }),
    {
        self.progressive_level = self.progressive_level + 1;
        self.snes_value = snes_value;
        self.time_of_check = Some(time_of_check);
    }
}

/// The item list: each check as it was read, marked as an item.
pub fn mark_items(checks: &Vec<Check>) -> (r: Vec<Check>)
    ensures
        r@.len() == checks@.len(),
        forall|i: int|
            0 <= i < checks@.len() ==> #[trigger] r@[i].model() == (CheckModel {
                is_item: true,
                ..checks@[i].model()
            }),
{
    let mut r: Vec<Check> = Vec::new();
    let mut i: usize = 0;
    while i < checks.len()
        invariant
            i <= checks@.len(),
            r@.len() == i,
            forall|j: int|
                0 <= j < i ==> #[trigger] r@[j].model() == (CheckModel {
                    is_item: true,
                    ..checks@[j].model()
                }),
        decreases checks@.len() - i,
    {
        let mut c = checks[i].deep_clone();
        c.is_item = true;
        r.push(c);
        i = i + 1;
    }
    r
}

/// The model of `Check::default()`.
pub open spec fn default_check_model() -> CheckModel {
    CheckModel {
        id: 0,
        name: Seq::empty(),
        sram_offset: None,
        sram_mask: None,
        is_checked: false,
        time_of_check: None,
        item: None,
        is_progressive: false,
        progressive_level: 0,
        snes_value: 0,
        is_item: false,
        conditions: None,
    }
}

impl Default for Check {
    fn default() -> (c: Self)
        ensures
            c.model() == default_check_model(),
    {
        Check {
            id: 0,
            name: String::new(),
            sram_offset: None,
            sram_mask: None,
            is_checked: false,
            time_of_check: None,
            item: None,
            is_progressive: false,
            progressive_level: 0,
            snes_value: 0,
            is_item: false,
            conditions: None,
        }
    }
}

} // verus!
