//! The user's channel aliases, carried for the caller.
use std::collections::HashMap;

use vstd::prelude::*;

use crate::text::{spec_trim, trim_spaces};

verus! {

broadcast use vstd::std_specs::hash::group_hash_axioms;

/// The version of the alias file format that this library writes.
pub const CONFIG_SCHEMA_VERSION: u32 = 1;

/// The user's names for analog inputs, digital inputs and outputs, by index.
#[derive(Debug, Clone)]
pub struct AppUserConfig {
    pub schema_version: u32,
    pub ain_aliases: HashMap<usize, String>,
    pub din_aliases: HashMap<usize, String>,
    pub out_aliases: HashMap<usize, String>,
}

impl Default for AppUserConfig {
    /// The current format version and no aliases.
    fn default() -> (r: AppUserConfig)
        ensures
            r.schema_version == CONFIG_SCHEMA_VERSION,
            r.ain_aliases@ == Map::<usize, String>::empty(),
            r.din_aliases@ == Map::<usize, String>::empty(),
            r.out_aliases@ == Map::<usize, String>::empty(),
    {
        AppUserConfig {
            schema_version: CONFIG_SCHEMA_VERSION,
            ain_aliases: HashMap::new(),
            din_aliases: HashMap::new(),
            out_aliases: HashMap::new(),
        }
    }
}

/// Which alias a rename is for: an analog input, a digital input or an output,
/// by index.
#[derive(Debug, Clone, Copy, PartialEq, Eq, Structural)]
pub enum RenameTarget {
    Ain(usize),
    Din(usize),
    Out(usize),
}

/// `new` is `old` with the alias at `i` set to `text`, or removed where `text`
/// is empty.
pub open spec fn alias_updated(
    old: Map<usize, String>,
    new: Map<usize, String>,
    i: usize,
    text: Seq<char>,
) -> bool {
    if text.len() == 0 {
        new == old.remove(i)
    } else {
        new.contains_key(i) && new[i]@ == text && new.remove(i) == old.remove(i)
    }
}

fn update_alias(map: &mut HashMap<usize, String>, i: usize, text: String)
    ensures
        alias_updated(old(map)@, final(map)@, i, text@),
{
    if text.unicode_len() == 0 {
        map.remove(&i);
    } else {
        map.insert(i, text);
        assert(map@.remove(i) =~= old(map)@.remove(i));
    }
}

fn alias_in(map: &HashMap<usize, String>, i: usize) -> (r: Option<String>)
    ensures
        match r {
            Some(s) => map@.contains_key(i) && s@ == map@[i]@,
            None => !map@.contains_key(i),
        },
{
    match map.get(&i) {
        Some(s) => Some(s.clone()),
        None => None,
    }
}

impl AppUserConfig {
    /// Commits a rename: the alias of the target becomes the text with white
    /// space trimmed from both ends, and is removed where nothing is left. The
    /// other aliases and the format version are unchanged.
    pub fn commit_alias_rename(&mut self, target: RenameTarget, text: &str)
        ensures
            final(self).schema_version == old(self).schema_version,
            match target {
                RenameTarget::Ain(i) => alias_updated(
                    old(self).ain_aliases@,
                    final(self).ain_aliases@,
                    i,
                    spec_trim(text@),
                ) && final(self).din_aliases@ == old(self).din_aliases@ && final(self).out_aliases@
                    == old(self).out_aliases@,
                RenameTarget::Din(i) => alias_updated(
                    old(self).din_aliases@,
                    final(self).din_aliases@,
                    i,
                    spec_trim(text@),
                ) && final(self).ain_aliases@ == old(self).ain_aliases@ && final(self).out_aliases@
                    == old(self).out_aliases@,
                RenameTarget::Out(i) => alias_updated(
                    old(self).out_aliases@,
                    final(self).out_aliases@,
                    i,
                    spec_trim(text@),
                ) && final(self).ain_aliases@ == old(self).ain_aliases@ && final(self).din_aliases@
                    == old(self).din_aliases@,
            },
    {
        let value = trim_spaces(text);
        match target {
            RenameTarget::Ain(i) => update_alias(&mut self.ain_aliases, i, value),
            RenameTarget::Din(i) => update_alias(&mut self.din_aliases, i, value),
            RenameTarget::Out(i) => update_alias(&mut self.out_aliases, i, value),
        }
    }

    /// The alias of a target, where it has one.
    pub fn alias(&self, target: RenameTarget) -> (r: Option<String>)
        ensures
            match target {
                RenameTarget::Ain(i) => match r {
                    Some(s) => self.ain_aliases@.contains_key(i) && s@ == self.ain_aliases@[i]@,
                    None => !self.ain_aliases@.contains_key(i),
                },
                RenameTarget::Din(i) => match r {
                    Some(s) => self.din_aliases@.contains_key(i) && s@ == self.din_aliases@[i]@,
                    None => !self.din_aliases@.contains_key(i),
                },
                RenameTarget::Out(i) => match r {
                    Some(s) => self.out_aliases@.contains_key(i) && s@ == self.out_aliases@[i]@,
                    None => !self.out_aliases@.contains_key(i),
                },
            },
    {
        match target {
            RenameTarget::Ain(i) => alias_in(&self.ain_aliases, i),
            RenameTarget::Din(i) => alias_in(&self.din_aliases, i),
            RenameTarget::Out(i) => alias_in(&self.out_aliases, i),
        }
    }

    /// Forgets every alias.
    pub fn clear_aliases(&mut self)
        ensures
            final(self).schema_version == old(self).schema_version,
            final(self).ain_aliases@ == Map::<usize, String>::empty(),
            final(self).din_aliases@ == Map::<usize, String>::empty(),
            final(self).out_aliases@ == Map::<usize, String>::empty(),
    {
        self.ain_aliases.clear();
        self.din_aliases.clear();
        self.out_aliases.clear();
    }
}

} // verus!
