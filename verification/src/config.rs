//! The configuration that every parse and classify call receives: the
//! allowed commit types and the trigger sets, plus per-command options.

use vstd::prelude::*;
use vstd::string::StringExecFns;
use crate::text::chars_eq;
use crate::text::str_to_chars;

verus! {

/// Options of the history-check command.
#[derive(Debug, Clone)]
pub struct Check {
    pub name: Option<String>,
    pub diff: Option<String>,
}

/// Options of the tag command.
#[derive(Debug, Clone)]
pub struct Tag {
    pub ignore_prereleases: Option<bool>,
    pub merged: Option<String>,
    pub no_merged: Option<String>,
}

/// The configured commit-type taxonomy and command options.
#[derive(Debug, Clone)]
pub struct Config {
    pub cc_types: Vec<String>,
    pub minor_trigger: Vec<String>,
    pub patch_trigger: Vec<String>,
    pub check: Option<Check>,
    pub tag: Option<Tag>,
}

/// A configuration whose trigger sets step outside the allowed types.
#[derive(Debug, PartialEq)]
pub enum ConfigError {
    /// Some minor trigger is not an allowed commit type.
    MinorTriggerNotInTypes,
    /// Some patch trigger is not an allowed commit type.
    PatchTriggerNotInTypes,
}

/// True when the list holds a string with exactly the characters of `x`.
pub open spec fn contains_str(list: Seq<Seq<char>>, x: Seq<char>) -> bool {
    exists|i: int| 0 <= i < list.len() && list[i] == x
}

/// True when every string of `xs` occurs in `ys`, by contents.
pub open spec fn subset_str(xs: Seq<Seq<char>>, ys: Seq<Seq<char>>) -> bool {
    forall|i: int| 0 <= i < xs.len() ==> contains_str(ys, #[trigger] xs[i])
}

/// True when `list` holds a string with exactly the characters of `x`.
pub fn list_contains_chars(list: &Vec<String>, x: &Vec<char>) -> (b: bool)
    ensures
        b == contains_str(list.deep_view(), x@),
{
    let mut i: usize = 0;
    while i < list.len()
        invariant
            i <= list@.len(),
            forall|j: int| 0 <= j < i ==> list.deep_view()[j] != x@,
        decreases list@.len() - i,
    {
        let item = str_to_chars(list[i].as_str());
        proof {
            assert(list.deep_view()[i as int] == list@[i as int]@);
        }
        if chars_eq(&item, x) {
            return true;
        }
        i = i + 1;
    }
    false
}

impl Config {
    /// A configuration is coherent when both trigger sets name only allowed
    /// commit types; the error says which set steps outside.
    pub fn config_check(&self) -> (r: Result<(), ConfigError>)
        ensures
            r is Ok <==> subset_str(self.minor_trigger.deep_view(), self.cc_types.deep_view())
                && subset_str(self.patch_trigger.deep_view(), self.cc_types.deep_view()),
            r == Err::<(), ConfigError>(ConfigError::MinorTriggerNotInTypes) <==> !subset_str(
                self.minor_trigger.deep_view(),
                self.cc_types.deep_view(),
            ),
            r == Err::<(), ConfigError>(ConfigError::PatchTriggerNotInTypes) <==> subset_str(
                self.minor_trigger.deep_view(),
                self.cc_types.deep_view(),
            ) && !subset_str(self.patch_trigger.deep_view(), self.cc_types.deep_view()),
    {
        if !self.list_in_types(&self.minor_trigger) {
            Err(ConfigError::MinorTriggerNotInTypes)
        } else if !self.list_in_types(&self.patch_trigger) {
            Err(ConfigError::PatchTriggerNotInTypes)
        } else {
            Ok(())
        }
    }

    /// True when every string of `list` is an allowed commit type.
    fn list_in_types(&self, list: &Vec<String>) -> (b: bool)
        ensures
            b == subset_str(list.deep_view(), self.cc_types.deep_view()),
    {
        let mut i: usize = 0;
        while i < list.len()
            invariant
                i <= list@.len(),
                forall|j: int|
                    0 <= j < i ==> contains_str(
                        self.cc_types.deep_view(),
                        #[trigger] list.deep_view()[j],
                    ),
            decreases list@.len() - i,
        {
            let item = str_to_chars(list[i].as_str());
            proof {
                assert(list.deep_view()[i as int] == list@[i as int]@);
            }
            if !list_contains_chars(&self.cc_types, &item) {
                return false;
            }
            i = i + 1;
        }
        true
    }

    /// True when `to_check` is one of the allowed commit types.
    pub fn cc_type_in_config(&self, to_check: &str) -> (b: bool)
        ensures
            b == contains_str(self.cc_types.deep_view(), to_check@),
    {
        let item = str_to_chars(to_check);
        list_contains_chars(&self.cc_types, &item)
    }
}

impl Default for Config {
    /// The stock taxonomy: `feat`, `fix`, `ci` and `chore`, with `feat`
    /// raising the minor number and `fix` the patch number.
    fn default() -> (r: Self)
        ensures
            r.cc_types.deep_view() =~= seq!["feat"@, "fix"@, "ci"@, "chore"@],
            r.minor_trigger.deep_view() =~= seq!["feat"@],
            r.patch_trigger.deep_view() =~= seq!["fix"@],
            r.check matches Some(c) && c.name is None && c.diff is None,
            r.tag is None,
    {
        let mut cc_types: Vec<String> = Vec::new();
        cc_types.push(String::from_str("feat"));
        cc_types.push(String::from_str("fix"));
        cc_types.push(String::from_str("ci"));
        cc_types.push(String::from_str("chore"));
        let mut minor_trigger: Vec<String> = Vec::new();
        minor_trigger.push(String::from_str("feat"));
        let mut patch_trigger: Vec<String> = Vec::new();
        patch_trigger.push(String::from_str("fix"));
        let r = Config {
            cc_types,
            minor_trigger,
            patch_trigger,
            check: Some(Check { name: None, diff: None }),
            tag: None,
        };
        proof {
            assert(r.cc_types.deep_view() =~= seq!["feat"@, "fix"@, "ci"@, "chore"@]);
            assert(r.minor_trigger.deep_view() =~= seq!["feat"@]);
            assert(r.patch_trigger.deep_view() =~= seq!["fix"@]);
        }
        r
    }
}

} // verus!
