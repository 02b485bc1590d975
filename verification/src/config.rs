//! The change-control policy: an ordered list of rules.

use crate::document::{well_formed, Doc, Document};
use crate::text::{copy_strings, strings_of};
use vstd::prelude::*;

verus! {

/// A path expression paired with the value that is expected there.
#[derive(Debug)]
pub struct PathValue {
    /// The segments of the path stand between `/`; a segment `*` stands for
    /// any array index.
    pub path: String,
    pub value: Document,
}

/// The mathematical content of a [`PathValue`].
pub struct Condition {
    pub path: Seq<char>,
    pub value: Doc,
}

impl View for PathValue {
    type V = Condition;

    open spec fn view(&self) -> Condition {
        Condition { path: self.path@, value: self.value@ }
    }
}

/// The contents of a list of conditions.
pub open spec fn conditions_of(conditions: Seq<PathValue>) -> Seq<Condition> {
    conditions.map_values(|c: PathValue| c@)
}

/// Whether the value of every one of `conditions` is a well-formed document.
pub open spec fn conditions_well_formed(conditions: Seq<Condition>) -> bool {
    forall|i: int| 0 <= i < conditions.len() ==> well_formed((#[trigger] conditions[i]).value)
}

/// Whether the value of every one of `conditions` is a well-formed document.
pub fn conditions_are_well_formed(conditions: &[PathValue]) -> (sound: bool)
    ensures
        sound == conditions_well_formed(conditions_of(conditions@)),
{
    let mut i: usize = 0;
    while i < conditions.len()
        invariant
            i <= conditions.len(),
            forall|j: int|
                0 <= j < i ==> well_formed((#[trigger] conditions_of(conditions@)[j]).value),
        decreases conditions.len() - i,
    {
        assert(conditions_of(conditions@)[i as int] == conditions@[i as int]@);
        if !conditions[i].value.is_well_formed() {
            return false;
        }
        i = i + 1;
    }
    true
}

impl Clone for PathValue {
    fn clone(&self) -> (copy: Self)
        ensures
            well_formed(self.value@) ==> copy@ == self@,
    {
        PathValue { path: self.path.clone(), value: self.value.clone() }
    }
}

/// A copy of a list of conditions.
pub fn copy_conditions(conditions: &Vec<PathValue>) -> (copies: Vec<PathValue>)
    ensures
        conditions_well_formed(conditions_of(conditions@)) ==> conditions_of(copies@)
            == conditions_of(conditions@),
{
    let mut copies: Vec<PathValue> = Vec::new();
    let mut i: usize = 0;
    while i < conditions.len()
        invariant
            i <= conditions.len(),
            copies.len() == i,
            conditions_well_formed(conditions_of(conditions@)) ==> forall|j: int|
                0 <= j < i ==> (#[trigger] copies@[j])@ == conditions@[j]@,
        decreases conditions.len() - i,
    {
        assert(conditions_of(conditions@)[i as int] == conditions@[i as int]@);
        copies.push(conditions[i].clone());
        i = i + 1;
    }
    assert(conditions_well_formed(conditions_of(conditions@)) ==> conditions_of(copies@)
        =~= conditions_of(conditions@));
    copies
}

/// One statement of the policy: the documents that match `match_conditions`
/// may change only at paths that one of `allowed_changes` matches, and only
/// where `when_conditions` hold at the place of the change.
#[derive(Debug)]
pub struct Rule {
    pub match_conditions: Vec<PathValue>,
    pub allowed_changes: Vec<String>,
    pub when_conditions: Option<Vec<PathValue>>,
}

/// The mathematical content of a [`Rule`].
pub struct RuleView {
    pub match_conditions: Seq<Condition>,
    pub allowed_changes: Seq<Seq<char>>,
    pub when_conditions: Option<Seq<Condition>>,
}

impl RuleView {
    /// Whether the values of all conditions of the rule are well-formed
    /// documents.
    pub open spec fn well_formed(self) -> bool {
        &&& conditions_well_formed(self.match_conditions)
        &&& self.when_conditions matches Some(conditions) ==> conditions_well_formed(conditions)
    }
}

impl View for Rule {
    type V = RuleView;

    open spec fn view(&self) -> RuleView {
        RuleView {
            match_conditions: conditions_of(self.match_conditions@),
            allowed_changes: strings_of(self.allowed_changes@),
            when_conditions: match self.when_conditions {
                Some(conditions) => Some(conditions_of(conditions@)),
                None => None,
            },
        }
    }
}

impl Rule {
    /// Whether the values of all conditions of the rule are well-formed
    /// documents.
    pub fn is_well_formed(&self) -> (sound: bool)
        ensures
            sound == self@.well_formed(),
    {
        if !conditions_are_well_formed(self.match_conditions.as_slice()) {
            return false;
        }
        match &self.when_conditions {
            Some(conditions) => conditions_are_well_formed(conditions.as_slice()),
            None => true,
        }
    }
}

impl Clone for Rule {
    fn clone(&self) -> (copy: Self)
        ensures
            self@.well_formed() ==> copy@ == self@,
    {
        Rule {
            match_conditions: copy_conditions(&self.match_conditions),
            allowed_changes: copy_strings(&self.allowed_changes),
            when_conditions: match &self.when_conditions {
                Some(conditions) => Some(copy_conditions(conditions)),
                None => None,
            },
        }
    }
}

/// The contents of a list of rules.
pub open spec fn rules_of(rules: Seq<Rule>) -> Seq<RuleView> {
    rules.map_values(|r: Rule| r@)
}

/// Whether every one of `rules` is well-formed.
pub open spec fn rules_well_formed(rules: Seq<RuleView>) -> bool {
    forall|i: int| 0 <= i < rules.len() ==> (#[trigger] rules[i]).well_formed()
}

/// The policy. Rules are tried in the order in which they stand here, and the
/// first rule that matches a document is the one that applies to it.
#[derive(Debug)]
pub struct Config {
    pub rules: Vec<Rule>,
}

impl Config {
    /// Whether every rule of the policy is well-formed: whether the values
    /// of all its conditions are well-formed documents.
    pub fn is_well_formed(&self) -> (sound: bool)
        ensures
            sound == rules_well_formed(rules_of(self.rules@)),
    {
        let mut i: usize = 0;
        while i < self.rules.len()
            invariant
                i <= self.rules.len(),
                forall|j: int| 0 <= j < i ==> (#[trigger] rules_of(self.rules@)[j]).well_formed(),
            decreases self.rules.len() - i,
        {
            assert(rules_of(self.rules@)[i as int] == self.rules@[i as int]@);
            if !self.rules[i].is_well_formed() {
                return false;
            }
            i = i + 1;
        }
        true
    }
}

impl Clone for Config {
    fn clone(&self) -> (copy: Self)
        ensures
            rules_well_formed(rules_of(self.rules@)) ==> rules_of(copy.rules@) == rules_of(
                self.rules@,
            ),
    {
        let mut rules: Vec<Rule> = Vec::new();
        let mut i: usize = 0;
        while i < self.rules.len()
            invariant
                i <= self.rules.len(),
                rules.len() == i,
                rules_well_formed(rules_of(self.rules@)) ==> forall|j: int|
                    0 <= j < i ==> (#[trigger] rules@[j])@ == self.rules@[j]@,
            decreases self.rules.len() - i,
        {
            assert(rules_of(self.rules@)[i as int] == self.rules@[i as int]@);
            rules.push(self.rules[i].clone());
            i = i + 1;
        }
        assert(rules_well_formed(rules_of(self.rules@)) ==> rules_of(rules@) =~= rules_of(
            self.rules@,
        ));
        Config { rules }
    }
}

} // verus!
