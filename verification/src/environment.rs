//! The database: the fact tables and the rule tables.
use vstd::prelude::*;
use crate::fact::{facts_well_formed, FactRecord, FactsView};
use crate::rule::{rules_well_formed, RuleRecord, RulesView};

verus! {

/// The mathematical content of a [`Database`].
pub struct DatabaseView {
    pub facts: FactsView,
    pub rules: RulesView,
}

impl DatabaseView {
    /// Every line and every clause has the length that its key names.
    pub open spec fn well_formed(self) -> bool {
        &&& facts_well_formed(self.facts)
        &&& rules_well_formed(self.rules)
    }
}

/// The facts and the rules, each in tables keyed by name and arity. Both
/// only grow: nothing is changed or removed.
#[derive(Debug)]
pub struct Database {
    pub facts: FactRecord,
    pub rules: RuleRecord,
}

impl View for Database {
    type V = DatabaseView;

    open spec fn view(&self) -> DatabaseView {
        DatabaseView { facts: self.facts@, rules: self.rules@ }
    }
}

impl Database {
    /// Both records are well formed.
    pub open spec fn wf(&self) -> bool {
        &&& self.facts.wf()
        &&& self.rules.wf()
    }

    /// The database without facts and rules.
    pub fn new() -> (r: Database)
        ensures
            r.wf(),
            r@.facts == FactsView::empty(),
            r@.rules == RulesView::empty(),
    {
        Database { facts: FactRecord::new(), rules: RuleRecord::new() }
    }
}

impl Default for Database {
    fn default() -> (r: Database)
        ensures
            r.wf(),
            r@.facts == FactsView::empty(),
            r@.rules == RulesView::empty(),
    {
        Database::new()
    }
}

} // verus!
