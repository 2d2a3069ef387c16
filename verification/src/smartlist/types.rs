//! The parts of a smart list: filter conditions, sort and group directives,
//! and prefill defaults.
use vstd::prelude::*;

use crate::text::{opt_view, strings_view};

verus! {

#[derive(Debug, Clone, Copy, PartialEq, Eq, Structural)]
pub enum DateField {
    Due,
    Scheduled,
    Starting,
    Updated,
    CreationDate,
}

#[derive(Debug, Clone, Copy, PartialEq, Eq, Structural)]
pub enum TextField {
    Project,
    Context,
    Description,
}

#[derive(Debug, Clone, Copy, PartialEq, Eq, Structural)]
pub enum Field {
    Due,
    Scheduled,
    Starting,
    Updated,
    CreationDate,
    Priority,
    Project,
    Context,
    Description,
    Done,
}

#[derive(Debug, Clone, Copy, PartialEq, Eq, Structural)]
pub enum CompareOp {
    Eq,
    Lt,
    Lte,
    Gt,
    Gte,
}

#[derive(Debug, Clone, Copy, PartialEq, Eq, Structural)]
pub enum PriorityOp {
    Eq,
    Above,
    Below,
}

#[derive(Debug, Clone, Copy, PartialEq, Eq, Structural)]
pub enum TextOp {
    Includes,
    Excludes,
}

#[derive(Debug, Clone, Copy, PartialEq, Eq, Structural)]
pub enum Direction {
    Asc,
    Desc,
}

/// A date anchor in a smart-list date value: `today`, resolved at evaluation
/// time, or a literal `YYYY-MM-DD` date.
#[derive(Debug, Clone, PartialEq, Eq)]
pub enum DateAnchor {
    Today,
    Date(String),
}

/// An anchor plus a signed offset in days.
#[derive(Debug, Clone, PartialEq, Eq)]
pub struct DateValue {
    pub anchor: DateAnchor,
    pub offset: i32,
}

pub ghost enum AnchorModel {
    Today,
    Date(Seq<char>),
}

pub ghost struct DateValueModel {
    pub anchor: AnchorModel,
    pub offset: int,
}

impl View for DateValue {
    type V = DateValueModel;

    open spec fn view(&self) -> DateValueModel {
        DateValueModel {
            anchor: match self.anchor {
                DateAnchor::Today => AnchorModel::Today,
                DateAnchor::Date(d) => AnchorModel::Date(d@),
            },
            offset: self.offset as int,
        }
    }
}

impl DateValue {
    pub fn duplicate(&self) -> (r: DateValue)
        ensures
            r@ == self@,
    {
        DateValue {
            anchor: match &self.anchor {
                DateAnchor::Today => DateAnchor::Today,
                DateAnchor::Date(d) => DateAnchor::Date(d.clone()),
            },
            offset: self.offset,
        }
    }
}

#[derive(Debug, Clone, PartialEq, Eq)]
pub enum Condition {
    DateComparison { field: DateField, op: CompareOp, value: DateValue },
    PriorityComparison { op: PriorityOp, letter: char },
    TextMatch { field: TextField, op: TextOp, text: String },
    Existence { field: Field, present: bool },
    DoneFilter { done: bool },
}

pub ghost enum ConditionModel {
    DateComparison { field: DateField, op: CompareOp, value: DateValueModel },
    PriorityComparison { op: PriorityOp, letter: char },
    TextMatch { field: TextField, op: TextOp, text: Seq<char> },
    Existence { field: Field, present: bool },
    DoneFilter { done: bool },
}

impl View for Condition {
    type V = ConditionModel;

    open spec fn view(&self) -> ConditionModel {
        match self {
            Condition::DateComparison { field, op, value } => ConditionModel::DateComparison {
                field: *field,
                op: *op,
                value: value@,
            },
            Condition::PriorityComparison { op, letter } => ConditionModel::PriorityComparison {
                op: *op,
                letter: *letter,
            },
            Condition::TextMatch { field, op, text } => ConditionModel::TextMatch {
                field: *field,
                op: *op,
                text: text@,
            },
            Condition::Existence { field, present } => ConditionModel::Existence {
                field: *field,
                present: *present,
            },
            Condition::DoneFilter { done } => ConditionModel::DoneFilter { done: *done },
        }
    }
}

/// Conditions that must all hold.
#[derive(Debug, Clone, PartialEq, Eq)]
pub struct FilterBlock {
    pub conditions: Vec<Condition>,
}

pub open spec fn conditions_view(v: Seq<Condition>) -> Seq<ConditionModel> {
    v.map_values(|c: Condition| c@)
}

impl View for FilterBlock {
    type V = Seq<ConditionModel>;

    open spec fn view(&self) -> Seq<ConditionModel> {
        conditions_view(self.conditions@)
    }
}

pub open spec fn blocks_view(v: Seq<FilterBlock>) -> Seq<Seq<ConditionModel>> {
    v.map_values(|b: FilterBlock| b@)
}

#[derive(Debug, Clone, Copy, PartialEq, Eq, Structural)]
pub struct Directive {
    pub field: Field,
    pub direction: Direction,
}

/// Prefill defaults of a smart list: projects and contexts in declaration
/// order; for the scalar fields the first valid declaration wins.
#[derive(Debug, Clone, PartialEq, Eq)]
pub struct Prefill {
    pub projects: Vec<String>,
    pub contexts: Vec<String>,
    pub priority: Option<char>,
    pub due: Option<DateValue>,
    pub scheduled: Option<DateValue>,
    pub starting: Option<DateValue>,
}

pub ghost struct PrefillModel {
    pub projects: Seq<Seq<char>>,
    pub contexts: Seq<Seq<char>>,
    pub priority: Option<char>,
    pub due: Option<DateValueModel>,
    pub scheduled: Option<DateValueModel>,
    pub starting: Option<DateValueModel>,
}

pub open spec fn opt_date_view(o: Option<DateValue>) -> Option<DateValueModel> {
    match o {
        Some(v) => Some(v@),
        None => None,
    }
}

impl View for Prefill {
    type V = PrefillModel;

    open spec fn view(&self) -> PrefillModel {
        PrefillModel {
            projects: strings_view(self.projects@),
            contexts: strings_view(self.contexts@),
            priority: self.priority,
            due: opt_date_view(self.due),
            scheduled: opt_date_view(self.scheduled),
            starting: opt_date_view(self.starting),
        }
    }
}

pub open spec fn empty_prefill() -> PrefillModel {
    PrefillModel {
        projects: seq![],
        contexts: seq![],
        priority: None,
        due: None,
        scheduled: None,
        starting: None,
    }
}

impl Prefill {
    /// The prefill with no declarations.
    pub fn new() -> (r: Prefill)
        ensures
            r@ == empty_prefill(),
    {
        let r = Prefill {
            projects: Vec::new(),
            contexts: Vec::new(),
            priority: None,
            due: None,
            scheduled: None,
            starting: None,
        };
        assert(r@.projects =~= empty_prefill().projects);
        assert(r@.contexts =~= empty_prefill().contexts);
        r
    }

    /// Whether nothing is declared.
    pub fn is_empty(&self) -> (r: bool)
        ensures
            r == (self@ == empty_prefill()),
    {
        let r = self.projects.len() == 0 && self.contexts.len() == 0 && self.priority.is_none()
            && self.due.is_none() && self.scheduled.is_none() && self.starting.is_none();
        if r {
            assert(self@.projects =~= empty_prefill().projects);
            assert(self@.contexts =~= empty_prefill().contexts);
        } else {
            assert(self@.projects.len() == self.projects.len());
            assert(self@.contexts.len() == self.contexts.len());
            assert(self@ != empty_prefill());
        }
        r
    }

    /// These defaults, duplicated.
    pub fn duplicate(&self) -> (r: Prefill)
        ensures
            r@ == self@,
    {
        Prefill {
            projects: crate::text::copy_strings(&self.projects),
            contexts: crate::text::copy_strings(&self.contexts),
            priority: self.priority,
            due: match &self.due {
                Some(d) => Some(d.duplicate()),
                None => None,
            },
            scheduled: match &self.scheduled {
                Some(d) => Some(d.duplicate()),
                None => None,
            },
            starting: match &self.starting {
                Some(d) => Some(d.duplicate()),
                None => None,
            },
        }
    }
}

impl Default for Prefill {
    fn default() -> (r: Prefill)
        ensures
            r@ == empty_prefill(),
    {
        Prefill::new()
    }
}

/// A parsed `.list` file.
#[derive(Debug, Clone, PartialEq, Eq)]
pub struct SmartList {
    pub name: String,
    pub icon: Option<String>,
    pub description: Option<String>,
    pub group_path: Vec<String>,
    pub source_path: String,
    pub parse_error: Option<String>,
    pub blocks: Vec<FilterBlock>,
    pub sort_directives: Vec<Directive>,
    pub group_directives: Vec<Directive>,
    pub prefill: Prefill,
}

pub ghost struct SmartListModel {
    pub name: Seq<char>,
    pub icon: Option<Seq<char>>,
    pub description: Option<Seq<char>>,
    pub group_path: Seq<Seq<char>>,
    pub source_path: Seq<char>,
    pub parse_error: Option<Seq<char>>,
    pub blocks: Seq<Seq<ConditionModel>>,
    pub sort_directives: Seq<Directive>,
    pub group_directives: Seq<Directive>,
    pub prefill: PrefillModel,
}

impl View for SmartList {
    type V = SmartListModel;

    open spec fn view(&self) -> SmartListModel {
        SmartListModel {
            name: self.name@,
            icon: opt_view(self.icon),
            description: opt_view(self.description),
            group_path: strings_view(self.group_path@),
            source_path: self.source_path@,
            parse_error: opt_view(self.parse_error),
            blocks: blocks_view(self.blocks@),
            sort_directives: self.sort_directives@,
            group_directives: self.group_directives@,
            prefill: self.prefill@,
        }
    }
}

} // verus!
