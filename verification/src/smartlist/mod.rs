//! Smart lists: saved filters over the task set.
pub mod eval;
pub mod loader;
pub mod parser;
pub mod types;

pub use eval::{
    add_days_to_date, evaluate, field_display_name, filter_only, group, group_by_directives,
    has_done_filter, resolve_date_value, sort_by_directives, DirectiveOrderer, GroupModel,
    TaskGroup,
};
pub use loader::{is_list_file, list_files_in_order, ListPathOrderer};
pub use parser::{parse_field, parse_list};
pub use types::{
    AnchorModel, CompareOp, Condition, ConditionModel, DateAnchor, DateField, DateValue,
    DateValueModel, Direction, Directive, Field, FilterBlock, Prefill, PrefillModel,
    PriorityOp, SmartList, SmartListModel, TextField, TextOp,
};
