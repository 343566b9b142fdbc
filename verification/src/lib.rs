//! Framework-agnostic data grid logic: sorting, filtering, search, paging,
//! selection, keyboard navigation, editing, unsaved changes, the filter
//! menu's form and server queries, with their contracts proved.

mod aggregate;
mod changes;
mod column;
mod dates;
mod distinct;
mod draft;
mod edit;
mod filter;
mod format;
mod group;
mod grouping;
mod keys;
mod locale;
mod navigate;
mod numbers;
mod order;
mod remote;
mod rowsort;
mod selection;
mod session;
mod sort;
mod state;
mod text;
mod value;
mod view;

pub use navigate::{navigate, CellFocus, NavKey};
pub use sort::{SortDirection, SortState, SortValue, TextCollation};
pub use value::{CellModel, CellValue, Timestamp};
pub use filter::{contains_ignore_case, ColumnFilter, Condition, FilterOp, FilterValue, Value, ValueKind};
pub use format::{CellAlign, CellFormat, CellOverflow};
pub use column::{ColumnId, ColumnSpec};
pub use aggregate::{extreme, int_sum};
pub use group::{find_aggregate, Aggregate, AggregateKind, AggregateValue, Group, GroupKey};
pub use state::{GridOptions, GridState, PageState};
pub use rowsort::Cell;
pub use view::{compute_view, GridView};
pub use distinct::{distinct_values, DistinctValues};
pub use selection::{Selection, SelectionMode};
pub use session::{
    edit_toolbar, editors_to_read, focus_after_edit, next_editable, next_editor, plan_create, plan_edit,
    EditMode, EditMove, EditPlan, EditToolbar, EditStatus, EditTarget, FocusAfterEdit,
};
pub use locale::GridLocale;
pub use edit::{checked, EditError, FromValue};
pub use draft::{input_type, value_list_entries, Draft, DraftCondition, DraftMode, DEFAULT_VALUE_LIMIT};
pub use changes::{changed_columns, Changes, EditRows, GridRow, Pending, RowKey};
pub use remote::{
    GridQuery, LoadRequest, Page, PageAction, RemoteLoader, RequestId, RequestTracker, ViewRow,
    DEFAULT_REMOTE_PAGE_SIZE,
};
pub use keys::{
    editor_key_action, root_key_action, EditorAction, EditorKey, GridKey, RootKeyAction,
};
