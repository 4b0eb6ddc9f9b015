//! The unit catalog view: cursor and scroll state over either the flat
//! ranked list or the flattened tree, the filter-entry mode, and the
//! confirm-then-execute workflow for lifecycle actions.
//!
//! All state lives in [`UnitsContext`] and is mutated synchronously by key
//! and tick handlers; the shell performs the outside calls (unit listing,
//! lifecycle operations, journal reads) and hands the results back in.

use vstd::prelude::*;
use vstd::string::StringExecFns;

use crate::rank::{rank_spec, rank_units, SortBy};
use crate::systemd::{UnitInfo, UnitInfoV, units_view};
use crate::tree::{build_tree, distinct_names, items_view, lemma_seeded_distinct,
    lemma_sorted_distinct, lemma_sorted_keys_sorted, names_view, seeded, sorted_keys, tree_of,
    TreeItem, TreeItemV};

verus! {

/// Whether the catalog is shown flat or grouped.
#[derive(Clone, Copy, Debug, PartialEq, Eq, Structural)]
pub enum ViewMode {
    List,
    Tree,
}

/// One lifecycle operation, always scoped to exactly one unit.
#[derive(Clone, Copy, Debug, PartialEq, Eq, Structural)]
pub enum UnitAction {
    Start,
    Stop,
    Enable,
    Disable,
}

impl UnitAction {
    /// The verb the status line uses for this action.
    pub fn label(&self) -> (r: &'static str)
        ensures
            *self is Start ==> r@ == "start"@,
            *self is Stop ==> r@ == "stop"@,
            *self is Enable ==> r@ == "enable"@,
            *self is Disable ==> r@ == "disable"@,
    {
        match self {
            UnitAction::Start => "start",
            UnitAction::Stop => "stop",
            UnitAction::Enable => "enable",
            UnitAction::Disable => "disable",
        }
    }
}

/// A key the catalog view reacts to, as the shell hands it over.
#[derive(Clone, Copy, Debug, PartialEq, Eq, Structural)]
pub enum Key {
    Char(char),
    Up,
    Down,
    PageUp,
    PageDown,
    Enter,
    Esc,
    Backspace,
}

/// One log record of the per-unit detail panel.
pub struct UnitLogEntry {
    pub timestamp_micros: u64,
    pub display_time: String,
    pub message: String,
}

/// The mathematical value of a [`UnitLogEntry`].
pub ghost struct UnitLogEntryV {
    pub timestamp_micros: int,
    pub display_time: Seq<char>,
    pub message: Seq<char>,
}

impl View for UnitLogEntry {
    type V = UnitLogEntryV;

    open spec fn view(&self) -> UnitLogEntryV {
        UnitLogEntryV {
            timestamp_micros: self.timestamp_micros as int,
            display_time: self.display_time@,
            message: self.message@,
        }
    }
}

/// The views of a sequence of detail records.
pub open spec fn unit_logs_view(s: Seq<UnitLogEntry>) -> Seq<UnitLogEntryV> {
    Seq::new(s.len(), |i: int| s[i]@)
}

/// The view of an optional unit record.
pub open spec fn opt_unit_view(o: Option<UnitInfo>) -> Option<UnitInfoV> {
    match o {
        Some(u) => Some(u@),
        None => None,
    }
}

/// The view of an optional string.
pub open spec fn opt_string_view(o: Option<String>) -> Option<Seq<char>> {
    match o {
        Some(s) => Some(s@),
        None => None,
    }
}

/// The view of an optional character buffer.
pub open spec fn opt_chars_view(o: Option<Vec<char>>) -> Option<Seq<char>> {
    match o {
        Some(s) => Some(s@),
        None => None,
    }
}

/// The catalog of managed units with its search, grouping, selection and
/// action-workflow state.
pub struct UnitsContext {
    pub units: Vec<UnitInfo>,
    pub filtered_units: Vec<UnitInfo>,
    pub tree_items: Vec<TreeItem>,
    pub selected: usize,
    pub scroll_offset: usize,
    pub filter: Vec<char>,
    pub filter_backup: Option<Vec<char>>,
    pub show_filter: bool,
    pub loading: bool,
    pub error: Option<String>,
    pub view_mode: ViewMode,
    pub sort_by: SortBy,
    pub sort_ascending: bool,
    pub collapsed_groups: Vec<String>,
    pub collapse_seeded: bool,
    pub detail_unit: Option<UnitInfo>,
    pub detail_logs: Vec<UnitLogEntry>,
    pub confirm_action: Option<UnitAction>,
    pub pending_action: Option<UnitAction>,
    pub action_status: Option<String>,
    pub detail_log_scroll: usize,
    pub detail_log_follow: bool,
}

impl UnitsContext {
    /// How many rows the active projection has.
    pub open spec fn total_spec(self) -> int {
        match self.view_mode {
            ViewMode::List => self.filtered_units@.len() as int,
            ViewMode::Tree => self.tree_items@.len() as int,
        }
    }

    /// The selection lies in the active projection whenever it is
    /// non-empty, and rests at zero otherwise.
    pub open spec fn wf(self) -> bool {
        &&& (self.total_spec() > 0 ==> (self.selected as int) < self.total_spec())
        &&& (self.total_spec() == 0 ==> self.selected == 0)
        &&& distinct_names(names_view(self.collapsed_groups@))
    }

    /// The snapshot, ranking, grouping and sort configuration are the same.
    pub open spec fn same_catalog(self, other: UnitsContext) -> bool {
        &&& units_view(self.units@) == units_view(other.units@)
        &&& units_view(self.filtered_units@) == units_view(other.filtered_units@)
        &&& items_view(self.tree_items@) == items_view(other.tree_items@)
        &&& names_view(self.collapsed_groups@) == names_view(other.collapsed_groups@)
        &&& self.collapse_seeded == other.collapse_seeded
        &&& self.view_mode == other.view_mode
        &&& self.sort_by == other.sort_by
        &&& self.sort_ascending == other.sort_ascending
    }

    /// The filter text, its backup and the filter-entry flag are the same.
    pub open spec fn same_filter_ui(self, other: UnitsContext) -> bool {
        &&& self.filter@ == other.filter@
        &&& opt_chars_view(self.filter_backup) == opt_chars_view(other.filter_backup)
        &&& self.show_filter == other.show_filter
    }

    /// The detail panel and the action workflow are the same.
    pub open spec fn same_detail(self, other: UnitsContext) -> bool {
        &&& opt_unit_view(self.detail_unit) == opt_unit_view(other.detail_unit)
        &&& unit_logs_view(self.detail_logs@) == unit_logs_view(other.detail_logs@)
        &&& self.confirm_action == other.confirm_action
        &&& self.pending_action == other.pending_action
        &&& opt_string_view(self.action_status) == opt_string_view(other.action_status)
        &&& self.detail_log_scroll == other.detail_log_scroll
        &&& self.detail_log_follow == other.detail_log_follow
    }

    /// The loading flag and the error line are the same.
    pub open spec fn same_status(self, other: UnitsContext) -> bool {
        &&& self.loading == other.loading
        &&& opt_string_view(self.error) == opt_string_view(other.error)
    }

    /// The cursor and the scroll offset are the same.
    pub open spec fn same_selection(self, other: UnitsContext) -> bool {
        &&& self.selected == other.selected
        &&& self.scroll_offset == other.scroll_offset
    }

    /// An empty catalog in tree view, sorted ascending by name, marked as
    /// loading until the first snapshot arrives.
    pub fn new() -> (r: UnitsContext)
        ensures
            r.wf(),
            r.units@.len() == 0,
            r.filtered_units@.len() == 0,
            r.tree_items@.len() == 0,
            r.selected == 0usize,
            r.scroll_offset == 0usize,
            r.filter@.len() == 0,
            r.filter_backup is None,
            !r.show_filter,
            r.loading,
            r.error is None,
            r.view_mode == ViewMode::Tree,
            r.sort_by == SortBy::Name,
            r.sort_ascending,
            r.collapsed_groups@.len() == 0,
            !r.collapse_seeded,
            r.detail_unit is None,
            r.detail_logs@.len() == 0,
            r.confirm_action is None,
            r.pending_action is None,
            r.action_status is None,
            r.detail_log_scroll == 0usize,
            r.detail_log_follow,
    {
        UnitsContext {
            units: Vec::new(),
            filtered_units: Vec::new(),
            tree_items: Vec::new(),
            selected: 0,
            scroll_offset: 0,
            filter: Vec::new(),
            filter_backup: None,
            show_filter: false,
            loading: true,
            error: None,
            view_mode: ViewMode::Tree,
            sort_by: SortBy::Name,
            sort_ascending: true,
            collapsed_groups: Vec::new(),
            collapse_seeded: false,
            detail_unit: None,
            detail_logs: Vec::new(),
            confirm_action: None,
            pending_action: None,
            action_status: None,
            detail_log_scroll: 0,
            detail_log_follow: true,
        }
    }

    /// Ranks the snapshot against the filter, rebuilds the tree (seeding
    /// the collapse set on the very first build), and clamps the selection
    /// into the new projection.
    pub fn apply_filter_and_sort(&mut self)
        requires
            old(self).wf(),
        ensures
            final(self).wf(),
            units_view(final(self).filtered_units@) == rank_spec(
                units_view(old(self).units@),
                old(self).filter@,
                old(self).sort_by,
                old(self).sort_ascending,
            ),
            names_view(final(self).collapsed_groups@) == seeded(
                names_view(old(self).collapsed_groups@),
                sorted_keys(units_view(final(self).filtered_units@)),
            !old(self).collapse_seeded,
            ),
            items_view(final(self).tree_items@) == tree_of(
                units_view(final(self).filtered_units@),
                sorted_keys(units_view(final(self).filtered_units@)),
                names_view(final(self).collapsed_groups@),
            ),
            final(self).selected as int == (if final(self).total_spec() > 0 {
                if old(self).selected as int >= final(self).total_spec() {
                    final(self).total_spec() - 1
                } else {
                    old(self).selected as int
                }
            } else {
                0int
            }),
            units_view(final(self).units@) == units_view(old(self).units@),
            final(self).view_mode == old(self).view_mode,
            final(self).sort_by == old(self).sort_by,
            final(self).sort_ascending == old(self).sort_ascending,
            final(self).scroll_offset == old(self).scroll_offset,
            final(self).collapse_seeded == (old(self).collapse_seeded || final(self).filtered_units@.len() > 0),
            final(self).same_filter_ui(*old(self)),
            final(self).same_detail(*old(self)),
            final(self).same_status(*old(self)),
    {
        self.filtered_units = rank_units(&self.units, &self.filter, self.sort_by, self.sort_ascending);
        let first_build = !self.collapse_seeded;
        proof {
            lemma_seeded_distinct(
                names_view(self.collapsed_groups@),
                units_view(self.filtered_units@),
                first_build,
            );
        }
        self.tree_items = build_tree(&self.filtered_units, &mut self.collapsed_groups, first_build);
        if self.filtered_units.len() > 0 {
            self.collapse_seeded = true;
        }
        let total = match self.view_mode {
            ViewMode::List => self.filtered_units.len(),
            ViewMode::Tree => self.tree_items.len(),
        };
        if total > 0 {
            if self.selected >= total {
                self.selected = total - 1;
            }
        } else {
            self.selected = 0;
        }
    }

    /// Rebuilds the flattened tree from the current ranking and collapse
    /// set, then clamps the selection into the projection.
    pub fn rebuild_tree_items(&mut self)
        requires
            old(self).wf(),
        ensures
            final(self).wf(),
            names_view(final(self).collapsed_groups@) == seeded(
                names_view(old(self).collapsed_groups@),
                sorted_keys(units_view(old(self).filtered_units@)),
            !old(self).collapse_seeded,
            ),
            items_view(final(self).tree_items@) == tree_of(
                units_view(old(self).filtered_units@),
                sorted_keys(units_view(old(self).filtered_units@)),
                names_view(final(self).collapsed_groups@),
            ),
            final(self).selected as int == (if final(self).total_spec() > 0 {
                if old(self).selected as int >= final(self).total_spec() {
                    final(self).total_spec() - 1
                } else {
                    old(self).selected as int
                }
            } else {
                0int
            }),
            units_view(final(self).units@) == units_view(old(self).units@),
            units_view(final(self).filtered_units@) == units_view(old(self).filtered_units@),
            final(self).view_mode == old(self).view_mode,
            final(self).sort_by == old(self).sort_by,
            final(self).sort_ascending == old(self).sort_ascending,
            final(self).scroll_offset == old(self).scroll_offset,
            final(self).collapse_seeded == (old(self).collapse_seeded || final(self).filtered_units@.len() > 0),
            final(self).same_filter_ui(*old(self)),
            final(self).same_detail(*old(self)),
            final(self).same_status(*old(self)),
    {
        let first_build = !self.collapse_seeded;
        proof {
            lemma_seeded_distinct(
                names_view(self.collapsed_groups@),
                units_view(self.filtered_units@),
                first_build,
            );
        }
        self.tree_items = build_tree(&self.filtered_units, &mut self.collapsed_groups, first_build);
        if self.filtered_units.len() > 0 {
            self.collapse_seeded = true;
        }
        let total = match self.view_mode {
            ViewMode::List => self.filtered_units.len(),
            ViewMode::Tree => self.tree_items.len(),
        };
        if total > 0 {
            if self.selected >= total {
                self.selected = total - 1;
            }
        } else {
            self.selected = 0;
        }
    }

    /// Applies the outcome of a snapshot fetch: a fresh list replaces the
    /// catalog wholesale and is re-ranked; a failure is kept as an error
    /// line in place of the list.
    pub fn refresh(&mut self, result: Result<Vec<UnitInfo>, String>)
        requires
            old(self).wf(),
        ensures
            final(self).wf(),
            !final(self).loading,
            match result {
                Ok(units) => {
                    &&& units_view(final(self).units@) == units_view(units@)
                    &&& final(self).error is None
                    &&& units_view(final(self).filtered_units@) == rank_spec(
                        units_view(units@),
                        old(self).filter@,
                        old(self).sort_by,
                        old(self).sort_ascending,
                    )
                    &&& names_view(final(self).collapsed_groups@) == seeded(
                        names_view(old(self).collapsed_groups@),
                        sorted_keys(units_view(final(self).filtered_units@)),
                    !old(self).collapse_seeded,
                    )
                    &&& items_view(final(self).tree_items@) == tree_of(
                        units_view(final(self).filtered_units@),
                        sorted_keys(units_view(final(self).filtered_units@)),
                        names_view(final(self).collapsed_groups@),
                    )
                    &&& final(self).collapse_seeded == (old(self).collapse_seeded || final(self).filtered_units@.len() > 0)
                    &&& final(self).selected as int == clamped_sel(
                        old(self).selected as int,
                        final(self).total_spec(),
                    )
                },
                Err(e) => {
                    &&& opt_string_view(final(self).error) == Some("Failed to list units: "@ + e@)
                    &&& units_view(final(self).units@) == units_view(old(self).units@)
                    &&& units_view(final(self).filtered_units@) == units_view(
                        old(self).filtered_units@,
                    )
                    &&& items_view(final(self).tree_items@) == items_view(old(self).tree_items@)
                    &&& names_view(final(self).collapsed_groups@) == names_view(
                        old(self).collapsed_groups@,
                    )
                    &&& final(self).collapse_seeded == old(self).collapse_seeded
                    &&& final(self).same_selection(*old(self))
                },
            },
            final(self).view_mode == old(self).view_mode,
            final(self).sort_by == old(self).sort_by,
            final(self).sort_ascending == old(self).sort_ascending,
            final(self).scroll_offset == old(self).scroll_offset,
            final(self).same_filter_ui(*old(self)),
            final(self).same_detail(*old(self)),
    {
        self.loading = true;
        self.error = None;
        match result {
            Ok(units) => {
                self.units = units;
                self.apply_filter_and_sort();
                self.loading = false;
            }
            Err(e) => {
                let mut msg = "Failed to list units: ".to_owned();
                msg.append(e.as_str());
                self.error = Some(msg);
                self.loading = false;
            }
        }
    }

    /// The unit under the cursor: in list view the selected row, in tree
    /// view the selected item when it is a unit (a group header selects no
    /// unit).
    pub fn selected_unit(&self) -> (r: Option<&UnitInfo>)
        ensures
            match self.view_mode {
                ViewMode::List => {
                    &&& (r is Some <==> (self.selected as int) < self.filtered_units@.len())
                    &&& (r is Some ==> r->Some_0@ == units_view(self.filtered_units@)[
                        self.selected as int
                    ])
                },
                ViewMode::Tree => {
                    &&& (r is Some <==> (self.selected as int) < self.tree_items@.len()
                        && items_view(self.tree_items@)[self.selected as int] is Unit)
                    &&& (r is Some ==> items_view(self.tree_items@)[self.selected as int]
                        == (TreeItemV::Unit { unit: r->Some_0@ }))
                },
            },
    {
        match self.view_mode {
            ViewMode::List => {
                if self.selected < self.filtered_units.len() {
                    Some(&self.filtered_units[self.selected])
                } else {
                    None
                }
            }
            ViewMode::Tree => {
                if self.selected < self.tree_items.len() {
                    match &self.tree_items[self.selected] {
                        TreeItem::Unit { unit } => Some(unit),
                        TreeItem::Group { .. } => None,
                    }
                } else {
                    None
                }
            }
        }
    }

    /// How many rows the active projection has.
    pub fn get_total_items(&self) -> (r: usize)
        ensures
            r as int == self.total_spec(),
    {
        match self.view_mode {
            ViewMode::List => self.filtered_units.len(),
            ViewMode::Tree => self.tree_items.len(),
        }
    }

    /// Moves the cursor up one row, clamped at the top.
    pub fn move_up(&mut self)
        requires
            old(self).wf(),
        ensures
            final(self).wf(),
            old(self).selected > 0 ==> final(self).selected == old(self).selected - 1,
            old(self).selected == 0 ==> final(self).selected == 0usize,
            final(self).selected == old(self).selected || final(self).selected == old(self).selected - 1,
            unchanged_but_selected(*old(self), *final(self)),
    {
        if self.selected > 0 {
            self.selected = self.selected - 1;
        }
    }

    /// Moves the cursor down one row, clamped at the bottom.
    pub fn move_down(&mut self)
        requires
            old(self).wf(),
        ensures
            final(self).wf(),
            final(self).selected as int == (if old(self).selected + 1 < old(self).total_spec() {
                old(self).selected + 1
            } else {
                old(self).selected as int
            }),
            unchanged_but_selected(*old(self), *final(self)),
    {
        let max = self.get_total_items();
        if self.selected + 1 < max {
            self.selected = self.selected + 1;
        }
    }

    /// Jumps the cursor to the first row.
    pub fn go_top(&mut self)
        requires
            old(self).wf(),
        ensures
            final(self).wf(),
            final(self).selected == 0usize,
            unchanged_but_selected(*old(self), *final(self)),
    {
        self.selected = 0;
    }

    /// Jumps the cursor to the last row, if any.
    pub fn go_bottom(&mut self)
        requires
            old(self).wf(),
        ensures
            final(self).wf(),
            old(self).total_spec() > 0 ==> final(self).selected as int == old(self).total_spec()
                - 1,
            old(self).total_spec() == 0 ==> final(self).selected == old(self).selected,
            unchanged_but_selected(*old(self), *final(self)),
    {
        let max = self.get_total_items();
        if max > 0 {
            self.selected = max - 1;
        }
    }

    /// Moves the cursor up one page, clamped at the top.
    pub fn page_up(&mut self, page_size: usize)
        requires
            old(self).wf(),
        ensures
            final(self).wf(),
            final(self).selected as int == (if old(self).selected >= page_size {
                old(self).selected - page_size
            } else {
                0int
            }),
            unchanged_but_selected(*old(self), *final(self)),
    {
        if self.selected >= page_size {
            self.selected = self.selected - page_size;
        } else {
            self.selected = 0;
        }
    }

    /// Moves the cursor down one page, clamped at the bottom row.
    pub fn page_down(&mut self, page_size: usize)
        requires
            old(self).wf(),
        ensures
            final(self).wf(),
            ({
                let len1 = if old(self).total_spec() > 0 {
                    old(self).total_spec() - 1
                } else {
                    0int
                };
                final(self).selected as int == (if old(self).selected + page_size <= len1 {
                    old(self).selected + page_size
                } else {
                    len1
                })
            }),
            unchanged_but_selected(*old(self), *final(self)),
    {
        let max = self.get_total_items();
        let len1 = if max > 0 {
            max - 1
        } else {
            0
        };
        if self.selected < len1 && len1 - self.selected > page_size {
            self.selected = self.selected + page_size;
        } else {
            self.selected = len1;
        }
    }
}

/// Only the cursor may differ; every other part of the state is the same.
pub open spec fn unchanged_but_selected(a: UnitsContext, b: UnitsContext) -> bool {
    &&& a.same_catalog(b)
    &&& a.same_filter_ui(b)
    &&& a.same_detail(b)
    &&& a.same_status(b)
    &&& a.scroll_offset == b.scroll_offset
}


/// The name list with the single occurrence of `g` removed, if present.
pub open spec fn remove_name(c: Seq<Seq<char>>, g: Seq<char>) -> Seq<Seq<char>>
    decreases c.len(),
{
    if c.len() == 0 {
        c
    } else if c.last() == g {
        c.drop_last()
    } else {
        remove_name(c.drop_last(), g).push(c.last())
    }
}

/// Membership of `g` flipped: removed when present, appended when absent.
pub open spec fn toggled(c: Seq<Seq<char>>, g: Seq<char>) -> Seq<Seq<char>> {
    if c.contains(g) {
        remove_name(c, g)
    } else {
        c.push(g)
    }
}

fn names_remove(v: Vec<String>, g: &str) -> (r: Vec<String>)
    ensures
        names_view(r@) == remove_name(names_view(v@), g@),
    decreases v@.len(),
{
    let mut v = v;
    if v.len() == 0 {
        v
    } else {
        let ghost pre = v@;
        let last = v.pop().unwrap();
        proof {
            assert(names_view(pre).last() == last@);
            assert(names_view(v@) =~= names_view(pre).drop_last());
        }
        if crate::text::str_eq(last.as_str(), g) {
            v
        } else {
            let mut r = names_remove(v, g);
            r.push(last);
            proof {
                assert(names_view(r@) =~= remove_name(
                    names_view(pre).drop_last(),
                    g@,
                ).push(names_view(pre).last()));
            }
            r
        }
    }
}


/// Removal adds no name of its own: everything left was in the list.
pub proof fn lemma_remove_name_contains(c: Seq<Seq<char>>, g: Seq<char>, x: Seq<char>)
    requires
        remove_name(c, g).contains(x),
    ensures
        c.contains(x),
    decreases c.len(),
{
    let r = remove_name(c, g);
    let i = choose|i: int| 0 <= i < r.len() && r[i] == x;
    if c.len() == 0 {
    } else if c.last() == g {
        assert(c.drop_last()[i] == x);
        assert(c[i] == x);
    } else {
        let inner = remove_name(c.drop_last(), g);
        if i < inner.len() {
            assert(inner[i] == x);
            lemma_remove_name_contains(c.drop_last(), g, x);
            let j = choose|j: int| 0 <= j < c.drop_last().len() && c.drop_last()[j] == x;
            assert(c[j] == x);
        } else {
            assert(x == c.last());
        }
    }
}

/// Removal keeps the list duplicate-free.
pub proof fn lemma_remove_name_distinct(c: Seq<Seq<char>>, g: Seq<char>)
    requires
        distinct_names(c),
    ensures
        distinct_names(remove_name(c, g)),
    decreases c.len(),
{
    if c.len() > 0 {
        let d = c.drop_last();
        assert forall|i: int, j: int| 0 <= i < j < d.len() implies d[i] != d[j] by {
            assert(d[i] == c[i]);
            assert(d[j] == c[j]);
        }
        if c.last() != g {
            lemma_remove_name_distinct(d, g);
            let inner = remove_name(d, g);
            let r = inner.push(c.last());
            assert forall|i: int, j: int| 0 <= i < j < r.len() implies r[i] != r[j] by {
                if j == inner.len() {
                    if inner[i] == c.last() {
                        assert(inner.contains(inner[i]));
                        lemma_remove_name_contains(d, g, inner[i]);
                        let t = choose|t: int| 0 <= t < d.len() && d[t] == inner[i];
                        assert(c[t] == c[c.len() - 1]);
                    }
                }
            }
        }
    }
}

/// Flipping a membership keeps the list duplicate-free.
pub proof fn lemma_toggled_distinct(c: Seq<Seq<char>>, g: Seq<char>)
    requires
        distinct_names(c),
    ensures
        distinct_names(toggled(c, g)),
{
    if c.contains(g) {
        lemma_remove_name_distinct(c, g);
    } else {
        let r = c.push(g);
        assert forall|i: int, j: int| 0 <= i < j < r.len() implies r[i] != r[j] by {
            if j == c.len() {
                if c[i] == g {
                    assert(c.contains(g));
                }
            }
        }
    }
}

/// The name of the group header at an index of the flattened tree, or the
/// empty name where the item is not a header.
pub open spec fn group_name_at(items: Seq<TreeItemV>, i: int) -> Seq<char> {
    match items[i] {
        TreeItemV::Group { name, .. } => name,
        TreeItemV::Unit { .. } => Seq::empty(),
    }
}

/// The index of the first unit item of the flattened tree.
pub open spec fn first_leaf_from(items: Seq<TreeItemV>, i: int) -> Option<int>
    decreases items.len() - i,
    when 0 <= i
{
    if i >= items.len() {
        None
    } else if items[i] is Unit {
        Some(i)
    } else {
        first_leaf_from(items, i + 1)
    }
}

impl UnitsContext {
    /// Flips between the flat list and the tree, resetting the cursor and
    /// the scroll; entering tree view rebuilds the tree.
    pub fn toggle_view_mode(&mut self)
        requires
            old(self).wf(),
        ensures
            final(self).wf(),
            final(self).view_mode == (if old(self).view_mode == ViewMode::List {
                ViewMode::Tree
            } else {
                ViewMode::List
            }),
            final(self).selected == 0usize,
            final(self).scroll_offset == 0usize,
            units_view(final(self).units@) == units_view(old(self).units@),
            units_view(final(self).filtered_units@) == units_view(old(self).filtered_units@),
            final(self).view_mode == ViewMode::List ==> items_view(final(self).tree_items@)
                == items_view(old(self).tree_items@) && names_view(final(self).collapsed_groups@)
                == names_view(old(self).collapsed_groups@),
            final(self).view_mode == ViewMode::Tree ==> names_view(final(self).collapsed_groups@)
                == seeded(
                names_view(old(self).collapsed_groups@),
                sorted_keys(units_view(old(self).filtered_units@)),
            !old(self).collapse_seeded,
            ) && items_view(final(self).tree_items@) == tree_of(
                units_view(old(self).filtered_units@),
                sorted_keys(units_view(old(self).filtered_units@)),
                names_view(final(self).collapsed_groups@),
            ),
            final(self).sort_by == old(self).sort_by,
            final(self).sort_ascending == old(self).sort_ascending,
            final(self).same_filter_ui(*old(self)),
            final(self).same_detail(*old(self)),
            final(self).same_status(*old(self)),
    {
        self.view_mode = match self.view_mode {
            ViewMode::List => ViewMode::Tree,
            ViewMode::Tree => ViewMode::List,
        };
        self.selected = 0;
        self.scroll_offset = 0;
        if self.view_mode == ViewMode::Tree {
            self.rebuild_tree_items();
        }
    }

    /// Flips the sort key between name and state and re-ranks.
    pub fn toggle_sort(&mut self)
        requires
            old(self).wf(),
        ensures
            final(self).wf(),
            final(self).sort_by == (if old(self).sort_by == SortBy::Name {
                SortBy::State
            } else {
                SortBy::Name
            }),
            final(self).sort_ascending == old(self).sort_ascending,
            units_view(final(self).filtered_units@) == rank_spec(
                units_view(old(self).units@),
                old(self).filter@,
                final(self).sort_by,
                old(self).sort_ascending,
            ),
            names_view(final(self).collapsed_groups@) == seeded(
                names_view(old(self).collapsed_groups@),
                sorted_keys(units_view(final(self).filtered_units@)),
            !old(self).collapse_seeded,
            ),
            items_view(final(self).tree_items@) == tree_of(
                units_view(final(self).filtered_units@),
                sorted_keys(units_view(final(self).filtered_units@)),
                names_view(final(self).collapsed_groups@),
            ),
            final(self).selected as int == clamped_sel(
                old(self).selected as int,
                final(self).total_spec(),
            ),
            final(self).scroll_offset == old(self).scroll_offset,
            final(self).view_mode == old(self).view_mode,
            units_view(final(self).units@) == units_view(old(self).units@),
            final(self).same_filter_ui(*old(self)),
            final(self).same_detail(*old(self)),
            final(self).same_status(*old(self)),
    {
        self.sort_by = match self.sort_by {
            SortBy::Name => SortBy::State,
            SortBy::State => SortBy::Name,
        };
        self.apply_filter_and_sort();
    }

    /// Flips the sort direction and re-ranks.
    pub fn toggle_sort_direction(&mut self)
        requires
            old(self).wf(),
        ensures
            final(self).wf(),
            final(self).sort_ascending == !old(self).sort_ascending,
            final(self).sort_by == old(self).sort_by,
            units_view(final(self).filtered_units@) == rank_spec(
                units_view(old(self).units@),
                old(self).filter@,
                old(self).sort_by,
                final(self).sort_ascending,
            ),
            names_view(final(self).collapsed_groups@) == seeded(
                names_view(old(self).collapsed_groups@),
                sorted_keys(units_view(final(self).filtered_units@)),
            !old(self).collapse_seeded,
            ),
            items_view(final(self).tree_items@) == tree_of(
                units_view(final(self).filtered_units@),
                sorted_keys(units_view(final(self).filtered_units@)),
                names_view(final(self).collapsed_groups@),
            ),
            final(self).selected as int == clamped_sel(
                old(self).selected as int,
                final(self).total_spec(),
            ),
            final(self).scroll_offset == old(self).scroll_offset,
            final(self).view_mode == old(self).view_mode,
            units_view(final(self).units@) == units_view(old(self).units@),
            final(self).same_filter_ui(*old(self)),
            final(self).same_detail(*old(self)),
            final(self).same_status(*old(self)),
    {
        self.sort_ascending = !self.sort_ascending;
        self.apply_filter_and_sort();
    }

    /// Flips the collapse state of the group header under the cursor and
    /// rebuilds the tree; does nothing in list view or on a unit row.
    pub fn toggle_current_group(&mut self)
        requires
            old(self).wf(),
        ensures
            final(self).wf(),
            !(old(self).view_mode == ViewMode::Tree && (old(self).selected as int) < old(self).tree_items@.len() && items_view(old(self).tree_items@)[old(self).selected as int]
                is Group) ==> *final(self) == *old(self),
            (old(self).view_mode == ViewMode::Tree && (old(self).selected as int) < old(self).tree_items@.len() && items_view(old(self).tree_items@)[old(self).selected as int]
                is Group) ==> ({
                let g = group_name_at(items_view(old(self).tree_items@), old(self).selected as int);
                let flipped = toggled(names_view(old(self).collapsed_groups@), g);
                &&& names_view(final(self).collapsed_groups@) == seeded(
                    flipped,
                    sorted_keys(units_view(old(self).filtered_units@)),
                !old(self).collapse_seeded,
                )
                &&& items_view(final(self).tree_items@) == tree_of(
                    units_view(old(self).filtered_units@),
                    sorted_keys(units_view(old(self).filtered_units@)),
                    names_view(final(self).collapsed_groups@),
                )
                &&& units_view(final(self).filtered_units@) == units_view(
                    old(self).filtered_units@,
                )
                &&& units_view(final(self).units@) == units_view(old(self).units@)
                &&& final(self).selected as int == clamped_sel(
                    old(self).selected as int,
                    final(self).total_spec(),
                )
                &&& final(self).scroll_offset == old(self).scroll_offset
                &&& final(self).view_mode == old(self).view_mode
                &&& final(self).sort_by == old(self).sort_by
                &&& final(self).sort_ascending == old(self).sort_ascending
                &&& final(self).same_filter_ui(*old(self))
                &&& final(self).same_detail(*old(self))
                &&& final(self).same_status(*old(self))
            }),
    {
        if !(matches!(self.view_mode, ViewMode::Tree)) {
            return ;
        }
        if self.selected >= self.tree_items.len() {
            return ;
        }
        let name = match &self.tree_items[self.selected] {
            TreeItem::Group { name, .. } => name.clone(),
            TreeItem::Unit { .. } => {
                return ;
            }
        };
        let present = crate::tree::names_contains(&self.collapsed_groups, name.as_str());
        proof {
            lemma_toggled_distinct(names_view(self.collapsed_groups@), name@);
        }
        let mut owned: Vec<String> = Vec::new();
        core::mem::swap(&mut owned, &mut self.collapsed_groups);
        if present {
            self.collapsed_groups = names_remove(owned, name.as_str());
        } else {
            owned.push(name);
            self.collapsed_groups = owned;
            proof {
                assert(names_view(self.collapsed_groups@) =~= toggled(
                    names_view(old(self).collapsed_groups@),
                    group_name_at(items_view(old(self).tree_items@), old(self).selected as int),
                ));
            }
        }
        self.rebuild_tree_items();
    }

    /// Clears the collapse set and rebuilds; with groups present the
    /// first-build heuristic immediately reseeds it.
    pub fn expand_all(&mut self)
        requires
            old(self).wf(),
        ensures
            final(self).wf(),
            names_view(final(self).collapsed_groups@) == seeded(
                Seq::empty(),
                sorted_keys(units_view(old(self).filtered_units@)),
            !old(self).collapse_seeded,
            ),
            items_view(final(self).tree_items@) == tree_of(
                units_view(old(self).filtered_units@),
                sorted_keys(units_view(old(self).filtered_units@)),
                names_view(final(self).collapsed_groups@),
            ),
            units_view(final(self).filtered_units@) == units_view(old(self).filtered_units@),
            units_view(final(self).units@) == units_view(old(self).units@),
            final(self).selected as int == clamped_sel(
                old(self).selected as int,
                final(self).total_spec(),
            ),
            final(self).scroll_offset == old(self).scroll_offset,
            final(self).view_mode == old(self).view_mode,
            final(self).sort_by == old(self).sort_by,
            final(self).sort_ascending == old(self).sort_ascending,
            final(self).same_filter_ui(*old(self)),
            final(self).same_detail(*old(self)),
            final(self).same_status(*old(self)),
    {
        self.collapsed_groups = Vec::new();
        proof {
            assert(names_view(self.collapsed_groups@) =~= Seq::<Seq<char>>::empty());
        }
        self.rebuild_tree_items();
    }

    /// Collapses every current group and rebuilds.
    pub fn collapse_all(&mut self)
        requires
            old(self).wf(),
        ensures
            final(self).wf(),
            names_view(final(self).collapsed_groups@) == sorted_keys(
                units_view(old(self).filtered_units@),
            ),
            items_view(final(self).tree_items@) == tree_of(
                units_view(old(self).filtered_units@),
                sorted_keys(units_view(old(self).filtered_units@)),
                names_view(final(self).collapsed_groups@),
            ),
            units_view(final(self).filtered_units@) == units_view(old(self).filtered_units@),
            units_view(final(self).units@) == units_view(old(self).units@),
            final(self).selected as int == clamped_sel(
                old(self).selected as int,
                final(self).total_spec(),
            ),
            final(self).scroll_offset == old(self).scroll_offset,
            final(self).view_mode == old(self).view_mode,
            final(self).sort_by == old(self).sort_by,
            final(self).sort_ascending == old(self).sort_ascending,
            final(self).same_filter_ui(*old(self)),
            final(self).same_detail(*old(self)),
            final(self).same_status(*old(self)),
    {
        self.collapsed_groups = crate::tree::collect_keys(&self.filtered_units);
        proof {
            lemma_sorted_keys_sorted(units_view(self.filtered_units@));
            lemma_sorted_distinct(names_view(self.collapsed_groups@));
        }
        self.rebuild_tree_items();
    }

    /// Places the cursor on the first unit row after a filter is applied:
    /// the top of the list, or the first non-header row of the tree.
    pub fn move_to_first_leaf_after_filter(&mut self)
        requires
            old(self).wf(),
        ensures
            final(self).wf(),
            final(self).scroll_offset == 0usize,
            old(self).view_mode == ViewMode::List ==> final(self).selected == 0usize,
            old(self).view_mode == ViewMode::Tree ==> final(self).selected as int == (
            match first_leaf_from(items_view(old(self).tree_items@), 0) {
                Some(i) => i,
                None => 0int,
            }),
            final(self).same_catalog(*old(self)),
            final(self).same_filter_ui(*old(self)),
            final(self).same_detail(*old(self)),
            final(self).same_status(*old(self)),
    {
        match self.view_mode {
            ViewMode::List => {
                self.selected = 0;
            }
            ViewMode::Tree => {
                let tl = self.tree_items.len();
                let mut i: usize = 0;
                let mut found: bool = false;
                while i < tl && !found
                    invariant
                        tl == self.tree_items@.len(),
                        i <= tl,
                        !found ==> first_leaf_from(items_view(self.tree_items@), 0)
                            == first_leaf_from(items_view(self.tree_items@), i as int),
                        found ==> first_leaf_from(items_view(self.tree_items@), 0) == Some(
                            i as int,
                        ),
                        found ==> i < tl,
                    decreases tl - i, (if found { 0int } else { 1int }),
                {
                    match &self.tree_items[i] {
                        TreeItem::Unit { .. } => {
                            proof {
                                assert(items_view(self.tree_items@)[i as int] is Unit);
                            }
                            found = true;
                        }
                        TreeItem::Group { .. } => {
                            proof {
                                assert(!(items_view(self.tree_items@)[i as int] is Unit));
                            }
                            i = i + 1;
                        }
                    }
                }
                if found {
                    self.selected = i;
                } else {
                    self.selected = 0;
                }
            }
        }
        self.scroll_offset = 0;
    }

    /// Opens the detail view on the unit under the cursor, clearing any
    /// workflow state and following the log tail; does nothing on a group
    /// header or an empty projection.  The shell supplies the unit's
    /// recent records through [`UnitsContext::set_detail_logs`].
    pub fn open_detail(&mut self)
        requires
            old(self).wf(),
        ensures
            final(self).wf(),
            ({
                let sel = match old(self).view_mode {
                    ViewMode::List => if (old(self).selected as int) < old(self).filtered_units@.len() {
                        Some(units_view(old(self).filtered_units@)[old(self).selected as int])
                    } else {
                        None
                    },
                    ViewMode::Tree => if (old(self).selected as int) < old(self).tree_items@.len()
                        && items_view(old(self).tree_items@)[old(self).selected as int] is Unit {
                        Some(
                            items_view(old(self).tree_items@)[old(self).selected as int]->Unit_unit,
                        )
                    } else {
                        None
                    },
                };
                match sel {
                    Some(u) => {
                        &&& opt_unit_view(final(self).detail_unit) == Some(u)
                        &&& final(self).detail_logs@.len() == 0
                        &&& final(self).confirm_action is None
                        &&& final(self).pending_action is None
                        &&& final(self).action_status is None
                        &&& final(self).detail_log_follow
                        &&& final(self).detail_log_scroll == usize::MAX
                        &&& final(self).same_catalog(*old(self))
                        &&& final(self).same_filter_ui(*old(self))
                        &&& final(self).same_status(*old(self))
                        &&& final(self).same_selection(*old(self))
                    },
                    None => *final(self) == *old(self),
                }
            }),
    {
        let u = match self.selected_unit() {
            Some(u) => Some(u.duplicate()),
            None => None,
        };
        match u {
            Some(u) => {
                self.detail_logs = Vec::new();
                self.detail_unit = Some(u);
                self.confirm_action = None;
                self.pending_action = None;
                self.action_status = None;
                self.detail_log_follow = true;
                self.detail_log_scroll = usize::MAX;
                proof {
                    assert(unit_logs_view(self.detail_logs@) =~= Seq::<UnitLogEntryV>::empty());
                }
            }
            None => {}
        }
    }

    /// Closes the detail view and discards any outstanding workflow state.
    pub fn close_detail(&mut self)
        requires
            old(self).wf(),
        ensures
            final(self).wf(),
            final(self).detail_unit is None,
            final(self).confirm_action is None,
            final(self).pending_action is None,
            final(self).detail_log_scroll == 0usize,
            final(self).detail_log_follow,
            unit_logs_view(final(self).detail_logs@) == unit_logs_view(old(self).detail_logs@),
            opt_string_view(final(self).action_status) == opt_string_view(old(self).action_status),
            final(self).same_catalog(*old(self)),
            final(self).same_filter_ui(*old(self)),
            final(self).same_status(*old(self)),
            final(self).same_selection(*old(self)),
    {
        self.detail_unit = None;
        self.confirm_action = None;
        self.pending_action = None;
        self.detail_log_scroll = 0;
        self.detail_log_follow = true;
    }

    /// Pins the detail log view to its newest record.
    pub fn scroll_to_bottom(&mut self)
        requires
            old(self).wf(),
        ensures
            final(self).wf(),
            final(self).detail_log_scroll == usize::MAX,
            final(self).same_catalog(*old(self)),
            final(self).same_filter_ui(*old(self)),
            final(self).same_status(*old(self)),
            final(self).same_selection(*old(self)),
            opt_unit_view(final(self).detail_unit) == opt_unit_view(old(self).detail_unit),
            unit_logs_view(final(self).detail_logs@) == unit_logs_view(old(self).detail_logs@),
            final(self).confirm_action == old(self).confirm_action,
            final(self).pending_action == old(self).pending_action,
            opt_string_view(final(self).action_status) == opt_string_view(old(self).action_status),
            final(self).detail_log_follow == old(self).detail_log_follow,
    {
        self.detail_log_scroll = usize::MAX;
    }

    /// Replaces the detail panel's records with a fresh read; when
    /// following, the view jumps to the newest record.
    pub fn set_detail_logs(&mut self, logs: Vec<UnitLogEntry>)
        requires
            old(self).wf(),
        ensures
            final(self).wf(),
            unit_logs_view(final(self).detail_logs@) == unit_logs_view(logs@),
            old(self).detail_log_follow ==> final(self).detail_log_scroll == usize::MAX,
            !old(self).detail_log_follow ==> final(self).detail_log_scroll == old(self).detail_log_scroll,
            final(self).detail_log_follow == old(self).detail_log_follow,
            final(self).same_catalog(*old(self)),
            final(self).same_filter_ui(*old(self)),
            final(self).same_status(*old(self)),
            final(self).same_selection(*old(self)),
            opt_unit_view(final(self).detail_unit) == opt_unit_view(old(self).detail_unit),
            final(self).confirm_action == old(self).confirm_action,
            final(self).pending_action == old(self).pending_action,
            opt_string_view(final(self).action_status) == opt_string_view(old(self).action_status),
    {
        self.detail_logs = logs;
        if self.detail_log_follow {
            self.detail_log_scroll = usize::MAX;
        }
    }

    /// Takes the armed action out of its single slot.  The slot is always
    /// cleared, so an action never executes twice; the action is handed
    /// out only while the detail view that armed it is still open.
    pub fn take_pending(&mut self) -> (r: Option<(UnitAction, String)>)
        requires
            old(self).wf(),
        ensures
            final(self).wf(),
            final(self).pending_action is None,
            (r is Some <==> old(self).pending_action is Some && old(self).detail_unit is Some),
            r is Some ==> r->Some_0.0 == old(self).pending_action->Some_0 && r->Some_0.1@
                == opt_unit_view(old(self).detail_unit)->Some_0.name,
            final(self).same_catalog(*old(self)),
            final(self).same_filter_ui(*old(self)),
            final(self).same_status(*old(self)),
            final(self).same_selection(*old(self)),
            opt_unit_view(final(self).detail_unit) == opt_unit_view(old(self).detail_unit),
            unit_logs_view(final(self).detail_logs@) == unit_logs_view(old(self).detail_logs@),
            final(self).confirm_action == old(self).confirm_action,
            opt_string_view(final(self).action_status) == opt_string_view(old(self).action_status),
            final(self).detail_log_scroll == old(self).detail_log_scroll,
            final(self).detail_log_follow == old(self).detail_log_follow,
    {
        let p = self.pending_action;
        self.pending_action = None;
        match p {
            Some(a) => match &self.detail_unit {
                Some(u) => Some((a, u.name.clone())),
                None => None,
            },
            None => None,
        }
    }

    /// Applies everything that follows a completed lifecycle call: the
    /// status line records the outcome verbatim, the snapshot result is
    /// applied as a refresh, and the reloaded detail records either follow
    /// to the newest entry or keep the old scroll clamped to the new
    /// length.
    pub fn finish_action(
        &mut self,
        action: UnitAction,
        unit_name: &str,
        call_result: Result<(), String>,
        list_result: Result<Vec<UnitInfo>, String>,
        logs: Vec<UnitLogEntry>,
    )
        requires
            old(self).wf(),
        ensures
            final(self).wf(),
            opt_string_view(final(self).action_status) == Some(
                action_label(action) + " "@ + unit_name@ + ": "@ + (match call_result {
                    Ok(u) => "OK"@,
                    Err(e) => e@,
                }),
            ),
            !final(self).loading,
            final(self).pending_action == old(self).pending_action,
            final(self).confirm_action == old(self).confirm_action,
            opt_unit_view(final(self).detail_unit) == opt_unit_view(old(self).detail_unit),
            final(self).detail_log_follow == old(self).detail_log_follow,
            final(self).view_mode == old(self).view_mode,
            final(self).sort_by == old(self).sort_by,
            final(self).sort_ascending == old(self).sort_ascending,
            final(self).scroll_offset == old(self).scroll_offset,
            final(self).same_filter_ui(*old(self)),
            (match list_result {
                Ok(units) => {
                    &&& units_view(final(self).units@) == units_view(units@)
                    &&& final(self).error is None
                    &&& units_view(final(self).filtered_units@) == rank_spec(
                        units_view(units@),
                        old(self).filter@,
                        old(self).sort_by,
                        old(self).sort_ascending,
                    )
                    &&& names_view(final(self).collapsed_groups@) == seeded(
                        names_view(old(self).collapsed_groups@),
                        sorted_keys(units_view(final(self).filtered_units@)),
                        !old(self).collapse_seeded,
                    )
                    &&& items_view(final(self).tree_items@) == tree_of(
                        units_view(final(self).filtered_units@),
                        sorted_keys(units_view(final(self).filtered_units@)),
                        names_view(final(self).collapsed_groups@),
                    )
                    &&& final(self).collapse_seeded == (old(self).collapse_seeded || final(self).filtered_units@.len() > 0)
                    &&& final(self).selected as int == clamped_sel(
                        old(self).selected as int,
                        final(self).total_spec(),
                    )
                },
                Err(e) => {
                    &&& opt_string_view(final(self).error) == Some("Failed to list units: "@ + e@)
                    &&& units_view(final(self).units@) == units_view(old(self).units@)
                    &&& units_view(final(self).filtered_units@) == units_view(
                        old(self).filtered_units@,
                    )
                    &&& items_view(final(self).tree_items@) == items_view(old(self).tree_items@)
                    &&& names_view(final(self).collapsed_groups@) == names_view(
                        old(self).collapsed_groups@,
                    )
                    &&& final(self).collapse_seeded == old(self).collapse_seeded
                    &&& final(self).selected == old(self).selected
                },
            }),
            unit_logs_view(final(self).detail_logs@) == unit_logs_view(logs@),
            old(self).detail_log_follow ==> final(self).detail_log_scroll == usize::MAX,
            !old(self).detail_log_follow ==> final(self).detail_log_scroll as int == ({
                let maxs = if logs@.len() > 10 {
                    logs@.len() - 10
                } else {
                    0int
                };
                if old(self).detail_log_scroll as int > maxs {
                    maxs
                } else {
                    old(self).detail_log_scroll as int
                }
            }),
    {
        let mut msg = action.label().to_owned();
        msg.append(" ");
        msg.append(unit_name);
        msg.append(": ");
        match &call_result {
            Ok(_) => {
                msg.append("OK");
            }
            Err(e) => {
                msg.append(e.as_str());
            }
        }
        proof {
            assert(msg@ =~= action_label(action) + " "@ + unit_name@ + ": "@ + (
            match call_result {
                Ok(u) => "OK"@,
                Err(e) => e@,
            }));
        }
        self.action_status = Some(msg);
        self.refresh(list_result);
        self.detail_logs = logs;
        if self.detail_log_follow {
            self.detail_log_scroll = usize::MAX;
        } else {
            let len = self.detail_logs.len();
            let maxs = if len > 10 {
                len - 10
            } else {
                0
            };
            if self.detail_log_scroll > maxs {
                self.detail_log_scroll = maxs;
            }
        }
    }
}

/// The verb of one lifecycle action.
pub open spec fn action_label(a: UnitAction) -> Seq<char> {
    match a {
        UnitAction::Start => "start"@,
        UnitAction::Stop => "stop"@,
        UnitAction::Enable => "enable"@,
        UnitAction::Disable => "disable"@,
    }
}




/// Where the cursor lands when the projection shrinks under it: clamped to
/// the last row, or zero for an empty projection.
pub open spec fn clamped_sel(pre_sel: int, total: int) -> int {
    if total > 0 {
        if pre_sel >= total {
            total - 1
        } else {
            pre_sel
        }
    } else {
        0
    }
}


/// Where the visible window starts so the cursor stays inside it: a
/// cursor above the window becomes the new top; one below pushes the
/// window just far enough that the cursor is the last visible row; a
/// cursor already inside leaves the window alone.
pub open spec fn window_start_spec(selected: int, offset: int, visible: int) -> int {
    if selected < offset {
        selected
    } else if visible > 0 && selected >= offset + visible {
        sat_sub(selected, visible - 1)
    } else {
        offset
    }
}

/// Recomputes the visible window's first row from the cursor and the row
/// count, moving it as little as possible.
pub fn window_start(selected: usize, offset: usize, visible: usize) -> (r: usize)
    ensures
        r as int == window_start_spec(selected as int, offset as int, visible as int),
{
    if selected < offset {
        selected
    } else if visible > 0 && offset <= usize::MAX - visible && selected >= offset + visible {
        saturating_sub(selected, visible - 1)
    } else {
        offset
    }
}

/// Saturating addition within the machine word.
pub open spec fn sat_add(a: int, b: int) -> int {
    if a + b > usize::MAX as int {
        usize::MAX as int
    } else {
        a + b
    }
}

/// Saturating subtraction, never below zero.
pub open spec fn sat_sub(a: int, b: int) -> int {
    if a >= b {
        a - b
    } else {
        0
    }
}

/// The confirm-then-execute state machine, reduced to its two slots: what
/// one key does to the outstanding confirmation and the armed action.
/// Only an affirmative answer to an outstanding confirmation ever arms an
/// action; every other key leaves the armed slot alone or clears it.
pub open spec fn workflow_step(
    detail_open: bool,
    confirm: Option<UnitAction>,
    pending: Option<UnitAction>,
    show_filter: bool,
    unit_selected: bool,
    key: Key,
) -> (Option<UnitAction>, Option<UnitAction>) {
    if detail_open {
        if confirm is Some {
            if key == Key::Char('y') || key == Key::Char('Y') {
                (None, confirm)
            } else if key == Key::Char('n') || key == Key::Char('N') || key == Key::Esc {
                (None, pending)
            } else {
                (confirm, pending)
            }
        } else {
            if key == Key::Esc || key == Key::Char('q') {
                (None, None)
            } else if key == Key::Char('s') {
                (Some(UnitAction::Start), pending)
            } else if key == Key::Char('x') {
                (Some(UnitAction::Stop), pending)
            } else if key == Key::Char('e') {
                (Some(UnitAction::Enable), pending)
            } else if key == Key::Char('d') {
                (Some(UnitAction::Disable), pending)
            } else {
                (confirm, pending)
            }
        }
    } else if show_filter {
        (confirm, pending)
    } else if key == Key::Enter && unit_selected {
        (None, None)
    } else {
        (confirm, pending)
    }
}

/// Between entering an outstanding confirmation and an affirmative answer
/// no action is ever armed: any key other than the affirmative ones leaves
/// the armed slot empty, so no lifecycle call can be issued by the next
/// tick.
pub proof fn lemma_no_call_without_confirmation(
    confirm: Option<UnitAction>,
    pending: Option<UnitAction>,
    show_filter: bool,
    unit_selected: bool,
    key: Key,
)
    requires
        confirm is Some,
        pending is None,
        key != Key::Char('y'),
        key != Key::Char('Y'),
    ensures
        workflow_step(true, confirm, pending, show_filter, unit_selected, key).1 is None,
{
}

impl UnitsContext {
    /// Whether the cursor rests on a unit row of the active projection.
    pub open spec fn unit_selected_spec(self) -> bool {
        match self.view_mode {
            ViewMode::List => (self.selected as int) < self.filtered_units@.len(),
            ViewMode::Tree => (self.selected as int) < self.tree_items@.len() && items_view(
                self.tree_items@,
            )[self.selected as int] is Unit,
        }
    }

    /// The unit the cursor rests on, where [`UnitsContext::unit_selected_spec`] holds.
    pub open spec fn selected_unit_spec(self) -> UnitInfoV {
        match self.view_mode {
            ViewMode::List => units_view(self.filtered_units@)[self.selected as int],
            ViewMode::Tree => items_view(self.tree_items@)[self.selected as int]->Unit_unit,
        }
    }

    /// The ranking, grouping and selection state an applied filter leaves
    /// behind, relative to the state before.
    pub open spec fn applied_from(self, pre: UnitsContext, filter: Seq<char>) -> bool {
        &&& units_view(self.filtered_units@) == rank_spec(
            units_view(pre.units@),
            filter,
            pre.sort_by,
            pre.sort_ascending,
        )
        &&& names_view(self.collapsed_groups@) == seeded(
            names_view(pre.collapsed_groups@),
            sorted_keys(units_view(self.filtered_units@)),
        !pre.collapse_seeded,
        )
        &&& items_view(self.tree_items@) == tree_of(
            units_view(self.filtered_units@),
            sorted_keys(units_view(self.filtered_units@)),
            names_view(self.collapsed_groups@),
        )
        &&& units_view(self.units@) == units_view(pre.units@)
        &&& self.view_mode == pre.view_mode
        &&& self.sort_by == pre.sort_by
        &&& self.sort_ascending == pre.sort_ascending
    }

    fn handle_detail_key(&mut self, key: Key) -> (r: Option<String>)
        requires
            old(self).wf(),
            old(self).detail_unit is Some,
        ensures
            final(self).wf(),
            (final(self).confirm_action, final(self).pending_action) == workflow_step(
                true,
                old(self).confirm_action,
                old(self).pending_action,
                old(self).show_filter,
                old(self).unit_selected_spec(),
                key,
            ),
            old(self).confirm_action is Some ==> r is None && final(self).same_catalog(*old(self))
                && final(self).same_filter_ui(*old(self)) && final(self).same_status(*old(self))
                && final(self).same_selection(*old(self)) && opt_unit_view(final(self).detail_unit)
                == opt_unit_view(old(self).detail_unit) && unit_logs_view(final(self).detail_logs@)
                == unit_logs_view(old(self).detail_logs@) && final(self).detail_log_scroll == old(self).detail_log_scroll && final(self).detail_log_follow == old(self).detail_log_follow
                && opt_string_view(final(self).action_status) == opt_string_view(
                old(self).action_status,
            ),
            old(self).confirm_action is None ==> {
                &&& final(self).same_catalog(*old(self))
                &&& final(self).same_filter_ui(*old(self))
                &&& final(self).same_status(*old(self))
                &&& final(self).same_selection(*old(self))
                &&& unit_logs_view(final(self).detail_logs@) == unit_logs_view(
                    old(self).detail_logs@,
                )
                &&& (r is Some <==> key == Key::Char('r'))
                &&& (key == Key::Char('r') ==> r->Some_0@ == opt_unit_view(
                    old(self).detail_unit,
                )->Some_0.name)
                &&& ((key == Key::Esc || key == Key::Char('q')) ==> final(self).detail_unit is None
                    && final(self).detail_log_scroll == 0 && final(self).detail_log_follow)
                &&& (!(key == Key::Esc || key == Key::Char('q')) ==> opt_unit_view(
                    final(self).detail_unit,
                ) == opt_unit_view(old(self).detail_unit))
                &&& ((key == Key::Char('j') || key == Key::Down) ==> final(self).detail_log_scroll as int == sat_add(old(self).detail_log_scroll as int, 1)
                    && !final(self).detail_log_follow)
                &&& ((key == Key::Char('k') || key == Key::Up) ==> final(self).detail_log_scroll as int == sat_sub(old(self).detail_log_scroll as int, 1)
                    && !final(self).detail_log_follow)
                &&& ((key == Key::PageDown || key == Key::Char(' ')) ==> final(self).detail_log_scroll as int == sat_add(old(self).detail_log_scroll as int, 10)
                    && !final(self).detail_log_follow)
                &&& ((key == Key::PageUp || key == Key::Char('b')) ==> final(self).detail_log_scroll as int == sat_sub(old(self).detail_log_scroll as int, 10)
                    && !final(self).detail_log_follow)
                &&& (key == Key::Char('f') ==> final(self).detail_log_follow == !old(self).detail_log_follow && (final(self).detail_log_follow ==> final(self).detail_log_scroll == usize::MAX) && (!final(self).detail_log_follow ==> final(self).detail_log_scroll == old(self).detail_log_scroll))
                &&& (key == Key::Char('G') ==> final(self).detail_log_scroll == usize::MAX
                    && final(self).detail_log_follow)
                &&& (key == Key::Char('g') ==> final(self).detail_log_scroll == 0 && !final(self).detail_log_follow)
                &&& (!(key == Key::Esc || key == Key::Char('q') || key == Key::Char('j') || key
                    == Key::Down || key == Key::Char('k') || key == Key::Up || key == Key::PageDown
                    || key == Key::Char(' ') || key == Key::PageUp || key == Key::Char('b') || key
                    == Key::Char('f') || key == Key::Char('G') || key == Key::Char('g')) ==> final(self).detail_log_scroll == old(self).detail_log_scroll && final(self).detail_log_follow == old(self).detail_log_follow)
                &&& opt_string_view(final(self).action_status) == opt_string_view(
                    old(self).action_status,
                )
            },
    {
        if self.confirm_action.is_some() {
            if key == Key::Char('y') || key == Key::Char('Y') {
                self.pending_action = self.confirm_action;
                self.confirm_action = None;
            } else if key == Key::Char('n') || key == Key::Char('N') || key == Key::Esc {
                self.confirm_action = None;
            }
            return None;
        }
        match key {
            Key::Esc => {
                self.close_detail();
                None
            }
            Key::Char(c) => {
                if c == 'q' {
                    self.close_detail();
                    None
                } else if c == 'r' {
                    let name = match &self.detail_unit {
                        Some(u) => u.name.clone(),
                        None => String::new(),
                    };
                    Some(name)
                } else if c == 'j' {
                    self.detail_log_scroll = saturating_add(self.detail_log_scroll, 1);
                    self.detail_log_follow = false;
                    None
                } else if c == 'k' {
                    self.detail_log_scroll = saturating_sub(self.detail_log_scroll, 1);
                    self.detail_log_follow = false;
                    None
                } else if c == ' ' {
                    self.detail_log_scroll = saturating_add(self.detail_log_scroll, 10);
                    self.detail_log_follow = false;
                    None
                } else if c == 'b' {
                    self.detail_log_scroll = saturating_sub(self.detail_log_scroll, 10);
                    self.detail_log_follow = false;
                    None
                } else if c == 'f' {
                    self.detail_log_follow = !self.detail_log_follow;
                    if self.detail_log_follow {
                        self.detail_log_scroll = usize::MAX;
                    }
                    None
                } else if c == 'G' {
                    self.detail_log_scroll = usize::MAX;
                    self.detail_log_follow = true;
                    None
                } else if c == 'g' {
                    self.detail_log_scroll = 0;
                    self.detail_log_follow = false;
                    None
                } else if c == 's' {
                    self.confirm_action = Some(UnitAction::Start);
                    None
                } else if c == 'x' {
                    self.confirm_action = Some(UnitAction::Stop);
                    None
                } else if c == 'e' {
                    self.confirm_action = Some(UnitAction::Enable);
                    None
                } else if c == 'd' {
                    self.confirm_action = Some(UnitAction::Disable);
                    None
                } else {
                    None
                }
            }
            Key::Down => {
                self.detail_log_scroll = saturating_add(self.detail_log_scroll, 1);
                self.detail_log_follow = false;
                None
            }
            Key::Up => {
                self.detail_log_scroll = saturating_sub(self.detail_log_scroll, 1);
                self.detail_log_follow = false;
                None
            }
            Key::PageDown => {
                self.detail_log_scroll = saturating_add(self.detail_log_scroll, 10);
                self.detail_log_follow = false;
                None
            }
            Key::PageUp => {
                self.detail_log_scroll = saturating_sub(self.detail_log_scroll, 10);
                self.detail_log_follow = false;
                None
            }
            _ => None,
        }
    }

    fn handle_filter_key(&mut self, key: Key)
        requires
            old(self).wf(),
            old(self).detail_unit is None,
            old(self).show_filter,
        ensures
            final(self).wf(),
            final(self).same_detail(*old(self)),
            final(self).same_status(*old(self)),
            (key == Key::Esc ==> !final(self).show_filter && final(self).filter_backup is None && (
            match old(self).filter_backup {
                Some(previous) => final(self).filter@ == previous@ && final(self).applied_from(
                    *old(self),
                    previous@,
                ) && final(self).selected as int == clamped_sel(
                    old(self).selected as int,
                    final(self).total_spec(),
                ) && final(self).scroll_offset == old(self).scroll_offset,
                None => final(self).filter@ == old(self).filter@ && final(self).same_catalog(
                    *old(self),
                ) && final(self).same_selection(*old(self)),
            })),
            (key == Key::Enter ==> !final(self).show_filter && final(self).filter_backup is None
                && final(self).filter@ == old(self).filter@ && final(self).same_catalog(
                *old(self),
            ) && final(self).scroll_offset == 0 && (old(self).view_mode == ViewMode::List ==> final(self).selected == 0) && (old(self).view_mode == ViewMode::Tree ==> final(self).selected as int == (match first_leaf_from(items_view(old(self).tree_items@), 0) {
                Some(i) => i,
                None => 0int,
            }))),
            (key matches Key::Char(c) ==> final(self).show_filter && final(self).filter@ == old(self).filter@.push(c) && opt_chars_view(final(self).filter_backup) == opt_chars_view(
                    old(self).filter_backup,
                ) && final(self).applied_from(*old(self), final(self).filter@) && final(self).selected as int == clamped_sel(
                    old(self).selected as int,
                    final(self).total_spec(),
                ) && final(self).scroll_offset == old(self).scroll_offset),
            (key == Key::Backspace ==> final(self).show_filter && final(self).filter@ == (if old(self).filter@.len() > 0 {
                old(self).filter@.drop_last()
            } else {
                old(self).filter@
            }) && opt_chars_view(final(self).filter_backup) == opt_chars_view(
                old(self).filter_backup,
            ) && final(self).applied_from(*old(self), final(self).filter@) && final(self).selected as int == clamped_sel(
                old(self).selected as int,
                final(self).total_spec(),
            ) && final(self).scroll_offset == old(self).scroll_offset),
            (!(key == Key::Esc || key == Key::Enter || key is Char || key == Key::Backspace)
                ==> *final(self) == *old(self)),
    {
        match key {
            Key::Esc => {
                self.show_filter = false;
                let mut previous: Option<Vec<char>> = None;
                core::mem::swap(&mut previous, &mut self.filter_backup);
                match previous {
                    Some(previous) => {
                        self.filter = previous;
                        self.apply_filter_and_sort();
                    }
                    None => {}
                }
            }
            Key::Enter => {
                self.show_filter = false;
                self.filter_backup = None;
                self.move_to_first_leaf_after_filter();
            }
            Key::Char(c) => {
                self.filter.push(c);
                self.apply_filter_and_sort();
            }
            Key::Backspace => {
                if self.filter.len() > 0 {
                    let ghost pre = self.filter@;
                    self.filter.pop();
                    proof {
                        assert(self.filter@ =~= pre.drop_last());
                    }
                }
                self.apply_filter_and_sort();
            }
            _ => {}
        }
    }
}

fn saturating_add(a: usize, b: usize) -> (r: usize)
    ensures
        r as int == sat_add(a as int, b as int),
{
    if a > usize::MAX - b {
        usize::MAX
    } else {
        a + b
    }
}

fn saturating_sub(a: usize, b: usize) -> (r: usize)
    ensures
        r as int == sat_sub(a as int, b as int),
{
    if a >= b {
        a - b
    } else {
        0
    }
}



impl UnitsContext {
    /// Routes one key to the active mode: the confirmation dialogue or the
    /// detail panel while one is open, the filter-entry line while it is
    /// shown, the catalog otherwise.  Returns the name of the unit whose
    /// recent records the shell should now read (a detail reload or a
    /// freshly opened detail view), if any.
    #[verifier::rlimit(100)]
    pub fn handle_key(&mut self, key: Key) -> (r: Option<String>)
        requires
            old(self).wf(),
        ensures
            final(self).wf(),
            (final(self).confirm_action, final(self).pending_action) == workflow_step(
                old(self).detail_unit is Some,
                old(self).confirm_action,
                old(self).pending_action,
                old(self).show_filter,
                old(self).unit_selected_spec(),
                key,
            ),
            (r is Some <==> ((old(self).detail_unit is Some && old(self).confirm_action is None
                && key == Key::Char('r')) || (old(self).detail_unit is None && !old(self).show_filter && key == Key::Enter && old(self).unit_selected_spec()))),
            old(self).detail_unit is Some ==> final(self).same_catalog(*old(self)) && final(self).same_filter_ui(*old(self)) && final(self).same_status(*old(self)) && final(self).same_selection(*old(self)) && unit_logs_view(final(self).detail_logs@)
                == unit_logs_view(old(self).detail_logs@) && opt_string_view(
                final(self).action_status,
            ) == opt_string_view(old(self).action_status),
            (old(self).detail_unit is Some && old(self).confirm_action is Some) ==> final(self).same_detail_panel(*old(self)),
            (old(self).detail_unit is Some && old(self).confirm_action is None) ==> {
                &&& (key == Key::Char('r') ==> r->Some_0@ == opt_unit_view(
                    old(self).detail_unit,
                )->Some_0.name && final(self).same_detail_panel(*old(self)))
                &&& ((key == Key::Esc || key == Key::Char('q')) ==> final(self).detail_unit is None
                    && final(self).detail_log_scroll == 0 && final(self).detail_log_follow)
                &&& (!(key == Key::Esc || key == Key::Char('q')) ==> opt_unit_view(
                    final(self).detail_unit,
                ) == opt_unit_view(old(self).detail_unit))
                &&& ((key == Key::Char('j') || key == Key::Down) ==> final(self).detail_log_scroll as int == sat_add(old(self).detail_log_scroll as int, 1)
                    && !final(self).detail_log_follow)
                &&& ((key == Key::Char('k') || key == Key::Up) ==> final(self).detail_log_scroll as int == sat_sub(old(self).detail_log_scroll as int, 1)
                    && !final(self).detail_log_follow)
                &&& ((key == Key::PageDown || key == Key::Char(' ')) ==> final(self).detail_log_scroll as int == sat_add(old(self).detail_log_scroll as int, 10)
                    && !final(self).detail_log_follow)
                &&& ((key == Key::PageUp || key == Key::Char('b')) ==> final(self).detail_log_scroll as int == sat_sub(old(self).detail_log_scroll as int, 10)
                    && !final(self).detail_log_follow)
                &&& (key == Key::Char('f') ==> final(self).detail_log_follow == !old(self).detail_log_follow && (final(self).detail_log_follow ==> final(self).detail_log_scroll == usize::MAX))
                &&& (key == Key::Char('G') ==> final(self).detail_log_scroll == usize::MAX
                    && final(self).detail_log_follow)
                &&& (key == Key::Char('g') ==> final(self).detail_log_scroll == 0 && !final(self).detail_log_follow)
            },
            (old(self).detail_unit is None && old(self).show_filter) ==> final(self).same_detail(
                *old(self),
            ) && final(self).same_status(*old(self)),
            (old(self).detail_unit is None && old(self).show_filter && key == Key::Esc) ==> !final(self).show_filter && final(self).filter_backup is None && (match old(self).filter_backup {
                Some(previous) => final(self).filter@ == previous@ && final(self).applied_from(
                    *old(self),
                    previous@,
                ) && final(self).selected as int == clamped_sel(
                    old(self).selected as int,
                    final(self).total_spec(),
                ),
                None => final(self).filter@ == old(self).filter@ && final(self).same_catalog(
                    *old(self),
                ) && final(self).same_selection(*old(self)),
            }),
            (old(self).detail_unit is None && old(self).show_filter && key == Key::Enter) ==> !final(self).show_filter && final(self).filter_backup is None && final(self).filter@ == old(self).filter@ && final(self).same_catalog(*old(self)) && final(self).scroll_offset == 0,
            (old(self).detail_unit is None && old(self).show_filter && key is Char) ==> (key
                matches Key::Char(c) ==> final(self).show_filter && final(self).filter@ == old(self).filter@.push(c) && final(self).applied_from(*old(self), final(self).filter@)),
            (old(self).detail_unit is None && old(self).show_filter && key == Key::Backspace) ==> final(self).show_filter && final(self).filter@ == (
            if old(self).filter@.len() > 0 {
                old(self).filter@.drop_last()
            } else {
                old(self).filter@
            }) && final(self).applied_from(*old(self), final(self).filter@),
            (old(self).detail_unit is None && !old(self).show_filter) ==> final(self).same_status(*old(self)) && {
                &&& ((key == Key::Char('j') || key == Key::Down) ==> final(self).selected as int == (if old(self).selected + 1 < old(self).total_spec() {
                    old(self).selected + 1
                } else {
                    old(self).selected as int
                }) && unchanged_but_selected(*old(self), *final(self)))
                &&& ((key == Key::Char('k') || key == Key::Up) ==> final(self).selected as int == (
                if old(self).selected > 0 {
                    old(self).selected - 1
                } else {
                    0int
                }) && unchanged_but_selected(*old(self), *final(self)))
                &&& (key == Key::Char('g') ==> final(self).selected == 0 && unchanged_but_selected(
                    *old(self),
                    *final(self),
                ))
                &&& (key == Key::Char('G') ==> (old(self).total_spec() > 0 ==> final(self).selected as int == old(self).total_spec() - 1) && unchanged_but_selected(
                    *old(self),
                    *final(self),
                ))
                &&& ((key == Key::Char(' ') || key == Key::PageDown) ==> final(self).selected as int == ({
                    let len1 = if old(self).total_spec() > 0 {
                        old(self).total_spec() - 1
                    } else {
                        0int
                    };
                    if old(self).selected + 10 <= len1 {
                        old(self).selected + 10
                    } else {
                        len1
                    }
                }) && unchanged_but_selected(*old(self), *final(self)))
                &&& ((key == Key::Char('b') || key == Key::PageUp) ==> final(self).selected as int == sat_sub(old(self).selected as int, 10)
                    && unchanged_but_selected(*old(self), *final(self)))
                &&& (key == Key::Char('/') ==> final(self).show_filter && opt_chars_view(
                    final(self).filter_backup,
                ) == Some(old(self).filter@) && final(self).filter@ == old(self).filter@ && final(self).same_catalog(*old(self)) && final(self).same_detail(*old(self)) && final(self).same_selection(*old(self)))
                &&& (key == Key::Char('t') ==> final(self).view_mode == (if old(self).view_mode
                    == ViewMode::List {
                    ViewMode::Tree
                } else {
                    ViewMode::List
                }) && final(self).selected == 0 && final(self).scroll_offset == 0)
                &&& (key == Key::Char('s') ==> final(self).sort_by == (if old(self).sort_by
                    == SortBy::Name {
                    SortBy::State
                } else {
                    SortBy::Name
                }) && units_view(final(self).filtered_units@) == rank_spec(
                    units_view(old(self).units@),
                    old(self).filter@,
                    final(self).sort_by,
                    old(self).sort_ascending,
                ))
                &&& (key == Key::Char('S') ==> final(self).sort_ascending == !old(self).sort_ascending && units_view(final(self).filtered_units@) == rank_spec(
                    units_view(old(self).units@),
                    old(self).filter@,
                    old(self).sort_by,
                    final(self).sort_ascending,
                ))
                &&& ((key == Key::Enter && old(self).unit_selected_spec()) ==> opt_unit_view(
                    final(self).detail_unit,
                ) == Some(old(self).selected_unit_spec()) && r->Some_0@ == old(self).selected_unit_spec().name && final(self).detail_logs@.len() == 0 && final(self).detail_log_follow && final(self).detail_log_scroll == usize::MAX && final(self).same_catalog(*old(self)) && final(self).same_selection(*old(self)))
                &&& ((key == Key::Enter && !old(self).unit_selected_spec() && old(self).view_mode
                    == ViewMode::Tree && (old(self).selected as int) < old(self).tree_items@.len()
                    && items_view(old(self).tree_items@)[old(self).selected as int] is Group)
                    ==> ({
                    let g = group_name_at(
                        items_view(old(self).tree_items@),
                        old(self).selected as int,
                    );
                    let flipped = toggled(names_view(old(self).collapsed_groups@), g);
                    &&& names_view(final(self).collapsed_groups@) == seeded(
                        flipped,
                        sorted_keys(units_view(old(self).filtered_units@)),
                    !old(self).collapse_seeded,
                    )
                    &&& items_view(final(self).tree_items@) == tree_of(
                        units_view(old(self).filtered_units@),
                        sorted_keys(units_view(old(self).filtered_units@)),
                        names_view(final(self).collapsed_groups@),
                    )
                }))
                &&& (key == Key::Char('e') ==> names_view(final(self).collapsed_groups@) == seeded(
                    Seq::empty(),
                    sorted_keys(units_view(old(self).filtered_units@)),
                !old(self).collapse_seeded,
                ) && items_view(final(self).tree_items@) == tree_of(
                    units_view(old(self).filtered_units@),
                    sorted_keys(units_view(old(self).filtered_units@)),
                    names_view(final(self).collapsed_groups@),
                ))
                &&& (key == Key::Char('c') ==> names_view(final(self).collapsed_groups@)
                    == sorted_keys(units_view(old(self).filtered_units@)) && items_view(
                    final(self).tree_items@,
                ) == tree_of(
                    units_view(old(self).filtered_units@),
                    sorted_keys(units_view(old(self).filtered_units@)),
                    names_view(final(self).collapsed_groups@),
                ))
                &&& (key == Key::Esc ==> (if old(self).filter@.len() > 0 {
                    final(self).filter@.len() == 0 && final(self).applied_from(
                        *old(self),
                        Seq::empty(),
                    )
                } else {
                    *final(self) == *old(self)
                }))
                &&& (!(key is Char || key == Key::Up || key == Key::Down || key == Key::PageUp
                    || key == Key::PageDown || key == Key::Enter || key == Key::Esc) ==> *final(self) == *old(self))
            },
    {
        if self.detail_unit.is_some() {
            return self.handle_detail_key(key);
        }
        if self.show_filter {
            self.handle_filter_key(key);
            return None;
        }
        match key {
            Key::Down => {
                self.move_down();
                None
            }
            Key::Up => {
                self.move_up();
                None
            }
            Key::PageDown => {
                self.page_down(10);
                None
            }
            Key::PageUp => {
                self.page_up(10);
                None
            }
            Key::Enter => {
                let name = match self.selected_unit() {
                    Some(u) => Some(u.name.clone()),
                    None => None,
                };
                match name {
                    Some(name) => {
                        self.open_detail();
                        Some(name)
                    }
                    None => {
                        self.toggle_current_group();
                        None
                    }
                }
            }
            Key::Esc => {
                if self.filter.len() > 0 {
                    self.filter = Vec::new();
                    proof {
                        assert(self.filter@ =~= Seq::<char>::empty());
                    }
                    self.apply_filter_and_sort();
                }
                None
            }
            Key::Char(c) => {
                if c == 'j' {
                    self.move_down();
                } else if c == 'k' {
                    self.move_up();
                } else if c == 'g' {
                    self.go_top();
                } else if c == 'G' {
                    self.go_bottom();
                } else if c == ' ' {
                    self.page_down(10);
                } else if c == 'b' {
                    self.page_up(10);
                } else if c == '/' {
                    self.filter_backup = Some(self.filter.clone());
                    self.show_filter = true;
                } else if c == 't' {
                    self.toggle_view_mode();
                } else if c == 's' {
                    self.toggle_sort();
                } else if c == 'S' {
                    self.toggle_sort_direction();
                } else if c == 'e' {
                    self.expand_all();
                } else if c == 'c' {
                    self.collapse_all();
                }
                None
            }
            Key::Backspace => None,
        }
    }

    /// The detail panel shows the same unit, records, scroll and follow
    /// state.
    pub open spec fn same_detail_panel(self, other: UnitsContext) -> bool {
        &&& opt_unit_view(self.detail_unit) == opt_unit_view(other.detail_unit)
        &&& unit_logs_view(self.detail_logs@) == unit_logs_view(other.detail_logs@)
        &&& self.detail_log_scroll == other.detail_log_scroll
        &&& self.detail_log_follow == other.detail_log_follow
    }
}


} // verus!
