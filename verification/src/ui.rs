pub mod format;
pub mod laws;
pub mod listing;
pub mod theme;

use vstd::prelude::*;
use crate::backend::{variant_name, Platform};
use crate::config::Config;
use crate::scanner::{
    arrange, as_ints, filter_positions, lemma_matching_positions, lemma_matching_positions_bounded,
    lemma_sort_is_permutation, matching, matching_positions, sort_order, sort_spec, sorted_order,
    Entry, SortField, SortOrder,
};
use crate::system::{string_texts, DiskUsage};
use crate::text::{chars_of, decimal, pop_char, push_char, push_decimal, push_str, str_eq};
use crate::ui::format::{format_bytes, format_bytes_spec};
use crate::ui::theme::{position_in, theme_for, theme_from_name, theme_name_at, theme_names, theme_position, Theme, THEME_COUNT};

verus! {

/// What the keys do: browse the list, type a search, or read the details of
/// an entry.
#[derive(Debug, Clone, Copy, PartialEq, Eq, Structural)]
pub enum AppMode {
    List,
    Search,
    Detail,
}

/// A key the view reacts to.
#[derive(Debug, Clone, Copy, PartialEq, Eq, Structural)]
pub enum Key {
    Char(char),
    Esc,
    Enter,
    Backspace,
    Up,
    Down,
    Left,
    Right,
    PageUp,
    PageDown,
    Home,
    End,
    Other,
}

/// A mouse event the view reacts to.
#[derive(Debug, Clone, Copy, PartialEq, Eq, Structural)]
pub enum MouseKind {
    LeftDown,
    ScrollUp,
    ScrollDown,
    Other,
}

/// What the program must do once the view has changed its state.
#[derive(Debug, Clone, Copy, PartialEq, Eq, Structural)]
pub enum UiAction {
    /// Nothing more.
    Nothing,
    /// Scan the directory the view shows, and hand the result to `finish_scan`.
    Rescan,
    /// Find the parent of the directory the view scans, and hand it to `ascend`.
    ResolveParent,
    /// Store the view's theme name in the configuration file.
    SaveTheme,
    /// The step asked for would overflow an integer: the program stops there.
    Overflow,
}

/// The state of the interactive view.
pub struct AppUi {
    pub platform: Platform,
    pub config: Config,
    /// The directory shown.
    pub root: Entry,
    /// The directory that was scanned last from the top.
    pub scan_path: String,
    /// The names of the directories entered below `scan_path`.
    pub current_stack: Vec<String>,
    /// The positions in `root.children` of the entries listed, in list order.
    pub current_entries: Vec<usize>,
    pub should_quit: bool,
    /// The row selected in the list.
    pub selected: Option<usize>,
    pub sort_field: SortField,
    pub sort_order: SortOrder,
    pub search_query: String,
    pub mode: AppMode,
    pub theme: Theme,
    pub theme_name: String,
    /// Milliseconds between refreshes.
    pub refresh_rate: u64,
    pub detail_scroll: u16,
    pub pressed_button: Option<usize>,
    /// When the disks were read last, in nanoseconds.
    pub last_tick: u64,
    /// A message, and the time in nanoseconds until which it is shown.
    pub notification: Option<(String, u64)>,
    /// Where the columns of the list begin on screen, and where the last ends.
    pub col_starts: Vec<u16>,
    pub scanning: bool,
    pub disks: Vec<DiskUsage>,
    /// The time in nanoseconds, row and column of the last click on a row.
    pub last_click: Option<(u64, u16, u16)>,
}

/// The sort key that a settings value names; size for any other value.
pub open spec fn field_named(s: Seq<char>) -> SortField {
    if s == "name"@ {
        SortField::Name
    } else if s == "count"@ {
        SortField::Count
    } else {
        SortField::Size
    }
}

/// The direction that a settings value names; descending for any other value.
pub open spec fn order_named(s: Seq<char>) -> SortOrder {
    if s == "asc"@ {
        SortOrder::Asc
    } else {
        SortOrder::Desc
    }
}

/// The positions of the children of `root` that the list shows: sorted by
/// `field` in direction `order`, then those that pass `query`.
pub open spec fn shown_order(root: Entry, field: SortField, order: SortOrder, query: Seq<char>) -> Seq<int> {
    matching_positions(root.children@, sorted_order(root.children@, field, order), query)
}

/// The selection kept within a list of `len` rows: none for an empty list,
/// the last row for one past the end.
pub open spec fn clamp_selection(sel: Option<usize>, len: nat) -> Option<usize> {
    match sel {
        Some(s) => if len == 0 {
            None
        } else if s >= len {
            Some((len - 1) as usize)
        } else {
            Some(s)
        },
        None => None,
    }
}

/// `len - 1`, or 0 for an empty list.
pub open spec fn last_row(len: nat) -> usize {
    if len == 0 {
        0
    } else {
        (len - 1) as usize
    }
}

/// The row above the selection, wrapping from the top to the bottom.
pub open spec fn prev_row(sel: Option<usize>, len: nat) -> usize {
    let i = match sel {
        Some(i) => i,
        None => 0,
    };
    if i == 0 {
        last_row(len)
    } else {
        (i - 1) as usize
    }
}

/// The row below the selection, wrapping from the bottom to the top.
pub open spec fn next_row(sel: Option<usize>, len: nat) -> usize {
    let i = match sel {
        Some(i) => i,
        None => 0,
    };
    if i >= last_row(len) {
        0
    } else {
        (i + 1) as usize
    }
}

/// The selection after moving up `k` times.
pub open spec fn prev_times(sel: Option<usize>, len: nat, k: nat) -> Option<usize>
    decreases k,
{
    if k == 0 {
        sel
    } else {
        Some(prev_row(prev_times(sel, len, (k - 1) as nat), len))
    }
}

/// The selection after moving down `k` times.
pub open spec fn next_times(sel: Option<usize>, len: nat, k: nat) -> Option<usize>
    decreases k,
{
    if k == 0 {
        sel
    } else {
        Some(next_row(next_times(sel, len, (k - 1) as nat), len))
    }
}

/// The sort key that follows `f` in the cycle size, name, count.
pub open spec fn next_field(f: SortField) -> SortField {
    match f {
        SortField::Size => SortField::Name,
        SortField::Name => SortField::Count,
        SortField::Count => SortField::Size,
    }
}

/// The other direction.
pub open spec fn flipped(o: SortOrder) -> SortOrder {
    match o {
        SortOrder::Asc => SortOrder::Desc,
        SortOrder::Desc => SortOrder::Asc,
    }
}

impl AppUi {
    /// Every listed position is a position of a child of `root`.
    pub open spec fn wf(&self) -> bool {
        forall|k: int| 0 <= k < self.current_entries@.len() ==> #[trigger] self.current_entries@[k] < self.root.children@.len()
    }

    /// The entries listed, in list order.
    pub open spec fn shown_entries(&self) -> Seq<Entry> {
        arrange(self.root.children@, as_ints(self.current_entries@))
    }

    /// The position in `root.children` of the selected entry, if the selection
    /// is a row of the list.
    pub open spec fn selected_position(&self) -> Option<int> {
        match self.selected {
            Some(i) => if i < self.current_entries@.len() {
                Some(self.current_entries@[i as int] as int)
            } else {
                None
            },
            None => None,
        }
    }
}

/// `n` lists the entries of `o`'s directory anew for `o`'s sort key,
/// direction and query, and keeps everything else of `o`.
pub open spec fn resorted(o: AppUi, n: AppUi) -> bool {
    &&& as_ints(n.current_entries@) == shown_order(o.root, o.sort_field, o.sort_order, o.search_query@)
    &&& n == AppUi { current_entries: n.current_entries, ..o }
}

/// As `resorted`, and the selection is kept within the new list.
pub open spec fn refreshed(o: AppUi, n: AppUi) -> bool {
    &&& as_ints(n.current_entries@) == shown_order(o.root, o.sort_field, o.sort_order, o.search_query@)
    &&& n.selected == clamp_selection(o.selected, n.current_entries@.len())
    &&& n == AppUi { current_entries: n.current_entries, selected: n.selected, ..o }
}

/// Listing anew shows the children of the directory sorted by the view's
/// key and direction, then filtered by its query.
pub proof fn lemma_listing(ui: AppUi)
    requires
        as_ints(ui.current_entries@) == shown_order(ui.root, ui.sort_field, ui.sort_order, ui.search_query@),
    ensures
        ui.shown_entries() == matching(
            sort_spec(ui.root.children@, ui.sort_field, ui.sort_order),
            ui.search_query@,
        ),
{
    lemma_matching_positions(
        ui.root.children@,
        sorted_order(ui.root.children@, ui.sort_field, ui.sort_order),
        ui.search_query@,
    );
}

impl AppUi {
    /// The view before its first scan: nothing listed yet, and sort key,
    /// direction and theme as the configuration names them.
    pub fn new(platform: Platform, config: &Config, refresh_rate: u64) -> (ui: AppUi)
        ensures
            ui.wf(),
            ui.platform == platform,
            ui.config == *config,
            ui.theme_name@ == config.settings.theme@,
            ui.theme == theme_for(config.settings.theme@),
            ui.sort_field == field_named(config.settings.sort_by@),
            ui.sort_order == order_named(config.settings.sort_order@),
            ui.refresh_rate == refresh_rate,
            ui.root.children@.len() == 0,
            ui.root.path@.len() == 0,
            ui.root.name@.len() == 0,
            !ui.root.is_dir,
            ui.root.modified is None,
            ui.root.size == 0,
            ui.root.item_count == 0,
            ui.scan_path@ == "."@,
            ui.current_stack@.len() == 0,
            ui.current_entries@.len() == 0,
            !ui.should_quit,
            ui.selected is None,
            ui.search_query@.len() == 0,
            ui.mode == AppMode::List,
            ui.detail_scroll == 0,
            ui.pressed_button is None,
            ui.last_tick == 0,
            ui.notification is None,
            ui.col_starts@.len() == 0,
            ui.scanning,
            ui.disks@.len() == 0,
            ui.last_click is None,
    {
        let theme_name = config.settings.theme.clone();
        let theme = theme_from_name(theme_name.as_str());
        let sf = if str_eq(config.settings.sort_by.as_str(), "name") {
            SortField::Name
        } else if str_eq(config.settings.sort_by.as_str(), "count") {
            SortField::Count
        } else {
            SortField::Size
        };
        let so = if str_eq(config.settings.sort_order.as_str(), "asc") {
            SortOrder::Asc
        } else {
            SortOrder::Desc
        };
        AppUi {
            platform,
            config: config.clone(),
            root: Entry {
                path: String::new(),
                name: String::new(),
                size: 0,
                is_dir: false,
                children: Vec::new(),
                item_count: 0,
                modified: None,
            },
            scan_path: String::from_str("."),
            current_stack: Vec::new(),
            current_entries: Vec::new(),
            should_quit: false,
            selected: None,
            sort_field: sf,
            sort_order: so,
            search_query: String::new(),
            mode: AppMode::List,
            theme,
            theme_name,
            refresh_rate,
            detail_scroll: 0,
            pressed_button: None,
            last_tick: 0,
            notification: None,
            col_starts: Vec::new(),
            scanning: true,
            disks: Vec::new(),
            last_click: None,
        }
    }

    /// The positions of the children to list for the view's key, direction
    /// and query.
    fn shown(&self) -> (r: Vec<usize>)
        ensures
            as_ints(r@) == shown_order(self.root, self.sort_field, self.sort_order, self.search_query@),
            forall|k: int| 0 <= k < r@.len() ==> #[trigger] r@[k] < self.root.children@.len(),
    {
        let s = self.root.children.as_slice();
        let order = sort_order(s, self.sort_field, self.sort_order);
        proof {
            lemma_sort_is_permutation(s@, self.sort_field, self.sort_order);
            assert forall|k: int| 0 <= k < order@.len() implies #[trigger] order@[k] < s@.len() by {
                assert(as_ints(order@)[k] == order@[k] as int);
            }
        }
        let r = filter_positions(s, &order, self.search_query.as_str());
        proof {
            lemma_matching_positions_bounded(s@, as_ints(order@), self.search_query@, s@.len() as int);
            assert forall|k: int| 0 <= k < r@.len() implies #[trigger] r@[k] < self.root.children@.len() by {
                assert(as_ints(r@)[k] == r@[k] as int);
            }
        }
        r
    }

    /// Lists the children anew and keeps the selection within the list.
    pub fn refresh_entries(&mut self)
        ensures
            final(self).wf(),
            refreshed(*old(self), *final(self)),
    {
        self.current_entries = self.shown();
        let len = self.current_entries.len();
        match self.selected {
            Some(sel) => {
                if len == 0 {
                    self.selected = None;
                } else if sel >= len {
                    self.selected = Some(len - 1);
                }
            },
            None => {},
        }
    }

    /// Lists the children anew for the view's key, direction and query.
    pub fn apply_sort(&mut self)
        ensures
            final(self).wf(),
            resorted(*old(self), *final(self)),
    {
        self.current_entries = self.shown();
    }
}

/// `n` is `o` and nothing is to be done.
pub open spec fn kept(o: AppUi, n: AppUi, a: UiAction) -> bool {
    n == o && a == UiAction::Nothing
}

/// Only the selection changes, to `sel`.
pub open spec fn selecting(o: AppUi, sel: Option<usize>, n: AppUi, a: UiAction) -> bool {
    n == AppUi { selected: sel, ..o } && a == UiAction::Nothing
}

/// The query becomes `query` and the mode `mode`; then the list is made anew.
pub open spec fn with_search(o: AppUi, query: Seq<char>, mode: AppMode, n: AppUi, a: UiAction) -> bool {
    &&& n.search_query@ == query
    &&& refreshed(AppUi { mode, search_query: n.search_query, ..o }, n)
    &&& a == UiAction::Nothing
}

/// The query is emptied and the view waits for search text; the list stays.
pub open spec fn starting_search(o: AppUi, n: AppUi, a: UiAction) -> bool {
    &&& n.search_query@.len() == 0
    &&& n == AppUi { mode: AppMode::Search, search_query: n.search_query, ..o }
    &&& a == UiAction::Nothing
}

/// The selected entry, where it is a directory with children, is entered:
/// its name is stacked, the first row selected, and a scan asked for.
pub open spec fn entering(o: AppUi, n: AppUi, a: UiAction) -> bool {
    match o.selected_position() {
        Some(p) => {
            let e = o.root.children@[p];
            if e.is_dir && e.children@.len() > 0 {
                &&& string_texts(n.current_stack@) == string_texts(o.current_stack@).push(e.name@)
                &&& n == AppUi {
                    current_stack: n.current_stack,
                    selected: Some(0),
                    detail_scroll: 0,
                    scanning: true,
                    ..o
                }
                &&& a == UiAction::Rescan
            } else {
                kept(o, n, a)
            }
        },
        None => kept(o, n, a),
    }
}

/// Below the scanned directory, the last name entered is left and a scan
/// asked for; at the scanned directory itself, its parent is asked for.
pub open spec fn going_up(o: AppUi, n: AppUi, a: UiAction) -> bool {
    if o.current_stack@.len() > 0 {
        &&& string_texts(n.current_stack@) == string_texts(o.current_stack@).drop_last()
        &&& n == AppUi {
            current_stack: n.current_stack,
            selected: Some(0),
            detail_scroll: 0,
            scanning: true,
            ..o
        }
        &&& a == UiAction::Rescan
    } else {
        n == o && a == UiAction::ResolveParent
    }
}

/// With the parent of the scanned directory found, it becomes the scanned
/// directory and a scan is asked for; without one nothing changes.
pub open spec fn ascending(o: AppUi, parent: Option<Seq<char>>, n: AppUi, a: UiAction) -> bool {
    match parent {
        Some(p) => {
            &&& n.scan_path@ == p
            &&& n == AppUi { scan_path: n.scan_path, selected: Some(0), detail_scroll: 0, scanning: true, ..o }
            &&& a == UiAction::Rescan
        },
        None => kept(o, n, a),
    }
}

/// Where a row is selected, the view shows its details from the top.
pub open spec fn showing_details(o: AppUi, n: AppUi, a: UiAction) -> bool {
    &&& if o.selected_position() is Some {
        n == AppUi { mode: AppMode::Detail, detail_scroll: 0, ..o }
    } else {
        n == o
    }
    &&& a == UiAction::Nothing
}

/// Back to the current directory as the scanned one, and a scan asked for.
pub open spec fn going_to_root(o: AppUi, scanning: bool, n: AppUi, a: UiAction) -> bool {
    &&& n.current_stack@.len() == 0
    &&& n.scan_path@ == "."@
    &&& n == AppUi { current_stack: n.current_stack, scan_path: n.scan_path, scanning, ..o }
    &&& a == UiAction::Rescan
}

/// The position of the theme after the one called `name`; the first one
/// where no theme has that name.
pub open spec fn next_theme_index(name: Seq<char>) -> int {
    match position_in(theme_names(), name) {
        Some(i) => (i + 1) % (THEME_COUNT as int),
        None => 0,
    }
}

/// The next theme of the cycle is taken, and its name is to be saved.
pub open spec fn cycling_theme(o: AppUi, n: AppUi, a: UiAction) -> bool {
    let name = theme_names()[next_theme_index(o.theme_name@)];
    &&& n.theme_name@ == name
    &&& n == AppUi { theme_name: n.theme_name, theme: theme_for(name), ..o }
    &&& a == UiAction::SaveTheme
}

/// The refresh rate grows by 100 ms up to 10 s; where adding would overflow,
/// the step stops the program.
pub open spec fn raising_rate(o: AppUi, n: AppUi, a: UiAction) -> bool {
    if o.refresh_rate > u64::MAX - 100 {
        n == o && a == UiAction::Overflow
    } else {
        let r = o.refresh_rate + 100;
        n == AppUi { refresh_rate: (if r < 10000 { r } else { 10000 }) as u64, ..o } && a
            == UiAction::Nothing
    }
}

/// The refresh rate shrinks by 100 ms down to 100 ms.
pub open spec fn lowering_rate(o: AppUi, n: AppUi, a: UiAction) -> bool {
    let r = if o.refresh_rate < 100 {
        0
    } else {
        o.refresh_rate - 100
    };
    n == AppUi { refresh_rate: (if r > 100 { r } else { 100 }) as u64, ..o } && a == UiAction::Nothing
}

/// The view is to close.
pub open spec fn quitting(o: AppUi, n: AppUi, a: UiAction) -> bool {
    n == AppUi { should_quit: true, ..o } && a == UiAction::Nothing
}

/// The list is made anew with the sort key that follows.
pub open spec fn cycling_sort(o: AppUi, n: AppUi, a: UiAction) -> bool {
    resorted(AppUi { sort_field: next_field(o.sort_field), ..o }, n) && a == UiAction::Nothing
}

/// The list is made anew in the other direction.
pub open spec fn flipping_order(o: AppUi, n: AppUi, a: UiAction) -> bool {
    resorted(AppUi { sort_order: flipped(o.sort_order), ..o }, n) && a == UiAction::Nothing
}

impl AppUi {
    /// Selects the row above, wrapping from the top to the bottom.
    pub fn select_prev(&mut self)
        ensures
            *final(self) == (AppUi {
                selected: Some(prev_row(old(self).selected, old(self).current_entries@.len())),
                ..*old(self)
            }),
    {
        let i = match self.selected {
            Some(i) => i,
            None => 0,
        };
        let len = self.current_entries.len();
        self.selected = Some(
            if i == 0 {
                if len == 0 {
                    0
                } else {
                    len - 1
                }
            } else {
                i - 1
            },
        );
    }

    /// Selects the row below, wrapping from the bottom to the top.
    pub fn select_next(&mut self)
        ensures
            *final(self) == (AppUi {
                selected: Some(next_row(old(self).selected, old(self).current_entries@.len())),
                ..*old(self)
            }),
    {
        let i = match self.selected {
            Some(i) => i,
            None => 0,
        };
        let len = self.current_entries.len();
        let last = if len == 0 {
            0
        } else {
            len - 1
        };
        self.selected = Some(
            if i >= last {
                0
            } else {
                i + 1
            },
        );
    }

    /// Moves the selection up `k` rows, one at a time.
    fn select_prev_times(&mut self, k: usize)
        ensures
            *final(self) == (AppUi {
                selected: prev_times(old(self).selected, old(self).current_entries@.len(), k as nat),
                ..*old(self)
            }),
    {
        let ghost o = *self;
        for j in 0..k
            invariant
                *self == (AppUi {
                    selected: prev_times(o.selected, o.current_entries@.len(), j as nat),
                    ..o
                }),
        {
            self.select_prev();
        }
    }

    /// Moves the selection down `k` rows, one at a time.
    fn select_next_times(&mut self, k: usize)
        ensures
            *final(self) == (AppUi {
                selected: next_times(old(self).selected, old(self).current_entries@.len(), k as nat),
                ..*old(self)
            }),
    {
        let ghost o = *self;
        for j in 0..k
            invariant
                *self == (AppUi {
                    selected: next_times(o.selected, o.current_entries@.len(), j as nat),
                    ..o
                }),
        {
            self.select_next();
        }
    }

    /// Orders by the next sort key of the cycle.
    pub fn cycle_sort(&mut self)
        requires
            old(self).wf(),
        ensures
            final(self).wf(),
            cycling_sort(*old(self), *final(self), UiAction::Nothing),
    {
        self.sort_field = match self.sort_field {
            SortField::Size => SortField::Name,
            SortField::Name => SortField::Count,
            SortField::Count => SortField::Size,
        };
        self.apply_sort();
    }

    /// Orders in the other direction.
    pub fn flip_order(&mut self)
        requires
            old(self).wf(),
        ensures
            final(self).wf(),
            flipping_order(*old(self), *final(self), UiAction::Nothing),
    {
        self.sort_order = match self.sort_order {
            SortOrder::Asc => SortOrder::Desc,
            SortOrder::Desc => SortOrder::Asc,
        };
        self.apply_sort();
    }

    /// Starts typing a search.
    fn start_search(&mut self)
        ensures
            starting_search(*old(self), *final(self), UiAction::Nothing),
    {
        self.mode = AppMode::Search;
        self.search_query = String::new();
    }

    /// The position in `root.children` of the selected entry.
    pub fn selected_position_exec(&self) -> (r: Option<usize>)
        requires
            self.wf(),
        ensures
            match self.selected_position() {
                Some(p) => r == Some(p as usize) && p < self.root.children@.len(),
                None => r is None,
            },
    {
        match self.selected {
            Some(i) => if i < self.current_entries.len() {
                Some(self.current_entries[i])
            } else {
                None
            },
            None => None,
        }
    }

    /// The selected entry, if the selection is a row of the list.
    pub fn selected_entry(&self) -> (r: Option<&Entry>)
        requires
            self.wf(),
        ensures
            match self.selected_position() {
                Some(p) => r matches Some(e) && *e == self.root.children@[p],
                None => r is None,
            },
    {
        match self.selected_position_exec() {
            Some(p) => Some(&self.root.children[p]),
            None => None,
        }
    }

    /// Enters the selected directory, where it has children.
    pub fn enter_dir(&mut self) -> (a: UiAction)
        requires
            old(self).wf(),
        ensures
            final(self).wf(),
            entering(*old(self), *final(self), a),
    {
        match self.selected_position_exec() {
            Some(p) => {
                if self.root.children[p].is_dir && self.root.children[p].children.len() > 0 {
                    let name = self.root.children[p].name.clone();
                    let ghost before = string_texts(self.current_stack@);
                    self.current_stack.push(name);
                    assert(string_texts(self.current_stack@) =~= before.push(name@));
                    self.selected = Some(0);
                    self.detail_scroll = 0;
                    self.scanning = true;
                    UiAction::Rescan
                } else {
                    UiAction::Nothing
                }
            },
            None => UiAction::Nothing,
        }
    }

    /// Leaves the directory entered last, or asks for the parent of the
    /// scanned directory.
    pub fn go_up(&mut self) -> (a: UiAction)
        requires
            old(self).wf(),
        ensures
            final(self).wf(),
            going_up(*old(self), *final(self), a),
    {
        if self.current_stack.len() > 0 {
            let ghost before = string_texts(self.current_stack@);
            self.current_stack.pop();
            assert(string_texts(self.current_stack@) =~= before.drop_last());
            self.selected = Some(0);
            self.detail_scroll = 0;
            self.scanning = true;
            UiAction::Rescan
        } else {
            UiAction::ResolveParent
        }
    }

    /// Makes `parent`, the parent of the scanned directory, the scanned one.
    pub fn ascend(&mut self, parent: Option<String>) -> (a: UiAction)
        requires
            old(self).wf(),
        ensures
            final(self).wf(),
            ascending(
                *old(self),
                match parent {
                    Some(p) => Some(p@),
                    None => None,
                },
                *final(self),
                a,
            ),
    {
        match parent {
            Some(p) => {
                self.scan_path = p;
                self.selected = Some(0);
                self.detail_scroll = 0;
                self.scanning = true;
                UiAction::Rescan
            },
            None => UiAction::Nothing,
        }
    }

    /// Shows the details of the selected entry.
    fn show_details(&mut self)
        requires
            old(self).wf(),
        ensures
            final(self).wf(),
            showing_details(*old(self), *final(self), UiAction::Nothing),
    {
        if self.selected_position_exec().is_some() {
            self.mode = AppMode::Detail;
            self.detail_scroll = 0;
        }
    }

    /// Goes back to the current directory.
    fn go_to_root(&mut self, scanning: bool) -> (a: UiAction)
        requires
            old(self).wf(),
        ensures
            final(self).wf(),
            going_to_root(*old(self), scanning, *final(self), a),
    {
        self.current_stack = Vec::new();
        self.scan_path = String::from_str(".");
        self.scanning = scanning;
        UiAction::Rescan
    }

    /// Takes the next theme of the cycle.
    pub fn cycle_theme(&mut self) -> (a: UiAction)
        requires
            old(self).wf(),
        ensures
            final(self).wf(),
            cycling_theme(*old(self), *final(self), a),
    {
        let next = match theme_position(self.theme_name.as_str()) {
            Some(i) => (i + 1) % THEME_COUNT,
            None => 0,
        };
        let name = theme_name_at(next);
        self.theme_name = String::from_str(name);
        self.theme = theme_from_name(name);
        UiAction::SaveTheme
    }

    /// Refreshes less often.
    fn raise_rate(&mut self) -> (a: UiAction)
        requires
            old(self).wf(),
        ensures
            final(self).wf(),
            raising_rate(*old(self), *final(self), a),
    {
        if self.refresh_rate > u64::MAX - 100 {
            return UiAction::Overflow;
        }
        let r = self.refresh_rate + 100;
        self.refresh_rate = if r < 10000 {
            r
        } else {
            10000
        };
        UiAction::Nothing
    }

    /// Refreshes more often.
    fn lower_rate(&mut self)
        requires
            old(self).wf(),
        ensures
            final(self).wf(),
            lowering_rate(*old(self), *final(self), UiAction::Nothing),
    {
        let r = self.refresh_rate.saturating_sub(100);
        self.refresh_rate = if r > 100 {
            r
        } else {
            100
        };
    }
}

/// The query without its last character; the empty query stays empty.
pub open spec fn without_last(q: Seq<char>) -> Seq<char> {
    if q.len() == 0 {
        q
    } else {
        q.drop_last()
    }
}

/// `v + 1`, or `v` at the top of `u16`.
pub open spec fn inc_u16(v: u16) -> u16 {
    if v == u16::MAX {
        v
    } else {
        (v + 1) as u16
    }
}

/// `v - 1`, or 0 at 0.
pub open spec fn dec_u16(v: u16) -> u16 {
    if v == 0 {
        0
    } else {
        (v - 1) as u16
    }
}

/// What a key does while a search is typed: it edits the query, or ends the
/// search (`Esc` also empties the query), and the list is made anew.
pub open spec fn search_key_effect(o: AppUi, key: Key, n: AppUi, a: UiAction) -> bool {
    match key {
        Key::Esc => with_search(o, Seq::empty(), AppMode::List, n, a),
        Key::Enter => with_search(o, o.search_query@, AppMode::List, n, a),
        Key::Backspace => with_search(o, without_last(o.search_query@), AppMode::Search, n, a),
        Key::Char(c) => with_search(o, o.search_query@.push(c), AppMode::Search, n, a),
        _ => with_search(o, o.search_query@, AppMode::Search, n, a),
    }
}

/// What a key does while the details are shown: leave them, or scroll.
pub open spec fn detail_key_effect(o: AppUi, key: Key, n: AppUi, a: UiAction) -> bool {
    let back = n == (AppUi { mode: AppMode::List, ..o }) && a == UiAction::Nothing;
    let down = n == (AppUi { detail_scroll: inc_u16(o.detail_scroll), ..o }) && a == UiAction::Nothing;
    let up = n == (AppUi { detail_scroll: dec_u16(o.detail_scroll), ..o }) && a == UiAction::Nothing;
    match key {
        Key::Esc => back,
        Key::Down => down,
        Key::Up => up,
        Key::Char(c) => if c == 'q' {
            back
        } else if c == 'j' {
            down
        } else if c == 'k' {
            up
        } else {
            kept(o, n, a)
        },
        _ => kept(o, n, a),
    }
}

/// What a character key does in the list.
pub open spec fn char_key_effect(o: AppUi, c: char, n: AppUi, a: UiAction) -> bool {
    let len = o.current_entries@.len();
    if c == 'q' {
        quitting(o, n, a)
    } else if c == 'k' {
        selecting(o, Some(prev_row(o.selected, len)), n, a)
    } else if c == 'j' {
        selecting(o, Some(next_row(o.selected, len)), n, a)
    } else if c == 's' {
        cycling_sort(o, n, a)
    } else if c == 'S' {
        flipping_order(o, n, a)
    } else if c == '/' {
        starting_search(o, n, a)
    } else if c == 'd' {
        showing_details(o, n, a)
    } else if c == 'g' {
        going_to_root(o, o.scanning, n, a)
    } else if c == 'r' {
        n == o && a == UiAction::Rescan
    } else if c == 'T' {
        cycling_theme(o, n, a)
    } else if c == '+' || c == '=' {
        raising_rate(o, n, a)
    } else if c == '-' || c == '_' {
        lowering_rate(o, n, a)
    } else {
        kept(o, n, a)
    }
}

/// What a key does in the list.
pub open spec fn list_key_effect(o: AppUi, key: Key, n: AppUi, a: UiAction) -> bool {
    let len = o.current_entries@.len();
    match key {
        Key::Esc => quitting(o, n, a),
        Key::Up => selecting(o, Some(prev_row(o.selected, len)), n, a),
        Key::Down => selecting(o, Some(next_row(o.selected, len)), n, a),
        Key::PageUp => selecting(o, prev_times(o.selected, len, 20), n, a),
        Key::PageDown => selecting(o, next_times(o.selected, len, 20), n, a),
        Key::Home => selecting(o, Some(0), n, a),
        Key::End => selecting(o, Some(last_row(len)), n, a),
        Key::Enter => entering(o, n, a),
        Key::Right => entering(o, n, a),
        Key::Backspace => going_up(o, n, a),
        Key::Left => going_up(o, n, a),
        Key::Char(c) => char_key_effect(o, c, n, a),
        Key::Other => kept(o, n, a),
    }
}

/// What a key press does: nothing during a scan, else as the mode says.
pub open spec fn key_effect(o: AppUi, key: Key, n: AppUi, a: UiAction) -> bool {
    if o.scanning {
        kept(o, n, a)
    } else {
        match o.mode {
            AppMode::Search => search_key_effect(o, key, n, a),
            AppMode::Detail => detail_key_effect(o, key, n, a),
            AppMode::List => list_key_effect(o, key, n, a),
        }
    }
}

/// What taking in the result of a scan does: on success the scanned tree
/// becomes the directory shown and the list is made anew; on failure the view
/// stays, and the error comes back as a message. Either way the scan is over.
pub open spec fn scan_taken(o: AppUi, result: Result<Entry, String>, n: AppUi, r: Result<(), String>) -> bool {
    match result {
        Ok(root) => r is Ok && refreshed((AppUi { root, scanning: false, ..o }), n),
        Err(e) => {
            &&& n == (AppUi { scanning: false, ..o })
            &&& r matches Err(m) && m@ == "Scan error: "@ + e@
        },
    }
}

impl AppUi {
    fn search_key(&mut self, key: Key) -> (a: UiAction)
        requires
            old(self).wf(),
            old(self).mode == AppMode::Search,
        ensures
            final(self).wf(),
            search_key_effect(*old(self), key, *final(self), a),
    {
        match key {
            Key::Esc => {
                self.mode = AppMode::List;
                self.search_query = String::new();
            },
            Key::Enter => {
                self.mode = AppMode::List;
            },
            Key::Backspace => {
                pop_char(&mut self.search_query);
            },
            Key::Char(c) => {
                push_char(&mut self.search_query, c);
            },
            _ => {},
        }
        self.refresh_entries();
        UiAction::Nothing
    }

    fn detail_key(&mut self, key: Key) -> (a: UiAction)
        requires
            old(self).wf(),
        ensures
            final(self).wf(),
            detail_key_effect(*old(self), key, *final(self), a),
    {
        match key {
            Key::Esc | Key::Char('q') => {
                self.mode = AppMode::List;
            },
            Key::Down | Key::Char('j') => {
                self.detail_scroll = self.detail_scroll.saturating_add(1);
            },
            Key::Up | Key::Char('k') => {
                self.detail_scroll = self.detail_scroll.saturating_sub(1);
            },
            _ => {},
        }
        UiAction::Nothing
    }

    fn list_key(&mut self, key: Key) -> (a: UiAction)
        requires
            old(self).wf(),
        ensures
            final(self).wf(),
            list_key_effect(*old(self), key, *final(self), a),
    {
        match key {
            Key::Char('q') | Key::Esc => {
                self.should_quit = true;
                UiAction::Nothing
            },
            Key::Char('k') | Key::Up => {
                self.select_prev();
                UiAction::Nothing
            },
            Key::Char('j') | Key::Down => {
                self.select_next();
                UiAction::Nothing
            },
            Key::PageUp => {
                self.select_prev_times(20);
                UiAction::Nothing
            },
            Key::PageDown => {
                self.select_next_times(20);
                UiAction::Nothing
            },
            Key::Home => {
                self.selected = Some(0);
                UiAction::Nothing
            },
            Key::End => {
                let len = self.current_entries.len();
                self.selected = Some(
                    if len == 0 {
                        0
                    } else {
                        len - 1
                    },
                );
                UiAction::Nothing
            },
            Key::Char('s') => {
                self.cycle_sort();
                UiAction::Nothing
            },
            Key::Char('S') => {
                self.flip_order();
                UiAction::Nothing
            },
            Key::Char('/') => {
                self.start_search();
                UiAction::Nothing
            },
            Key::Enter | Key::Right => self.enter_dir(),
            Key::Backspace | Key::Left => self.go_up(),
            Key::Char('d') => {
                self.show_details();
                UiAction::Nothing
            },
            Key::Char('g') => {
                let scanning = self.scanning;
                self.go_to_root(scanning)
            },
            Key::Char('r') => UiAction::Rescan,
            Key::Char('T') => self.cycle_theme(),
            Key::Char('+') | Key::Char('=') => self.raise_rate(),
            Key::Char('-') | Key::Char('_') => {
                self.lower_rate();
                UiAction::Nothing
            },
            _ => UiAction::Nothing,
        }
    }

    /// Reacts to a key press.
    pub fn handle_key(&mut self, key: Key) -> (a: UiAction)
        requires
            old(self).wf(),
        ensures
            final(self).wf(),
            key_effect(*old(self), key, *final(self), a),
    {
        if self.scanning {
            return UiAction::Nothing;
        }
        match self.mode {
            AppMode::Search => self.search_key(key),
            AppMode::Detail => self.detail_key(key),
            AppMode::List => self.list_key(key),
        }
    }

    /// Takes in the result of a scan: on success the scanned tree becomes the
    /// directory shown and the list is made anew; on failure the view stays,
    /// and the error is returned as a message. Either way the scan is over.
    pub fn finish_scan(&mut self, result: Result<Entry, String>) -> (r: Result<(), String>)
        requires
            old(self).wf(),
        ensures
            final(self).wf(),
            scan_taken(*old(self), result, *final(self), r),
    {
        match result {
            Ok(root) => {
                self.root = root;
                self.scanning = false;
                self.refresh_entries();
                Ok(())
            },
            Err(e) => {
                self.scanning = false;
                let mut m = String::from_str("Scan error: ");
                push_str(&mut m, e.as_str());
                Err(m)
            },
        }
    }
}

/// How many buttons the bottom bar holds.
pub const BUTTON_COUNT: u16 = 11;

/// The width of each button of a bar `width` columns wide: a share of the
/// width, between 6 and 10 columns.
pub open spec fn button_width(width: int) -> int {
    let w = width / 11;
    if w < 6 {
        6
    } else if w > 10 {
        10
    } else {
        w
    }
}

/// How far the buttons are moved right to center them in the bar.
pub open spec fn button_offset(width: int) -> int {
    let t = 11 * button_width(width);
    if t < width {
        (width - t) / 2
    } else {
        0
    }
}

/// The width of the buttons and their offset in a bar `width` columns wide.
pub fn button_layout(width: u16) -> (r: (u16, u16))
    ensures
        r.0 == button_width(width as int),
        r.1 == button_offset(width as int),
        r.1 <= width / 2,
{
    let w = width / BUTTON_COUNT;
    let per = if w < 6 {
        6
    } else if w > 10 {
        10
    } else {
        w
    };
    let total = BUTTON_COUNT * per;
    let offset = if total < width {
        (width - total) / 2
    } else {
        0
    };
    (per, offset)
}

/// Where button `i` of a bar at column `area_x`, `area_width` columns wide,
/// begins, and how wide it is drawn: its share of the bar, cut at the bar's
/// right end.
pub open spec fn button_span_spec(area_x: int, area_width: int, i: int) -> (int, int) {
    let x = area_x + button_offset(area_width) + i * button_width(area_width);
    let w = button_width(area_width);
    let room = sat_sub(area_width, sat_sub(x, area_x));
    (x, if w < room { w } else { room })
}

/// Where button `i` of a bar at `area_x`, `area_width` columns wide, is
/// drawn; `None` where its start lies beyond `u16::MAX`.
pub fn button_span(area_x: u16, area_width: u16, i: u16) -> (r: Option<(u16, u16)>)
    ensures
        r is None <==> button_span_spec(area_x as int, area_width as int, i as int).0 > u16::MAX,
        r matches Some(p) ==> p.0 == button_span_spec(area_x as int, area_width as int, i as int).0
            && p.1 == button_span_spec(area_x as int, area_width as int, i as int).1,
{
    let (per, offset) = button_layout(area_width);
    assert(per <= 10);
    assert(i as u32 * per as u32 <= 655350) by (nonlinear_arith)
        requires
            per <= 10,
            i <= 65535,
    ;
    let step = i as u32 * per as u32;
    let x32 = area_x as u32 + offset as u32 + step;
    if x32 > u16::MAX as u32 {
        return None;
    }
    let x = x32 as u16;
    let room = area_width.saturating_sub(x.saturating_sub(area_x));
    Some((x, if per < room { per } else { room }))
}

/// Whether a terminal of `w` by `h` cells is large enough for the view.
pub fn terminal_fits(w: u16, h: u16) -> (r: bool)
    ensures
        r == (w >= 50 && h >= 10),
{
    w >= 50 && h >= 10
}

/// `a - b`, or 0 where `b` is larger.
pub open spec fn sat_sub(a: int, b: int) -> int {
    if a < b {
        0
    } else {
        a - b
    }
}

/// The column `col` lies within the inside of button `i`, whose border is
/// at `1 + offset + i * per` and which is `per` columns wide.
pub open spec fn button_hit(col: int, per: int, offset: int, i: int) -> bool {
    let x0 = 1 + offset + i * per + 1;
    x0 <= col < x0 + per - 2
}

/// The first button from `i` on whose inside holds the column `col`.
pub open spec fn first_button(col: int, per: int, offset: int, i: int) -> Option<int>
    decreases 11 - i,
{
    if i >= 11 || i < 0 {
        None
    } else if button_hit(col, per, offset, i) {
        Some(i)
    } else {
        first_button(col, per, offset, i + 1)
    }
}

proof fn lemma_first_button_range(col: int, per: int, offset: int, i: int)
    ensures
        first_button(col, per, offset, i) matches Some(k) ==> 0 <= k < 11,
    decreases 11 - i,
{
    if 0 <= i < 11 && !button_hit(col, per, offset, i) {
        lemma_first_button_range(col, per, offset, i + 1);
    }
}

/// The button under a click at `col`, `row` in a terminal of `term_w` by
/// `term_h` cells: the bar lies on the second row of the last four.
pub open spec fn button_at(col: u16, row: u16, term_w: u16, term_h: u16) -> Option<int> {
    let help_y = sat_sub(term_h as int, 4);
    let inner = sat_sub(term_w as int, 2);
    if row == help_y + 1 {
        first_button(col as int, button_width(inner), button_offset(inner), 0)
    } else {
        None
    }
}

/// The column `col` lies between the starts of columns `ci` and `ci + 1`.
pub open spec fn in_column(cs: Seq<u16>, ci: int, col: u16) -> bool {
    cs[ci] <= col && col < cs[ci + 1]
}

/// The first of the four columns of the list header that holds `col`.
pub open spec fn header_column(cs: Seq<u16>, col: u16) -> Option<int> {
    if in_column(cs, 0, col) {
        Some(0)
    } else if in_column(cs, 1, col) {
        Some(1)
    } else if in_column(cs, 2, col) {
        Some(2)
    } else if in_column(cs, 3, col) {
        Some(3)
    } else {
        None
    }
}

/// The sort key of header column `ci`.
pub open spec fn column_field(ci: int) -> SortField {
    if ci == 0 {
        SortField::Size
    } else if ci == 1 {
        SortField::Name
    } else {
        SortField::Count
    }
}

/// A click on the header of column `ci`: on the size, name or count column
/// it orders by that key, or flips the direction where the list is already
/// ordered by it; the last column does nothing.
pub open spec fn header_effect(o: AppUi, ci: int, n: AppUi, a: UiAction) -> bool {
    if ci == 3 {
        kept(o, n, a)
    } else if o.sort_field == column_field(ci) {
        flipping_order(o, n, a)
    } else {
        resorted((AppUi { sort_field: column_field(ci), ..o }), n) && a == UiAction::Nothing
    }
}

/// What button `i` does; the button is shown pressed.
pub open spec fn button_effect(o: AppUi, i: int, n: AppUi, a: UiAction) -> bool {
    let o2 = AppUi { pressed_button: Some(i as usize), ..o };
    if i == 0 {
        cycling_sort(o2, n, a)
    } else if i == 1 {
        starting_search(o2, n, a)
    } else if i == 2 {
        entering(o2, n, a)
    } else if i == 3 {
        going_up(o2, n, a)
    } else if i == 4 {
        showing_details(o2, n, a)
    } else if i == 5 {
        going_to_root(o2, true, n, a)
    } else if i == 6 {
        n == o2 && a == UiAction::Rescan
    } else if i == 7 {
        cycling_theme(o2, n, a)
    } else if i == 8 {
        raising_rate(o2, n, a)
    } else if i == 9 {
        lowering_rate(o2, n, a)
    } else if i == 10 {
        quitting(o2, n, a)
    } else {
        n == o2 && a == UiAction::Nothing
    }
}

/// The first row of the list on screen.
pub open spec fn table_top_row() -> int {
    6
}

/// Two clicks on `row` form a double click: the earlier one less than 400 ms
/// before `now`, on the same row.
pub open spec fn is_double_click(last: Option<(u64, u16, u16)>, now: u64, row: u16) -> bool {
    match last {
        Some((t, r, _)) => sat_sub(now as int, t as int) < 400_000_000 && r == row,
        None => false,
    }
}

/// A click at `col`, `row` on the list: where it hits a row, that row is
/// selected and the click remembered; a double click enters the row. The
/// screen row is compared with the list length cut to `u16`, and where that
/// sum overflows the program stops.
pub open spec fn row_click_effect(o: AppUi, col: u16, row: u16, now: u64, n: AppUi, a: UiAction) -> bool {
    let len = o.current_entries@.len();
    let len16 = len % 65536;
    if row < 6 {
        kept(o, n, a)
    } else if 6 + len16 > u16::MAX {
        n == o && a == UiAction::Overflow
    } else if row < 6 + len16 && row - 6 < len {
        let o2 = AppUi {
            selected: Some((row - 6) as usize),
            last_click: Some((now, row, col)),
            ..o
        };
        if is_double_click(o.last_click, now, row) {
            entering(o2, n, a)
        } else {
            n == o2 && a == UiAction::Nothing
        }
    } else {
        kept(o, n, a)
    }
}

/// A left click: on a button of the bar, on a column header, or on a row.
pub open spec fn left_click_effect(
    o: AppUi,
    col: u16,
    row: u16,
    term_w: u16,
    term_h: u16,
    now: u64,
    n: AppUi,
    a: UiAction,
) -> bool {
    match button_at(col, row, term_w, term_h) {
        Some(i) => button_effect(o, i, n, a),
        None => if row == 5 && o.col_starts@.len() >= 5 && header_column(o.col_starts@, col) is Some {
            header_effect(o, header_column(o.col_starts@, col)->0, n, a)
        } else {
            row_click_effect(o, col, row, now, n, a)
        },
    }
}

/// What a mouse event does: nothing during a scan; a left click as above,
/// and the wheel moves the selection three rows.
pub open spec fn mouse_effect(
    o: AppUi,
    kind: MouseKind,
    col: u16,
    row: u16,
    term_w: u16,
    term_h: u16,
    now: u64,
    n: AppUi,
    a: UiAction,
) -> bool {
    let len = o.current_entries@.len();
    if o.scanning {
        kept(o, n, a)
    } else {
        match kind {
            MouseKind::LeftDown => left_click_effect(o, col, row, term_w, term_h, now, n, a),
            MouseKind::ScrollUp => selecting(o, prev_times(o.selected, len, 3), n, a),
            MouseKind::ScrollDown => selecting(o, next_times(o.selected, len, 3), n, a),
            MouseKind::Other => kept(o, n, a),
        }
    }
}

/// The button under a click, found as the buttons are laid out.
fn button_under(col: u16, row: u16, term_w: u16, term_h: u16) -> (r: Option<usize>)
    ensures
        match button_at(col, row, term_w, term_h) {
            Some(i) => r == Some(i as usize) && 0 <= i < 11,
            None => r is None,
        },
{
    proof {
        lemma_first_button_range(col as int, button_width(sat_sub(term_w as int, 2)), button_offset(sat_sub(term_w as int, 2)), 0);
    }
    let help_y = term_h.saturating_sub(4);
    let inner_w = term_w.saturating_sub(2);
    let (per, x_offset) = button_layout(inner_w);
    if row != help_y + 1 {
        return None;
    }
    let mut i: u16 = 0;
    while i < BUTTON_COUNT
        invariant
            i <= 11,
            6 <= per <= 10,
            inner_w as int == sat_sub(term_w as int, 2),
            help_y as int == sat_sub(term_h as int, 4),
            row == help_y + 1,
            x_offset <= inner_w / 2,
            per == button_width(inner_w as int),
            x_offset == button_offset(inner_w as int),
            first_button(col as int, per as int, x_offset as int, 0) == first_button(
                col as int,
                per as int,
                x_offset as int,
                i as int,
            ),
        decreases 11 - i,
    {
        assert(i * per <= 110) by (nonlinear_arith)
            requires
                i <= 11,
                per <= 10,
        ;
        let x0 = 1u16 + x_offset + i * per + 1;
        let x1 = x0 + per - 2;
        if col >= x0 && col < x1 {
            assert(button_hit(col as int, per as int, x_offset as int, i as int));
            assert(first_button(col as int, per as int, x_offset as int, i as int) == Some(i as int));
            assert(inner_w as int == sat_sub(term_w as int, 2));
            assert(help_y as int == sat_sub(term_h as int, 4));
            assert(button_at(col, row, term_w, term_h) == Some(i as int));
            return Some(i as usize);
        }
        i = i + 1;
    }
    None
}

/// The header column under `col`.
fn column_under(cs: &Vec<u16>, col: u16) -> (r: Option<usize>)
    requires
        cs@.len() >= 5,
    ensures
        match header_column(cs@, col) {
            Some(ci) => r == Some(ci as usize),
            None => r is None,
        },
{
    let mut ci: usize = 0;
    while ci < 4
        invariant
            cs@.len() >= 5,
            ci <= 4,
            forall|k: int| 0 <= k < ci ==> !in_column(cs@, k, col),
        decreases 4 - ci,
    {
        if col >= cs[ci] && col < cs[ci + 1] {
            return Some(ci);
        }
        ci = ci + 1;
    }
    None
}

impl AppUi {
    /// Reacts to a click on button `idx` of the bar.
    pub fn handle_button_click(&mut self, idx: usize) -> (a: UiAction)
        requires
            old(self).wf(),
        ensures
            final(self).wf(),
            old(self).scanning ==> kept(*old(self), *final(self), a),
            !old(self).scanning ==> button_effect(*old(self), idx as int, *final(self), a),
    {
        if self.scanning {
            return UiAction::Nothing;
        }
        self.pressed_button = Some(idx);
        match idx {
            0 => {
                self.cycle_sort();
                UiAction::Nothing
            },
            1 => {
                self.start_search();
                UiAction::Nothing
            },
            2 => self.enter_dir(),
            3 => self.go_up(),
            4 => {
                self.show_details();
                UiAction::Nothing
            },
            5 => self.go_to_root(true),
            6 => UiAction::Rescan,
            7 => self.cycle_theme(),
            8 => self.raise_rate(),
            9 => {
                self.lower_rate();
                UiAction::Nothing
            },
            10 => {
                self.should_quit = true;
                UiAction::Nothing
            },
            _ => UiAction::Nothing,
        }
    }

    fn click_row(&mut self, col: u16, row: u16, now: u64) -> (a: UiAction)
        requires
            old(self).wf(),
        ensures
            final(self).wf(),
            row_click_effect(*old(self), col, row, now, *final(self), a),
    {
        let table_data_start: u16 = 6;
        if row < table_data_start {
            return UiAction::Nothing;
        }
        let len = self.current_entries.len();
        let len16 = (len % 65536) as u16;
        if len16 > u16::MAX - table_data_start {
            return UiAction::Overflow;
        }
        if row < table_data_start + len16 {
            let idx = (row - table_data_start) as usize;
            if idx < len {
                let is_double = match self.last_click {
                    Some((t, r, _)) => now.saturating_sub(t) < 400_000_000 && r == row,
                    None => false,
                };
                self.selected = Some(idx);
                self.last_click = Some((now, row, col));
                if is_double {
                    return self.enter_dir();
                }
            }
        }
        UiAction::Nothing
    }

    /// Reacts to a mouse event at `col`, `row`, in a terminal of `term_w` by
    /// `term_h` cells, at time `now` in nanoseconds.
    pub fn handle_mouse(
        &mut self,
        kind: MouseKind,
        col: u16,
        row: u16,
        term_w: u16,
        term_h: u16,
        now: u64,
    ) -> (a: UiAction)
        requires
            old(self).wf(),
        ensures
            final(self).wf(),
            mouse_effect(*old(self), kind, col, row, term_w, term_h, now, *final(self), a),
    {
        if self.scanning {
            return UiAction::Nothing;
        }
        match kind {
            MouseKind::LeftDown => {
                match button_under(col, row, term_w, term_h) {
                    Some(i) => {
                        return self.handle_button_click(i);
                    },
                    None => {},
                }
                if row == 5 && self.col_starts.len() >= 5 {
                    match column_under(&self.col_starts, col) {
                        Some(ci) => {
                            if ci == 3 {
                                return UiAction::Nothing;
                            }
                            let field = if ci == 0 {
                                SortField::Size
                            } else if ci == 1 {
                                SortField::Name
                            } else {
                                SortField::Count
                            };
                            if self.sort_field == field {
                                self.flip_order();
                            } else {
                                self.sort_field = field;
                                self.apply_sort();
                            }
                            return UiAction::Nothing;
                        },
                        None => {},
                    }
                }
                self.click_row(col, row, now)
            },
            MouseKind::ScrollUp => {
                self.select_prev_times(3);
                UiAction::Nothing
            },
            MouseKind::ScrollDown => {
                self.select_next_times(3);
                UiAction::Nothing
            },
            MouseKind::Other => UiAction::Nothing,
        }
    }
}

/// The label of a sort key in the title.
pub open spec fn field_label(f: SortField) -> Seq<char> {
    match f {
        SortField::Size => "Size"@,
        SortField::Name => "Name"@,
        SortField::Count => "Items"@,
    }
}

/// The arrow that shows a direction: down for descending, up for ascending.
pub open spec fn order_arrow(o: SortOrder) -> Seq<char> {
    match o {
        SortOrder::Desc => seq!['\u{2193}'],
        SortOrder::Asc => seq!['\u{2191}'],
    }
}

/// Names joined with "/" between them.
pub open spec fn join_names(s: Seq<Seq<char>>) -> Seq<char>
    decreases s.len(),
{
    if s.len() == 0 {
        Seq::empty()
    } else if s.len() == 1 {
        s[0]
    } else {
        join_names(s.drop_last()) + seq!['/'] + s.last()
    }
}

/// `c` separates the components of a path on `platform`: `/` everywhere,
/// and `\` too on Windows.
pub open spec fn is_path_sep(c: char, platform: Platform) -> bool {
    c == '/' || (platform == Platform::Windows && c == '\\')
}

/// The separator put between two components on `platform`.
pub open spec fn path_sep(platform: Platform) -> char {
    if platform == Platform::Windows {
        '\\'
    } else {
        '/'
    }
}

/// The length of the drive prefix (a letter and `:`) that `p` begins with on
/// Windows; 0 where there is none, and on other platforms.
pub open spec fn drive_len(p: Seq<char>, platform: Platform) -> int {
    if platform == Platform::Windows && p.len() >= 2 && p[1] == ':' && (('a' <= p[0] && p[0] <= 'z') || (
    'A' <= p[0] && p[0] <= 'Z')) {
        2
    } else {
        0
    }
}

/// `p` with the component `c` added as `PathBuf::push` adds one on
/// `platform`: `c` alone where it has a drive prefix, or begins with a
/// separator while `p` has no drive; `c` after the drive of `p` where `c`
/// begins with a separator; else `c` after a separator, unless `p` is empty,
/// ends in a separator, or is a drive alone. Drive prefixes are the only
/// Windows prefixes told apart; the names of entries, which hold no
/// separator, are added as `PathBuf::push` adds them whatever `p` is.
pub open spec fn join_path(p: Seq<char>, c: Seq<char>, platform: Platform) -> Seq<char> {
    let rooted = c.len() > 0 && is_path_sep(c[0], platform);
    let dp = drive_len(p, platform);
    if drive_len(c, platform) > 0 || (rooted && dp == 0) {
        c
    } else if rooted {
        p.take(dp) + c
    } else if p.len() == 0 || is_path_sep(p.last(), platform) || (dp > 0 && dp == p.len()) {
        p + c
    } else {
        p + seq![path_sep(platform)] + c
    }
}

/// `p` with the components `cs` added in turn.
pub open spec fn join_all(p: Seq<char>, cs: Seq<Seq<char>>, platform: Platform) -> Seq<char>
    decreases cs.len(),
{
    if cs.len() == 0 {
        p
    } else {
        join_path(join_all(p, cs.drop_last(), platform), cs.last(), platform)
    }
}

fn is_path_sep_exec(c: char, platform: Platform) -> (r: bool)
    ensures
        r == is_path_sep(c, platform),
{
    c == '/' || (platform == Platform::Windows && c == '\\')
}

fn drive_len_exec(p: &Vec<char>, platform: Platform) -> (r: usize)
    ensures
        r == drive_len(p@, platform),
{
    if platform == Platform::Windows && p.len() >= 2 && p[1] == ':' && (('a' <= p[0] && p[0] <= 'z') || (
    'A' <= p[0] && p[0] <= 'Z')) {
        2
    } else {
        0
    }
}

/// `p` with the component `c` added, as `join_path` says.
fn join_path_exec(p: &String, c: &String, platform: Platform) -> (r: String)
    ensures
        r@ == join_path(p@, c@, platform),
{
    let cs = chars_of(c.as_str());
    let pc = chars_of(p.as_str());
    let rooted = cs.len() > 0 && is_path_sep_exec(cs[0], platform);
    let dp = drive_len_exec(&pc, platform);
    if drive_len_exec(&cs, platform) > 0 || (rooted && dp == 0) {
        c.clone()
    } else if rooted {
        let mut r = String::new();
        for k in 0..dp
            invariant
                dp <= pc@.len(),
                r@ == pc@.take(k as int),
        {
            push_char(&mut r, pc[k]);
            assert(pc@.take(k + 1) =~= pc@.take(k as int).push(pc@[k as int]));
        }
        push_str(&mut r, c.as_str());
        r
    } else {
        let mut r = p.clone();
        let n = pc.len();
        if !(n == 0 || is_path_sep_exec(pc[n - 1], platform) || (dp > 0 && dp == n)) {
            if platform == Platform::Windows {
                push_char(&mut r, '\\');
            } else {
                push_char(&mut r, '/');
            }
        }
        push_str(&mut r, c.as_str());
        r
    }
}

/// `s` padded with spaces on the right to `w` characters, as `{:<w}` pads.
pub open spec fn pad_right(s: Seq<char>, w: nat) -> Seq<char> {
    if s.len() < w {
        s + Seq::new((w - s.len()) as nat, |i: int| ' ')
    } else {
        s
    }
}

/// `s` taken `k` times.
pub open spec fn repeat(s: Seq<char>, k: nat) -> Seq<char>
    decreases k,
{
    if k == 0 {
        Seq::empty()
    } else {
        repeat(s, (k - 1) as nat) + s
    }
}

/// A mount point without the slashes at its end.
pub open spec fn trim_slashes(s: Seq<char>) -> Seq<char>
    decreases s.len(),
{
    if s.len() > 0 && s.last() == '/' {
        trim_slashes(s.drop_last())
    } else {
        s
    }
}

/// The path `p` lies on the file system mounted at `mount`: it is the
/// mount point without trailing slashes, or begins with it.
pub open spec fn on_mount(p: Seq<char>, mount: Seq<char>) -> bool {
    let m = trim_slashes(mount);
    p == m || (m.len() <= p.len() && p.take(m.len() as int) == m)
}

/// The first of `disks` on which the path `p` lies, from position `i` on.
pub open spec fn first_disk(disks: Seq<DiskUsage>, p: Seq<char>, i: int) -> Option<int>
    decreases disks.len() - i,
{
    if i < 0 || i >= disks.len() {
        None
    } else if on_mount(p, disks[i].mount_point@) {
        Some(i)
    } else {
        first_disk(disks, p, i + 1)
    }
}

/// The column of the item count: the count for a directory, "-" for a file.
pub open spec fn items_text_spec(e: Entry) -> Seq<char> {
    if e.is_dir {
        decimal(e.item_count as nat)
    } else {
        seq!['-']
    }
}

/// `"/"` after the name of a directory, nothing after that of a file.
pub open spec fn dir_suffix(e: Entry) -> Seq<char> {
    if e.is_dir {
        seq!['/']
    } else {
        Seq::empty()
    }
}

/// The text before the percentage in a line of the scan listing: size, item
/// count and name (with "/" for a directory) in columns of 12, 6 and 50.
pub open spec fn scan_line_spec(e: Entry) -> Seq<char> {
    pad_right(format_bytes_spec(e.size as nat), 12) + seq![' '] + pad_right(items_text_spec(e), 6)
        + seq![' '] + pad_right(e.name@ + dir_suffix(e), 50) + seq![' ']
}

/// A line of the tree listing: two spaces per level, the size in a column of
/// 12, and the name (with "/" for a directory).
pub open spec fn tree_line_spec(e: Entry, depth: nat) -> Seq<char> {
    repeat(seq![' ', ' '], depth) + pad_right(format_bytes_spec(e.size as nat), 12) + seq![' '] + e.name@
        + dir_suffix(e)
}

/// Appends `s` to `out`.
fn push_chars(out: &mut String, s: &[char])
    ensures
        final(out)@ == old(out)@ + s@,
{
    let n = s.len();
    for i in 0..n
        invariant
            n == s@.len(),
            out@ == old(out)@ + s@.take(i as int),
    {
        push_char(out, s[i]);
        assert(old(out)@ + s@.take(i + 1) =~= old(out)@ + s@.take(i as int) + seq![s@[i as int]]);
    }
    assert(s@.take(n as int) =~= s@);
}

/// Appends `s` padded with spaces to `w` characters.
fn push_padded(out: &mut String, s: &str, w: usize)
    ensures
        final(out)@ == old(out)@ + pad_right(s@, w as nat),
{
    let cs = chars_of(s);
    push_chars(out, cs.as_slice());
    let n = cs.len();
    if n < w {
        let mut k: usize = n;
        while k < w
            invariant
                n <= k <= w,
                n == s@.len(),
                out@ == old(out)@ + s@ + Seq::new((k - n) as nat, |i: int| ' '),
            decreases w - k,
        {
            push_char(out, ' ');
            assert(Seq::new((k + 1 - n) as nat, |i: int| ' ') =~= Seq::new((k - n) as nat, |i: int| ' ').push(' '));
            k = k + 1;
        }
    }
    assert(final(out)@ =~= old(out)@ + pad_right(s@, w as nat));
}

/// The item count column of `e`.
pub fn items_text(e: &Entry) -> (s: String)
    ensures
        s@ == items_text_spec(*e),
{
    if e.is_dir {
        crate::text::decimal_string(e.item_count)
    } else {
        let mut s = String::new();
        push_char(&mut s, '-');
        assert(s@ =~= seq!['-']);
        s
    }
}

/// The part of a scan listing line before the percentage.
pub fn scan_line(e: &Entry) -> (s: String)
    ensures
        s@ == scan_line_spec(*e),
{
    let mut s = String::new();
    let size = format_bytes(e.size);
    push_padded(&mut s, size.as_str(), 12);
    push_char(&mut s, ' ');
    let items = items_text(e);
    push_padded(&mut s, items.as_str(), 6);
    push_char(&mut s, ' ');
    let mut name = e.name.clone();
    if e.is_dir {
        push_char(&mut name, '/');
    }
    assert(name@ =~= e.name@ + dir_suffix(*e));
    push_padded(&mut s, name.as_str(), 50);
    push_char(&mut s, ' ');
    assert(s@ =~= scan_line_spec(*e));
    s
}

/// A line of the tree listing for `e` at depth `depth`.
pub fn tree_line(e: &Entry, depth: usize) -> (s: String)
    ensures
        s@ == tree_line_spec(*e, depth as nat),
{
    let mut s = String::new();
    for k in 0..depth
        invariant
            s@ == repeat(seq![' ', ' '], k as nat),
    {
        push_char(&mut s, ' ');
        push_char(&mut s, ' ');
        assert(s@ =~= repeat(seq![' ', ' '], (k + 1) as nat));
    }
    let size = format_bytes(e.size);
    push_padded(&mut s, size.as_str(), 12);
    push_char(&mut s, ' ');
    push_str(&mut s, e.name.as_str());
    if e.is_dir {
        push_char(&mut s, '/');
    }
    assert(s@ =~= tree_line_spec(*e, depth as nat));
    s
}

/// The lines of the detail panel for `e`: name, kind, size, item count and
/// path.
pub open spec fn detail_lines_spec(e: Entry) -> Seq<Seq<char>> {
    seq![
        " Name:       "@ + e.name@,
        " Type:       "@ + (if e.is_dir { "Directory"@ } else { "File"@ }),
        " Size:       "@ + format_bytes_spec(e.size as nat),
        " Items:      "@ + decimal(e.item_count as nat),
        " Path:       "@ + e.path@,
    ]
}

/// The lines of the detail panel for `e`.
pub fn detail_lines(e: &Entry) -> (v: Vec<String>)
    ensures
        string_texts(v@) == detail_lines_spec(*e),
{
    let mut name = String::from_str(" Name:       ");
    push_str(&mut name, e.name.as_str());
    let mut kind = String::from_str(" Type:       ");
    push_str(&mut kind, if e.is_dir { "Directory" } else { "File" });
    let mut size = String::from_str(" Size:       ");
    let fb = format_bytes(e.size);
    push_str(&mut size, fb.as_str());
    let mut items = String::from_str(" Items:      ");
    push_decimal(&mut items, e.item_count as u128);
    let mut path = String::from_str(" Path:       ");
    push_str(&mut path, e.path.as_str());
    let mut v: Vec<String> = Vec::new();
    v.push(name);
    v.push(kind);
    v.push(size);
    v.push(items);
    v.push(path);
    assert(string_texts(v@) =~= detail_lines_spec(*e));
    v
}

impl AppUi {
    /// Whether every listed position is that of a child of the directory
    /// shown, as the view's methods need.
    pub fn listing_in_range(&self) -> (r: bool)
        ensures
            r == self.wf(),
    {
        let n = self.current_entries.len();
        for k in 0..n
            invariant
                n == self.current_entries@.len(),
                forall|j: int| 0 <= j < k ==> #[trigger] self.current_entries@[j] < self.root.children@.len(),
        {
            if self.current_entries[k] >= self.root.children.len() {
                return false;
            }
        }
        true
    }

    /// The first screen row of the list.
    pub fn table_top(&self) -> (r: u16)
        ensures
            r == table_top_row(),
    {
        6
    }

    /// The size of the directory shown.
    pub fn current_dir_size(&self) -> (r: u64)
        ensures
            r == self.root.size,
    {
        self.root.size
    }

    /// The label of the sort key.
    pub fn sort_field_label(&self) -> (s: &'static str)
        ensures
            s@ == field_label(self.sort_field),
    {
        match self.sort_field {
            SortField::Size => "Size",
            SortField::Name => "Name",
            SortField::Count => "Items",
        }
    }

    /// The path shown in the title: the scanned directory, or the names
    /// entered below it joined with "/".
    pub open spec fn path_display(&self) -> Seq<char> {
        if self.current_stack@.len() == 0 {
            self.scan_path@
        } else {
            join_names(string_texts(self.current_stack@))
        }
    }

    /// The directory that a scan of the view reads: the scanned directory
    /// with the names entered below it added in turn, with the path rules of
    /// the view's platform.
    pub open spec fn scan_target_spec(&self) -> Seq<char> {
        join_all(self.scan_path@, string_texts(self.current_stack@), self.platform)
    }

    /// The directory that a scan of the view reads.
    pub fn scan_target(&self) -> (s: String)
        ensures
            s@ == self.scan_target_spec(),
    {
        let ghost names = string_texts(self.current_stack@);
        let mut p = self.scan_path.clone();
        let n = self.current_stack.len();
        assert(names.take(0) =~= Seq::<Seq<char>>::empty());
        for i in 0..n
            invariant
                n == self.current_stack@.len(),
                names == string_texts(self.current_stack@),
                p@ == join_all(self.scan_path@, names.take(i as int), self.platform),
        {
            p = join_path_exec(&p, &self.current_stack[i], self.platform);
            assert(names.take(i + 1).drop_last() =~= names.take(i as int));
            assert(names.take(i + 1).last() == self.current_stack@[i as int]@);
        }
        assert(names.take(n as int) =~= names);
        p
    }

    /// The title of the view, for program version `version`.
    pub open spec fn header_spec(&self, version: Seq<char>) -> Seq<char> {
        " hdu v"@ + version + " | "@ + variant_name(self.platform) + " | "@ + self.path_display() + " | "@
            + field_label(self.sort_field) + order_arrow(self.sort_order) + " | "@ + decimal(
            self.refresh_rate as nat,
        ) + "ms "@
    }

    /// The title of the view.
    pub fn header_text(&self, version: &str) -> (s: String)
        ensures
            s@ == self.header_spec(version@),
    {
        let mut s = String::from_str(" hdu v");
        push_str(&mut s, version);
        push_str(&mut s, " | ");
        push_str(&mut s, self.platform.variant());
        push_str(&mut s, " | ");
        if self.current_stack.len() == 0 {
            push_str(&mut s, self.scan_path.as_str());
        } else {
            let ghost names = string_texts(self.current_stack@);
            let ghost start = s@;
            let n = self.current_stack.len();
            push_str(&mut s, self.current_stack[0].as_str());
            assert(names.take(1) =~= seq![names[0]]);
            assert(join_names(names.take(1)) == names[0]);
            for i in 1..n
                invariant
                    n == self.current_stack@.len(),
                    names == string_texts(self.current_stack@),
                    s@ == start + join_names(names.take(i as int)),
            {
                push_char(&mut s, '/');
                push_str(&mut s, self.current_stack[i].as_str());
                assert(names.take(i + 1).drop_last() =~= names.take(i as int));
                assert(s@ =~= start + join_names(names.take(i + 1)));
            }
            assert(names.take(n as int) =~= names);
        }
        push_str(&mut s, " | ");
        push_str(&mut s, self.sort_field_label());
        match self.sort_order {
            SortOrder::Desc => push_char(&mut s, '\u{2193}'),
            SortOrder::Asc => push_char(&mut s, '\u{2191}'),
        }
        push_str(&mut s, " | ");
        push_decimal(&mut s, self.refresh_rate as u128);
        push_str(&mut s, "ms ");
        assert(s@ =~= self.header_spec(version@));
        s
    }

    /// The title of the list: how many entries are listed, and how many
    /// children there are in all while a query filters them.
    pub open spec fn table_title_spec(&self) -> Seq<char> {
        if self.search_query@.len() == 0 {
            " Contents ("@ + decimal(self.current_entries@.len()) + ") "@
        } else {
            " Contents ("@ + decimal(self.current_entries@.len()) + "/"@ + decimal(self.root.children@.len())
                + ") "@
        }
    }

    /// The title of the list.
    pub fn table_title(&self) -> (s: String)
        ensures
            s@ == self.table_title_spec(),
    {
        let mut s = String::from_str(" Contents (");
        push_decimal(&mut s, self.current_entries.len() as u128);
        if !self.search_query.as_str().is_empty() {
            push_str(&mut s, "/");
            push_decimal(&mut s, self.root.children.len() as u128);
        }
        push_str(&mut s, ") ");
        s
    }

    /// The header of the column of key `field`, named `name`, with the
    /// direction arrow where the list is ordered by that key.
    pub fn column_header(&self, name: &str, field: SortField) -> (s: String)
        ensures
            s@ == seq![' '] + name@ + (if self.sort_field == field {
                order_arrow(self.sort_order)
            } else {
                Seq::empty()
            }) + seq![' '],
    {
        let mut s = String::new();
        push_char(&mut s, ' ');
        push_str(&mut s, name);
        if self.sort_field == field {
            match self.sort_order {
                SortOrder::Desc => push_char(&mut s, '\u{2193}'),
                SortOrder::Asc => push_char(&mut s, '\u{2191}'),
            }
        }
        push_char(&mut s, ' ');
        assert(s@ =~= seq![' '] + name@ + (if self.sort_field == field {
            order_arrow(self.sort_order)
        } else {
            Seq::empty()
        }) + seq![' ']);
        s
    }

    /// The text of the directory box: name, item count and size.
    pub open spec fn dir_info_spec(&self) -> Seq<char> {
        " "@ + self.root.name@ + "  "@ + decimal(self.root.item_count as nat) + " items  "@ + format_bytes_spec(
            self.root.size as nat,
        ) + " "@
    }

    /// The text of the directory box.
    pub fn dir_info_text(&self) -> (s: String)
        ensures
            s@ == self.dir_info_spec(),
    {
        let mut s = String::from_str(" ");
        push_str(&mut s, self.root.name.as_str());
        push_str(&mut s, "  ");
        push_decimal(&mut s, self.root.item_count as u128);
        push_str(&mut s, " items  ");
        let fb = format_bytes(self.root.size);
        push_str(&mut s, fb.as_str());
        push_str(&mut s, " ");
        s
    }

    /// The position of the first disk on which the scanned directory lies.
    pub fn find_disk(&self) -> (r: Option<usize>)
        ensures
            match first_disk(self.disks@, self.scan_path@, 0) {
                Some(i) => r == Some(i as usize),
                None => r is None,
            },
    {
        let p = chars_of(self.scan_path.as_str());
        let n = self.disks.len();
        for i in 0..n
            invariant
                n == self.disks@.len(),
                p@ == self.scan_path@,
                first_disk(self.disks@, p@, 0) == first_disk(self.disks@, p@, i as int),
        {
            let m = chars_of(self.disks[i].mount_point.as_str());
            let t = trimmed_len(&m);
            if on_mount_exec(&p, &m, t) {
                return Some(i);
            }
        }
        None
    }

    /// Lays out the columns of a list drawn at column `area_x`, `area_width`
    /// columns wide: size 12, name the rest less 36, count 10, bar 12.
    pub fn set_columns(&mut self, area_x: u16, area_width: u16)
        requires
            old(self).wf(),
            area_x < u16::MAX,
        ensures
            final(self).wf(),
            final(self).col_starts@ == column_starts((area_x + 1) as u16, sat_sub(area_width as int, 2) as u16),
            *final(self) == (AppUi { col_starts: final(self).col_starts, ..*old(self) }),
    {
        let table_x = area_x + 1;
        let table_w = area_width.saturating_sub(2);
        let widths: [u16; 4] = [12, table_w.saturating_sub(36), 10, 12];
        let mut cs: Vec<u16> = Vec::new();
        let mut xp = table_x;
        let mut k: usize = 0;
        while k < 4
            invariant
                k <= 4,
                widths@ == seq![12u16, sat_sub(table_w as int, 36) as u16, 10u16, 12u16],
                cs@ == column_starts(table_x, table_w).take(k as int),
                xp == column_starts(table_x, table_w)[k as int],
            decreases 4 - k,
        {
            cs.push(xp);
            assert(cs@ =~= column_starts(table_x, table_w).take(k + 1));
            xp = xp.saturating_add(widths[k]);
            k = k + 1;
        }
        cs.push(xp);
        assert(cs@ =~= column_starts(table_x, table_w));
        self.col_starts = cs;
    }

    /// Drops the notification once its time is over.
    pub fn expire_notification(&mut self, now: u64)
        ensures
            match old(self).notification {
                Some((_, until)) => if now >= until {
                    *final(self) == (AppUi { notification: None, ..*old(self) })
                } else {
                    *final(self) == *old(self)
                },
                None => *final(self) == *old(self),
            },
    {
        let expired = match &self.notification {
            Some((_, until)) => now >= *until,
            None => false,
        };
        if expired {
            self.notification = None;
        }
    }

    /// How long to wait for input at time `now`, in nanoseconds: what is
    /// left of the refresh period since the last tick.
    pub fn poll_timeout(&self, now: u64) -> (t: u128)
        ensures
            t == sat_sub(self.refresh_rate * 1_000_000, sat_sub(now as int, self.last_tick as int)),
    {
        let period = self.refresh_rate as u128 * 1_000_000;
        let elapsed = now.saturating_sub(self.last_tick) as u128;
        period.saturating_sub(elapsed)
    }

    /// Whether a refresh period has passed since the last tick at time `now`.
    pub fn tick_due(&self, now: u64) -> (r: bool)
        ensures
            r == (sat_sub(now as int, self.last_tick as int) >= self.refresh_rate * 1_000_000),
    {
        let period = self.refresh_rate as u128 * 1_000_000;
        let elapsed = now.saturating_sub(self.last_tick) as u128;
        elapsed >= period
    }
}

/// Where the four columns of a list at `x`, `w` columns wide, begin, and
/// where the last ends; each start is the previous one plus a width, capped
/// at `u16::MAX`.
pub open spec fn column_starts(x: u16, w: u16) -> Seq<u16> {
    let widths = seq![12int, sat_sub(w as int, 36), 10int, 12int];
    let c0 = x as int;
    let c1 = cap_u16(c0 + widths[0]);
    let c2 = cap_u16(c1 + widths[1]);
    let c3 = cap_u16(c2 + widths[2]);
    let c4 = cap_u16(c3 + widths[3]);
    seq![c0 as u16, c1 as u16, c2 as u16, c3 as u16, c4 as u16]
}

/// `v`, or `u16::MAX` where it is larger.
pub open spec fn cap_u16(v: int) -> int {
    if v > u16::MAX {
        u16::MAX as int
    } else {
        v
    }
}

/// The length of `m` without its trailing slashes.
fn trimmed_len(m: &Vec<char>) -> (t: usize)
    ensures
        t <= m@.len(),
        m@.take(t as int) == trim_slashes(m@),
{
    let mut t = m.len();
    assert(m@.take(t as int) =~= m@);
    while t > 0 && m[t - 1] == '/'
        invariant
            t <= m@.len(),
            trim_slashes(m@) == trim_slashes(m@.take(t as int)),
        decreases t,
    {
        assert(m@.take(t as int).drop_last() =~= m@.take(t - 1));
        t = t - 1;
    }
    t
}

/// Whether `p` lies on the mount whose point, trimmed, is the first `t`
/// characters of `m`.
fn on_mount_exec(p: &Vec<char>, m: &Vec<char>, t: usize) -> (r: bool)
    requires
        t <= m@.len(),
        m@.take(t as int) == trim_slashes(m@),
    ensures
        r == on_mount(p@, m@),
{
    if t > p.len() {
        assert(p@ != trim_slashes(m@)) by {
            assert(trim_slashes(m@).len() == t);
        }
        return false;
    }
    let mut i: usize = 0;
    while i < t
        invariant
            t <= m@.len(),
            t <= p@.len(),
            m@.take(t as int) == trim_slashes(m@),
            i <= t,
            forall|j: int| 0 <= j < i ==> p@[j] == m@[j],
        decreases t - i,
    {
        if p[i] != m[i] {
            let ghost tm = trim_slashes(m@);
            assert(tm.len() == t);
            assert(p@.take(t as int)[i as int] != tm[i as int]);
            assert(p@.take(t as int) != tm);
            assert(p@ != tm) by {
                if p@ == tm {
                    assert(p@.take(t as int) =~= p@);
                }
            }
            return false;
        }
        i = i + 1;
    }
    assert(p@.take(t as int) =~= m@.take(t as int));
    true
}

} // verus!
