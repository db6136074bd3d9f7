//! The application's state and its decisions: how it reacts to scan and
//! duplicate-finder messages, to column clicks and to the cleanup panel.
//!
//! Threads, channels and drawing are the caller's part: it hands each event
//! here and carries out what comes back.

use std::sync::Arc;

use vstd::prelude::*;

use crate::analyzer::{age_in_range, apply, apply_result, sort, sorted_by};
use crate::cleanup::CleanupAction;
use crate::models::{
    DiskInfo, DupMessage, DuplicateGroup, FileMetadata, FilterState, ScanMessage, Settings, SortKey,
    is_default_filter,
};

verus! {

/// Which view the central panel shows.
#[derive(Clone, Copy, Debug, PartialEq, Eq, Structural)]
pub enum ViewMode {
    Files,
    Duplicates,
    Cleanup,
}

/// The error log keeps at most this many scan/hash errors.
pub const ERROR_LOG_CAP: usize = 10_000;

/// Everything the application keeps besides its channels and widgets.
pub struct AppState {
    /// Master file list, shared with background threads (never changed after
    /// a scan completes).
    pub files: Arc<Vec<FileMetadata>>,
    /// Indices into `files` after filtering and sorting: what the table shows.
    pub view: Vec<usize>,
    pub filter: FilterState,
    /// Sort column and whether ascending.
    pub sort: (SortKey, bool),
    pub view_mode: ViewMode,
    pub scanning: bool,
    /// (files scanned, bytes scanned)
    pub progress: (usize, u64),
    pub errors: Vec<String>,
    pub disk: Option<DiskInfo>,
    pub show_log: bool,
    pub finding_dups: bool,
    /// (files hashed, total candidates) for the current pass.
    pub dup_progress: (usize, usize),
    pub dup_groups: Vec<DuplicateGroup>,
    /// Whether the cleanup confirmation dialog is open.
    pub confirm_cleanup: bool,
    /// Last directory scanned.
    pub last_root: Option<String>,
    /// Whether this process runs with administrator rights.
    pub elevated: bool,
    /// Launched elevated for cleanup: open the temp cleanup on the first frame.
    pub pending_cleanup: bool,
}

/// The view is the result of the filter at some moment, reordered by the sort.
/// The sort after a click on column `key`: the same column flips direction,
/// another column sorts ascending.
pub open spec fn next_sort(sort: (SortKey, bool), key: SortKey) -> (SortKey, bool) {
    if sort.0 == key {
        (key, !sort.1)
    } else {
        (key, true)
    }
}

/// Clicking the sorted column twice restores the sort it had; clicking another
/// column twice leaves it sorted by that column, descending.
pub proof fn law_click_twice(sort: (SortKey, bool), key: SortKey)
    ensures
        sort.0 == key ==> next_sort(next_sort(sort, key), key) == sort,
        sort.0 != key ==> next_sort(next_sort(sort, key), key) == (key, false),
{
}

/// `s` holds the preferences of `st`: last folder, sort, filter and log toggle.
pub open spec fn captures(s: Settings, st: AppState) -> bool {
    &&& match (s.last_root, st.last_root) {
        (Some(a), Some(b)) => a@ == b@,
        (None, None) => true,
        _ => false,
    }
    &&& s.sort_key == Some(st.sort.0)
    &&& s.sort_asc == st.sort.1
    &&& s.filter == st.filter
    &&& s.show_log == st.show_log
}

/// `after` is `before` with the preferences of `s` put back (the sort only
/// when `s` names a column); the data and the view are untouched.
pub open spec fn restored(before: AppState, s: Settings, after: AppState) -> bool {
    &&& after.filter == s.filter
    &&& after.sort == (match s.sort_key {
        Some(k) => (k, s.sort_asc),
        None => before.sort,
    })
    &&& after.show_log == s.show_log
    &&& after.last_root == s.last_root
    &&& after == (AppState {
        filter: after.filter,
        sort: after.sort,
        show_log: after.show_log,
        last_root: after.last_root,
        ..before
    })
}

/// Saving the preferences and restoring them, in this run or the next, gives
/// back the same last folder, sort, filter and log toggle.
pub proof fn law_settings_round_trip(a: AppState, s: Settings, b: AppState, c: AppState)
    requires
        captures(s, a),
        restored(b, s, c),
    ensures
        c.sort == a.sort,
        c.filter == a.filter,
        c.show_log == a.show_log,
        match (c.last_root, a.last_root) {
            (Some(x), Some(y)) => x@ == y@,
            (None, None) => true,
            _ => false,
        },
{
}

/// The launch request to open the temp cleanup is honoured once: taking it
/// a second time finds nothing pending.
pub proof fn law_pending_cleanup_once(a: AppState, b: AppState, c: AppState)
    requires
        b == (AppState { pending_cleanup: false, ..a }),
        c == (AppState { pending_cleanup: false, ..b }),
    ensures
        !b.pending_cleanup,
        c == b,
{
}

pub open spec fn view_ok(
    view: Seq<usize>,
    files: Seq<FileMetadata>,
    filter: FilterState,
    key: SortKey,
    ascending: bool,
) -> bool {
    exists|v: Seq<usize>, now: i128|
        #[trigger] apply_result(files, filter, now, v) && view.to_multiset() == v.to_multiset()
            && sorted_by(view, files, key, ascending)
}

/// Total size of the files.
pub open spec fn files_total(files: Seq<FileMetadata>) -> int
    decreases files.len(),
{
    if files.len() == 0 {
        0
    } else {
        files_total(files.drop_last()) + files.last().size
    }
}

/// Whether a message may be handed to `on_scan_message`: the total size of a
/// finished scan must fit in 64 bits.
pub open spec fn scan_message_fits(msg: ScanMessage) -> bool {
    match msg {
        ScanMessage::Done(v) => files_total(v@) <= u64::MAX,
        _ => true,
    }
}

/// The sizes of `files` added up, or `None` when the total does not fit in 64 bits.
pub fn checked_total(files: &[FileMetadata]) -> (t: Option<u64>)
    ensures
        match t {
            Some(x) => x == files_total(files@),
            None => files_total(files@) > u64::MAX,
        },
{
    let mut total: u64 = 0;
    let mut i: usize = 0;
    while i < files.len()
        invariant
            i <= files@.len(),
            total == files_total(files@.take(i as int)),
        decreases files.len() - i,
    {
        assert(files@.take(i + 1).drop_last() =~= files@.take(i as int));
        match total.checked_add(files[i].size) {
            Some(t) => total = t,
            None => {
                proof {
                    lemma_files_total_prefix(files@, i + 1);
                }
                return None;
            },
        }
        i = i + 1;
    }
    assert(files@.take(files@.len() as int) =~= files@);
    Some(total)
}

proof fn lemma_files_total_prefix(files: Seq<FileMetadata>, k: int)
    requires
        0 <= k <= files.len(),
    ensures
        files_total(files.take(k)) <= files_total(files),
    decreases files.len() - k,
{
    if k < files.len() {
        lemma_files_total_prefix(files, k + 1);
        assert(files.take(k + 1).drop_last() =~= files.take(k));
    } else {
        assert(files.take(k) =~= files);
    }
}

fn copy_string(s: &String) -> (r: String)
    ensures
        r@ == s@,
{
    s.clone()
}

fn copy_opt_string(s: &Option<String>) -> (r: Option<String>)
    ensures
        match (r, *s) {
            (Some(a), Some(b)) => a@ == b@,
            (None, None) => true,
            _ => false,
        },
{
    match s {
        Some(v) => Some(copy_string(v)),
        None => None,
    }
}

/// Whether the age filter's day count stays in range for `apply`.
pub fn age_filter_fits(filter: &FilterState) -> (r: bool)
    ensures
        r == age_in_range(*filter),
{
    match filter.min_age_days {
        Some(d) => d <= 213_503_982_334_601,
        None => true,
    }
}

impl AppState {
    /// The state at launch: no data, largest files first.
    pub fn new(elevated: bool, pending_cleanup: bool) -> (s: AppState)
        ensures
            s.files@.len() == 0,
            s.view@.len() == 0,
            is_default_filter(s.filter),
            s.sort == (SortKey::Size, false),
            s.view_mode == ViewMode::Files,
            !s.scanning,
            s.progress == (0usize, 0u64),
            s.errors@.len() == 0,
            s.disk is None,
            !s.show_log,
            !s.finding_dups,
            s.dup_progress == (0usize, 0usize),
            s.dup_groups@.len() == 0,
            !s.confirm_cleanup,
            s.last_root is None,
            s.elevated == elevated,
            s.pending_cleanup == pending_cleanup,
    {
        AppState {
            files: Arc::new(Vec::new()),
            view: Vec::new(),
            filter: FilterState::default(),
            sort: (SortKey::Size, false),
            view_mode: ViewMode::Files,
            scanning: false,
            progress: (0, 0),
            errors: Vec::new(),
            disk: None,
            show_log: false,
            finding_dups: false,
            dup_progress: (0, 0),
            dup_groups: Vec::new(),
            confirm_cleanup: false,
            last_root: None,
            elevated,
            pending_cleanup,
        }
    }

    /// Restores persisted preferences.
    pub fn restore(&mut self, s: Settings)
        ensures
            restored(*old(self), s, *final(self)),
    {
        self.filter = s.filter;
        if let Some(key) = s.sort_key {
            self.sort = (key, s.sort_asc);
        }
        self.show_log = s.show_log;
        self.last_root = s.last_root;
    }

    /// The preferences to persist.
    pub fn settings(&self) -> (s: Settings)
        ensures
            captures(s, *self),
    {
        Settings {
            last_root: copy_opt_string(&self.last_root),
            sort_key: Some(self.sort.0),
            sort_asc: self.sort.1,
            filter: self.filter,
            show_log: self.show_log,
        }
    }

    /// Recomputes the visible index list from the filter and the sort.
    pub fn rebuild_view(&mut self)
        requires
            age_in_range(old(self).filter),
        ensures
            view_ok(final(self).view@, final(self).files@, final(self).filter, final(self).sort.0, final(self).sort.1),
            *final(self) == (AppState { view: final(self).view, ..*old(self) }),
    {
        let mut v = apply(self.files.as_slice(), &self.filter);
        let ghost unsorted = v@;
        let (key, asc) = self.sort;
        sort(v.as_mut_slice(), self.files.as_slice(), key, asc);
        self.view = v;
        assert(view_ok(self.view@, self.files@, self.filter, key, asc)) by {
            let now = choose|now: i128| apply_result(self.files@, self.filter, now, unsorted);
            assert(apply_result(self.files@, self.filter, now, unsorted));
        }
    }

    /// Resets the state for a fresh scan (on the disk `disk`, if known).
    pub fn begin_scan(&mut self, disk: Option<DiskInfo>)
        ensures
            final(self).files@.len() == 0,
            final(self).view@.len() == 0,
            final(self).errors@.len() == 0,
            final(self).dup_groups@.len() == 0,
            final(self).dup_progress == (0usize, 0usize),
            !final(self).confirm_cleanup,
            final(self).view_mode == ViewMode::Files,
            final(self).progress == (0usize, 0u64),
            final(self).scanning,
            final(self).disk == disk,
            *final(self) == (AppState {
                files: final(self).files,
                view: final(self).view,
                errors: final(self).errors,
                dup_groups: final(self).dup_groups,
                dup_progress: (0, 0),
                confirm_cleanup: false,
                view_mode: ViewMode::Files,
                progress: (0, 0),
                scanning: true,
                disk: disk,
                ..*old(self)
            }),
    {
        self.files = Arc::new(Vec::new());
        self.view.clear();
        self.errors.clear();
        self.dup_groups.clear();
        self.dup_progress = (0, 0);
        self.confirm_cleanup = false;
        self.view_mode = ViewMode::Files;
        self.progress = (0, 0);
        self.scanning = true;
        self.disk = disk;
    }

    /// Starts the targeted scan of `root_count` temp folders; with none found
    /// it only logs an error and returns `false`.
    pub fn begin_temp_cleanup(&mut self, root_count: usize, disk: Option<DiskInfo>) -> (started: bool)
        ensures
            started == (root_count > 0),
            !started ==> final(self).errors@ == old(self).errors@.push(final(self).errors@.last())
                && final(self).errors@.last()@ == "No common temp folders found."@
                && *final(self) == (AppState { errors: final(self).errors, ..*old(self) }),
            started ==> final(self).files@.len() == 0 && final(self).view@.len() == 0
                && final(self).errors@.len() == 0 && final(self).dup_groups@.len() == 0
                && *final(self) == (AppState {
                files: final(self).files,
                view: final(self).view,
                errors: final(self).errors,
                dup_groups: final(self).dup_groups,
                dup_progress: (0, 0),
                confirm_cleanup: false,
                view_mode: ViewMode::Cleanup,
                progress: (0, 0),
                scanning: true,
                disk: disk,
                ..*old(self)
            }),
    {
        if root_count == 0 {
            let ghost before = self.errors@;
            self.errors.push(String::from_str("No common temp folders found."));
            assert(self.errors@.drop_last() =~= before);
            return false;
        }
        self.begin_scan(disk);
        self.view_mode = ViewMode::Cleanup;
        true
    }

    /// Consumes the request, made at launch with the cleanup flag, to open the
    /// temp cleanup on the first frame: returns whether it was pending and
    /// clears it, so the caller starts the temp scan (`begin_temp_cleanup`)
    /// once.
    pub fn take_pending_cleanup(&mut self) -> (pending: bool)
        ensures
            pending == old(self).pending_cleanup,
            *final(self) == (AppState { pending_cleanup: false, ..*old(self) }),
    {
        let pending = self.pending_cleanup;
        self.pending_cleanup = false;
        pending
    }

    /// Whether a duplicate search may start now.
    pub fn can_find_dups(&self) -> (r: bool)
        ensures
            r == (self.files@.len() > 0 && !self.scanning && !self.finding_dups),
    {
        self.files.len() > 0 && !self.scanning && !self.finding_dups
    }

    /// Resets the duplicate results for a new search.
    pub fn begin_find_dups(&mut self)
        ensures
            final(self).dup_groups@.len() == 0,
            *final(self) == (AppState {
                dup_groups: final(self).dup_groups,
                dup_progress: (0, 0),
                finding_dups: true,
                ..*old(self)
            }),
    {
        self.dup_groups.clear();
        self.dup_progress = (0, 0);
        self.finding_dups = true;
    }

    /// Handles one message of the duplicate finder; returns whether it was
    /// the final one. Errors are logged while the log holds fewer than
    /// `ERROR_LOG_CAP` entries.
    pub fn on_dup_message(&mut self, msg: DupMessage) -> (done: bool)
        ensures
            done == (msg is Done),
            match msg {
                DupMessage::Progress { hashed, total } => *final(self) == (AppState {
                    dup_progress: (hashed, total),
                    ..*old(self)
                }),
                DupMessage::Error(e) => *final(self) == (AppState {
                    errors: final(self).errors,
                    ..*old(self)
                }) && (if old(self).errors@.len() < ERROR_LOG_CAP {
                    final(self).errors@ == old(self).errors@.push(e)
                } else {
                    final(self).errors@ == old(self).errors@
                }),
                DupMessage::Done(g) => *final(self) == (AppState { dup_groups: g, ..*old(self) }),
            },
    {
        match msg {
            DupMessage::Progress { hashed, total } => {
                self.dup_progress = (hashed, total);
                false
            },
            DupMessage::Error(e) => {
                if self.errors.len() < ERROR_LOG_CAP {
                    self.errors.push(e);
                }
                false
            },
            DupMessage::Done(groups) => {
                self.dup_groups = groups;
                true
            },
        }
    }

    /// After the final duplicate message: the search is over and the
    /// duplicates view opens.
    pub fn finish_dups(&mut self)
        ensures
            *final(self) == (AppState {
                finding_dups: false,
                view_mode: ViewMode::Duplicates,
                ..*old(self)
            }),
    {
        self.finding_dups = false;
        self.view_mode = ViewMode::Duplicates;
    }

    /// Handles one message of the scan; returns whether it was the final one
    /// (whose files become the master list, with their count and total size
    /// as the progress).
    pub fn on_scan_message(&mut self, msg: ScanMessage) -> (done: bool)
        requires
            scan_message_fits(msg),
        ensures
            done == (msg is Done),
            match msg {
                ScanMessage::Progress { scanned, bytes } => *final(self) == (AppState {
                    progress: (scanned, bytes),
                    ..*old(self)
                }),
                ScanMessage::Error(e) => *final(self) == (AppState {
                    errors: final(self).errors,
                    ..*old(self)
                }) && (if old(self).errors@.len() < ERROR_LOG_CAP {
                    final(self).errors@ == old(self).errors@.push(e)
                } else {
                    final(self).errors@ == old(self).errors@
                }),
                ScanMessage::Done(v) => final(self).files@ == v@ && *final(self) == (AppState {
                    files: final(self).files,
                    progress: (v@.len() as usize, files_total(v@) as u64),
                    ..*old(self)
                }),
            },
    {
        match msg {
            ScanMessage::Progress { scanned, bytes } => {
                self.progress = (scanned, bytes);
                false
            },
            ScanMessage::Error(e) => {
                // Cap the log so a pathological scan cannot grow it without bound.
                if self.errors.len() < ERROR_LOG_CAP {
                    self.errors.push(e);
                }
                false
            },
            ScanMessage::Done(files) => {
                let total = match checked_total(files.as_slice()) {
                    Some(t) => t,
                    None => 0,
                };
                self.progress = (files.len(), total);
                self.files = Arc::new(files);
                true
            },
        }
    }

    /// After the final scan message: the scan is over and the view is rebuilt.
    pub fn finish_scan(&mut self)
        requires
            age_in_range(old(self).filter),
        ensures
            !final(self).scanning,
            view_ok(final(self).view@, final(self).files@, final(self).filter, final(self).sort.0, final(self).sort.1),
            *final(self) == (AppState { scanning: false, view: final(self).view, ..*old(self) }),
    {
        self.scanning = false;
        self.rebuild_view();
    }

    /// A click on a column header: the same column flips the direction, a
    /// new column sorts ascending; the view is rebuilt.
    pub fn click_column(&mut self, key: SortKey)
        requires
            age_in_range(old(self).filter),
        ensures
            final(self).sort == next_sort(old(self).sort, key),
            view_ok(final(self).view@, final(self).files@, final(self).filter, final(self).sort.0, final(self).sort.1),
            *final(self) == (AppState {
                sort: final(self).sort,
                view: final(self).view,
                ..*old(self)
            }),
    {
        let (cur_key, cur_asc) = self.sort;
        self.sort = if cur_key == key {
            (key, !cur_asc)
        } else {
            (key, true)
        };
        self.rebuild_view();
    }

    /// Carries out the cleanup panel's request; returns whether the caller
    /// should relaunch elevated. After a cleanup the scan is cleared.
    pub fn on_cleanup_action(&mut self, action: CleanupAction) -> (relaunch: bool)
        ensures
            relaunch == (action == CleanupAction::Elevate),
            action == CleanupAction::Cleaned ==> final(self).files@.len() == 0
                && final(self).view@.len() == 0 && *final(self) == (AppState {
                files: final(self).files,
                view: final(self).view,
                ..*old(self)
            }),
            action != CleanupAction::Cleaned ==> *final(self) == *old(self),
    {
        match action {
            CleanupAction::Cleaned => {
                self.files = Arc::new(Vec::new());
                self.view.clear();
                false
            },
            CleanupAction::Elevate => true,
            CleanupAction::Idle => false,
        }
    }

    /// Logs a failed relaunch.
    pub fn relaunch_failed(&mut self, err: String)
        ensures
            final(self).errors@ == old(self).errors@.push(err),
            *final(self) == (AppState { errors: final(self).errors, ..*old(self) }),
    {
        self.errors.push(err);
    }
}

} // verus!
