//! The state of the process monitor and every change that a key press, a
//! timer tick or a fresh reading of the process table makes to it.
use vstd::prelude::*;
use crate::process::{ProcInfo, SortBy, sort_procs, filter_procs, can_sort, is_stable_sort, is_sorted, search_filter, sortable, proc_matches, lemma_stable_sort_rows, lemma_search_result};
use crate::text::{byte_len, is_boundary, boundary_at, chars_of, char_pos, string_insert, string_remove, lemma_boundary_char_pos, lemma_byte_len_is_encoding_len, lemma_char_width_range, lemma_byte_len_insert, lemma_prefix_is_boundary};

verus! {

/// What keys do at the moment.
#[derive(Clone, Copy, PartialEq, Eq, Structural, Debug)]
pub enum InputMode {
    /// Browsing the process list.
    Normal,
    /// Typing a search query.
    Searching,
    /// Asking whether to kill the selected process.
    ConfirmKill,
}

/// The monitor's state.
pub struct App {
    processes: Vec<ProcInfo>,
    selected: Option<usize>,
    sort_by: SortBy,
    input_mode: InputMode,
    search_query: String,
    search_cursor: usize,
    should_quit: bool,
    auto_refresh: bool,
    selected_pid: u32,
    sort_desc: bool,
    uptime_secs: u64,
}

/// The monitor's state as values: what the contracts speak of.
pub struct AppState {
    /// The rows shown, in display order.
    pub processes: Seq<ProcInfo>,
    /// The index of the highlighted row, if any (it may be past the end).
    pub selected: Option<usize>,
    pub sort_by: SortBy,
    pub input_mode: InputMode,
    pub search_query: Seq<char>,
    /// The search cursor, a byte offset into the query.
    pub search_cursor: usize,
    pub should_quit: bool,
    pub auto_refresh: bool,
    /// The pid that a confirmed kill is sent to.
    pub selected_pid: u32,
    pub sort_desc: bool,
    pub uptime_secs: u64,
}

impl View for App {
    type V = AppState;

    closed spec fn view(&self) -> AppState {
        AppState {
            processes: self.processes@,
            selected: self.selected,
            sort_by: self.sort_by,
            input_mode: self.input_mode,
            search_query: self.search_query@,
            search_cursor: self.search_cursor,
            should_quit: self.should_quit,
            auto_refresh: self.auto_refresh,
            selected_pid: self.selected_pid,
            sort_desc: self.sort_desc,
            uptime_secs: self.uptime_secs,
        }
    }
}

/// The state that the monitor starts from, before its first reading.
pub open spec fn initial_state() -> AppState {
    AppState {
        processes: Seq::empty(),
        selected: None,
        sort_by: SortBy::Cpu,
        input_mode: InputMode::Normal,
        search_query: Seq::empty(),
        search_cursor: 0,
        should_quit: false,
        auto_refresh: true,
        selected_pid: 0,
        sort_desc: true,
        uptime_secs: 0,
    }
}

/// `t` is `s` with its rows replaced by the stable sort of `procs` by `s`'s
/// column and direction, filtered by `s`'s search query.
pub open spec fn rows_from(s: AppState, procs: Seq<ProcInfo>, t: AppState) -> bool {
    exists|sorted: Seq<ProcInfo>|
        #[trigger] is_stable_sort(sorted, procs, s.sort_by, s.sort_desc) && t.processes == search_filter(sorted, s.search_query)
}

/// `t` is `s` after a refresh that read the rows `procs` and the uptime
/// `uptime`: everything else stays.
pub open spec fn refreshed(s: AppState, procs: Seq<ProcInfo>, uptime: u64, t: AppState) -> bool {
    &&& rows_from(s, procs, t)
    &&& t == AppState { processes: t.processes, uptime_secs: uptime, ..s }
}

/// `t` is `s` with its rows sorted by `s`'s column and direction.
pub open spec fn resorted(s: AppState, t: AppState) -> bool {
    &&& is_stable_sort(t.processes, s.processes, s.sort_by, s.sort_desc)
    &&& t == AppState { processes: t.processes, ..s }
}

/// `s` with its rows filtered by its search query.
pub open spec fn filtered(s: AppState) -> AppState {
    AppState { processes: search_filter(s.processes, s.search_query), ..s }
}

/// The selection after moving down one row, wrapping from the last row to
/// the first; nothing moves in an empty list.
pub open spec fn next_selection(sel: Option<usize>, len: nat) -> Option<usize> {
    if len == 0 {
        sel
    } else {
        match sel {
            Some(i) => if i >= len - 1 { Some(0usize) } else { Some((i + 1) as usize) },
            None => Some(0usize),
        }
    }
}

/// The selection after moving up one row, wrapping from the first row to
/// the last; nothing moves in an empty list.
pub open spec fn previous_selection(sel: Option<usize>, len: nat) -> Option<usize> {
    if len == 0 {
        sel
    } else {
        match sel {
            Some(i) => if i == 0 { Some((len - 1) as usize) } else { Some((i - 1) as usize) },
            None => Some(0usize),
        }
    }
}

/// The column after `by` in the cycle CPU, memory, pid, name.
pub open spec fn next_sort_by(by: SortBy) -> SortBy {
    match by {
        SortBy::Cpu => SortBy::Mem,
        SortBy::Mem => SortBy::Pid,
        SortBy::Pid => SortBy::Name,
        SortBy::Name => SortBy::Cpu,
    }
}

/// `t` is `s` after `cycle_sort`: the next column, the other direction, and
/// the rows sorted by them.
pub open spec fn cycled_sort(s: AppState, t: AppState) -> bool {
    resorted(AppState { sort_by: next_sort_by(s.sort_by), sort_desc: !s.sort_desc, ..s }, t)
}

/// `s` after `start_search`.
pub open spec fn search_started(s: AppState) -> AppState {
    AppState { input_mode: InputMode::Searching, search_query: Seq::empty(), search_cursor: 0, ..s }
}

/// `s` after `search_char(c)`: `c` inserted at the cursor, and the cursor one
/// byte further.
pub open spec fn char_typed(s: AppState, c: char) -> AppState {
    AppState {
        search_query: s.search_query.insert(char_pos(s.search_query, s.search_cursor as int), c),
        search_cursor: (s.search_cursor + 1) as usize,
        ..s
    }
}

/// `search_char(c)` panics unless the cursor is at a character boundary.
pub open spec fn can_type_char(s: AppState) -> bool {
    is_boundary(s.search_query, s.search_cursor as int)
}

/// `s` after `search_backspace`: the character that starts one byte before
/// the cursor removed, and the cursor moved back one byte.
pub open spec fn char_deleted(s: AppState) -> AppState {
    if s.search_cursor > 0 {
        AppState {
            search_query: s.search_query.remove(char_pos(s.search_query, s.search_cursor - 1)),
            search_cursor: (s.search_cursor - 1) as usize,
            ..s
        }
    } else {
        s
    }
}

/// `search_backspace` panics unless one byte before the cursor a character
/// of the query starts.
pub open spec fn can_delete_char(s: AppState) -> bool {
    s.search_cursor > 0 ==> is_boundary(s.search_query, s.search_cursor - 1) && s.search_cursor - 1 < byte_len(s.search_query)
}

/// `s` after `search_left`.
pub open spec fn cursor_left(s: AppState) -> AppState {
    if s.search_cursor > 0 {
        AppState { search_cursor: (s.search_cursor - 1) as usize, ..s }
    } else {
        s
    }
}

/// `s` after `search_right`: the cursor moves one byte while it is before
/// the end of the query.
pub open spec fn cursor_right(s: AppState) -> AppState {
    if s.search_cursor < byte_len(s.search_query) {
        AppState { search_cursor: (s.search_cursor + 1) as usize, ..s }
    } else {
        s
    }
}

/// The highlighted row, when the selection is inside the list.
pub open spec fn selected_row(s: AppState) -> Option<ProcInfo> {
    match s.selected {
        Some(i) => if i < s.processes.len() { Some(s.processes[i as int]) } else { None },
        None => None,
    }
}

/// `s` after `confirm_kill`: with a highlighted row, its pid is remembered and
/// confirmation is asked for.
pub open spec fn kill_confirming(s: AppState) -> AppState {
    match selected_row(s) {
        Some(p) => AppState { selected_pid: p.pid, input_mode: InputMode::ConfirmKill, ..s },
        None => s,
    }
}

/// `s` with the input mode `mode`.
pub open spec fn with_mode(s: AppState, mode: InputMode) -> AppState {
    AppState { input_mode: mode, ..s }
}

/// `s` after `toggle_refresh`.
pub open spec fn toggled_refresh(s: AppState) -> AppState {
    AppState { auto_refresh: !s.auto_refresh, ..s }
}

/// A key press, as the monitor tells keys apart.
#[derive(Clone, Copy, PartialEq, Eq, Structural, Debug)]
pub enum Key {
    Char(char),
    Up,
    Down,
    Left,
    Right,
    Enter,
    Esc,
    Backspace,
    Other,
}

/// Outside work that a key press or a tick calls for, which the caller
/// performs before it hands the outcome back.
#[derive(Clone, Copy, PartialEq, Eq, Structural, Debug)]
pub enum Action {
    /// Nothing more.
    Nothing,
    /// Read the process table and call `refresh`.
    Refresh,
    /// Read the process table and call `cancel_search`.
    CancelSearch,
    /// Read the process table and call `submit_search`.
    SubmitSearch,
    /// Kill this pid, then read the process table and call `execute_kill`.
    Kill(u32),
}

/// The key presses that `handle_key` can take without a panic in the
/// handler it dispatches to.
pub open spec fn key_allowed(s: AppState, key: Key, pressed: bool) -> bool {
    pressed ==> match s.input_mode {
        InputMode::Normal => key == Key::Char('t') ==> sortable(s.processes, next_sort_by(s.sort_by)),
        InputMode::Searching => match key {
            Key::Char(_) => can_type_char(s),
            Key::Backspace => can_delete_char(s),
            _ => true,
        },
        InputMode::ConfirmKill => true,
    }
}

/// `t` and `act` are the state and the action after `key` in state `s`; a
/// key that is released rather than pressed does nothing.
pub open spec fn key_handled(s: AppState, key: Key, pressed: bool, t: AppState, act: Action) -> bool {
    if !pressed {
        t == s && act == Action::Nothing
    } else {
        match s.input_mode {
            InputMode::Normal => {
                if key == Key::Char('t') {
                    cycled_sort(s, t) && act == Action::Nothing
                } else if key == Key::Char('r') {
                    t == s && act == Action::Refresh
                } else {
                    act == Action::Nothing && t == (
                        if key == Key::Char('q') {
                            AppState { should_quit: true, ..s }
                        } else if key == Key::Down || key == Key::Char('j') {
                            AppState { selected: next_selection(s.selected, s.processes.len()), ..s }
                        } else if key == Key::Up {
                            AppState { selected: previous_selection(s.selected, s.processes.len()), ..s }
                        } else if key == Key::Char('s') {
                            search_started(s)
                        } else if key == Key::Char('k') {
                            kill_confirming(s)
                        } else if key == Key::Char('R') {
                            toggled_refresh(s)
                        } else {
                            s
                        }
                    )
                }
            },
            InputMode::Searching => match key {
                Key::Esc => t == s && act == Action::CancelSearch,
                Key::Enter => t == s && act == Action::SubmitSearch,
                Key::Char(c) => t == char_typed(s, c) && act == Action::Nothing,
                Key::Backspace => t == char_deleted(s) && act == Action::Nothing,
                Key::Left => t == cursor_left(s) && act == Action::Nothing,
                Key::Right => t == cursor_right(s) && act == Action::Nothing,
                _ => t == s && act == Action::Nothing,
            },
            InputMode::ConfirmKill => {
                if key == Key::Char('y') {
                    t == s && act == Action::Kill(s.selected_pid)
                } else if key == Key::Esc {
                    t == with_mode(s, InputMode::Normal) && act == Action::Nothing
                } else {
                    t == s && act == Action::Nothing
                }
            },
        }
    }
}

impl App {
    /// A monitor that shows the rows `procs`, read with the uptime `uptime`,
    /// sorted by CPU usage, highest first.
    pub fn new(procs: Vec<ProcInfo>, uptime: u64) -> (app: App)
        requires
            sortable(procs@, SortBy::Cpu),
        ensures
            refreshed(initial_state(), procs@, uptime, app@),
    {
        let mut app = App {
            processes: Vec::new(),
            selected: None,
            sort_by: SortBy::Cpu,
            input_mode: InputMode::Normal,
            search_query: String::new(),
            search_cursor: 0,
            should_quit: false,
            auto_refresh: true,
            selected_pid: 0,
            sort_desc: true,
            uptime_secs: 0,
        };
        assert(app@ == initial_state());
        app.refresh(procs, uptime);
        app
    }

    /// Replaces the rows with `procs`, freshly read together with the
    /// uptime `uptime`, then sorts and filters them.
    pub fn refresh(&mut self, procs: Vec<ProcInfo>, uptime: u64)
        requires
            sortable(procs@, old(self)@.sort_by),
        ensures
            refreshed(old(self)@, procs@, uptime, final(self)@),
    {
        self.uptime_secs = uptime;
        self.processes = procs;
        let ghost unsorted = self@;
        self.sort();
        let ghost sorted = self@.processes;
        self.filter();
        assert(is_stable_sort(sorted, procs@, old(self)@.sort_by, old(self)@.sort_desc));
        assert(final(self)@.processes == search_filter(sorted, old(self)@.search_query));
    }

    /// Sorts the rows by the current column and direction, keeping rows
    /// with equal keys in their order.
    pub fn sort(&mut self)
        requires
            sortable(old(self)@.processes, old(self)@.sort_by),
        ensures
            resorted(old(self)@, final(self)@),
    {
        let mut procs: Vec<ProcInfo> = Vec::new();
        std::mem::swap(&mut procs, &mut self.processes);
        self.processes = sort_procs(procs, self.sort_by, self.sort_desc);
    }

    /// Keeps the rows that match the search query.
    pub fn filter(&mut self)
        ensures
            final(self)@ == filtered(old(self)@),
    {
        let mut procs: Vec<ProcInfo> = Vec::new();
        std::mem::swap(&mut procs, &mut self.processes);
        self.processes = filter_procs(procs, self.search_query.as_str());
    }

    /// Moves the highlight down one row, wrapping to the top.
    pub fn next(&mut self)
        ensures
            final(self)@ == (AppState { selected: next_selection(old(self)@.selected, old(self)@.processes.len()), ..old(self)@ }),
    {
        let len = self.processes.len();
        if len == 0 {
            return;
        }
        let i = match self.selected {
            Some(i) => if i >= len - 1 { 0 } else { i + 1 },
            None => 0,
        };
        self.selected = Some(i);
    }

    /// Moves the highlight up one row, wrapping to the bottom.
    pub fn previous(&mut self)
        ensures
            final(self)@ == (AppState { selected: previous_selection(old(self)@.selected, old(self)@.processes.len()), ..old(self)@ }),
    {
        let len = self.processes.len();
        if len == 0 {
            return;
        }
        let i = match self.selected {
            Some(i) => if i == 0 { len - 1 } else { i - 1 },
            None => 0,
        };
        self.selected = Some(i);
    }

    /// Sorts by the next column, in the other direction.
    pub fn cycle_sort(&mut self)
        requires
            sortable(old(self)@.processes, next_sort_by(old(self)@.sort_by)),
        ensures
            cycled_sort(old(self)@, final(self)@),
    {
        self.sort_by = match self.sort_by {
            SortBy::Cpu => SortBy::Mem,
            SortBy::Mem => SortBy::Pid,
            SortBy::Pid => SortBy::Name,
            SortBy::Name => SortBy::Cpu,
        };
        self.sort_desc = !self.sort_desc;
        self.sort();
    }

    /// Starts typing a new search query.
    pub fn start_search(&mut self)
        ensures
            final(self)@ == search_started(old(self)@),
    {
        self.input_mode = InputMode::Searching;
        self.search_query = String::new();
        self.search_cursor = 0;
    }

    /// Drops the search query and shows all of the rows `procs`, freshly
    /// read with the uptime `uptime`.
    pub fn cancel_search(&mut self, procs: Vec<ProcInfo>, uptime: u64)
        requires
            sortable(procs@, old(self)@.sort_by),
        ensures
            refreshed(AppState { input_mode: InputMode::Normal, search_query: Seq::empty(), ..old(self)@ }, procs@, uptime, final(self)@),
    {
        self.input_mode = InputMode::Normal;
        self.search_query = String::new();
        self.refresh(procs, uptime);
    }

    /// Ends typing and shows the rows of `procs`, freshly read with the
    /// uptime `uptime`, that match the query.
    pub fn submit_search(&mut self, procs: Vec<ProcInfo>, uptime: u64)
        requires
            sortable(procs@, old(self)@.sort_by),
        ensures
            refreshed(with_mode(old(self)@, InputMode::Normal), procs@, uptime, final(self)@),
    {
        self.input_mode = InputMode::Normal;
        self.refresh(procs, uptime);
    }

    /// Inserts `c` into the query at the cursor and moves the cursor one
    /// byte on.
    pub fn search_char(&mut self, c: char)
        requires
            can_type_char(old(self)@),
        ensures
            final(self)@ == char_typed(old(self)@, c),
    {
        string_insert(&mut self.search_query, self.search_cursor, c);
        proof {
            let q = old(self)@.search_query;
            let k = char_pos(q, old(self)@.search_cursor as int);
            lemma_boundary_char_pos(q, old(self)@.search_cursor as int);
            lemma_byte_len_insert(q, k, c);
            lemma_char_width_range(c);
        }
        self.search_cursor = self.search_cursor + 1;
    }

    /// Deletes the character that starts one byte before the cursor, and
    /// moves the cursor back one byte.
    pub fn search_backspace(&mut self)
        requires
            can_delete_char(old(self)@),
        ensures
            final(self)@ == char_deleted(old(self)@),
    {
        if self.search_cursor > 0 {
            string_remove(&mut self.search_query, self.search_cursor - 1);
            self.search_cursor = self.search_cursor - 1;
        }
    }

    /// Moves the cursor one byte left.
    pub fn search_left(&mut self)
        ensures
            final(self)@ == cursor_left(old(self)@),
    {
        if self.search_cursor > 0 {
            self.search_cursor = self.search_cursor - 1;
        }
    }

    /// Moves the cursor one byte right, up to the end of the query.
    pub fn search_right(&mut self)
        ensures
            final(self)@ == cursor_right(old(self)@),
    {
        proof {
            lemma_byte_len_is_encoding_len(self.search_query@);
        }
        let query_len = self.search_query.as_str().as_bytes().len();
        if self.search_cursor < query_len {
            self.search_cursor = self.search_cursor + 1;
        }
    }

    /// Asks to confirm killing the highlighted process, if there is one.
    pub fn confirm_kill(&mut self)
        ensures
            final(self)@ == kill_confirming(old(self)@),
    {
        if let Some(i) = self.selected {
            if i < self.processes.len() {
                self.selected_pid = self.processes[i].pid;
                self.input_mode = InputMode::ConfirmKill;
            }
        }
    }

    /// After the kill was sent: back to browsing, with the rows `procs` and
    /// the uptime `uptime` read afresh.
    pub fn execute_kill(&mut self, procs: Vec<ProcInfo>, uptime: u64)
        requires
            sortable(procs@, old(self)@.sort_by),
        ensures
            refreshed(with_mode(old(self)@, InputMode::Normal), procs@, uptime, final(self)@),
    {
        self.input_mode = InputMode::Normal;
        self.refresh(procs, uptime);
    }

    /// Leaves the kill confirmation without killing.
    pub fn cancel_kill(&mut self)
        ensures
            final(self)@ == with_mode(old(self)@, InputMode::Normal),
    {
        self.input_mode = InputMode::Normal;
    }

    /// Flips automatic refreshing on or off.
    pub fn toggle_refresh(&mut self)
        ensures
            final(self)@ == toggled_refresh(old(self)@),
    {
        self.auto_refresh = !self.auto_refresh;
    }

    /// Handles one key event: `pressed` tells a press from a release or
    /// repeat, which are ignored. Changes that need the process table read
    /// again, or a process killed, are returned as the action to take.
    pub fn handle_key(&mut self, key: Key, pressed: bool) -> (act: Action)
        requires
            key_allowed(old(self)@, key, pressed),
        ensures
            key_handled(old(self)@, key, pressed, final(self)@, act),
    {
        if !pressed {
            return Action::Nothing;
        }
        match self.input_mode {
            InputMode::Normal => match key {
                Key::Char('q') => {
                    self.should_quit = true;
                    Action::Nothing
                },
                Key::Down | Key::Char('j') => {
                    self.next();
                    Action::Nothing
                },
                Key::Up => {
                    self.previous();
                    Action::Nothing
                },
                Key::Char('r') => Action::Refresh,
                Key::Char('s') => {
                    self.start_search();
                    Action::Nothing
                },
                Key::Char('t') => {
                    self.cycle_sort();
                    Action::Nothing
                },
                Key::Char('k') => {
                    self.confirm_kill();
                    Action::Nothing
                },
                Key::Char('R') => {
                    self.toggle_refresh();
                    Action::Nothing
                },
                _ => Action::Nothing,
            },
            InputMode::Searching => match key {
                Key::Esc => Action::CancelSearch,
                Key::Enter => Action::SubmitSearch,
                Key::Char(c) => {
                    self.search_char(c);
                    Action::Nothing
                },
                Key::Backspace => {
                    self.search_backspace();
                    Action::Nothing
                },
                Key::Left => {
                    self.search_left();
                    Action::Nothing
                },
                Key::Right => {
                    self.search_right();
                    Action::Nothing
                },
                _ => Action::Nothing,
            },
            InputMode::ConfirmKill => match key {
                Key::Char('y') => Action::Kill(self.selected_pid),
                Key::Esc => {
                    self.cancel_kill();
                    Action::Nothing
                },
                _ => Action::Nothing,
            },
        }
    }

    /// Whether `handle_key` can take this key event (`key_allowed`): false
    /// exactly where the handler it dispatches to would panic.
    pub fn accepts_key(&self, key: Key, pressed: bool) -> (r: bool)
        ensures
            r == key_allowed(self@, key, pressed),
    {
        if !pressed {
            return true;
        }
        match self.input_mode {
            InputMode::Normal => match key {
                Key::Char('t') => {
                    let by = match self.sort_by {
                        SortBy::Cpu => SortBy::Mem,
                        SortBy::Mem => SortBy::Pid,
                        SortBy::Pid => SortBy::Name,
                        SortBy::Name => SortBy::Cpu,
                    };
                    can_sort(&self.processes, by)
                },
                _ => true,
            },
            InputMode::Searching => match key {
                Key::Char(_) => {
                    let cs = chars_of(self.search_query.as_str());
                    boundary_at(&cs, self.search_cursor)
                },
                Key::Backspace => {
                    if self.search_cursor == 0 {
                        true
                    } else {
                        let cs = chars_of(self.search_query.as_str());
                        proof {
                            lemma_byte_len_is_encoding_len(self.search_query@);
                        }
                        let len = self.search_query.as_str().as_bytes().len();
                        boundary_at(&cs, self.search_cursor - 1) && self.search_cursor - 1 < len
                    }
                },
                _ => true,
            },
            InputMode::ConfirmKill => true,
        }
    }

    /// What to do when no event came within the polling interval: refresh
    /// when automatic refreshing is on.
    pub fn on_tick(&self) -> (act: Action)
        ensures
            act == (if self@.auto_refresh { Action::Refresh } else { Action::Nothing }),
    {
        if self.auto_refresh {
            Action::Refresh
        } else {
            Action::Nothing
        }
    }

    /// Sets the highlighted row (as the table widget leaves it after
    /// drawing).
    pub fn select(&mut self, sel: Option<usize>)
        ensures
            final(self)@ == (AppState { selected: sel, ..old(self)@ }),
    {
        self.selected = sel;
    }

    /// The rows shown, in display order.
    pub fn processes(&self) -> (r: &Vec<ProcInfo>)
        ensures
            r@ == self@.processes,
    {
        &self.processes
    }

    /// The highlighted row index.
    pub fn selected(&self) -> (r: Option<usize>)
        ensures
            r == self@.selected,
    {
        self.selected
    }

    /// The column the rows are ordered by.
    pub fn sort_by(&self) -> (r: SortBy)
        ensures
            r == self@.sort_by,
    {
        self.sort_by
    }

    /// Whether the rows are ordered highest first.
    pub fn sort_desc(&self) -> (r: bool)
        ensures
            r == self@.sort_desc,
    {
        self.sort_desc
    }

    /// What keys do at the moment.
    pub fn input_mode(&self) -> (r: InputMode)
        ensures
            r == self@.input_mode,
    {
        self.input_mode
    }

    /// The search query.
    pub fn search_query(&self) -> (r: &str)
        ensures
            r@ == self@.search_query,
    {
        self.search_query.as_str()
    }

    /// The search cursor, a byte offset into the query.
    pub fn search_cursor(&self) -> (r: usize)
        ensures
            r == self@.search_cursor,
    {
        self.search_cursor
    }

    /// Whether the monitor should stop.
    pub fn should_quit(&self) -> (r: bool)
        ensures
            r == self@.should_quit,
    {
        self.should_quit
    }

    /// Whether the rows are read again when no key is pressed.
    pub fn auto_refresh(&self) -> (r: bool)
        ensures
            r == self@.auto_refresh,
    {
        self.auto_refresh
    }

    /// The pid that a confirmed kill is sent to.
    pub fn selected_pid(&self) -> (r: u32)
        ensures
            r == self@.selected_pid,
    {
        self.selected_pid
    }

    /// The system uptime read with the rows, in seconds.
    pub fn uptime_secs(&self) -> (r: u64)
        ensures
            r == self@.uptime_secs,
    {
        self.uptime_secs
    }

    /// The highlighted row, when the selection is inside the list.
    pub fn selected_proc(&self) -> (r: Option<&ProcInfo>)
        ensures
            r matches Some(p) ==> selected_row(self@) == Some(*p),
            r is None ==> selected_row(self@) is None,
    {
        match self.selected {
            Some(i) => if i < self.processes.len() { Some(&self.processes[i]) } else { None },
            None => None,
        }
    }
}

// ---------------------------------------------------------------------------
// Laws
// ---------------------------------------------------------------------------

/// Moving down and then up, or up and then down, returns the highlight to a
/// row that was inside the list.
pub proof fn lemma_next_then_previous(i: usize, len: nat)
    requires
        i < len <= usize::MAX,
    ensures
        previous_selection(next_selection(Some(i), len), len) == Some(i),
        next_selection(previous_selection(Some(i), len), len) == Some(i),
{
}

/// The selection after `k` moves down from `sel` in a list of `len` rows.
pub open spec fn moved_down(sel: Option<usize>, len: nat, k: nat) -> Option<usize>
    decreases k,
{
    if k == 0 {
        sel
    } else {
        next_selection(moved_down(sel, len, (k - 1) as nat), len)
    }
}

/// From a row inside the list, `k` moves down reach row `(i + k) % len`.
pub proof fn lemma_moved_down(i: usize, len: nat, k: nat)
    requires
        i < len <= usize::MAX,
    ensures
        moved_down(Some(i), len, k) == Some(((i + k) % (len as int)) as usize),
    decreases k,
{
    if k > 0 {
        lemma_moved_down(i, len, (k - 1) as nat);
        let j = (i + k - 1) % (len as int);
        assert(0 <= j < len);
        if j == len - 1 {
            assert((i + k) % (len as int) == 0) by (nonlinear_arith)
                requires
                    j == (i + k - 1) % (len as int),
                    j == len - 1,
                    len > 0,
                    i + k >= 1,
            ;
        } else {
            assert((i + k) % (len as int) == j + 1) by (nonlinear_arith)
                requires
                    j == (i + k - 1) % (len as int),
                    0 <= j < len - 1,
                    len > 0,
                    i + k >= 1,
            ;
        }
    } else {
        assert((i as int) % (len as int) == i) by (nonlinear_arith)
            requires
                i < len,
        ;
    }
}

/// Moving down once per row goes all the way round, back to the same row.
pub proof fn lemma_moving_down_wraps_around(i: usize, len: nat)
    requires
        i < len <= usize::MAX,
    ensures
        moved_down(Some(i), len, len) == Some(i),
{
    lemma_moved_down(i, len, len);
    assert((i as int + len) % (len as int) == i) by (nonlinear_arith)
        requires
            i < len,
    ;
}

/// Cycling the sort four times comes back to the same column and direction.
pub proof fn lemma_sort_cycle_period(by: SortBy, desc: bool)
    ensures
        next_sort_by(next_sort_by(next_sort_by(next_sort_by(by)))) == by,
        next_sort_by(by) != by,
        !!!!desc == desc,
{
}

/// Deleting right after typing a character undoes the typing, whatever the
/// character and wherever the cursor stood on a character boundary.
pub proof fn lemma_backspace_undoes_typing(s: AppState, c: char)
    requires
        can_type_char(s),
        byte_len(s.search_query) < usize::MAX,
    ensures
        can_delete_char(char_typed(s, c)),
        char_deleted(char_typed(s, c)) == s,
{
    let q = s.search_query;
    let k = char_pos(q, s.search_cursor as int);
    lemma_boundary_char_pos(q, s.search_cursor as int);
    let q2 = q.insert(k, c);
    lemma_byte_len_insert(q, k, c);
    lemma_char_width_range(c);
    assert(q2.take(k) =~= q.take(k));
    lemma_prefix_is_boundary(q2, k);
    assert(q2.remove(k) =~= q);
    let t = char_typed(s, c);
    assert(t.search_cursor - 1 == s.search_cursor);
}

/// Moving the cursor left then right, or right then left, inside the query
/// puts it back.
pub proof fn lemma_cursor_moves_cancel(s: AppState)
    requires
        byte_len(s.search_query) <= usize::MAX,
    ensures
        0 < s.search_cursor <= byte_len(s.search_query) ==> cursor_right(cursor_left(s)) == s,
        s.search_cursor < byte_len(s.search_query) ==> cursor_left(cursor_right(s)) == s,
{
}

/// Toggling automatic refresh twice changes nothing.
pub proof fn lemma_toggle_twice(s: AppState)
    ensures
        toggled_refresh(toggled_refresh(s)) == s,
{
}

/// Declining a kill leaves the state as it was before the confirmation was
/// asked for, except for the remembered pid.
pub proof fn lemma_declined_kill(s: AppState)
    requires
        s.input_mode == InputMode::Normal,
    ensures
        with_mode(kill_confirming(s), InputMode::Normal) == (AppState { selected_pid: kill_confirming(s).selected_pid, ..s }),
        selected_row(s) matches Some(p) ==> kill_confirming(s).selected_pid == p.pid,
{
}

/// Typing a query always starts from an empty query with the cursor at its
/// start.
pub proof fn lemma_search_starts_empty(s: AppState)
    ensures
        search_started(s).search_query.len() == 0,
        search_started(s).search_cursor == 0,
        can_type_char(search_started(s)),
{
}

/// After a refresh the list shows the rows of the reading that match the
/// search query, each matching row of the reading, and no other row, in the
/// order of the sort column.
pub proof fn lemma_refresh_shows_matches(s: AppState, procs: Seq<ProcInfo>, uptime: u64, t: AppState)
    requires
        refreshed(s, procs, uptime, t),
    ensures
        is_sorted(t.processes, s.sort_by, s.sort_desc),
        forall|i: int| 0 <= i < t.processes.len() ==> procs.contains(#[trigger] t.processes[i]),
        s.search_query.len() > 0 ==> forall|i: int| 0 <= i < t.processes.len() ==> proc_matches(#[trigger] t.processes[i], s.search_query),
        forall|j: int| 0 <= j < procs.len() && (s.search_query.len() == 0 || proc_matches(procs[j], s.search_query)) ==> t.processes.contains(#[trigger] procs[j]),
{
    let sorted = choose|sorted: Seq<ProcInfo>|
        #[trigger] is_stable_sort(sorted, procs, s.sort_by, s.sort_desc) && t.processes == search_filter(sorted, s.search_query);
    lemma_stable_sort_rows(sorted, procs, s.sort_by, s.sort_desc);
    lemma_search_result(sorted, s.search_query, s.sort_by, s.sort_desc);
    assert forall|i: int| 0 <= i < t.processes.len() implies procs.contains(#[trigger] t.processes[i]) by {
        assert(sorted.contains(t.processes[i]));
        let k = choose|k: int| 0 <= k < sorted.len() && sorted[k] == t.processes[i];
        assert(procs.contains(sorted[k]));
    }
    assert forall|j: int| 0 <= j < procs.len() && (s.search_query.len() == 0 || proc_matches(procs[j], s.search_query))
        implies t.processes.contains(#[trigger] procs[j]) by {
        assert(sorted.contains(procs[j]));
        let k = choose|k: int| 0 <= k < sorted.len() && sorted[k] == procs[j];
        assert(search_filter(sorted, s.search_query).contains(sorted[k]));
    }
}

/// Only 'y' in the kill confirmation kills, and it kills the confirmed
/// pid; Esc leaves the confirmation and every other key does nothing there.
pub proof fn lemma_kill_needs_y(s: AppState, key: Key, t: AppState, act: Action)
    requires
        s.input_mode == InputMode::ConfirmKill,
        key_handled(s, key, true, t, act),
    ensures
        act is Kill ==> key == Key::Char('y'),
        key == Key::Char('y') ==> act == Action::Kill(s.selected_pid) && t == s,
        key == Key::Esc ==> act == Action::Nothing && t.input_mode == InputMode::Normal
            && t == (AppState { input_mode: InputMode::Normal, ..s }),
        key != Key::Char('y') && key != Key::Esc ==> t == s && act == Action::Nothing,
{
}

/// Outside the kill confirmation no key kills; the process table is read
/// again only for 'r' while browsing and for Esc or Enter while typing a
/// search; and a released key never does anything.
pub proof fn lemma_actions_by_mode(s: AppState, key: Key, pressed: bool, t: AppState, act: Action)
    requires
        key_handled(s, key, pressed, t, act),
    ensures
        !pressed ==> t == s && act == Action::Nothing,
        act is Kill ==> pressed && s.input_mode == InputMode::ConfirmKill && key == Key::Char('y'),
        act == Action::Refresh ==> pressed && s.input_mode == InputMode::Normal && key == Key::Char('r'),
        act == Action::CancelSearch ==> pressed && s.input_mode == InputMode::Searching && key == Key::Esc,
        act == Action::SubmitSearch ==> pressed && s.input_mode == InputMode::Searching && key == Key::Enter,
{
}

/// While browsing, Down and 'j' move the highlight down and Up moves it
/// up; while typing a search, a character is typed, Backspace deletes and
/// Left and Right move the cursor; none of these needs outside work.
pub proof fn lemma_editing_and_navigation_keys(s: AppState, key: Key, t: AppState, act: Action)
    requires
        key_handled(s, key, true, t, act),
    ensures
        s.input_mode == InputMode::Normal && (key == Key::Down || key == Key::Char('j')) ==> act == Action::Nothing
            && t == (AppState { selected: next_selection(s.selected, s.processes.len()), ..s }),
        s.input_mode == InputMode::Normal && key == Key::Up ==> act == Action::Nothing
            && t == (AppState { selected: previous_selection(s.selected, s.processes.len()), ..s }),
        s.input_mode == InputMode::Normal && key == Key::Char('q') ==> t.should_quit && act == Action::Nothing,
        s.input_mode == InputMode::Searching ==> (key matches Key::Char(c) ==> t == char_typed(s, c) && act == Action::Nothing),
        s.input_mode == InputMode::Searching && key == Key::Backspace ==> t == char_deleted(s) && act == Action::Nothing,
        s.input_mode == InputMode::Searching && key == Key::Left ==> t == cursor_left(s),
        s.input_mode == InputMode::Searching && key == Key::Right ==> t == cursor_right(s),
{
}

} // verus!
