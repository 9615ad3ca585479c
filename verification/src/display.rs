//! The texts that the monitor's screen is made of, apart from the CPU
//! percentages, which are floating point and formatted by the caller.
use vstd::prelude::*;
use crate::app::{App, AppState, InputMode, Key, Action, selected_row, key_handled, search_started, toggled_refresh, cycled_sort, kill_confirming};
use crate::format::{bytes_text, format_bytes, format_uptime, uptime_text};
use crate::process::{ProcInfo, SortBy};
use crate::text::{byte_len, is_boundary, char_pos, decimal, chars_of, boundary_at, push_str, push_decimal, utf8_len, char_index_at, string_of_range, lemma_byte_len_is_encoding_len};

verus! {

/// The name of a sort column in the header.
pub open spec fn sort_label_text(by: SortBy) -> Seq<char> {
    match by {
        SortBy::Cpu => "CPU"@,
        SortBy::Mem => "MEM"@,
        SortBy::Pid => "PID"@,
        SortBy::Name => "NAME"@,
    }
}

/// The header's name for the column `by`.
pub fn sort_label(by: SortBy) -> (r: &'static str)
    ensures
        r@ == sort_label_text(by),
{
    match by {
        SortBy::Cpu => "CPU",
        SortBy::Mem => "MEM",
        SortBy::Pid => "PID",
        SortBy::Name => "NAME",
    }
}

/// The arrow for the sort direction: down for highest first.
pub open spec fn sort_arrow_text(desc: bool) -> Seq<char> {
    if desc { "▼"@ } else { "▲"@ }
}

/// The header's arrow for the sort direction.
pub fn sort_arrow(desc: bool) -> (r: &'static str)
    ensures
        r@ == sort_arrow_text(desc),
{
    if desc { "▼" } else { "▲" }
}

/// The header's sort indicator, " [▼ CPU] ".
pub fn sort_indicator(by: SortBy, desc: bool) -> (r: String)
    ensures
        r@ == " ["@ + sort_arrow_text(desc) + " "@ + sort_label_text(by) + "] "@,
{
    let mut s = String::new();
    push_str(&mut s, " [");
    push_str(&mut s, sort_arrow(desc));
    push_str(&mut s, " ");
    push_str(&mut s, sort_label(by));
    push_str(&mut s, "] ");
    assert(s@ =~= " ["@ + sort_arrow_text(desc) + " "@ + sort_label_text(by) + "] "@);
    s
}

/// The header's process count, "123 procs  |  ".
pub fn process_count_text(count: usize) -> (r: String)
    ensures
        r@ == decimal(count as nat) + " procs  |  "@,
{
    let mut s = String::new();
    push_decimal(&mut s, count as u64);
    push_str(&mut s, " procs  |  ");
    assert(s@ =~= decimal(count as nat) + " procs  |  "@);
    s
}

/// The header's memory use, "MEM: 1.0 GB/8.0 GB  |  ".
pub fn memory_text(used: u64, total: u64) -> (r: String)
    ensures
        r@ == "MEM: "@ + bytes_text(used as nat) + "/"@ + bytes_text(total as nat) + "  |  "@,
{
    let mut s = String::new();
    push_str(&mut s, "MEM: ");
    push_str(&mut s, format_bytes(used).as_str());
    push_str(&mut s, "/");
    push_str(&mut s, format_bytes(total).as_str());
    push_str(&mut s, "  |  ");
    assert(s@ =~= "MEM: "@ + bytes_text(used as nat) + "/"@ + bytes_text(total as nat) + "  |  "@);
    s
}

/// The header's uptime, "UP: 01:02:03".
pub fn uptime_label(secs: u64) -> (r: String)
    ensures
        r@ == "UP: "@ + uptime_text(secs as nat),
{
    let mut s = String::new();
    push_str(&mut s, "UP: ");
    push_str(&mut s, format_uptime(secs).as_str());
    assert(s@ =~= "UP: "@ + uptime_text(secs as nat));
    s
}

/// The text that names a process: its command line, or its name when the
/// command line is empty.
pub open spec fn label_of(p: ProcInfo) -> Seq<char> {
    if p.cmd@.len() == 0 { p.name@ } else { p.cmd@ }
}

/// Cutting a label longer than 60 bytes at byte 57 panics unless a
/// character starts there.
pub open spec fn can_shorten(p: ProcInfo) -> bool {
    byte_len(label_of(p)) > 60 ==> is_boundary(label_of(p), 57)
}

/// The label shown in the table: cut to its first 57 bytes and "..." when
/// it is longer than 60 bytes.
pub open spec fn table_name_text(p: ProcInfo) -> Seq<char> {
    let l = label_of(p);
    if byte_len(l) > 60 {
        l.take(char_pos(l, 57)) + "..."@
    } else {
        l
    }
}

/// Whether `display_name` can show `p` (`can_shorten`).
pub fn name_can_be_shown(p: &ProcInfo) -> (r: bool)
    ensures
        r == can_shorten(*p),
{
    let label = if p.cmd.as_str().is_empty() { chars_of(p.name.as_str()) } else { chars_of(p.cmd.as_str()) };
    let n = utf8_len(&label);
    if n > 60 {
        boundary_at(&label, 57)
    } else {
        true
    }
}

/// The label of `p` as the table shows it.
pub fn display_name(p: &ProcInfo) -> (r: String)
    requires
        can_shorten(*p),
    ensures
        r@ == table_name_text(*p),
{
    let label = if p.cmd.as_str().is_empty() { chars_of(p.name.as_str()) } else { chars_of(p.cmd.as_str()) };
    let n = utf8_len(&label);
    if n > 60 {
        let k = char_index_at(&label, 57);
        let mut s = string_of_range(&label, 0, k);
        push_str(&mut s, "...");
        assert(label@.subrange(0, k as int) =~= label@.take(k as int));
        s
    } else {
        string_of_range(&label, 0, label.len())
    }
}

/// The details shown for the highlighted row, given its CPU usage already
/// formatted as `cpu_text`.
pub open spec fn details_text(p: ProcInfo, cpu_text: Seq<char>) -> Seq<char> {
    "PID: "@ + decimal(p.pid as nat) + "  |  CPU: "@ + cpu_text + "%  |  MEM: "@ + bytes_text(p.memory as nat)
        + "  |  Status: "@ + p.status@ + "\nCMD: "@ + label_of(p)
}

/// The details of `p`, with its CPU usage formatted as `cpu_text`.
pub fn proc_details(p: &ProcInfo, cpu_text: &str) -> (r: String)
    ensures
        r@ == details_text(*p, cpu_text@),
{
    let mut s = String::new();
    push_str(&mut s, "PID: ");
    push_decimal(&mut s, p.pid as u64);
    push_str(&mut s, "  |  CPU: ");
    push_str(&mut s, cpu_text);
    push_str(&mut s, "%  |  MEM: ");
    push_str(&mut s, format_bytes(p.memory).as_str());
    push_str(&mut s, "  |  Status: ");
    push_str(&mut s, p.status.as_str());
    push_str(&mut s, "\nCMD: ");
    if p.cmd.as_str().is_empty() {
        push_str(&mut s, p.name.as_str());
    } else {
        push_str(&mut s, p.cmd.as_str());
    }
    assert(s@ =~= details_text(*p, cpu_text@));
    s
}

/// The name shown in the kill confirmation: the highlighted row's name, or
/// nothing.
pub open spec fn kill_name_text(s: crate::app::AppState) -> Seq<char> {
    match selected_row(s) {
        Some(p) => p.name@,
        None => Seq::empty(),
    }
}

/// The name of the process that a kill would be asked about.
pub fn kill_target_name(app: &App) -> (r: String)
    ensures
        r@ == kill_name_text(app@),
{
    match app.selected_proc() {
        Some(p) => {
            let cs = chars_of(p.name.as_str());
            string_of_range(&cs, 0, cs.len())
        },
        None => String::new(),
    }
}

/// The byte offset where the search popup draws the cursor: the cursor,
/// or the end of the query when the cursor lies past it.
pub open spec fn cursor_shown_at(s: crate::app::AppState) -> int {
    if s.search_cursor <= byte_len(s.search_query) { s.search_cursor as int } else { byte_len(s.search_query) as int }
}

/// Splitting the query at the drawn cursor panics unless a character
/// starts there.
pub open spec fn can_split_query(s: crate::app::AppState) -> bool {
    is_boundary(s.search_query, cursor_shown_at(s))
}

/// Whether `query_around_cursor` can split the query (`can_split_query`).
pub fn query_can_be_split(app: &App) -> (r: bool)
    ensures
        r == can_split_query(app@),
{
    let q = app.search_query();
    proof {
        lemma_byte_len_is_encoding_len(q@);
    }
    let len = q.as_bytes().len();
    let at = if app.search_cursor() <= len { app.search_cursor() } else { len };
    let cs = chars_of(q);
    boundary_at(&cs, at)
}

/// Where a popup stands on a screen of `width` by `height` cells: a quarter
/// of the width in, a third of the height down, half the width wide and
/// `rows` tall, as `(x, y, width, height)`.
pub fn popup_area(width: u16, height: u16, rows: u16) -> (r: (u16, u16, u16, u16))
    ensures
        r == (width / 4, height / 3, width / 2, rows),
{
    (width / 4, height / 3, width / 2, rows)
}

/// The query before and after the drawn cursor.
pub fn query_around_cursor(app: &App) -> (r: (String, String))
    requires
        can_split_query(app@),
    ensures
        r.0@ == app@.search_query.take(char_pos(app@.search_query, cursor_shown_at(app@))),
        r.1@ == app@.search_query.skip(char_pos(app@.search_query, cursor_shown_at(app@))),
{
    let q = app.search_query();
    proof {
        lemma_byte_len_is_encoding_len(q@);
    }
    let len = q.as_bytes().len();
    let at = if app.search_cursor() <= len { app.search_cursor() } else { len };
    let cs = chars_of(q);
    let k = char_index_at(&cs, at);
    let before = string_of_range(&cs, 0, k);
    let after = string_of_range(&cs, k, cs.len());
    assert(cs@.subrange(0, k as int) =~= cs@.take(k as int));
    assert(cs@.subrange(k as int, cs.len() as int) =~= cs@.skip(k as int));
    (before, after)
}

/// How a footer hint is drawn.
#[derive(Clone, Copy, PartialEq, Eq, Structural, Debug)]
pub enum HintKind {
    /// Automatic refresh is on.
    AutoOn,
    /// Automatic refresh is off.
    AutoOff,
    /// A key name.
    Key,
    /// A key whose action is destructive.
    DangerKey,
    /// What a key does.
    Text,
}

/// One piece of the footer.
pub struct Hint {
    pub text: &'static str,
    pub kind: HintKind,
}

/// The footer's pieces in each input mode.
pub open spec fn footer_text(mode: InputMode, auto_refresh: bool) -> Seq<(Seq<char>, HintKind)> {
    match mode {
        InputMode::Normal => seq![
            if auto_refresh { ("[auto] "@, HintKind::AutoOn) } else { ("[manual] "@, HintKind::AutoOff) },
            ("↑/↓"@, HintKind::Key), (" nav  "@, HintKind::Text),
            ("s"@, HintKind::Key), (" search  "@, HintKind::Text),
            ("k"@, HintKind::Key), (" kill  "@, HintKind::Text),
            ("t"@, HintKind::Key), (" sort  "@, HintKind::Text),
            ("r"@, HintKind::Key), (" refresh  "@, HintKind::Text),
            ("R"@, HintKind::Key), (" toggle auto  "@, HintKind::Text),
            ("q"@, HintKind::Key), (" quit"@, HintKind::Text),
        ],
        InputMode::Searching => seq![
            ("Esc"@, HintKind::Key), (" cancel  "@, HintKind::Text),
            ("Enter"@, HintKind::Key), (" search"@, HintKind::Text),
        ],
        InputMode::ConfirmKill => seq![
            ("y"@, HintKind::DangerKey), (" kill  "@, HintKind::Text),
            ("Esc"@, HintKind::Key), (" cancel"@, HintKind::Text),
        ],
    }
}

/// The view of a list of hints.
pub open spec fn hints_view(h: Seq<Hint>) -> Seq<(Seq<char>, HintKind)> {
    h.map_values(|x: Hint| (x.text@, x.kind))
}

fn push_hint(v: &mut Vec<Hint>, text: &'static str, kind: HintKind)
    ensures
        hints_view(final(v)@) == hints_view(old(v)@).push((text@, kind)),
{
    v.push(Hint { text, kind });
    assert(hints_view(v@) =~= hints_view(old(v)@).push((text@, kind)));
}

/// The footer's pieces for the current input mode.
pub fn footer_hints(app: &App) -> (r: Vec<Hint>)
    ensures
        hints_view(r@) == footer_text(app@.input_mode, app@.auto_refresh),
{
    let mut v: Vec<Hint> = Vec::new();
    assert(hints_view(v@) =~= Seq::empty());
    match app.input_mode() {
        InputMode::Normal => {
            if app.auto_refresh() {
                push_hint(&mut v, "[auto] ", HintKind::AutoOn);
            } else {
                push_hint(&mut v, "[manual] ", HintKind::AutoOff);
            }
            push_hint(&mut v, "↑/↓", HintKind::Key);
            push_hint(&mut v, " nav  ", HintKind::Text);
            push_hint(&mut v, "s", HintKind::Key);
            push_hint(&mut v, " search  ", HintKind::Text);
            push_hint(&mut v, "k", HintKind::Key);
            push_hint(&mut v, " kill  ", HintKind::Text);
            push_hint(&mut v, "t", HintKind::Key);
            push_hint(&mut v, " sort  ", HintKind::Text);
            push_hint(&mut v, "r", HintKind::Key);
            push_hint(&mut v, " refresh  ", HintKind::Text);
            push_hint(&mut v, "R", HintKind::Key);
            push_hint(&mut v, " toggle auto  ", HintKind::Text);
            push_hint(&mut v, "q", HintKind::Key);
            push_hint(&mut v, " quit", HintKind::Text);
        },
        InputMode::Searching => {
            push_hint(&mut v, "Esc", HintKind::Key);
            push_hint(&mut v, " cancel  ", HintKind::Text);
            push_hint(&mut v, "Enter", HintKind::Key);
            push_hint(&mut v, " search", HintKind::Text);
        },
        InputMode::ConfirmKill => {
            push_hint(&mut v, "y", HintKind::DangerKey);
            push_hint(&mut v, " kill  ", HintKind::Text);
            push_hint(&mut v, "Esc", HintKind::Key);
            push_hint(&mut v, " cancel", HintKind::Text);
        },
    }
    assert(hints_view(v@) =~= footer_text(app@.input_mode, app@.auto_refresh));
    v
}

/// The key that a footer piece names: "Esc", "Enter", or the one character
/// of a one-character piece.
pub open spec fn named_key(text: Seq<char>) -> Key {
    if text == "Esc"@ {
        Key::Esc
    } else if text == "Enter"@ {
        Key::Enter
    } else if text.len() == 1 {
        Key::Char(text[0])
    } else {
        Key::Other
    }
}

/// In the kill confirmation the footer names 'y' before " kill  ", and the
/// key handler kills on it; it names a key before " cancel", and the key
/// handler leaves the confirmation on that key without killing.
pub proof fn lemma_kill_footer_names_handled_keys(s: AppState, t: AppState, act: Action)
    requires
        s.input_mode == InputMode::ConfirmKill,
    ensures
        footer_text(InputMode::ConfirmKill, s.auto_refresh).len() == 4,
        footer_text(InputMode::ConfirmKill, s.auto_refresh)[1].0 == " kill  "@,
        footer_text(InputMode::ConfirmKill, s.auto_refresh)[3].0 == " cancel"@,
        footer_text(InputMode::ConfirmKill, s.auto_refresh)[0].1 == HintKind::DangerKey,
        key_handled(s, named_key(footer_text(InputMode::ConfirmKill, s.auto_refresh)[0].0), true, t, act)
            ==> act == Action::Kill(s.selected_pid),
        key_handled(s, named_key(footer_text(InputMode::ConfirmKill, s.auto_refresh)[2].0), true, t, act)
            ==> t.input_mode == InputMode::Normal && act == Action::Nothing,
{
    reveal_strlit("y");
    reveal_strlit("Esc");
    reveal_strlit("Enter");
}

/// While a search is typed the footer names a key before " cancel  " on
/// which the handler cancels the search, and one before " search" on which
/// it submits it.
pub proof fn lemma_search_footer_names_handled_keys(s: AppState, t: AppState, act: Action)
    requires
        s.input_mode == InputMode::Searching,
    ensures
        footer_text(InputMode::Searching, s.auto_refresh).len() == 4,
        footer_text(InputMode::Searching, s.auto_refresh)[1].0 == " cancel  "@,
        footer_text(InputMode::Searching, s.auto_refresh)[3].0 == " search"@,
        key_handled(s, named_key(footer_text(InputMode::Searching, s.auto_refresh)[0].0), true, t, act)
            ==> act == Action::CancelSearch,
        key_handled(s, named_key(footer_text(InputMode::Searching, s.auto_refresh)[2].0), true, t, act)
            ==> act == Action::SubmitSearch,
{
    reveal_strlit("Esc");
    reveal_strlit("Enter");
    assert("Esc"@.len() == 3);
    assert("Enter"@.len() == 5);
    assert("Enter"@ != "Esc"@);
}

/// While browsing, each one-key piece of the footer names the key that does
/// what the piece after it says.
pub proof fn lemma_browse_footer_names_handled_keys(s: AppState, t: AppState, act: Action)
    requires
        s.input_mode == InputMode::Normal,
    ensures
        footer_text(InputMode::Normal, s.auto_refresh).len() == 15,
        footer_text(InputMode::Normal, s.auto_refresh)[4].0 == " search  "@,
        key_handled(s, named_key(footer_text(InputMode::Normal, s.auto_refresh)[3].0), true, t, act)
            ==> t == search_started(s),
        footer_text(InputMode::Normal, s.auto_refresh)[6].0 == " kill  "@,
        key_handled(s, named_key(footer_text(InputMode::Normal, s.auto_refresh)[5].0), true, t, act)
            ==> t == kill_confirming(s),
        footer_text(InputMode::Normal, s.auto_refresh)[8].0 == " sort  "@,
        key_handled(s, named_key(footer_text(InputMode::Normal, s.auto_refresh)[7].0), true, t, act)
            ==> cycled_sort(s, t),
        footer_text(InputMode::Normal, s.auto_refresh)[10].0 == " refresh  "@,
        key_handled(s, named_key(footer_text(InputMode::Normal, s.auto_refresh)[9].0), true, t, act)
            ==> act == Action::Refresh,
        footer_text(InputMode::Normal, s.auto_refresh)[12].0 == " toggle auto  "@,
        key_handled(s, named_key(footer_text(InputMode::Normal, s.auto_refresh)[11].0), true, t, act)
            ==> t == toggled_refresh(s),
        footer_text(InputMode::Normal, s.auto_refresh)[14].0 == " quit"@,
        key_handled(s, named_key(footer_text(InputMode::Normal, s.auto_refresh)[13].0), true, t, act)
            ==> t.should_quit,
        footer_text(InputMode::Normal, s.auto_refresh)[0].0 == (if s.auto_refresh { "[auto] "@ } else { "[manual] "@ }),
{
    reveal_strlit("s");
    reveal_strlit("k");
    reveal_strlit("t");
    reveal_strlit("r");
    reveal_strlit("R");
    reveal_strlit("q");
    reveal_strlit("Esc");
    reveal_strlit("Enter");
    assert("Esc"@.len() == 3);
    assert("Enter"@.len() == 5);
    assert("s"@.len() == 1 && "s"@[0] == 's' && "s"@ != "Esc"@ && "s"@ != "Enter"@);
    assert("k"@.len() == 1 && "k"@[0] == 'k' && "k"@ != "Esc"@ && "k"@ != "Enter"@);
    assert("t"@.len() == 1 && "t"@[0] == 't' && "t"@ != "Esc"@ && "t"@ != "Enter"@);
    assert("r"@.len() == 1 && "r"@[0] == 'r' && "r"@ != "Esc"@ && "r"@ != "Enter"@);
    assert("R"@.len() == 1 && "R"@[0] == 'R' && "R"@ != "Esc"@ && "R"@ != "Enter"@);
    assert("q"@.len() == 1 && "q"@[0] == 'q' && "q"@ != "Esc"@ && "q"@ != "Enter"@);
}

} // verus!
