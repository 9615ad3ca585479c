use mutop::app::{Action, App, InputMode, Key};
use mutop::process::{ProcInfo, SortBy};

fn proc(pid: u32, name: &str, cmd: &str, cpu: f32, memory: u64) -> ProcInfo {
    ProcInfo {
        pid,
        name: name.to_string(),
        cmd: cmd.to_string(),
        cpu_bits: cpu.to_bits(),
        memory,
        status: "Sleep".to_string(),
    }
}

fn reading() -> Vec<ProcInfo> {
    vec![
        proc(100, "sshd", "/usr/sbin/sshd -D", 0.0, 6 << 20),
        proc(7, "postgres", "postgres: writer", 4.5, 120 << 20),
        proc(55, "vim", "vim notes.txt", 1.25, 20 << 20),
        proc(9, "top", "", 7.0, 3 << 20),
    ]
}

fn pids(app: &App) -> Vec<u32> {
    app.processes().iter().map(|p| p.pid).collect()
}

fn press(app: &mut App, key: Key) -> Action {
    app.handle_key(key, true)
}

#[test]
fn new_sorts_by_cpu_highest_first() {
    let app = App::new(reading(), 4242);
    assert_eq!(pids(&app), vec![9, 7, 55, 100]);
    assert_eq!(app.sort_by(), SortBy::Cpu);
    assert!(app.sort_desc());
    assert_eq!(app.input_mode(), InputMode::Normal);
    assert_eq!(app.selected(), None);
    assert!(app.auto_refresh());
    assert!(!app.should_quit());
    assert_eq!(app.uptime_secs(), 4242);
    assert_eq!(app.search_query(), "");
}

#[test]
fn next_and_previous_wrap() {
    let mut app = App::new(reading(), 0);
    app.next();
    assert_eq!(app.selected(), Some(0));
    app.next();
    app.next();
    app.next();
    assert_eq!(app.selected(), Some(3));
    app.next();
    assert_eq!(app.selected(), Some(0));
    app.previous();
    assert_eq!(app.selected(), Some(3));
    app.next();
    assert_eq!(app.selected(), Some(0));
}

#[test]
fn previous_from_nothing_selects_first() {
    let mut app = App::new(reading(), 0);
    app.previous();
    assert_eq!(app.selected(), Some(0));
}

#[test]
fn moving_in_an_empty_list_changes_nothing() {
    let mut app = App::new(Vec::new(), 0);
    app.next();
    assert_eq!(app.selected(), None);
    app.previous();
    assert_eq!(app.selected(), None);
}

#[test]
fn moving_down_once_per_row_wraps_around() {
    let mut app = App::new(reading(), 0);
    app.select(Some(2));
    for _ in 0..4 {
        app.next();
    }
    assert_eq!(app.selected(), Some(2));
}

#[test]
fn selection_past_the_end_wraps_to_top() {
    let mut app = App::new(reading(), 0);
    app.select(Some(10));
    app.next();
    assert_eq!(app.selected(), Some(0));
    app.select(Some(10));
    app.previous();
    assert_eq!(app.selected(), Some(9));
}

#[test]
fn cycle_sort_goes_through_columns_and_flips_direction() {
    let mut app = App::new(reading(), 0);
    app.cycle_sort();
    assert_eq!(app.sort_by(), SortBy::Mem);
    assert!(!app.sort_desc());
    assert_eq!(pids(&app), vec![9, 100, 55, 7]);
    app.cycle_sort();
    assert_eq!(app.sort_by(), SortBy::Pid);
    assert!(app.sort_desc());
    assert_eq!(pids(&app), vec![100, 55, 9, 7]);
    app.cycle_sort();
    assert_eq!(app.sort_by(), SortBy::Name);
    assert!(!app.sort_desc());
    assert_eq!(pids(&app), vec![7, 100, 9, 55]);
    app.cycle_sort();
    assert_eq!(app.sort_by(), SortBy::Cpu);
    assert!(app.sort_desc());
    assert_eq!(pids(&app), vec![9, 7, 55, 100]);
}

#[test]
fn search_editing() {
    let mut app = App::new(reading(), 0);
    app.start_search();
    assert_eq!(app.input_mode(), InputMode::Searching);
    for c in "vm".chars() {
        app.search_char(c);
    }
    assert_eq!(app.search_query(), "vm");
    app.search_left();
    app.search_char('i');
    assert_eq!(app.search_query(), "vim");
    assert_eq!(app.search_cursor(), 2);
    app.search_right();
    app.search_right();
    assert_eq!(app.search_cursor(), 3);
    app.search_backspace();
    assert_eq!(app.search_query(), "vi");
    app.search_left();
    app.search_left();
    app.search_left();
    assert_eq!(app.search_cursor(), 0);
    app.search_backspace();
    assert_eq!(app.search_query(), "vi");
}

#[test]
fn backspace_undoes_typing() {
    let mut app = App::new(reading(), 0);
    app.start_search();
    app.search_char('a');
    app.search_char('b');
    app.search_left();
    let query = app.search_query().to_string();
    let cursor = app.search_cursor();
    app.search_char('ß');
    assert_eq!(app.search_query(), "aßb");
    app.search_backspace();
    assert_eq!(app.search_query(), query);
    assert_eq!(app.search_cursor(), cursor);
}

#[test]
fn cursor_moves_cancel() {
    let mut app = App::new(reading(), 0);
    app.start_search();
    app.search_char('x');
    app.search_char('y');
    app.search_left();
    app.search_right();
    assert_eq!(app.search_cursor(), 2);
    app.search_left();
    app.search_left();
    app.search_right();
    app.search_left();
    assert_eq!(app.search_cursor(), 0);
}

#[test]
fn submit_search_filters_and_cancel_restores() {
    let mut app = App::new(reading(), 0);
    app.start_search();
    for c in "POST".chars() {
        app.search_char(c);
    }
    app.submit_search(reading(), 10);
    assert_eq!(app.input_mode(), InputMode::Normal);
    assert_eq!(pids(&app), vec![7]);
    assert_eq!(app.search_query(), "POST");
    app.start_search();
    app.search_char('5');
    app.submit_search(reading(), 11);
    assert_eq!(pids(&app), vec![55]);
    app.start_search();
    app.search_char('q');
    app.cancel_search(reading(), 12);
    assert_eq!(app.search_query(), "");
    assert_eq!(app.input_mode(), InputMode::Normal);
    assert_eq!(pids(&app), vec![9, 7, 55, 100]);
    assert_eq!(app.uptime_secs(), 12);
}

#[test]
fn refresh_keeps_order_and_query() {
    let mut app = App::new(reading(), 0);
    app.start_search();
    app.search_char('s');
    app.submit_search(reading(), 0);
    assert_eq!(pids(&app), vec![7, 55, 100]);
    let mut more = reading();
    more.push(proc(300, "systemd", "/sbin/init", 9.0, 10 << 20));
    app.refresh(more, 99);
    assert_eq!(pids(&app), vec![300, 7, 55, 100]);
    assert_eq!(app.uptime_secs(), 99);
}

#[test]
fn kill_flow() {
    let mut app = App::new(reading(), 0);
    app.confirm_kill();
    assert_eq!(app.input_mode(), InputMode::Normal);
    app.next();
    app.next();
    app.confirm_kill();
    assert_eq!(app.input_mode(), InputMode::ConfirmKill);
    assert_eq!(app.selected_pid(), 7);
    app.cancel_kill();
    assert_eq!(app.input_mode(), InputMode::Normal);
    assert_eq!(app.selected_pid(), 7);
    app.confirm_kill();
    let act = press(&mut app, Key::Char('y'));
    assert_eq!(act, Action::Kill(7));
    let rest: Vec<ProcInfo> = reading().into_iter().filter(|p| p.pid != 7).collect();
    app.execute_kill(rest, 5);
    assert_eq!(app.input_mode(), InputMode::Normal);
    assert_eq!(pids(&app), vec![9, 55, 100]);
}

#[test]
fn toggle_refresh_twice_restores() {
    let mut app = App::new(reading(), 0);
    app.toggle_refresh();
    assert!(!app.auto_refresh());
    assert_eq!(app.on_tick(), Action::Nothing);
    app.toggle_refresh();
    assert!(app.auto_refresh());
    assert_eq!(app.on_tick(), Action::Refresh);
}

#[test]
fn selected_proc_only_inside_the_list() {
    let mut app = App::new(reading(), 0);
    assert!(app.selected_proc().is_none());
    app.select(Some(1));
    assert_eq!(app.selected_proc().map(|p| p.pid), Some(7));
    app.select(Some(4));
    assert!(app.selected_proc().is_none());
}

#[test]
fn keys_in_normal_mode() {
    let mut app = App::new(reading(), 0);
    assert_eq!(press(&mut app, Key::Down), Action::Nothing);
    assert_eq!(app.selected(), Some(0));
    press(&mut app, Key::Char('j'));
    assert_eq!(app.selected(), Some(1));
    press(&mut app, Key::Up);
    assert_eq!(app.selected(), Some(0));
    assert_eq!(press(&mut app, Key::Char('r')), Action::Refresh);
    press(&mut app, Key::Char('t'));
    assert_eq!(app.sort_by(), SortBy::Mem);
    press(&mut app, Key::Char('R'));
    assert!(!app.auto_refresh());
    press(&mut app, Key::Char('x'));
    assert_eq!(app.input_mode(), InputMode::Normal);
    press(&mut app, Key::Char('k'));
    assert_eq!(app.input_mode(), InputMode::ConfirmKill);
    press(&mut app, Key::Esc);
    assert_eq!(app.input_mode(), InputMode::Normal);
    press(&mut app, Key::Char('q'));
    assert!(app.should_quit());
}

#[test]
fn keys_in_search_mode() {
    let mut app = App::new(reading(), 0);
    press(&mut app, Key::Char('s'));
    assert_eq!(app.input_mode(), InputMode::Searching);
    press(&mut app, Key::Char('q'));
    press(&mut app, Key::Char('t'));
    assert!(!app.should_quit());
    assert_eq!(app.search_query(), "qt");
    press(&mut app, Key::Left);
    press(&mut app, Key::Backspace);
    assert_eq!(app.search_query(), "t");
    press(&mut app, Key::Right);
    assert_eq!(app.search_cursor(), 1);
    assert_eq!(press(&mut app, Key::Enter), Action::SubmitSearch);
    assert_eq!(press(&mut app, Key::Esc), Action::CancelSearch);
    assert_eq!(app.input_mode(), InputMode::Searching);
}

#[test]
fn released_keys_do_nothing() {
    let mut app = App::new(reading(), 0);
    assert_eq!(app.handle_key(Key::Char('q'), false), Action::Nothing);
    assert!(!app.should_quit());
    assert_eq!(app.handle_key(Key::Down, false), Action::Nothing);
    assert_eq!(app.selected(), None);
}
