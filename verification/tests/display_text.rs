use mutop::app::{App, InputMode};
use mutop::display::{
    display_name, footer_hints, kill_target_name, memory_text, proc_details, process_count_text,
    query_around_cursor, sort_arrow, sort_indicator, sort_label, uptime_label, HintKind,
};
use mutop::process::{ProcInfo, SortBy};

fn proc(pid: u32, name: &str, cmd: &str) -> ProcInfo {
    ProcInfo {
        pid,
        name: name.to_string(),
        cmd: cmd.to_string(),
        cpu_bits: 1.5f32.to_bits(),
        memory: 2048,
        status: "Run".to_string(),
    }
}

#[test]
fn header_texts() {
    assert_eq!(sort_label(SortBy::Cpu), "CPU");
    assert_eq!(sort_label(SortBy::Mem), "MEM");
    assert_eq!(sort_label(SortBy::Pid), "PID");
    assert_eq!(sort_label(SortBy::Name), "NAME");
    assert_eq!(sort_arrow(true), "▼");
    assert_eq!(sort_arrow(false), "▲");
    assert_eq!(sort_indicator(SortBy::Cpu, true), " [▼ CPU] ");
    assert_eq!(sort_indicator(SortBy::Name, false), " [▲ NAME] ");
    assert_eq!(process_count_text(312), "312 procs  |  ");
    assert_eq!(memory_text(1_073_741_824, 8 * 1_073_741_824), "MEM: 1.0 GB/8.0 GB  |  ");
    assert_eq!(uptime_label(3725), "UP: 01:02:05");
}

#[test]
fn table_name_prefers_command_line() {
    assert_eq!(display_name(&proc(1, "bash", "/bin/bash -l")), "/bin/bash -l");
    assert_eq!(display_name(&proc(1, "kworker", "")), "kworker");
}

#[test]
fn table_name_is_cut_past_sixty_bytes() {
    let sixty = "a".repeat(60);
    assert_eq!(display_name(&proc(1, "x", &sixty)), sixty);
    let long = "b".repeat(61);
    assert_eq!(display_name(&proc(1, "x", &long)), format!("{}...", "b".repeat(57)));
    let wide = format!("{}é{}", "c".repeat(55), "d".repeat(10));
    assert_eq!(display_name(&proc(1, "x", &wide)), format!("{}...", &wide[..57]));
}

#[test]
fn details_line() {
    let p = proc(42, "sleep", "");
    assert_eq!(
        proc_details(&p, "1.5"),
        "PID: 42  |  CPU: 1.5%  |  MEM: 2.0 KB  |  Status: Run\nCMD: sleep"
    );
    let q = proc(7, "python", "python3 app.py");
    assert_eq!(
        proc_details(&q, "0.0"),
        "PID: 7  |  CPU: 0.0%  |  MEM: 2.0 KB  |  Status: Run\nCMD: python3 app.py"
    );
}

#[test]
fn kill_name_of_selection() {
    let mut app = App::new(vec![proc(3, "nginx", "nginx: master")], 0);
    assert_eq!(kill_target_name(&app), "");
    app.next();
    assert_eq!(kill_target_name(&app), "nginx");
    app.select(Some(5));
    assert_eq!(kill_target_name(&app), "");
}

#[test]
fn query_split_at_cursor() {
    let mut app = App::new(Vec::new(), 0);
    app.start_search();
    for c in "abc".chars() {
        app.search_char(c);
    }
    app.search_left();
    assert_eq!(query_around_cursor(&app), ("ab".to_string(), "c".to_string()));
    app.search_left();
    app.search_left();
    assert_eq!(query_around_cursor(&app), ("".to_string(), "abc".to_string()));
}

#[test]
fn footer_for_each_mode() {
    let mut app = App::new(Vec::new(), 0);
    let texts = |app: &App| footer_hints(app).iter().map(|h| h.text).collect::<Vec<_>>().concat();
    assert_eq!(texts(&app), "[auto] ↑/↓ nav  s search  k kill  t sort  r refresh  R toggle auto  q quit");
    assert_eq!(footer_hints(&app)[0].kind, HintKind::AutoOn);
    app.toggle_refresh();
    assert_eq!(footer_hints(&app)[0].text, "[manual] ");
    assert_eq!(footer_hints(&app)[0].kind, HintKind::AutoOff);
    app.start_search();
    assert_eq!(app.input_mode(), InputMode::Searching);
    assert_eq!(texts(&app), "Esc cancel  Enter search");
}

#[test]
fn footer_in_kill_confirmation() {
    let mut app = App::new(vec![proc(3, "nginx", "")], 0);
    app.next();
    app.confirm_kill();
    let hints = footer_hints(&app);
    assert_eq!(hints.len(), 4);
    assert_eq!(hints[0].text, "y");
    assert_eq!(hints[0].kind, HintKind::DangerKey);
    assert_eq!(hints[3].text, " cancel");
}
