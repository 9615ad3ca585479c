use mutop::process::{
    cpu_bits_are_nan, cpu_order_key, filter_procs, proc_matches_query, query_matches, sort_procs, ProcInfo,
    SortBy,
};

fn proc(pid: u32, name: &str, cmd: &str, cpu: f32, memory: u64) -> ProcInfo {
    ProcInfo {
        pid,
        name: name.to_string(),
        cmd: cmd.to_string(),
        cpu_bits: cpu.to_bits(),
        memory,
        status: "Run".to_string(),
    }
}

fn pids(v: &[ProcInfo]) -> Vec<u32> {
    v.iter().map(|p| p.pid).collect()
}

fn sample() -> Vec<ProcInfo> {
    vec![
        proc(10, "bash", "/bin/bash", 0.5, 4096),
        proc(2, "Xorg", "/usr/lib/Xorg :0", 12.25, 1 << 28),
        proc(33, "cargo", "cargo build", 99.0, 1 << 30),
        proc(4, "zsh", "", 0.5, 4096),
        proc(15, "bash", "bash -l", 3.0, 8192),
    ]
}

#[test]
fn cpu_key_orders_like_floats() {
    let values: Vec<f32> = vec![
        f32::NEG_INFINITY, -1e30, -2.5, -1.0, -1e-40, -0.0, 0.0, 1e-40, 0.1, 0.5, 1.0, 12.25, 99.9, 1e30,
        f32::INFINITY,
    ];
    for a in &values {
        for b in &values {
            let ka = cpu_order_key(a.to_bits());
            let kb = cpu_order_key(b.to_bits());
            assert_eq!(ka.cmp(&kb), a.partial_cmp(b).unwrap(), "{} vs {}", a, b);
        }
    }
}

#[test]
fn cpu_nan_detection() {
    assert!(cpu_bits_are_nan(f32::NAN.to_bits()));
    assert!(cpu_bits_are_nan((-f32::NAN).to_bits()));
    assert!(!cpu_bits_are_nan(f32::INFINITY.to_bits()));
    assert!(!cpu_bits_are_nan(0.0f32.to_bits()));
    assert!(!cpu_bits_are_nan(42.0f32.to_bits()));
}

#[test]
fn sort_by_cpu_descending() {
    let out = sort_procs(sample(), SortBy::Cpu, true);
    assert_eq!(pids(&out), vec![33, 2, 15, 10, 4]);
}

#[test]
fn sort_by_cpu_ascending_is_stable() {
    let out = sort_procs(sample(), SortBy::Cpu, false);
    assert_eq!(pids(&out), vec![10, 4, 15, 2, 33]);
}

#[test]
fn sort_by_memory_keeps_ties_in_input_order() {
    let out = sort_procs(sample(), SortBy::Mem, true);
    assert_eq!(pids(&out), vec![33, 2, 15, 10, 4]);
    let out = sort_procs(sample(), SortBy::Mem, false);
    assert_eq!(pids(&out), vec![10, 4, 15, 2, 33]);
}

#[test]
fn sort_by_pid() {
    assert_eq!(pids(&sort_procs(sample(), SortBy::Pid, false)), vec![2, 4, 10, 15, 33]);
    assert_eq!(pids(&sort_procs(sample(), SortBy::Pid, true)), vec![33, 15, 10, 4, 2]);
}

#[test]
fn sort_by_name_is_bytewise_and_stable() {
    // "Xorg" sorts before lower-case names, as str's Ord does.
    assert_eq!(pids(&sort_procs(sample(), SortBy::Name, false)), vec![2, 10, 15, 33, 4]);
    assert_eq!(pids(&sort_procs(sample(), SortBy::Name, true)), vec![4, 33, 10, 15, 2]);
}

#[test]
fn sort_agrees_with_std_stable_sort() {
    let mut x: u32 = 12345;
    let mut v: Vec<ProcInfo> = Vec::new();
    let names = ["a", "b", "ab", "é", "Z", "", "ba"];
    for i in 0..60u32 {
        x = x.wrapping_mul(1_103_515_245).wrapping_add(12345);
        let cpu = ((x >> 8) % 7) as f32 * 0.5;
        let mem = ((x >> 4) % 5) as u64 * 1024;
        let name = names[((x >> 12) % names.len() as u32) as usize];
        v.push(proc(i, name, "", cpu, mem));
    }
    for by in [SortBy::Cpu, SortBy::Mem, SortBy::Pid, SortBy::Name] {
        for desc in [false, true] {
            let mut expected: Vec<(u32, f32, u64, String)> =
                v.iter().map(|p| (p.pid, f32::from_bits(p.cpu_bits), p.memory, p.name.clone())).collect();
            expected.sort_by(|a, b| {
                let (l, r) = if desc { (b, a) } else { (a, b) };
                match by {
                    SortBy::Cpu => l.1.partial_cmp(&r.1).unwrap(),
                    SortBy::Mem => l.2.cmp(&r.2),
                    SortBy::Pid => l.0.cmp(&r.0),
                    SortBy::Name => l.3.cmp(&r.3),
                }
            });
            let copy: Vec<ProcInfo> = v
                .iter()
                .map(|p| ProcInfo {
                    pid: p.pid,
                    name: p.name.clone(),
                    cmd: p.cmd.clone(),
                    cpu_bits: p.cpu_bits,
                    memory: p.memory,
                    status: p.status.clone(),
                })
                .collect();
            let out = sort_procs(copy, by, desc);
            assert_eq!(pids(&out), expected.iter().map(|e| e.0).collect::<Vec<_>>());
        }
    }
}

#[test]
fn sort_is_idempotent() {
    let once = sort_procs(sample(), SortBy::Name, false);
    let first = pids(&once);
    let twice = sort_procs(once, SortBy::Name, false);
    assert_eq!(pids(&twice), first);
}

#[test]
fn sort_edge_cases() {
    assert!(sort_procs(Vec::new(), SortBy::Cpu, true).is_empty());
    // A single row is never compared, so even a NaN usage is fine.
    let one = sort_procs(vec![proc(1, "x", "", f32::NAN, 0)], SortBy::Cpu, true);
    assert_eq!(pids(&one), vec![1]);
}

#[test]
fn query_matches_each_field() {
    assert!(query_matches("firefox", "/usr/bin/firefox", 10, "fox"));
    assert!(query_matches("bash", "/usr/bin/zsh -c", 10, "zsh"));
    assert!(query_matches("bash", "", 12345, "234"));
    assert!(!query_matches("bash", "", 12345, "999"));
    assert!(query_matches("bash", "", 1, ""));
    assert!(!query_matches("", "", 7, "77"));
}

#[test]
fn proc_match_ignores_case() {
    let p = proc(42, "Firefox", "/Usr/Bin/FIREFOX --new", 1.0, 0);
    assert!(proc_matches_query(&p, "FIRE"));
    assert!(proc_matches_query(&p, "bin/fire"));
    assert!(proc_matches_query(&p, "42"));
    assert!(!proc_matches_query(&p, "chrome"));
    let q = proc(1, "ÉCOLE", "", 0.0, 0);
    assert!(proc_matches_query(&q, "éco"));
}

#[test]
fn filter_keeps_matching_rows_in_order() {
    let out = filter_procs(sample(), "BASH");
    assert_eq!(pids(&out), vec![10, 15]);
    let out = filter_procs(sample(), "3");
    assert_eq!(pids(&out), vec![33]);
    let out = filter_procs(sample(), "");
    assert_eq!(pids(&out), vec![10, 2, 33, 4, 15]);
    let out = filter_procs(sample(), "nothing here");
    assert!(out.is_empty());
}

#[test]
fn filter_twice_is_filter_once() {
    let once = filter_procs(sample(), "b");
    let first = pids(&once);
    let twice = filter_procs(once, "b");
    assert_eq!(pids(&twice), first);
}
