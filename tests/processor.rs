use strace_to_duckdb::processor::{extract_pid, process_id, scan_line, scan_lines, total_of, ProcessStats};

fn lines(text: &[&str]) -> Vec<String> {
    text.iter().map(|l| l.to_string()).collect()
}

const TINY: [&str; 10] = [
    "22:21:11.524157 execve(\"/usr/bin/true\", [\"true\"], 0x7ffc0d4ee0a8 /* 42 vars */) = 0 <0.000210>",
    "22:21:11.524519 access(\"/etc/ld-nix.so.preload\", R_OK) = -1 ENOENT (No such file or directory) <0.000030>",
    "22:21:11.524600 wait4(1387721 <unfinished ...>) = ?",
    "22:21:11.524449 brk(NULL) = 0x55edad95f000 <0.000004>",
    "22:21:11.524791 newfstatat(AT_FDCWD, \"/lib/\", {st_mode=S_IFDIR|0555, st_size=11, ...}, 0) = 0 <0.000006>",
    "22:21:11.524800 openat(AT_FDCWD, \"/etc/ld.so.cache\", O_RDONLY|O_CLOEXEC) = 3 <0.000011>",
    "22:21:11.524900 fstat(3, {st_mode=S_IFREG|0644, st_size=1234, ...}) = 0 <0.000003>",
    "22:21:11.525000 mmap(NULL, 1234, PROT_READ, MAP_PRIVATE, 3, 0) = 0x7f1234560000 <0.000005>",
    "22:21:11.525100 close(3) = 0 <0.000002>",
    "22:21:11.525200 exit_group(0) = ?",
];

#[test]
fn test_extract_pid() {
    assert_eq!(extract_pid("trace.12345"), Some(12345));
    assert_eq!(
        extract_pid("zoom-trace-20251110-222110.1387679"),
        Some(1387679)
    );
    assert_eq!(extract_pid("notrace"), None);
    assert_eq!(extract_pid("trace.txt"), None);
}

#[test]
fn pid_edge_cases() {
    assert_eq!(extract_pid("12"), Some(12));
    assert_eq!(extract_pid("a.b.-7"), Some(-7));
    assert_eq!(extract_pid("trace.2147483648"), None);
    assert_eq!(extract_pid("trace."), None);
    assert_eq!(process_id("trace.txt"), 0);
    assert_eq!(process_id("trace.42"), 42);
}

#[test]
fn tiny_fixture_scans_completely() {
    let scan = scan_lines(&lines(&TINY));
    assert_eq!(scan.stats.total_lines, 10);
    assert_eq!(scan.stats.parsed_lines, 10);
    assert_eq!(scan.stats.failed_lines, 0);
    assert_eq!(scan.events.len(), 10);
    let mut rows: Vec<(String, String)> = scan
        .events
        .iter()
        .map(|e| (e.timestamp.clone(), e.syscall.clone()))
        .collect();
    rows.sort();
    assert_eq!(rows[0].1, "execve");
    assert_eq!(rows[0].0, "22:21:11.524157");
}

#[test]
fn failed_lines_are_counted() {
    let scan = scan_lines(&lines(&["garbage", TINY[0], "", "x y"]));
    assert_eq!(scan.stats.total_lines, 4);
    assert_eq!(scan.stats.parsed_lines, 1);
    assert_eq!(scan.stats.failed_lines, 3);
    assert_eq!(scan.events.len(), 1);
    assert_eq!(scan.events[0].syscall, "execve");
}

#[test]
fn split_scans_add_up() {
    let mut all = lines(&TINY);
    all.push("not a trace line".to_string());
    let whole = scan_lines(&all);
    for cut in 0..=all.len() {
        let first = scan_lines(&all[..cut].to_vec());
        let second = scan_lines(&all[cut..].to_vec());
        let mut sum = first.stats;
        assert!(sum.can_merge(&second.stats));
        sum.merge(&second.stats);
        assert_eq!(sum, whole.stats);
        let mut events = first.events.clone();
        events.extend(second.events.clone());
        assert_eq!(events, whole.events);
    }
}

#[test]
fn totals_do_not_depend_on_order() {
    let a = scan_lines(&lines(&TINY[..3])).stats;
    let b = scan_lines(&lines(&["bad", TINY[5]])).stats;
    let c = scan_lines(&lines(&TINY[6..])).stats;
    let forward = total_of(&vec![a, b, c]);
    let backward = total_of(&vec![c, a, b]);
    assert_eq!(forward, backward);
    assert_eq!(forward.total_lines, 9);
    assert_eq!(forward.parsed_lines, 8);
    assert_eq!(forward.failed_lines, 1);
}

#[test]
fn scan_line_counts_one_line() {
    let mut stats = ProcessStats::new();
    assert!(scan_line(&mut stats, TINY[1]).is_some());
    assert!(scan_line(&mut stats, "nope").is_none());
    assert_eq!(stats.total_lines, 2);
    assert_eq!(stats.parsed_lines, 1);
    assert_eq!(stats.failed_lines, 1);
}

#[test]
fn merge_adds_times_and_detects_overflow() {
    let mut a = ProcessStats::new();
    a.time_reading = 5;
    let mut b = ProcessStats::new();
    b.time_reading = 7;
    b.time_db_insert = 3;
    a.merge(&b);
    assert_eq!(a.time_reading, 12);
    assert_eq!(a.time_db_insert, 3);
    let mut big = ProcessStats::new();
    big.total_lines = usize::MAX;
    let mut one = ProcessStats::new();
    one.total_lines = 1;
    assert!(!big.can_merge(&one));
    assert!(one.can_merge(&a));
}
