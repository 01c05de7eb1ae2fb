use strace_to_duckdb::parser::{parse_line, parse_regular, parse_resumed, parse_unfinished};
use strace_to_duckdb::types::DecimalSeconds;

fn seconds(d: Option<DecimalSeconds>) -> Option<f64> {
    d.map(|d| d.mantissa as f64 / 10f64.powi(d.scale as i32))
}

#[test]
fn test_parse_regular_simple_success() {
    let line = "22:21:11.524449 brk(NULL) = 0x55edad95f000 <0.000004>";
    let result = parse_regular(line);

    assert!(result.is_some(), "Should parse simple success line");
    let syscall = result.unwrap();

    assert_eq!(syscall.timestamp, "22:21:11.524449");
    assert_eq!(syscall.syscall, "brk");
    assert_eq!(syscall.args, "NULL");
    assert_eq!(syscall.return_value, Some(0x55edad95f000_i64));
    assert_eq!(seconds(syscall.duration), Some(0.000004));
    assert_eq!(syscall.error_code, None);
    assert_eq!(syscall.error_message, None);
    assert!(!syscall.unfinished);
    assert!(!syscall.resumed);
}

#[test]
fn test_parse_regular_with_error() {
    let line = r#"22:21:11.524519 access("/etc/ld-nix.so.preload", R_OK) = -1 ENOENT (No such file or directory) <0.000030>"#;
    let result = parse_regular(line);

    assert!(result.is_some(), "Should parse error line");
    let syscall = result.unwrap();

    assert_eq!(syscall.timestamp, "22:21:11.524519");
    assert_eq!(syscall.syscall, "access");
    assert_eq!(syscall.args, r#""/etc/ld-nix.so.preload", R_OK"#);
    assert_eq!(syscall.return_value, Some(-1));
    assert_eq!(syscall.error_code, Some("ENOENT".to_string()));
    assert_eq!(
        syscall.error_message,
        Some("No such file or directory".to_string())
    );
    assert_eq!(seconds(syscall.duration), Some(0.000030));
}

#[test]
fn test_parse_regular_complex_args() {
    let line = r#"22:21:11.524791 newfstatat(AT_FDCWD, "/nix/store/ga8daf4c0airy2v5akmg3lcv5saik7nf-pipewire-1.4.9-jack/lib/", {st_mode=S_IFDIR|0555, st_size=11, ...}, 0) = 0 <0.000006>"#;
    let result = parse_regular(line);

    assert!(result.is_some(), "Should parse complex args");
    let syscall = result.unwrap();

    assert_eq!(syscall.timestamp, "22:21:11.524791");
    assert_eq!(syscall.syscall, "newfstatat");
    assert_eq!(
        syscall.args,
        r#"AT_FDCWD, "/nix/store/ga8daf4c0airy2v5akmg3lcv5saik7nf-pipewire-1.4.9-jack/lib/", {st_mode=S_IFDIR|0555, st_size=11, ...}, 0"#
    );
    assert_eq!(syscall.return_value, Some(0));
    assert_eq!(syscall.error_code, None);
    assert_eq!(seconds(syscall.duration), Some(0.000006));
}

#[test]
fn test_parse_line_tries_all_formats() {
    let line = "22:21:11.524449 brk(NULL) = 0x55edad95f000 <0.000004>";
    let result = parse_line(line);
    assert!(result.is_some(), "parse_line should use parse_regular");
}

#[test]
fn test_parse_invalid_line_returns_none() {
    let line = "This is not a valid strace line";
    let result = parse_line(line);
    assert!(result.is_none(), "Should return None for invalid lines");
}

#[test]
fn test_parse_unfinished() {
    let line = "22:21:24.927885 poll([{fd=8, events=POLLIN}, {fd=7, events=POLLIN}], 2, -1 <unfinished ...>) = ?";
    let result = parse_unfinished(line);

    assert!(result.is_some(), "Should parse unfinished line");
    let syscall = result.unwrap();

    assert_eq!(syscall.timestamp, "22:21:24.927885");
    assert_eq!(syscall.syscall, "poll");
    assert_eq!(
        syscall.args,
        "[{fd=8, events=POLLIN}, {fd=7, events=POLLIN}], 2, -1"
    );
    assert_eq!(syscall.return_value, None);
    assert_eq!(syscall.duration, None);
    assert!(syscall.unfinished);
    assert!(!syscall.resumed);
}

#[test]
fn test_parse_unfinished_simple() {
    let line = "22:21:24.927885 wait4(1387721 <unfinished ...>) = ?";
    let result = parse_unfinished(line);

    assert!(result.is_some(), "Should parse simple unfinished line");
    let syscall = result.unwrap();

    assert_eq!(syscall.timestamp, "22:21:24.927885");
    assert_eq!(syscall.syscall, "wait4");
    assert_eq!(syscall.args, "1387721");
    assert!(syscall.unfinished);
}

#[test]
fn test_parse_line_tries_unfinished() {
    let line = "22:21:24.927885 poll([{fd=8}], 2, -1 <unfinished ...>) = ?";
    let result = parse_line(line);

    assert!(result.is_some(), "parse_line should handle unfinished");
    let syscall = result.unwrap();
    assert!(syscall.unfinished);
}

#[test]
fn resumed_line_names_the_call() {
    let line = "22:21:24.930001 <... wait4 resumed>[{WIFEXITED(s) && WEXITSTATUS(s) == 0}], 0, NULL) = 1387721 <0.002116>";
    let e = parse_line(line).expect("resumed line parses");
    assert!(e.resumed);
    assert!(!e.unfinished);
    assert_eq!(e.timestamp, "22:21:24.930001");
    assert_eq!(e.syscall, "wait4");
    assert_eq!(e.args, "[{WIFEXITED(s");
    assert_eq!(e.return_value, Some(1387721));
    assert_eq!(e.duration, Some(DecimalSeconds { mantissa: 2116, scale: 6 }));
    assert_eq!(parse_resumed(line), Some(e));
}

#[test]
fn resumed_parser_ignores_other_lines() {
    assert_eq!(parse_resumed("22:21:11.524449 brk(NULL) = 0 <0.000004>"), None);
    assert_eq!(parse_resumed("22:21:11.524449 <... read resumed>\"x\", 1)"), None);
}

#[test]
fn regular_decimal_return_and_duration() {
    let e = parse_line("12:00:00.000001 close(3) = 0 <0.000005>").unwrap();
    assert_eq!(e.return_value, Some(0));
    assert_eq!(e.duration, Some(DecimalSeconds { mantissa: 5, scale: 6 }));
    assert!(!e.unfinished && !e.resumed);
    let e = parse_line("12:00:00.000002 read(3, \"abc\", 832) = 832 <1.250000>").unwrap();
    assert_eq!(e.return_value, Some(832));
    assert_eq!(seconds(e.duration), Some(1.25));
    assert_eq!(e.args, "3, \"abc\", 832");
}

#[test]
fn unfinished_line_has_no_result() {
    let e = parse_line("22:21:24.927885 read(5,  <unfinished ...>) = ?").unwrap();
    assert!(e.unfinished && !e.resumed);
    assert_eq!(e.args, "5,");
    assert_eq!(e.return_value, None);
    assert_eq!(e.duration, None);
    assert_eq!(e.error_code, None);
}

#[test]
fn lines_without_markers_give_nothing() {
    assert!(parse_line("").is_none());
    assert!(parse_line("22:21:11.524449").is_none());
    assert!(parse_line("22:21:11.524449 brk NULL = 0").is_none());
    assert!(parse_line("22:21:11.524449 +++ exited with 0 +++").is_none());
    assert!(parse_line("22:21:11.524449 brk(NULL) 0 <0.1>").is_none());
}

#[test]
fn hexadecimal_return_values() {
    let e = parse_line("1 brk(NULL) = 0x55edad95f000").unwrap();
    assert_eq!(e.return_value, Some(94479307894784));
    assert_eq!(e.duration, None);
    let e = parse_line("1 f(x) = -0x10 <0.1>").unwrap();
    assert_eq!(e.return_value, Some(-16));
    let e = parse_line("1 f(x) = 0xFFFFFFFFFFFFFFFF").unwrap();
    assert_eq!(e.return_value, None);
    let e = parse_line("1 f(x) = 0x7fffffffffffffff").unwrap();
    assert_eq!(e.return_value, Some(i64::MAX));
}

#[test]
fn decimal_return_value_bounds() {
    assert_eq!(parse_line("1 f() = -9223372036854775808").unwrap().return_value, Some(i64::MIN));
    assert_eq!(parse_line("1 f() = 9223372036854775808").unwrap().return_value, None);
    assert_eq!(parse_line("1 f() = ?").unwrap().return_value, None);
    assert_eq!(parse_line("1 f() = +7").unwrap().return_value, Some(7));
}

#[test]
fn error_code_with_and_without_message() {
    let e = parse_line("1 open(\"/x\", O_RDONLY) = -1 ENOENT (No such file or directory)").unwrap();
    assert_eq!(e.return_value, Some(-1));
    assert_eq!(e.error_code, Some("ENOENT".to_string()));
    assert_eq!(e.error_message, Some("No such file or directory".to_string()));
    let e = parse_line("1 open(\"/x\", O_RDONLY) = -1 ENOENT").unwrap();
    assert_eq!(e.return_value, Some(-1));
    assert_eq!(e.error_code, Some("ENOENT".to_string()));
    assert_eq!(e.error_message, None);
}

#[test]
fn unclosed_message_rejects_the_line() {
    assert!(parse_line("1 f(x) = -1 EINTR (Interrupted").is_none());
    assert!(parse_line("1 f(x) = 0 <0.1").is_none());
}

#[test]
fn first_closing_paren_ends_arguments() {
    assert!(parse_line("1 f(a(b), c) = 0").is_none());
    let e = parse_line("1 f(a(b) = 0").unwrap();
    assert_eq!(e.args, "a(b");
    assert_eq!(e.syscall, "f");
}
