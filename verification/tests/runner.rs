use flashboy::runner::{
    compiler_candidate, compile_args, compile_failure_message, is_gcc, judge_exit, normalize, HOMEBREW_GXX12, TLE_SECS,
};
use flashboy::store::Verdict;

#[test]
fn normalize_trims_line_ends_and_trailing_blank() {
    assert_eq!(normalize("1  \r\n2\n\n"), "1\n2");
    assert_eq!(normalize("ok\n"), "ok");
}

#[test]
fn normalize_handles_lone_carriage_returns_and_blank_lines() {
    assert_eq!(normalize("a\rb\r"), "a\nb");
    assert_eq!(normalize(""), "");
    assert_eq!(normalize("\n\n \t\n"), "");
    assert_eq!(normalize("\n x"), "\n x");
    assert_eq!(normalize("a\r\r\nb"), "a\n\nb");
    assert_eq!(normalize("x\u{a0}\ny"), "x\ny");
}

#[test]
fn normalize_is_idempotent_on_examples() {
    for s in ["1  \r\n2\n\n", "a\rb\r", " lead\ntrail  \n\n", "\n\nx\n"] {
        let once = normalize(s);
        assert_eq!(normalize(&once), once);
    }
}

#[test]
fn trailing_whitespace_does_not_change_normal_form() {
    for s in ["5", "5\n", "a b", "x\r", ""] {
        for c in [" ", "\n", "\r", "\t"] {
            let longer = format!("{s}{c}");
            assert_eq!(normalize(&longer), normalize(s));
        }
    }
}

#[test]
fn judge_passes_when_outputs_match_after_normalising() {
    let r = judge_exit(true, Some(0), 12, "5  \r\n".to_string(), String::new(), Some("5\n"));
    assert_eq!(r.verdict, Verdict::Pass);
    assert_eq!(r.duration_ns, 12);
    assert_eq!(r.exit_code, Some(0));
    assert_eq!(r.stdout, "5  \r\n");
}

#[test]
fn judge_fails_on_different_output() {
    let r = judge_exit(true, Some(0), 1, "5\n".to_string(), String::new(), Some("0\n"));
    assert_eq!(r.verdict, Verdict::Fail);
}

#[test]
fn judge_without_expected_only_runs() {
    let r = judge_exit(true, Some(0), 1, "30\n".to_string(), "warn".to_string(), None);
    assert_eq!(r.verdict, Verdict::Ran);
    assert_eq!(r.stderr, "warn");
}

#[test]
fn judge_failing_exit_is_runtime_error() {
    let r = judge_exit(false, Some(1), 1, String::new(), String::new(), Some(""));
    assert_eq!(r.verdict, Verdict::Runtime);
    assert_eq!(r.exit_code, Some(1));
    let killed = judge_exit(false, None, 1, String::new(), String::new(), None);
    assert_eq!(killed.verdict, Verdict::Runtime);
}

#[test]
fn gcc_driver_names() {
    assert!(is_gcc("gcc"));
    assert!(is_gcc("gcc-13"));
    assert!(!is_gcc("g++-12"));
    assert!(!is_gcc("gc"));
    assert!(!is_gcc("clang++"));
}

#[test]
fn compile_args_for_gxx() {
    let args = compile_args(HOMEBREW_GXX12, "/src/a.cpp", "/tmp/bin");
    assert_eq!(args, vec!["-std=c++17", "-O2", "-pipe", "/src/a.cpp", "-o", "/tmp/bin"]);
}

#[test]
fn compile_args_for_gcc_adds_language_and_libraries() {
    let args = compile_args("/usr/bin/gcc", "a.cpp", "out");
    assert_eq!(
        args,
        vec!["-std=c++17", "-O2", "-pipe", "-x", "c++", "a.cpp", "-o", "out", "-lstdc++", "-lm"]
    );
    let args = compile_args("gcc-12", "a.cpp", "out");
    assert_eq!(args.len(), 10);
}

#[test]
fn compile_failure_prefers_stderr() {
    assert_eq!(compile_failure_message("  error: x\n", "out"), "error: x");
    assert_eq!(compile_failure_message(" \n", "  only stdout \n"), "only stdout");
    assert_eq!(compile_failure_message("", ""), "");
}

#[test]
fn limits() {
    assert_eq!(TLE_SECS, 5);
    assert_eq!(HOMEBREW_GXX12, "/opt/homebrew/bin/g++-12");
}

#[test]
fn compiler_candidates_in_order() {
    assert_eq!(compiler_candidate(0), Some(HOMEBREW_GXX12));
    assert_eq!(compiler_candidate(3), Some("g++"));
    assert_eq!(compiler_candidate(6), Some("gcc"));
    assert_eq!(compiler_candidate(7), None);
}

#[test]
fn crlf_line_breaks_do_not_change_normal_form() {
    for s in ["1\n2\n", "a  \n\nb", "", "\n", "x"] {
        let crlf = s.replace('\n', "\r\n");
        assert_eq!(normalize(&crlf), normalize(s));
    }
}

#[test]
fn whitespace_runs_at_the_end_are_ignored() {
    assert_eq!(normalize("1"), "1");
    assert_eq!(normalize("1 \t\r\n \u{3000}\n\n"), "1");
    let r = judge_exit(true, Some(0), 1, "42\t\t\n\n".to_string(), String::new(), Some("42"));
    assert_eq!(r.verdict, Verdict::Pass);
}
