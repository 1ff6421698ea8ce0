use suite_report::reporter::Reporter;
use suite_report::results::{SpecResult, SuiteResult};

fn spec(name: &str, full_name: &str, duration: u64, pass: Option<bool>, err: &str) -> SpecResult {
    SpecResult::new(
        name.to_string(),
        full_name.to_string(),
        duration,
        pass,
        err.to_string(),
    )
}

fn suite(
    name: &str,
    duration: u64,
    passing: u64,
    failing: u64,
    specs: Vec<SpecResult>,
    suites: Vec<SuiteResult>,
) -> SuiteResult {
    SuiteResult::new(name.to_string(), duration, passing, failing, specs, suites)
}

fn math() -> SuiteResult {
    suite(
        "Math",
        10,
        1,
        1,
        vec![
            spec("adds", "Math adds", 5, Some(true), ""),
            spec("subtracts", "Math subtracts", 3, Some(false), "expected 1 got 2"),
        ],
        vec![],
    )
}

/// Two failures, one in the root and one in a nested suite, plus a skip.
fn nested() -> SuiteResult {
    let inner = suite(
        "Inner",
        4,
        1,
        1,
        vec![
            spec("ok", "Outer Inner ok", 1, Some(true), ""),
            spec("bad", "Outer Inner bad", 2, Some(false), "boom"),
        ],
        vec![],
    );
    suite(
        "Outer",
        20,
        0,
        1,
        vec![
            spec("first", "Outer first", 6, Some(false), "nope"),
            spec("later", "Outer later", 9, None, ""),
        ],
        vec![inner],
    )
}

fn strip_ansi(s: &str) -> String {
    let mut out = String::new();
    let mut in_code = false;
    for c in s.chars() {
        if in_code {
            if c == 'm' {
                in_code = false;
            }
        } else if c == '\u{1b}' {
            in_code = true;
        } else {
            out.push(c);
        }
    }
    out
}

#[test]
fn math_scenario_plain() {
    let r = Reporter::spec(math(), false);
    assert_eq!(
        r,
        "Math\n     ✓  adds (5ms)\n     1) subtracts (3ms)\n\n\n  ✖ 1 of 2 tests failed:\n\n  1) Math subtracts: expected 1 got 2\n"
    );
}

#[test]
fn math_scenario_minimal() {
    let r = Reporter::min(math(), false);
    assert_eq!(r, "  ✖ 1 of 2 tests failed:\n\n  1) Math subtracts: expected 1 got 2\n");
}

#[test]
fn math_scenario_styled() {
    let r = Reporter::spec(math(), true);
    assert_eq!(
        r,
        "\n\nMath\n     \u{1b}[32m✓\u{1b}[0m  \u{1b}[2madds (5ms)\u{1b}[0m\n\u{1b}[31m     1) subtracts (3ms)\u{1b}[0m\n\n\n  \u{1b}[31m✖ 1 of 2 tests failed\u{1b}[0m\u{1b}[2m:\u{1b}[0m\n\n  \u{1b}[31m1\u{1b}[0m) Math subtracts: \u{1b}[31mexpected 1 got 2\u{1b}[0m\n\n"
    );
}

#[test]
fn empty_root_plain() {
    let r = Reporter::spec(suite("Root", 7, 0, 0, vec![], vec![]), false);
    assert_eq!(r, "Root\n\n\n  ✓ 0 tests completed (7ms)\n");
}

#[test]
fn empty_root_styled() {
    let r = Reporter::spec(suite("Root", 7, 0, 0, vec![], vec![]), true);
    assert_eq!(
        r,
        "\n\nRoot\n\n\n  \u{1b}[32m✓\u{1b}[0m\u{1b}[32m 0 tests completed\u{1b}[0m\u{1b}[2m (7ms)\u{1b}[0m\n\n"
    );
}

#[test]
fn empty_root_minimal() {
    let r = Reporter::min(suite("Root", 7, 0, 0, vec![], vec![]), false);
    assert_eq!(r, "  ✓ 0 tests completed (7ms)\n");
}

#[test]
fn nested_numbering_and_indentation() {
    let r = Reporter::spec(nested(), false);
    assert_eq!(
        r,
        "Outer\n     1) first (6ms)\n        later\n  Inner\n       ✓  ok (1ms)\n       2) bad (2ms)\n\n\n  ✖ 2 of 1 tests failed:\n\n  1) Outer first: nope\n  2) Outer Inner bad: boom\n"
    );
}

#[test]
fn minimal_appendix_matches_full_report() {
    for styled in [false, true] {
        let full = Reporter::spec(nested(), styled);
        let min = Reporter::min(nested(), styled);
        let pad = if styled { 2 } else { 0 };
        assert!(full.ends_with(&min[pad..]));
        assert!(strip_ansi(&min).contains("  2) Outer Inner bad: boom"));
    }
}

#[test]
fn skipped_spec_shows_no_duration() {
    let t = suite("S", 1, 0, 0, vec![spec("idle", "S idle", 1234, None, "")], vec![]);
    let plain = Reporter::spec(t, false);
    assert_eq!(plain, "S\n        idle\n\n\n  ✓ 0 tests completed (1ms)\n");
    let t = suite("S", 1, 0, 0, vec![spec("idle", "S idle", 1234, None, "")], vec![]);
    let styled = Reporter::spec(t, true);
    assert!(!styled.contains("1234"));
    assert!(styled.contains("        \u{1b}[2midle\u{1b}[0m\n"));
}

#[test]
fn zero_failures_has_no_appendix() {
    let t = suite(
        "Ok",
        3,
        2,
        0,
        vec![
            spec("a", "Ok a", 1, Some(true), ""),
            spec("b", "Ok b", 2, Some(true), ""),
        ],
        vec![],
    );
    let r = Reporter::spec(t, false);
    assert!(r.ends_with("\n\n  ✓ 2 tests completed (3ms)\n"));
    assert!(!r.contains("✖"));
    assert!(!r.contains("failed"));
}

#[test]
fn styling_only_decorates() {
    for t in [math(), nested()] {
        let plain = Reporter::spec(clone_tree(&t), false);
        let styled = Reporter::spec(t, true);
        assert_eq!(strip_ansi(&styled), format!("\n\n{}\n", plain));
    }
}

#[test]
fn total_counts_root_suite_only() {
    let child = suite("Child", 1, 5, 0, vec![], vec![]);
    let t = suite("Top", 2, 1, 0, vec![], vec![child]);
    let r = Reporter::min(t, false);
    assert_eq!(r, "  ✓ 1 tests completed (2ms)\n");
}

#[test]
fn large_figures_render_in_full() {
    let t = suite(
        "Big",
        u64::MAX,
        u64::MAX,
        u64::MAX,
        vec![spec("slow", "Big slow", 1_000_000_007, Some(true), "")],
        vec![],
    );
    let r = Reporter::spec(t, false);
    assert!(r.contains("slow (1000000007ms)"));
    assert!(r.ends_with("  ✓ 36893488147419103230 tests completed (18446744073709551615ms)\n"));
}

fn clone_tree(t: &SuiteResult) -> SuiteResult {
    let specs = t
        .get_child_specs()
        .iter()
        .map(|s| {
            spec(
                s.get_name(),
                s.get_full_name(),
                s.get_duration(),
                s.get_pass(),
                s.get_err_msg(),
            )
        })
        .collect();
    let suites = t.get_child_suites().iter().map(clone_tree).collect();
    suite(
        t.get_name(),
        t.get_duration(),
        t.get_passing(),
        t.get_failing(),
        specs,
        suites,
    )
}
