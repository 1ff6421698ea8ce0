use vstd::prelude::*;
use vstd::string::StrSliceExecFns;
use vstd::string::StringExecFns;

use crate::results::{child_rows, is_failure, rows, spec_rows, Row, SpecResult, SuiteResult};
use crate::text::{dec, lemma_spaces_add, push_dec, push_spaces, push_toned, spaces, toned, Tone};

verus! {

/// The report layouts a caller can ask for.
pub enum ReporterType {
    Spec,
    Minimal,
    Json,
    JsonPretty,
}

/// Renders result trees into reports.
pub struct Reporter;

/// `name (<duration>ms)`.
pub open spec fn timed(sp: SpecResult) -> Seq<char> {
    sp.name@ + " ("@ + dec(sp.duration as nat) + "ms)"@
}

/// The line of a passed spec: a check mark, then its name and duration.
pub open spec fn pass_line(sp: SpecResult, ind: nat, styled: bool) -> Seq<char> {
    spaces(ind + 5) + toned(Tone::Success, styled, "✓"@) + spaces(2) + toned(
        Tone::Muted,
        styled,
        timed(sp),
    )
}

/// The inline marker of the `n`-th failure.
pub open spec fn fail_line(sp: SpecResult, ind: nat, n: nat, styled: bool) -> Seq<char> {
    toned(Tone::Failure, styled, spaces(ind + 5) + dec(n) + ") "@ + timed(sp))
}

/// The line of a skipped spec: its name alone, indented further.
pub open spec fn skip_line(sp: SpecResult, ind: nat, styled: bool) -> Seq<char> {
    spaces(ind + 8) + toned(Tone::Muted, styled, sp.name@)
}

/// The line of a spec, without its line break.
pub open spec fn spec_line(sp: SpecResult, ind: nat, done: nat, styled: bool) -> Seq<char> {
    match sp.pass {
        Some(true) => pass_line(sp, ind, styled),
        Some(false) => fail_line(sp, ind, done + 1, styled),
        None => skip_line(sp, ind, styled),
    }
}

/// The text of one row, `done` failures having come before it.
pub open spec fn row_line(r: Row, done: nat, styled: bool) -> Seq<char> {
    match r {
        Row::Header(name, ind) => spaces(ind) + name + "\n"@,
        Row::Item(sp, ind) => spec_line(sp, ind, done, styled) + "\n"@,
    }
}

/// The appendix entry of the `n`-th failure.
pub open spec fn failure_entry(sp: SpecResult, n: nat, styled: bool) -> Seq<char> {
    spaces(2) + toned(Tone::Failure, styled, dec(n)) + ") "@ + sp.full_name@ + ": "@ + toned(
        Tone::Failure,
        styled,
        sp.err_msg@,
    ) + "\n"@
}

/// The appendix entry of a row: empty unless it is a failed spec.
pub open spec fn row_entry(r: Row, done: nat, styled: bool) -> Seq<char> {
    match r {
        Row::Item(sp, _) => if sp.pass == Some(false) {
            failure_entry(sp, done + 1, styled)
        } else {
            seq![]
        },
        Row::Header(_, _) => seq![],
    }
}

/// How many of `rs` are failed specs.
pub open spec fn failure_count(rs: Seq<Row>) -> nat
    decreases rs.len(),
{
    if rs.len() == 0 {
        0
    } else {
        failure_count(rs.drop_last()) + if is_failure(rs.last()) {
            1nat
        } else {
            0nat
        }
    }
}

/// The tree part of a report, `done` failures having come before `rs`.
pub open spec fn tree_lines(rs: Seq<Row>, done: nat, styled: bool) -> Seq<char>
    decreases rs.len(),
{
    if rs.len() == 0 {
        seq![]
    } else {
        tree_lines(rs.drop_last(), done, styled) + row_line(
            rs.last(),
            done + failure_count(rs.drop_last()),
            styled,
        )
    }
}

/// The failure appendix, `done` failures having come before `rs`.
pub open spec fn appendix(rs: Seq<Row>, done: nat, styled: bool) -> Seq<char>
    decreases rs.len(),
{
    if rs.len() == 0 {
        seq![]
    } else {
        appendix(rs.drop_last(), done, styled) + row_entry(
            rs.last(),
            done + failure_count(rs.drop_last()),
            styled,
        )
    }
}

/// The failures of the whole tree `t`.
pub open spec fn tree_failures(t: SuiteResult) -> nat {
    failure_count(rows(t, 0))
}

/// The test count of the summary: the root suite's own passing and failing
/// figures, nested suites not included.
pub open spec fn total_count(t: SuiteResult) -> nat {
    (t.passing + t.failing) as nat
}

/// The summary line, and after a failure the appendix without its last line break.
pub open spec fn summary(t: SuiteResult, styled: bool) -> Seq<char> {
    let failed = tree_failures(t);
    if failed == 0 {
        toned(Tone::Success, styled, "✓"@) + toned(
            Tone::Success,
            styled,
            " "@ + dec(total_count(t)) + " tests completed"@,
        ) + toned(Tone::Muted, styled, " ("@ + dec(t.duration as nat) + "ms)"@)
    } else {
        toned(
            Tone::Failure,
            styled,
            "✖ "@ + dec(failed) + " of "@ + dec(total_count(t)) + " tests failed"@,
        ) + toned(Tone::Muted, styled, ":"@) + "\n\n"@ + appendix(rows(t, 0), 0, styled).drop_last()
    }
}

pub open spec fn top_padding(styled: bool) -> Seq<char> {
    if styled {
        "\n\n"@
    } else {
        seq![]
    }
}

pub open spec fn bottom_padding(styled: bool) -> Seq<char> {
    if styled {
        "\n\n"@
    } else {
        "\n"@
    }
}

/// What both layouts end with: the summary, the appendix and the padding.
pub open spec fn closing(t: SuiteResult, styled: bool) -> Seq<char> {
    spaces(2) + summary(t, styled) + bottom_padding(styled)
}

/// The full report: every suite and spec, a blank line, then the closing.
pub open spec fn spec_report(t: SuiteResult, styled: bool) -> Seq<char> {
    top_padding(styled) + tree_lines(rows(t, 0), 0, styled) + "\n\n"@ + closing(t, styled)
}

/// The minimal report: the closing alone.
pub open spec fn min_report(t: SuiteResult, styled: bool) -> Seq<char> {
    top_padding(styled) + closing(t, styled)
}

/// Failure counts, tree lines and appendix split over a concatenation of rows.
pub proof fn lemma_rows_concat(a: Seq<Row>, b: Seq<Row>, done: nat, styled: bool)
    ensures
        failure_count(a + b) == failure_count(a) + failure_count(b),
        tree_lines(a + b, done, styled) == tree_lines(a, done, styled) + tree_lines(
            b,
            done + failure_count(a),
            styled,
        ),
        appendix(a + b, done, styled) == appendix(a, done, styled) + appendix(
            b,
            done + failure_count(a),
            styled,
        ),
    decreases b.len(),
{
    if b.len() == 0 {
        assert(a + b =~= a);
        assert(tree_lines(a, done, styled) + seq![] =~= tree_lines(a, done, styled));
        assert(appendix(a, done, styled) + seq![] =~= appendix(a, done, styled));
    } else {
        lemma_rows_concat(a, b.drop_last(), done, styled);
        assert((a + b).drop_last() =~= a + b.drop_last());
        assert((a + b).last() == b.last());
        assert(tree_lines(a + b, done, styled) =~= tree_lines(a, done, styled) + tree_lines(
            b,
            done + failure_count(a),
            styled,
        ));
        assert(appendix(a + b, done, styled) =~= appendix(a, done, styled) + appendix(
            b,
            done + failure_count(a),
            styled,
        ));
    }
}

/// Appending one row adds its line and its entry.
pub(crate) proof fn lemma_rows_push(a: Seq<Row>, r: Row, done: nat, styled: bool)
    ensures
        failure_count(a.push(r)) == failure_count(a) + if is_failure(r) {
            1nat
        } else {
            0nat
        },
        tree_lines(a.push(r), done, styled) == tree_lines(a, done, styled) + row_line(
            r,
            done + failure_count(a),
            styled,
        ),
        appendix(a.push(r), done, styled) == appendix(a, done, styled) + row_entry(
            r,
            done + failure_count(a),
            styled,
        ),
{
    assert(a.push(r).drop_last() =~= a);
}

proof fn lemma_count_prefix(a: Seq<Row>, b: Seq<Row>)
    ensures
        failure_count(a) <= failure_count(a + b),
{
    lemma_rows_concat(a, b, 0, false);
}

proof fn lemma_child_rows_count(s: SuiteResult, j: nat, n: nat, ind: nat)
    requires
        j <= n <= s.child_suites@.len(),
    ensures
        failure_count(child_rows(s, j, ind)) <= failure_count(child_rows(s, n, ind)),
    decreases n - j,
{
    if j < n {
        lemma_child_rows_count(s, j, (n - 1) as nat, ind);
        lemma_count_prefix(child_rows(s, (n - 1) as nat, ind), rows(s.child_suites@[n - 1], ind));
    }
}

proof fn lemma_appendix_nonempty(rs: Seq<Row>, done: nat, styled: bool)
    requires
        failure_count(rs) > 0,
    ensures
        appendix(rs, done, styled).len() > 0,
    decreases rs.len(),
{
    if !is_failure(rs.last()) {
        lemma_appendix_nonempty(rs.drop_last(), done, styled);
    }
}

/// Appends `name (<duration>ms)` to `out`.
fn push_timed(out: &mut String, sp: &SpecResult)
    ensures
        final(out)@ == old(out)@ + timed(*sp),
{
    out.append(sp.name.as_str());
    out.append(" (");
    push_dec(out, sp.duration as u128);
    out.append("ms)");
    assert(out@ =~= old(out)@ + timed(*sp));
}

/// Appends the appendix entry of `sp` as the `n`-th failure.
fn push_failure_entry(fail_ln: &mut String, sp: &SpecResult, n: u64, styled: bool)
    ensures
        final(fail_ln)@ == old(fail_ln)@ + failure_entry(*sp, n as nat, styled),
{
    push_spaces(fail_ln, 2);
    let mut d = String::new();
    push_dec(&mut d, n as u128);
    push_toned(fail_ln, d.as_str(), Tone::Failure, styled);
    fail_ln.append(") ");
    fail_ln.append(sp.full_name.as_str());
    fail_ln.append(": ");
    push_toned(fail_ln, sp.err_msg.as_str(), Tone::Failure, styled);
    fail_ln.append("\n");
    assert(fail_ln@ =~= old(fail_ln)@ + failure_entry(*sp, n as nat, styled));
}

/// Renders one spec: its line into `ln` and, for a failure, its entry into `fail_ln`.
fn push_spec(
    sp: &SpecResult,
    pad: &String,
    ln: &mut String,
    fail_ln: &mut String,
    failed: &mut u64,
    styled: bool,
    Ghost(ind): Ghost<nat>,
)
    requires
        pad@ == spaces(ind),
        is_failure(Row::Item(*sp, ind)) ==> *old(failed) < u64::MAX,
    ensures
        final(ln)@ == old(ln)@ + row_line(Row::Item(*sp, ind), *old(failed) as nat, styled),
        final(fail_ln)@ == old(fail_ln)@ + row_entry(Row::Item(*sp, ind), *old(failed) as nat, styled),
        *final(failed) == *old(failed) + if is_failure(Row::Item(*sp, ind)) {
            1nat
        } else {
            0nat
        },
{
    proof {
        reveal_strlit("  ");
        lemma_spaces_add(ind, 5);
        lemma_spaces_add(ind, 8);
    }
    match sp.pass {
        Some(true) => {
            ln.append(pad.as_str());
            push_spaces(ln, 5);
            push_toned(ln, "✓", Tone::Success, styled);
            push_spaces(ln, 2);
            let mut t = String::new();
            push_timed(&mut t, sp);
            push_toned(ln, t.as_str(), Tone::Muted, styled);
            assert(ln@ =~= old(ln)@ + pass_line(*sp, ind, styled));
        },
        Some(false) => {
            let n: u64 = *failed + 1;
            let mut t = pad.clone();
            push_spaces(&mut t, 5);
            push_dec(&mut t, n as u128);
            t.append(") ");
            push_timed(&mut t, sp);
            assert(t@ =~= spaces(ind + 5) + dec(n as nat) + ") "@ + timed(*sp));
            push_toned(ln, t.as_str(), Tone::Failure, styled);
            push_failure_entry(fail_ln, sp, n, styled);
            *failed = n;
        },
        None => {
            ln.append(pad.as_str());
            push_spaces(ln, 8);
            push_toned(ln, sp.name.as_str(), Tone::Muted, styled);
            assert(ln@ =~= old(ln)@ + skip_line(*sp, ind, styled));
        },
    }
    ln.append("\n");
    assert(ln@ =~= old(ln)@ + row_line(Row::Item(*sp, ind), *old(failed) as nat, styled));
    assert(fail_ln@ =~= old(fail_ln)@ + row_entry(Row::Item(*sp, ind), *old(failed) as nat, styled));
}

/// Renders `suite` and everything under it, in pre-order, at indentation `ind`:
/// lines into `ln`, failure entries into `fail_ln`, numbering failures on from `failed`.
fn walk(
    suite: &SuiteResult,
    pad: &String,
    ln: &mut String,
    fail_ln: &mut String,
    failed: &mut u64,
    styled: bool,
    Ghost(ind): Ghost<nat>,
)
    requires
        pad@ == spaces(ind),
        *old(failed) + failure_count(rows(*suite, ind)) <= u64::MAX,
    ensures
        final(ln)@ == old(ln)@ + tree_lines(rows(*suite, ind), *old(failed) as nat, styled),
        final(fail_ln)@ == old(fail_ln)@ + appendix(rows(*suite, ind), *old(failed) as nat, styled),
        *final(failed) == *old(failed) + failure_count(rows(*suite, ind)),
    decreases *suite,
{
    let ghost f0 = *old(failed) as nat;
    let ghost all = rows(*suite, ind);
    let ghost specs = suite.child_specs@;
    let ghost hdr = seq![Row::Header(suite.name@, ind)];
    let ghost kids = child_rows(*suite, suite.child_suites@.len(), ind + 2);
    ln.append(pad.as_str());
    ln.append(suite.name.as_str());
    ln.append("\n");
    proof {
        lemma_rows_push(seq![], Row::Header(suite.name@, ind), f0, styled);
        assert(seq![].push(Row::Header(suite.name@, ind)) =~= hdr);
        assert(hdr + spec_rows(specs.take(0), ind) =~= hdr);
        assert(ln@ =~= old(ln)@ + tree_lines(hdr, f0, styled));
        assert(fail_ln@ =~= old(fail_ln)@ + appendix(hdr, f0, styled));
    }
    let mut i: usize = 0;
    while i < suite.child_specs.len()
        invariant
            i <= specs.len(),
            specs == suite.child_specs@,
            pad@ == spaces(ind),
            f0 + failure_count(all) <= u64::MAX,
            all == hdr + spec_rows(specs, ind) + kids,
            ln@ == old(ln)@ + tree_lines(hdr + spec_rows(specs.take(i as int), ind), f0, styled),
            fail_ln@ == old(fail_ln)@ + appendix(
                hdr + spec_rows(specs.take(i as int), ind),
                f0,
                styled,
            ),
            *failed == f0 + failure_count(hdr + spec_rows(specs.take(i as int), ind)),
        decreases specs.len() - i,
    {
        let ghost before = hdr + spec_rows(specs.take(i as int), ind);
        let ghost after = hdr + spec_rows(specs.take(i + 1), ind);
        proof {
            assert(after =~= before.push(Row::Item(specs[i as int], ind)));
            lemma_rows_push(before, Row::Item(specs[i as int], ind), f0, styled);
            assert(all =~= after + (spec_rows(specs.skip(i + 1), ind) + kids));
            lemma_count_prefix(after, spec_rows(specs.skip(i + 1), ind) + kids);
        }
        push_spec(&suite.child_specs[i], pad, ln, fail_ln, failed, styled, Ghost(ind));
        i = i + 1;
    }
    proof {
        assert(specs.take(specs.len() as int) =~= specs);
    }
    let mut cpad = pad.clone();
    push_spaces(&mut cpad, 2);
    proof {
        lemma_spaces_add(ind, 2);
        assert(cpad@ =~= spaces(ind + 2));
    }
    let ghost body = hdr + spec_rows(specs, ind);
    proof {
        assert(body + child_rows(*suite, 0, ind + 2) =~= body);
    }
    let mut j: usize = 0;
    while j < suite.child_suites.len()
        invariant
            j <= suite.child_suites@.len(),
            cpad@ == spaces(ind + 2),
            f0 + failure_count(all) <= u64::MAX,
            all == body + kids,
            kids == child_rows(*suite, suite.child_suites@.len(), ind + 2),
            ln@ == old(ln)@ + tree_lines(body + child_rows(*suite, j as nat, ind + 2), f0, styled),
            fail_ln@ == old(fail_ln)@ + appendix(
                body + child_rows(*suite, j as nat, ind + 2),
                f0,
                styled,
            ),
            *failed == f0 + failure_count(body + child_rows(*suite, j as nat, ind + 2)),
        decreases suite.child_suites@.len() - j,
    {
        let ghost before = body + child_rows(*suite, j as nat, ind + 2);
        let ghost sub = rows(suite.child_suites@[j as int], ind + 2);
        proof {
            assert(child_rows(*suite, (j + 1) as nat, ind + 2) == child_rows(*suite, j as nat, ind + 2) + sub);
            assert(body + child_rows(*suite, (j + 1) as nat, ind + 2) =~= before + sub);
            lemma_rows_concat(before, sub, f0, styled);
            lemma_child_rows_count(*suite, (j + 1) as nat, suite.child_suites@.len(), ind + 2);
            lemma_rows_concat(body, child_rows(*suite, (j + 1) as nat, ind + 2), f0, styled);
            lemma_rows_concat(body, kids, f0, styled);
        }
        walk(&suite.child_suites[j], &cpad, ln, fail_ln, failed, styled, Ghost(ind + 2));
        proof {
            assert(ln@ =~= old(ln)@ + tree_lines(before + sub, f0, styled));
            assert(fail_ln@ =~= old(fail_ln)@ + appendix(before + sub, f0, styled));
        }
        j = j + 1;
    }
}

/// Collects the failure entries of `suite` and everything under it, in
/// pre-order, numbering failures on from `failed`; nothing else is rendered.
fn gather_failures(
    suite: &SuiteResult,
    fail_ln: &mut String,
    failed: &mut u64,
    styled: bool,
    Ghost(ind): Ghost<nat>,
)
    requires
        *old(failed) + failure_count(rows(*suite, ind)) <= u64::MAX,
    ensures
        final(fail_ln)@ == old(fail_ln)@ + appendix(rows(*suite, ind), *old(failed) as nat, styled),
        *final(failed) == *old(failed) + failure_count(rows(*suite, ind)),
    decreases *suite,
{
    let ghost f0 = *old(failed) as nat;
    let ghost all = rows(*suite, ind);
    let ghost specs = suite.child_specs@;
    let ghost hdr = seq![Row::Header(suite.name@, ind)];
    let ghost kids = child_rows(*suite, suite.child_suites@.len(), ind + 2);
    proof {
        lemma_rows_push(seq![], Row::Header(suite.name@, ind), f0, styled);
        assert(seq![].push(Row::Header(suite.name@, ind)) =~= hdr);
        assert(hdr + spec_rows(specs.take(0), ind) =~= hdr);
        assert(fail_ln@ =~= old(fail_ln)@ + appendix(hdr, f0, styled));
    }
    let mut i: usize = 0;
    while i < suite.child_specs.len()
        invariant
            i <= specs.len(),
            specs == suite.child_specs@,
            f0 + failure_count(all) <= u64::MAX,
            all == hdr + spec_rows(specs, ind) + kids,
            fail_ln@ == old(fail_ln)@ + appendix(
                hdr + spec_rows(specs.take(i as int), ind),
                f0,
                styled,
            ),
            *failed == f0 + failure_count(hdr + spec_rows(specs.take(i as int), ind)),
        decreases specs.len() - i,
    {
        let ghost before = hdr + spec_rows(specs.take(i as int), ind);
        let ghost after = hdr + spec_rows(specs.take(i + 1), ind);
        let sp = &suite.child_specs[i];
        proof {
            assert(after =~= before.push(Row::Item(specs[i as int], ind)));
            lemma_rows_push(before, Row::Item(specs[i as int], ind), f0, styled);
            assert(all =~= after + (spec_rows(specs.skip(i + 1), ind) + kids));
            lemma_count_prefix(after, spec_rows(specs.skip(i + 1), ind) + kids);
        }
        if sp.pass == Some(false) {
            let n: u64 = *failed + 1;
            push_failure_entry(fail_ln, sp, n, styled);
            *failed = n;
        }
        proof {
            assert(fail_ln@ == old(fail_ln)@ + appendix(before, f0, styled) + row_entry(
                Row::Item(specs[i as int], ind),
                f0 + failure_count(before),
                styled,
            ));
            assert(fail_ln@ =~= old(fail_ln)@ + appendix(after, f0, styled));
        }
        i = i + 1;
    }
    proof {
        assert(specs.take(specs.len() as int) =~= specs);
    }
    let ghost body = hdr + spec_rows(specs, ind);
    proof {
        assert(body + child_rows(*suite, 0, ind + 2) =~= body);
    }
    let mut j: usize = 0;
    while j < suite.child_suites.len()
        invariant
            j <= suite.child_suites@.len(),
            f0 + failure_count(all) <= u64::MAX,
            all == body + kids,
            kids == child_rows(*suite, suite.child_suites@.len(), ind + 2),
            fail_ln@ == old(fail_ln)@ + appendix(
                body + child_rows(*suite, j as nat, ind + 2),
                f0,
                styled,
            ),
            *failed == f0 + failure_count(body + child_rows(*suite, j as nat, ind + 2)),
        decreases suite.child_suites@.len() - j,
    {
        let ghost before = body + child_rows(*suite, j as nat, ind + 2);
        let ghost sub = rows(suite.child_suites@[j as int], ind + 2);
        proof {
            assert(body + child_rows(*suite, (j + 1) as nat, ind + 2) =~= before + sub);
            lemma_rows_concat(before, sub, f0, styled);
            lemma_child_rows_count(*suite, (j + 1) as nat, suite.child_suites@.len(), ind + 2);
            lemma_rows_concat(body, child_rows(*suite, (j + 1) as nat, ind + 2), f0, styled);
            lemma_rows_concat(body, kids, f0, styled);
        }
        gather_failures(&suite.child_suites[j], fail_ln, failed, styled, Ghost(ind + 2));
        proof {
            assert(fail_ln@ =~= old(fail_ln)@ + appendix(before + sub, f0, styled));
        }
        j = j + 1;
    }
}

/// Appends the summary, the appendix when something failed, and the bottom padding.
fn push_closing(ln: &mut String, t: &SuiteResult, failed: u64, fail_ln: &String, styled: bool)
    requires
        failed == tree_failures(*t),
        fail_ln@ == appendix(rows(*t, 0), 0, styled),
    ensures
        final(ln)@ == old(ln)@ + closing(*t, styled),
{
    push_spaces(ln, 2);
    let total: u128 = t.passing as u128 + t.failing as u128;
    if failed == 0 {
        push_toned(ln, "✓", Tone::Success, styled);
        let mut c = String::from_str(" ");
        push_dec(&mut c, total);
        c.append(" tests completed");
        push_toned(ln, c.as_str(), Tone::Success, styled);
        let mut d = String::from_str(" (");
        push_dec(&mut d, t.duration as u128);
        d.append("ms)");
        push_toned(ln, d.as_str(), Tone::Muted, styled);
    } else {
        let mut h = String::from_str("✖ ");
        push_dec(&mut h, failed as u128);
        h.append(" of ");
        push_dec(&mut h, total);
        h.append(" tests failed");
        push_toned(ln, h.as_str(), Tone::Failure, styled);
        push_toned(ln, ":", Tone::Muted, styled);
        ln.append("\n\n");
        let n = fail_ln.as_str().unicode_len();
        proof {
            lemma_appendix_nonempty(rows(*t, 0), 0, styled);
        }
        ln.append(fail_ln.as_str().substring_char(0, n - 1));
    }
    if styled {
        ln.append("\n\n");
    } else {
        ln.append("\n");
    }
    assert(ln@ =~= old(ln)@ + closing(*t, styled));
}

impl Reporter {
    /// The full report of `suite_results`: every suite header and spec line,
    /// the summary, and the numbered failure appendix; decorated for a
    /// terminal when `stdout`.
    pub fn spec(suite_results: SuiteResult, stdout: bool) -> (r: String)
        requires
            tree_failures(suite_results) < u64::MAX,
        ensures
            r@ == spec_report(suite_results, stdout),
    {
        let mut ln = String::new();
        let mut fail_ln = String::new();
        let mut failed: u64 = 0;
        if stdout {
            ln.append("\n\n");
        }
        let pad = String::new();
        proof {
            assert(pad@ =~= spaces(0));
        }
        walk(&suite_results, &pad, &mut ln, &mut fail_ln, &mut failed, stdout, Ghost(0));
        ln.append("\n\n");
        push_closing(&mut ln, &suite_results, failed, &fail_ln, stdout);
        assert(ln@ =~= spec_report(suite_results, stdout));
        ln
    }

    /// The minimal report of `suite_results`: the summary and the numbered
    /// failure appendix alone; decorated for a terminal when `stdout`.
    pub fn min(suite_results: SuiteResult, stdout: bool) -> (r: String)
        requires
            tree_failures(suite_results) < u64::MAX,
        ensures
            r@ == min_report(suite_results, stdout),
    {
        let mut ln = String::new();
        let mut fail_ln = String::new();
        let mut failed: u64 = 0;
        if stdout {
            ln.append("\n\n");
        }
        gather_failures(&suite_results, &mut fail_ln, &mut failed, stdout, Ghost(0));
        push_closing(&mut ln, &suite_results, failed, &fail_ln, stdout);
        assert(ln@ =~= min_report(suite_results, stdout));
        ln
    }
}

} // verus!
