use vstd::prelude::*;

use crate::reporter::{
    appendix, bottom_padding, closing, fail_line, failure_count, failure_entry,
    row_entry, spec_line, timed, lemma_rows_concat,
    lemma_rows_push, min_report, row_line, spec_report, summary, top_padding, total_count,
    tree_failures, tree_lines,
};
use crate::results::{is_failure, rows, Row, SpecResult, SuiteResult};
use crate::text::{dec, esc_code, spaces, tone_code, toned, Tone};

verus! {

/// A failed spec that is the `n`-th failure of the tree in pre-order carries
/// the number `n` both in its inline marker and in its appendix entry, and
/// the appendix holds the entries of the earlier failures before it and of
/// the later ones after it.
pub proof fn lemma_failure_numbering(t: SuiteResult, styled: bool, j: int)
    requires
        0 <= j < rows(t, 0).len(),
        is_failure(rows(t, 0)[j]),
    ensures
        ({
            let rs = rows(t, 0);
            let n = failure_count(rs.take(j)) + 1;
            let sp = rs[j]->Item_0;
            let ind = rs[j]->Item_1;
            &&& tree_lines(rs, 0, styled) == tree_lines(rs.take(j), 0, styled) + fail_line(
                sp,
                ind,
                n,
                styled,
            ) + "\n"@ + tree_lines(rs.skip(j + 1), n, styled)
            &&& appendix(rs, 0, styled) == appendix(rs.take(j), 0, styled) + failure_entry(
                sp,
                n,
                styled,
            ) + appendix(rs.skip(j + 1), n, styled)
            &&& n <= tree_failures(t)
        }),
{
    let rs = rows(t, 0);
    let pre = rs.take(j);
    let r = rs[j];
    let n = failure_count(pre) + 1;
    assert(rs =~= pre.push(r) + rs.skip(j + 1));
    lemma_rows_push(pre, r, 0, styled);
    lemma_rows_concat(pre.push(r), rs.skip(j + 1), 0, styled);
    lemma_rows_concat(pre, seq![r], 0, styled);
    assert(pre.push(r) =~= pre + seq![r]);
}

/// The full and the minimal report, in either styling, end with the same
/// closing: the same summary and the same numbered failure appendix.
pub proof fn lemma_modes_share_closing(t: SuiteResult, styled: bool)
    ensures
        min_report(t, styled) == top_padding(styled) + closing(t, styled),
        spec_report(t, styled) == top_padding(styled) + tree_lines(rows(t, 0), 0, styled)
            + "\n\n"@ + closing(t, styled),
        min_report(t, styled).skip(top_padding(styled).len() as int) == spec_report(
            t,
            styled,
        ).skip(spec_report(t, styled).len() - closing(t, styled).len()),
{
    assert(min_report(t, styled).skip(top_padding(styled).len() as int) =~= closing(t, styled));
    assert(spec_report(t, styled).skip(spec_report(t, styled).len() - closing(t, styled).len())
        =~= closing(t, styled));
}

/// The line of a skipped spec does not depend on its duration.
pub proof fn lemma_skip_line_has_no_duration(
    a: SpecResult,
    b: SpecResult,
    ind: nat,
    done: nat,
    styled: bool,
)
    requires
        a.pass.is_none(),
        b.pass.is_none(),
        a.name@ == b.name@,
    ensures
        row_line(Row::Item(a, ind), done, styled) == row_line(Row::Item(b, ind), done, styled),
{
}

proof fn lemma_no_failures_empty_appendix(rs: Seq<Row>, done: nat, styled: bool)
    requires
        failure_count(rs) == 0,
    ensures
        appendix(rs, done, styled) == Seq::<char>::empty(),
    decreases rs.len(),
{
    if rs.len() > 0 {
        lemma_no_failures_empty_appendix(rs.drop_last(), done, styled);
        assert(appendix(rs, done, styled) =~= Seq::<char>::empty());
    }
}

/// A tree without failures closes with the success glyph, the test count and
/// the root's duration: no failure count and no appendix.
pub proof fn lemma_success_summary(t: SuiteResult, styled: bool)
    requires
        tree_failures(t) == 0,
    ensures
        appendix(rows(t, 0), 0, styled) == Seq::<char>::empty(),
        summary(t, styled) == toned(Tone::Success, styled, "✓"@) + toned(
            Tone::Success,
            styled,
            " "@ + dec(total_count(t)) + " tests completed"@,
        ) + toned(Tone::Muted, styled, " ("@ + dec(t.duration as nat) + "ms)"@),
        closing(t, styled) == spaces(2) + summary(t, styled) + bottom_padding(styled),
{
    lemma_no_failures_empty_appendix(rows(t, 0), 0, styled);
}

/// `s` with every escape sequence (from the escape character up to and
/// including the next `m`) taken out; `in_code` says that `s` starts inside one.
pub open spec fn strip_from(s: Seq<char>, in_code: bool) -> Seq<char>
    decreases s.len(),
{
    if s.len() == 0 {
        seq![]
    } else if in_code {
        strip_from(s.skip(1), s[0] != 'm')
    } else if s[0] == '\u{1b}' {
        strip_from(s.skip(1), true)
    } else {
        seq![s[0]] + strip_from(s.skip(1), false)
    }
}

/// `s` with its styling markers removed.
pub open spec fn strip_styles(s: Seq<char>) -> Seq<char> {
    strip_from(s, false)
}

/// `s` holds no escape character.
pub open spec fn escape_free(s: Seq<char>) -> bool {
    forall|i: int| 0 <= i < s.len() ==> s[i] != '\u{1b}'
}

pub open spec fn row_escape_free(r: Row) -> bool {
    match r {
        Row::Header(name, _) => escape_free(name),
        Row::Item(sp, _) => escape_free(sp.name@) && escape_free(sp.full_name@) && escape_free(
            sp.err_msg@,
        ),
    }
}

/// No name, full name or message in `rs` holds an escape character.
pub open spec fn rows_escape_free(rs: Seq<Row>) -> bool {
    forall|j: int| 0 <= j < rs.len() ==> row_escape_free(#[trigger] rs[j])
}

/// Stripping the markers from `x`, followed by anything, leaves `y` followed
/// by that thing stripped.
pub open spec fn decorates(x: Seq<char>, y: Seq<char>) -> bool {
    forall|b: Seq<char>| #[trigger] strip_from(x + b, false) == y + strip_from(b, false)
}

proof fn lemma_strip_plain(a: Seq<char>, b: Seq<char>)
    requires
        escape_free(a),
    ensures
        strip_from(a + b, false) == a + strip_from(b, false),
    decreases a.len(),
{
    if a.len() == 0 {
        assert(a + b =~= b);
        assert(a + strip_from(b, false) =~= strip_from(b, false));
    } else {
        assert((a + b)[0] == a[0]);
        assert((a + b).skip(1) =~= a.skip(1) + b);
        lemma_strip_plain(a.skip(1), b);
        assert(a =~= seq![a[0]] + a.skip(1));
        assert(seq![a[0]] + (a.skip(1) + strip_from(b, false)) =~= a + strip_from(b, false));
    }
}

proof fn lemma_strip_code_tail(x: Seq<char>, b: Seq<char>)
    requires
        forall|i: int| 0 <= i < x.len() ==> x[i] != 'm',
    ensures
        strip_from(x + seq!['m'] + b, true) == strip_from(b, false),
    decreases x.len(),
{
    let s = x + seq!['m'] + b;
    if x.len() == 0 {
        assert(s[0] == 'm');
        assert(s.skip(1) =~= b);
    } else {
        assert(s[0] == x[0]);
        assert(s.skip(1) =~= x.skip(1) + seq!['m'] + b);
        lemma_strip_code_tail(x.skip(1), b);
    }
}

proof fn lemma_strip_code(code: Seq<char>, b: Seq<char>)
    requires
        forall|i: int| 0 <= i < code.len() ==> code[i] != 'm',
    ensures
        strip_from(esc_code(code) + b, false) == strip_from(b, false),
{
    let s = esc_code(code) + b;
    let x = seq!['['] + code;
    assert(s[0] == '\u{1b}');
    assert(s.skip(1) =~= x + seq!['m'] + b);
    lemma_strip_code_tail(x, b);
}

proof fn lemma_decorates_plain(a: Seq<char>)
    requires
        escape_free(a),
    ensures
        decorates(a, a),
{
    assert forall|b: Seq<char>| #[trigger] strip_from(a + b, false) == a + strip_from(b, false) by {
        lemma_strip_plain(a, b);
    }
}

proof fn lemma_decorates_concat(x1: Seq<char>, y1: Seq<char>, x2: Seq<char>, y2: Seq<char>)
    requires
        decorates(x1, y1),
        decorates(x2, y2),
    ensures
        decorates(x1 + x2, y1 + y2),
{
    assert forall|b: Seq<char>| #[trigger] strip_from((x1 + x2) + b, false) == (y1 + y2) + strip_from(b, false) by {
        assert((x1 + x2) + b =~= x1 + (x2 + b));
        assert(strip_from(x1 + (x2 + b), false) == y1 + strip_from(x2 + b, false));
        assert(strip_from(x2 + b, false) == y2 + strip_from(b, false));
        assert(y1 + (y2 + strip_from(b, false)) =~= (y1 + y2) + strip_from(b, false));
    }
}

proof fn lemma_escape_free_concat(a: Seq<char>, b: Seq<char>)
    requires
        escape_free(a),
        escape_free(b),
    ensures
        escape_free(a + b),
{
    assert forall|i: int| 0 <= i < (a + b).len() implies (a + b)[i] != '\u{1b}' by {
        if i >= a.len() {
            assert((a + b)[i] == b[i - a.len()]);
        }
    }
}

proof fn lemma_spaces_escape_free(n: nat)
    ensures
        escape_free(spaces(n)),
    decreases n,
{
    if n > 0 {
        lemma_spaces_escape_free((n - 1) as nat);
        lemma_escape_free_concat(spaces((n - 1) as nat), seq![' ']);
        assert(spaces(n) =~= spaces((n - 1) as nat) + seq![' ']);
    }
}

proof fn lemma_dec_escape_free(n: nat)
    ensures
        escape_free(dec(n)),
    decreases n,
{
    if n >= 10 {
        lemma_dec_escape_free(n / 10);
        let d = crate::text::digit_char(n % 10);
        lemma_escape_free_concat(dec(n / 10), seq![d]);
        assert(dec(n) =~= dec(n / 10) + seq![d]);
    }
}

proof fn lemma_literals_escape_free()
    ensures
        escape_free("\n"@),
        escape_free("\n\n"@),
        escape_free(" ("@),
        escape_free("ms)"@),
        escape_free(") "@),
        escape_free(": "@),
        escape_free("✓"@),
        escape_free("✖ "@),
        escape_free(" of "@),
        escape_free(" tests failed"@),
        escape_free(":"@),
        escape_free(" "@),
        escape_free(" tests completed"@),
{
    reveal_strlit("\n");
    reveal_strlit("\n\n");
    reveal_strlit(" (");
    reveal_strlit("ms)");
    reveal_strlit(") ");
    reveal_strlit(": ");
    reveal_strlit("✓");
    reveal_strlit("✖ ");
    reveal_strlit(" of ");
    reveal_strlit(" tests failed");
    reveal_strlit(":");
    reveal_strlit(" ");
    reveal_strlit(" tests completed");
}

proof fn lemma_decorates_toned(tone: Tone, t: Seq<char>)
    requires
        escape_free(t),
    ensures
        decorates(toned(tone, true, t), toned(tone, false, t)),
{
    let code = tone_code(tone);
    assert(forall|i: int| 0 <= i < code.len() ==> code[i] != 'm');
    assert(forall|i: int| 0 <= i < seq!['0'].len() ==> seq!['0'][i] != 'm');
    assert forall|b: Seq<char>| #[trigger] strip_from(toned(tone, true, t) + b, false) == t + strip_from(b, false) by {
        assert(toned(tone, true, t) + b =~= esc_code(code) + (t + (esc_code(seq!['0']) + b)));
        lemma_strip_code(code, t + (esc_code(seq!['0']) + b));
        lemma_strip_plain(t, esc_code(seq!['0']) + b);
        lemma_strip_code(seq!['0'], b);
    }
}

proof fn lemma_timed_escape_free(sp: SpecResult)
    requires
        escape_free(sp.name@),
    ensures
        escape_free(timed(sp)),
{
    lemma_literals_escape_free();
    lemma_dec_escape_free(sp.duration as nat);
    lemma_escape_free_concat(sp.name@, " ("@);
    lemma_escape_free_concat(sp.name@ + " ("@, dec(sp.duration as nat));
    lemma_escape_free_concat(sp.name@ + " ("@ + dec(sp.duration as nat), "ms)"@);
}

proof fn lemma_decorates_entry_body(sp: SpecResult, n: nat)
    requires
        escape_free(sp.full_name@),
        escape_free(sp.err_msg@),
    ensures
        decorates(
            failure_entry(sp, n, true).drop_last(),
            failure_entry(sp, n, false).drop_last(),
        ),
        failure_entry(sp, n, true) == failure_entry(sp, n, true).drop_last() + "\n"@,
        failure_entry(sp, n, false) == failure_entry(sp, n, false).drop_last() + "\n"@,
{
    lemma_literals_escape_free();
    reveal_strlit("\n");
    lemma_spaces_escape_free(2);
    lemma_dec_escape_free(n);
    lemma_decorates_plain(spaces(2));
    lemma_decorates_toned(Tone::Failure, dec(n));
    lemma_decorates_plain(") "@ + sp.full_name@ + ": "@);
    lemma_escape_free_concat(") "@, sp.full_name@);
    lemma_escape_free_concat(") "@ + sp.full_name@, ": "@);
    lemma_decorates_toned(Tone::Failure, sp.err_msg@);
    let body = |st: bool|
        spaces(2) + toned(Tone::Failure, st, dec(n)) + (") "@ + sp.full_name@ + ": "@) + toned(
            Tone::Failure,
            st,
            sp.err_msg@,
        );
    lemma_decorates_concat(
        spaces(2),
        spaces(2),
        toned(Tone::Failure, true, dec(n)),
        toned(Tone::Failure, false, dec(n)),
    );
    lemma_decorates_concat(
        spaces(2) + toned(Tone::Failure, true, dec(n)),
        spaces(2) + toned(Tone::Failure, false, dec(n)),
        ") "@ + sp.full_name@ + ": "@,
        ") "@ + sp.full_name@ + ": "@,
    );
    lemma_decorates_concat(
        spaces(2) + toned(Tone::Failure, true, dec(n)) + (") "@ + sp.full_name@ + ": "@),
        spaces(2) + toned(Tone::Failure, false, dec(n)) + (") "@ + sp.full_name@ + ": "@),
        toned(Tone::Failure, true, sp.err_msg@),
        toned(Tone::Failure, false, sp.err_msg@),
    );
    assert(failure_entry(sp, n, true) =~= body(true) + "\n"@);
    assert(failure_entry(sp, n, false) =~= body(false) + "\n"@);
    assert(failure_entry(sp, n, true).drop_last() =~= body(true));
    assert(failure_entry(sp, n, false).drop_last() =~= body(false));
}

proof fn lemma_decorates_row(r: Row, done: nat)
    requires
        row_escape_free(r),
    ensures
        decorates(row_line(r, done, true), row_line(r, done, false)),
        decorates(row_entry(r, done, true), row_entry(r, done, false)),
{
    lemma_literals_escape_free();
    lemma_decorates_plain("\n"@);
    assert(decorates(Seq::<char>::empty(), Seq::<char>::empty())) by {
        lemma_decorates_plain(Seq::<char>::empty());
    }
    match r {
        Row::Header(name, ind) => {
            lemma_spaces_escape_free(ind);
            lemma_escape_free_concat(spaces(ind), name);
            lemma_escape_free_concat(spaces(ind) + name, "\n"@);
            lemma_decorates_plain(spaces(ind) + name + "\n"@);
        },
        Row::Item(sp, ind) => {
            lemma_timed_escape_free(sp);
            lemma_spaces_escape_free(ind + 5);
            lemma_spaces_escape_free(ind + 8);
            lemma_spaces_escape_free(2);
            lemma_decorates_plain(spaces(ind + 5));
            lemma_decorates_plain(spaces(ind + 8));
            lemma_decorates_plain(spaces(2));
            match sp.pass {
                Some(true) => {
                    lemma_decorates_toned(Tone::Success, "✓"@);
                    lemma_decorates_toned(Tone::Muted, timed(sp));
                    lemma_decorates_concat(
                        spaces(ind + 5),
                        spaces(ind + 5),
                        toned(Tone::Success, true, "✓"@),
                        toned(Tone::Success, false, "✓"@),
                    );
                    lemma_decorates_concat(
                        spaces(ind + 5) + toned(Tone::Success, true, "✓"@),
                        spaces(ind + 5) + toned(Tone::Success, false, "✓"@),
                        spaces(2),
                        spaces(2),
                    );
                    lemma_decorates_concat(
                        spaces(ind + 5) + toned(Tone::Success, true, "✓"@) + spaces(2),
                        spaces(ind + 5) + toned(Tone::Success, false, "✓"@) + spaces(2),
                        toned(Tone::Muted, true, timed(sp)),
                        toned(Tone::Muted, false, timed(sp)),
                    );
                },
                Some(false) => {
                    let n = done + 1;
                    lemma_dec_escape_free(n);
                    lemma_escape_free_concat(spaces(ind + 5), dec(n));
                    lemma_escape_free_concat(spaces(ind + 5) + dec(n), ") "@);
                    lemma_escape_free_concat(spaces(ind + 5) + dec(n) + ") "@, timed(sp));
                    lemma_decorates_toned(
                        Tone::Failure,
                        spaces(ind + 5) + dec(n) + ") "@ + timed(sp),
                    );
                    lemma_decorates_entry_body(sp, n);
                    lemma_decorates_concat(
                        failure_entry(sp, n, true).drop_last(),
                        failure_entry(sp, n, false).drop_last(),
                        "\n"@,
                        "\n"@,
                    );
                },
                None => {
                    lemma_decorates_toned(Tone::Muted, sp.name@);
                    lemma_decorates_concat(
                        spaces(ind + 8),
                        spaces(ind + 8),
                        toned(Tone::Muted, true, sp.name@),
                        toned(Tone::Muted, false, sp.name@),
                    );
                },
            }
            lemma_decorates_concat(
                spec_line(sp, ind, done, true),
                spec_line(sp, ind, done, false),
                "\n"@,
                "\n"@,
            );
        },
    }
}

proof fn lemma_decorates_rows(rs: Seq<Row>, done: nat)
    requires
        rows_escape_free(rs),
    ensures
        decorates(tree_lines(rs, done, true), tree_lines(rs, done, false)),
        decorates(appendix(rs, done, true), appendix(rs, done, false)),
        failure_count(rs) > 0 ==> decorates(
            appendix(rs, done, true).drop_last(),
            appendix(rs, done, false).drop_last(),
        ),
    decreases rs.len(),
{
    if rs.len() == 0 {
        lemma_decorates_plain(Seq::<char>::empty());
    } else {
        let pre = rs.drop_last();
        let r = rs.last();
        let k = done + failure_count(pre);
        assert(rows_escape_free(pre));
        assert(row_escape_free(rs[rs.len() - 1]));
        lemma_decorates_rows(pre, done);
        lemma_decorates_row(r, k);
        lemma_decorates_concat(
            tree_lines(pre, done, true),
            tree_lines(pre, done, false),
            row_line(r, k, true),
            row_line(r, k, false),
        );
        lemma_decorates_concat(
            appendix(pre, done, true),
            appendix(pre, done, false),
            row_entry(r, k, true),
            row_entry(r, k, false),
        );
        if is_failure(r) {
            let sp = r->Item_0;
            lemma_decorates_entry_body(sp, k + 1);
            lemma_decorates_concat(
                appendix(pre, done, true),
                appendix(pre, done, false),
                failure_entry(sp, k + 1, true).drop_last(),
                failure_entry(sp, k + 1, false).drop_last(),
            );
            assert(appendix(rs, done, true).drop_last() =~= appendix(pre, done, true)
                + failure_entry(sp, k + 1, true).drop_last());
            assert(appendix(rs, done, false).drop_last() =~= appendix(pre, done, false)
                + failure_entry(sp, k + 1, false).drop_last());
        } else if failure_count(rs) > 0 {
            assert(appendix(rs, done, true) =~= appendix(pre, done, true));
            assert(appendix(rs, done, false) =~= appendix(pre, done, false));
        }
    }
}

proof fn lemma_decorates_closing(t: SuiteResult)
    requires
        rows_escape_free(rows(t, 0)),
    ensures
        decorates(
            spaces(2) + summary(t, true),
            spaces(2) + summary(t, false),
        ),
{
    lemma_literals_escape_free();
    lemma_spaces_escape_free(2);
    lemma_decorates_plain(spaces(2));
    lemma_decorates_rows(rows(t, 0), 0);
    let failed = tree_failures(t);
    let total = dec(total_count(t));
    lemma_dec_escape_free(total_count(t));
    lemma_dec_escape_free(failed);
    lemma_dec_escape_free(t.duration as nat);
    if failed == 0 {
        let c = " "@ + total + " tests completed"@;
        let d = " ("@ + dec(t.duration as nat) + "ms)"@;
        lemma_escape_free_concat(" "@, total);
        lemma_escape_free_concat(" "@ + total, " tests completed"@);
        lemma_escape_free_concat(" ("@, dec(t.duration as nat));
        lemma_escape_free_concat(" ("@ + dec(t.duration as nat), "ms)"@);
        lemma_decorates_toned(Tone::Success, "✓"@);
        lemma_decorates_toned(Tone::Success, c);
        lemma_decorates_toned(Tone::Muted, d);
        lemma_decorates_concat(
            toned(Tone::Success, true, "✓"@),
            toned(Tone::Success, false, "✓"@),
            toned(Tone::Success, true, c),
            toned(Tone::Success, false, c),
        );
        lemma_decorates_concat(
            toned(Tone::Success, true, "✓"@) + toned(Tone::Success, true, c),
            toned(Tone::Success, false, "✓"@) + toned(Tone::Success, false, c),
            toned(Tone::Muted, true, d),
            toned(Tone::Muted, false, d),
        );
    } else {
        let h = "✖ "@ + dec(failed) + " of "@ + total + " tests failed"@;
        lemma_escape_free_concat("✖ "@, dec(failed));
        lemma_escape_free_concat("✖ "@ + dec(failed), " of "@);
        lemma_escape_free_concat("✖ "@ + dec(failed) + " of "@, total);
        lemma_escape_free_concat("✖ "@ + dec(failed) + " of "@ + total, " tests failed"@);
        lemma_decorates_toned(Tone::Failure, h);
        lemma_decorates_toned(Tone::Muted, ":"@);
        lemma_decorates_plain("\n\n"@);
        let a_t = appendix(rows(t, 0), 0, true).drop_last();
        let a_f = appendix(rows(t, 0), 0, false).drop_last();
        lemma_decorates_concat(
            toned(Tone::Failure, true, h),
            toned(Tone::Failure, false, h),
            toned(Tone::Muted, true, ":"@),
            toned(Tone::Muted, false, ":"@),
        );
        lemma_decorates_concat(
            toned(Tone::Failure, true, h) + toned(Tone::Muted, true, ":"@),
            toned(Tone::Failure, false, h) + toned(Tone::Muted, false, ":"@),
            "\n\n"@,
            "\n\n"@,
        );
        lemma_decorates_concat(
            toned(Tone::Failure, true, h) + toned(Tone::Muted, true, ":"@) + "\n\n"@,
            toned(Tone::Failure, false, h) + toned(Tone::Muted, false, ":"@) + "\n\n"@,
            a_t,
            a_f,
        );
    }
    lemma_decorates_concat(spaces(2), spaces(2), summary(t, true), summary(t, false));
}

/// Styling only decorates: once its styling markers are stripped, the
/// styled full report (or minimal report) is the plain one with two line
/// breaks of padding before it and one more after it. This holds of every tree whose names,
/// full names and messages hold no escape character.
pub proof fn lemma_styling_only_decorates(t: SuiteResult)
    requires
        rows_escape_free(rows(t, 0)),
    ensures
        strip_styles(spec_report(t, true)) == "\n\n"@ + spec_report(t, false) + "\n"@,
        strip_styles(min_report(t, true)) == "\n\n"@ + min_report(t, false) + "\n"@,
{
    reveal_strlit("\n");
    reveal_strlit("\n\n");
    lemma_literals_escape_free();
    lemma_decorates_plain("\n\n"@);
    lemma_decorates_rows(rows(t, 0), 0);
    lemma_decorates_closing(t);
    let tl_t = tree_lines(rows(t, 0), 0, true);
    let tl_f = tree_lines(rows(t, 0), 0, false);
    let c_t = spaces(2) + summary(t, true);
    let c_f = spaces(2) + summary(t, false);
    lemma_decorates_concat("\n\n"@, "\n\n"@, tl_t, tl_f);
    lemma_decorates_concat("\n\n"@ + tl_t, "\n\n"@ + tl_f, "\n\n"@, "\n\n"@);
    lemma_decorates_concat("\n\n"@ + tl_t + "\n\n"@, "\n\n"@ + tl_f + "\n\n"@, c_t, c_f);
    lemma_decorates_concat(
        "\n\n"@ + tl_t + "\n\n"@ + c_t,
        "\n\n"@ + tl_f + "\n\n"@ + c_f,
        "\n\n"@,
        "\n\n"@,
    );
    lemma_decorates_concat("\n\n"@, "\n\n"@, c_t, c_f);
    lemma_decorates_concat("\n\n"@ + c_t, "\n\n"@ + c_f, "\n\n"@, "\n\n"@);
    let e = Seq::<char>::empty();
    assert(spec_report(t, true) + e =~= "\n\n"@ + tl_t + "\n\n"@ + c_t + "\n\n"@);
    assert(min_report(t, true) + e =~= "\n\n"@ + c_t + "\n\n"@);
    assert(strip_from(e, false) =~= e);
    assert(strip_styles(spec_report(t, true)) =~= "\n\n"@ + tl_f + "\n\n"@ + c_f + "\n\n"@);
    assert(strip_styles(min_report(t, true)) =~= "\n\n"@ + c_f + "\n\n"@);
    let n1 = "\n"@;
    assert("\n\n"@ =~= n1 + n1);
    assert(closing(t, false) =~= c_f + n1);
    assert((n1 + n1) + tl_f + (n1 + n1) + c_f + (n1 + n1) =~= (n1 + n1) + (tl_f + (n1 + n1) + (
    c_f + n1)) + n1);
    assert(spec_report(t, false) =~= tl_f + "\n\n"@ + (c_f + "\n"@));
    assert(min_report(t, false) =~= c_f + "\n"@);
    assert(strip_styles(spec_report(t, true)) =~= "\n\n"@ + spec_report(t, false) + "\n"@);
    assert(strip_styles(min_report(t, true)) =~= "\n\n"@ + min_report(t, false) + "\n"@);
}

} // verus!
