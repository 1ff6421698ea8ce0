use vstd::prelude::*;
use vstd::string::StringExecFns;

verus! {

/// `n` spaces.
pub open spec fn spaces(n: nat) -> Seq<char>
    decreases n,
{
    if n == 0 {
        seq![]
    } else {
        spaces((n - 1) as nat).push(' ')
    }
}

pub proof fn lemma_spaces_add(a: nat, b: nat)
    ensures
        spaces(a + b) == spaces(a) + spaces(b),
    decreases b,
{
    if b == 0 {
        assert(spaces(a) + spaces(0) =~= spaces(a));
    } else {
        lemma_spaces_add(a, (b - 1) as nat);
        assert(spaces(a + b) =~= spaces(a) + spaces(b));
    }
}

pub open spec fn digit_char(d: nat) -> char {
    if d == 0 {
        '0'
    } else if d == 1 {
        '1'
    } else if d == 2 {
        '2'
    } else if d == 3 {
        '3'
    } else if d == 4 {
        '4'
    } else if d == 5 {
        '5'
    } else if d == 6 {
        '6'
    } else if d == 7 {
        '7'
    } else if d == 8 {
        '8'
    } else {
        '9'
    }
}

/// Decimal digits of `n`, most significant first, with no leading zero.
pub open spec fn dec(n: nat) -> Seq<char>
    decreases n,
{
    if n < 10 {
        seq![digit_char(n)]
    } else {
        dec(n / 10).push(digit_char(n % 10))
    }
}

/// Semantic role of a styled fragment.
#[derive(Clone, Copy, PartialEq, Eq, Structural)]
pub enum Tone {
    Success,
    Failure,
    Muted,
}

pub open spec fn esc_code(code: Seq<char>) -> Seq<char> {
    seq!['\u{1b}', '['] + code + seq!['m']
}

/// `t` between the select-graphic-rendition code `code` and the reset code.
pub open spec fn sgr(code: Seq<char>, t: Seq<char>) -> Seq<char> {
    esc_code(code) + t + esc_code(seq!['0'])
}

pub open spec fn tone_code(tone: Tone) -> Seq<char> {
    match tone {
        Tone::Success => seq!['3', '2'],
        Tone::Failure => seq!['3', '1'],
        Tone::Muted => seq!['2'],
    }
}

/// `t` as it is emitted: decorated in `tone` when `styled`, unchanged otherwise.
pub open spec fn toned(tone: Tone, styled: bool, t: Seq<char>) -> Seq<char> {
    if styled {
        sgr(tone_code(tone), t)
    } else {
        t
    }
}

/// Relies on console's `style(..).green()` with styling forced on: displayed,
/// it writes the foreground code 32, the text, then the reset code.
#[verifier::external_body]
fn paint_green(t: &str) -> (r: String)
    ensures
        r@ == sgr(seq!['3', '2'], t@),
{
    console::style(t).green().force_styling(true).to_string()
}

/// Relies on console's `style(..).red()` with styling forced on: displayed,
/// it writes the foreground code 31, the text, then the reset code.
#[verifier::external_body]
fn paint_red(t: &str) -> (r: String)
    ensures
        r@ == sgr(seq!['3', '1'], t@),
{
    console::style(t).red().force_styling(true).to_string()
}

/// Relies on console's `style(..).dim()` with styling forced on: displayed,
/// it writes the attribute code 2, the text, then the reset code.
#[verifier::external_body]
fn paint_dim(t: &str) -> (r: String)
    ensures
        r@ == sgr(seq!['2'], t@),
{
    console::style(t).dim().force_styling(true).to_string()
}

/// Appends `t` to `out`, in `tone` when `styled`.
pub fn push_toned(out: &mut String, t: &str, tone: Tone, styled: bool)
    ensures
        final(out)@ == old(out)@ + toned(tone, styled, t@),
{
    if styled {
        let painted = match tone {
            Tone::Success => paint_green(t),
            Tone::Failure => paint_red(t),
            Tone::Muted => paint_dim(t),
        };
        out.append(painted.as_str());
    } else {
        out.append(t);
    }
}

/// Appends `n` spaces to `out`.
pub fn push_spaces(out: &mut String, n: u64)
    ensures
        final(out)@ == old(out)@ + spaces(n as nat),
{
    let mut i: u64 = 0;
    while i < n
        invariant
            i <= n,
            out@ == old(out)@ + spaces(i as nat),
        decreases n - i,
    {
        out.append(" ");
        proof {
            reveal_strlit(" ");
        }
        i = i + 1;
        assert(out@ =~= old(out)@ + spaces(i as nat));
    }
}

fn digit_str(d: u128) -> (r: &'static str)
    requires
        d < 10,
    ensures
        r@ == seq![digit_char(d as nat)],
{
    proof {
        reveal_strlit("0");
        reveal_strlit("1");
        reveal_strlit("2");
        reveal_strlit("3");
        reveal_strlit("4");
        reveal_strlit("5");
        reveal_strlit("6");
        reveal_strlit("7");
        reveal_strlit("8");
        reveal_strlit("9");
    }
    if d == 0 {
        "0"
    } else if d == 1 {
        "1"
    } else if d == 2 {
        "2"
    } else if d == 3 {
        "3"
    } else if d == 4 {
        "4"
    } else if d == 5 {
        "5"
    } else if d == 6 {
        "6"
    } else if d == 7 {
        "7"
    } else if d == 8 {
        "8"
    } else {
        "9"
    }
}

/// Appends the decimal digits of `n` to `out`.
pub fn push_dec(out: &mut String, n: u128)
    ensures
        final(out)@ == old(out)@ + dec(n as nat),
    decreases n,
{
    if n < 10 {
        out.append(digit_str(n));
    } else {
        push_dec(out, n / 10);
        out.append(digit_str(n % 10));
        assert(out@ =~= old(out)@ + dec(n as nat));
    }
}

} // verus!
