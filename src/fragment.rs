use vstd::prelude::*;
use vstd::string::StringExecFns;

verus! {

/// A terminal colour that a segment can be tagged with.
#[derive(Clone, Copy, PartialEq, Eq, Structural)]
pub enum Color {
    Black,
    Red,
    Green,
    Yellow,
    Blue,
    Magenta,
    Cyan,
    White,
}

/// A piece of text with an optional colour.
pub struct Segment {
    pub color: Option<Color>,
    pub text: String,
}

/// Lines of segments.
pub struct StyledFragment {
    pub lines: Vec<Vec<Segment>>,
}

pub open spec fn color_name(c: Color) -> Seq<char> {
    match c {
        Color::Black => "Black"@,
        Color::Red => "Red"@,
        Color::Green => "Green"@,
        Color::Yellow => "Yellow"@,
        Color::Blue => "Blue"@,
        Color::Magenta => "Magenta"@,
        Color::Cyan => "Cyan"@,
        Color::White => "White"@,
    }
}

/// A segment as emitted: its text alone, or, tagged, `[<colour>:<text>]`
/// with `normal` for an uncoloured one.
pub open spec fn segment_text(s: Segment, tagged: bool) -> Seq<char> {
    if tagged {
        "["@ + match s.color {
            Some(c) => color_name(c),
            None => "normal"@,
        } + ":"@ + s.text@ + "]"@
    } else {
        s.text@
    }
}

/// The segments of a line, emitted one after the other.
pub open spec fn line_text(segs: Seq<Segment>, tagged: bool) -> Seq<char>
    decreases segs.len(),
{
    if segs.len() == 0 {
        seq![]
    } else {
        line_text(segs.drop_last(), tagged) + segment_text(segs.last(), tagged)
    }
}

/// The lines, emitted and joined by line breaks.
pub open spec fn block_text(lines: Seq<Vec<Segment>>, tagged: bool) -> Seq<char>
    decreases lines.len(),
{
    if lines.len() == 0 {
        seq![]
    } else if lines.len() == 1 {
        line_text(lines[0]@, tagged)
    } else {
        block_text(lines.drop_last(), tagged) + "\n"@ + line_text(lines.last()@, tagged)
    }
}

fn push_color_name(out: &mut String, c: Color)
    ensures
        final(out)@ == old(out)@ + color_name(c),
{
    match c {
        Color::Black => out.append("Black"),
        Color::Red => out.append("Red"),
        Color::Green => out.append("Green"),
        Color::Yellow => out.append("Yellow"),
        Color::Blue => out.append("Blue"),
        Color::Magenta => out.append("Magenta"),
        Color::Cyan => out.append("Cyan"),
        Color::White => out.append("White"),
    }
}

fn push_line(out: &mut String, segs: &Vec<Segment>, tagged: bool)
    ensures
        final(out)@ == old(out)@ + line_text(segs@, tagged),
{
    let mut i: usize = 0;
    while i < segs.len()
        invariant
            i <= segs@.len(),
            out@ == old(out)@ + line_text(segs@.take(i as int), tagged),
        decreases segs@.len() - i,
    {
        let s = &segs[i];
        if tagged {
            out.append("[");
            match s.color {
                Some(c) => push_color_name(out, c),
                None => out.append("normal"),
            }
            out.append(":");
            out.append(s.text.as_str());
            out.append("]");
        } else {
            out.append(s.text.as_str());
        }
        proof {
            assert(segs@.take(i + 1).drop_last() =~= segs@.take(i as int));
        }
        i = i + 1;
        assert(out@ =~= old(out)@ + line_text(segs@.take(i as int), tagged));
    }
    assert(segs@.take(segs@.len() as int) =~= segs@);
}

impl Segment {
    pub fn new(color: Option<Color>, text: String) -> (r: Segment)
        ensures
            r.color == color,
            r.text@ == text@,
    {
        Segment { color, text }
    }
}

impl StyledFragment {
    pub fn new(lines: Vec<Vec<Segment>>) -> (r: StyledFragment)
        ensures
            r.lines@ == lines@,
    {
        StyledFragment { lines }
    }

    fn emit(&self, tagged: bool) -> (r: String)
        ensures
            r@ == block_text(self.lines@, tagged),
    {
        let mut out = String::new();
        let mut i: usize = 0;
        while i < self.lines.len()
            invariant
                i <= self.lines@.len(),
                out@ == block_text(self.lines@.take(i as int), tagged),
            decreases self.lines@.len() - i,
        {
            if i > 0 {
                out.append("\n");
            }
            push_line(&mut out, &self.lines[i], tagged);
            proof {
                assert(self.lines@.take(i + 1).drop_last() =~= self.lines@.take(i as int));
            }
            i = i + 1;
        }
        assert(self.lines@.take(self.lines@.len() as int) =~= self.lines@);
        out
    }

    /// The text alone, lines joined by line breaks.
    pub fn emit_plain(&self) -> (r: String)
        ensures
            r@ == block_text(self.lines@, false),
    {
        self.emit(false)
    }

    /// Each segment written `[<colour>:<text>]`, lines joined by line breaks.
    pub fn emit_tagged(&self) -> (r: String)
        ensures
            r@ == block_text(self.lines@, true),
    {
        self.emit(true)
    }
}

} // verus!
