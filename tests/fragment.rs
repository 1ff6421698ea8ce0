use suite_report::fragment::{Color, Segment, StyledFragment};

struct Stringy {
    value: String,
}

impl Stringy {
    fn value(&self) -> &str {
        &self.value
    }
}

fn red(t: &str) -> Segment {
    Segment::new(Some(Color::Red), t.to_string())
}

fn green(t: &str) -> Segment {
    Segment::new(Some(Color::Green), t.to_string())
}

fn normal(t: &str) -> Segment {
    Segment::new(None, t.to_string())
}

fn check(lines: Vec<Vec<Segment>>, plain: &str, colored: &str) {
    let frag = StyledFragment::new(lines);
    assert_eq!(&frag.emit_plain(), plain);
    assert_eq!(&frag.emit_tagged(), colored);
}

#[test]
fn test_line() {
    let value = ("outer-value",);
    let stringy = Stringy {
        value: "Niko".to_string(),
    };

    check(vec![vec![red("hello")]], "hello", "[Red:hello]");

    check(vec![vec![normal("hello")]], "hello", "[normal:hello]");

    check(
        vec![vec![red("hello"), green("world")]],
        "helloworld",
        "[Red:hello][Green:world]",
    );

    check(
        vec![vec![red("hello"), normal(value.0), green("world")]],
        "helloouter-valueworld",
        "[Red:hello][normal:outer-value][Green:world]",
    );

    check(
        vec![vec![red("hello"), normal(stringy.value()), green("world")]],
        "helloNikoworld",
        "[Red:hello][normal:Niko][Green:world]",
    );

    check(
        vec![vec![red("hello"), normal(&(1 + 1).to_string()), green("world")]],
        "hello2world",
        "[Red:hello][normal:2][Green:world]",
    );
}

#[test]
fn test_block() {
    let value = ("value-1", "value-2");

    check(
        vec![vec![red("hello")], vec![green("world")]],
        "hello\nworld",
        "[Red:hello]\n[Green:world]",
    );

    check(
        vec![vec![normal("hello")], vec![normal("world")]],
        "hello\nworld",
        "[normal:hello]\n[normal:world]",
    );

    check(
        vec![
            vec![red("hello"), green("world")],
            vec![red("goodbye"), normal("world")],
        ],
        "helloworld\ngoodbyeworld",
        "[Red:hello][Green:world]\n[Red:goodbye][normal:world]",
    );

    check(
        vec![
            vec![red("hello"), normal(value.0), green("world")],
            vec![red("goodbye"), normal(value.1), green("world")],
        ],
        "hellovalue-1world\ngoodbyevalue-2world",
        "[Red:hello][normal:value-1][Green:world]\n[Red:goodbye][normal:value-2][Green:world]",
    );
}

#[test]
fn empty_fragment_emits_nothing() {
    let frag = StyledFragment::new(vec![]);
    assert_eq!(frag.emit_plain(), "");
    assert_eq!(frag.emit_tagged(), "");
}
