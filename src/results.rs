use vstd::prelude::*;

verus! {

/// Outcome of a single spec: a leaf of the result tree.
pub struct SpecResult {
    pub name: String,
    pub full_name: String,
    pub duration: u64,
    /// `Some(true)` passed, `Some(false)` failed, `None` skipped.
    pub pass: Option<bool>,
    pub err_msg: String,
}

/// A named group of specs and nested suites.
pub struct SuiteResult {
    pub name: String,
    pub duration: u64,
    /// Specs that passed directly under this suite.
    pub passing: u64,
    /// Specs that failed directly under this suite.
    pub failing: u64,
    pub child_specs: Vec<SpecResult>,
    pub child_suites: Vec<SuiteResult>,
}

impl SpecResult {
    pub fn new(name: String, full_name: String, duration: u64, pass: Option<bool>, err_msg: String) -> (r: SpecResult)
        ensures
            r.name@ == name@,
            r.full_name@ == full_name@,
            r.duration == duration,
            r.pass == pass,
            r.err_msg@ == err_msg@,
    {
        SpecResult { name, full_name, duration, pass, err_msg }
    }

    pub fn get_name(&self) -> (r: &str)
        ensures
            r@ == self.name@,
    {
        self.name.as_str()
    }

    pub fn get_full_name(&self) -> (r: &str)
        ensures
            r@ == self.full_name@,
    {
        self.full_name.as_str()
    }

    pub fn get_duration(&self) -> (r: u64)
        ensures
            r == self.duration,
    {
        self.duration
    }

    pub fn get_pass(&self) -> (r: Option<bool>)
        ensures
            r == self.pass,
    {
        self.pass
    }

    pub fn get_err_msg(&self) -> (r: &str)
        ensures
            r@ == self.err_msg@,
    {
        self.err_msg.as_str()
    }
}

impl SuiteResult {
    pub fn new(
        name: String,
        duration: u64,
        passing: u64,
        failing: u64,
        child_specs: Vec<SpecResult>,
        child_suites: Vec<SuiteResult>,
    ) -> (r: SuiteResult)
        ensures
            r.name@ == name@,
            r.duration == duration,
            r.passing == passing,
            r.failing == failing,
            r.child_specs@ == child_specs@,
            r.child_suites@ == child_suites@,
    {
        SuiteResult { name, duration, passing, failing, child_specs, child_suites }
    }

    pub fn get_name(&self) -> (r: &str)
        ensures
            r@ == self.name@,
    {
        self.name.as_str()
    }

    pub fn get_duration(&self) -> (r: u64)
        ensures
            r == self.duration,
    {
        self.duration
    }

    pub fn get_passing(&self) -> (r: u64)
        ensures
            r == self.passing,
    {
        self.passing
    }

    pub fn get_failing(&self) -> (r: u64)
        ensures
            r == self.failing,
    {
        self.failing
    }

    pub fn get_child_specs(&self) -> (r: &Vec<SpecResult>)
        ensures
            r@ == self.child_specs@,
    {
        &self.child_specs
    }

    pub fn get_child_suites(&self) -> (r: &Vec<SuiteResult>)
        ensures
            r@ == self.child_suites@,
    {
        &self.child_suites
    }
}

/// One line of the tree part of a report, before it is turned into text:
/// a suite header or a spec, each with its indentation.
pub ghost enum Row {
    Header(Seq<char>, nat),
    Item(SpecResult, nat),
}

pub open spec fn is_failure(r: Row) -> bool {
    match r {
        Row::Item(sp, _) => sp.pass == Some(false),
        Row::Header(_, _) => false,
    }
}

/// The rows of `s` in pre-order: the header, the direct specs in order, then
/// each child suite two columns further in.
pub open spec fn rows(s: SuiteResult, ind: nat) -> Seq<Row>
    decreases s, 1nat, 0nat,
{
    seq![Row::Header(s.name@, ind)] + spec_rows(s.child_specs@, ind) + child_rows(
        s,
        s.child_suites@.len(),
        ind + 2,
    )
}

pub open spec fn spec_rows(specs: Seq<SpecResult>, ind: nat) -> Seq<Row> {
    specs.map_values(|sp: SpecResult| Row::Item(sp, ind))
}

/// The rows of the first `n` child suites of `s`, one after the other.
pub open spec fn child_rows(s: SuiteResult, n: nat, ind: nat) -> Seq<Row>
    decreases s, 0nat, n,
{
    if n == 0 || n > s.child_suites@.len() {
        seq![]
    } else {
        child_rows(s, (n - 1) as nat, ind) + rows(s.child_suites@[n - 1], ind)
    }
}

} // verus!
