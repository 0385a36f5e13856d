//! Queries: the text predicates attached to the patterns of a structural
//! query, compiled from the raw predicate steps that the pattern compiler
//! hands over.
use crate::text::{bytes_regex_compiles, BytesRegex};
use vstd::prelude::*;
use vstd::string::StringExecFns;

verus! {

/// What a predicate step holds.
#[derive(Clone, Copy, Debug, PartialEq, Eq, Structural)]
pub enum PredicateStepKind {
    /// The end of a predicate clause.
    Done,
    /// A capture, by its id in the query's capture names.
    Capture,
    /// A literal, by its id in the query's string values.
    Literal,
}

/// One step of a pattern's raw predicate stream.
#[derive(Clone, Copy, Debug, PartialEq, Eq, Structural)]
pub struct QueryPredicateStep {
    pub kind: PredicateStepKind,
    pub value_id: u32,
}

#[derive(Debug, PartialEq, Eq)]
pub enum QueryError {
    Syntax(usize),
    NodeType(String),
    Field(String),
    Capture(String),
    Predicate(String),
}

/// A compiled predicate over the captures of a match.
pub enum QueryPredicate {
    /// The capture's text equals the string's UTF-8 bytes.
    CaptureEqString(u32, String),
    /// The two captures have the same text.
    CaptureEqCapture(u32, u32),
    /// The regex matches somewhere in the capture's text.
    CaptureMatchString(u32, BytesRegex),
}

/// What a compiled predicate checks.
pub enum PredicateView {
    CaptureEqString(u32, Seq<char>),
    CaptureEqCapture(u32, u32),
    CaptureMatchString(u32, Seq<char>),
}

impl QueryPredicate {
    pub open spec fn view(&self) -> PredicateView {
        match self {
            QueryPredicate::CaptureEqString(i, s) => PredicateView::CaptureEqString(*i, s@),
            QueryPredicate::CaptureEqCapture(i, j) => PredicateView::CaptureEqCapture(*i, *j),
            QueryPredicate::CaptureMatchString(i, r) => PredicateView::CaptureMatchString(*i, r.pattern()),
        }
    }
}

// ---------------------------------------------------------------------------
// Error messages.

pub open spec fn digit_char(d: nat) -> char {
    if d == 0 {
        '0'
    } else if d == 1 {
        '1'
    } else if d == 2 {
        '2'
    } else if d == 3 {
        '3'
    } else if d == 4 {
        '4'
    } else if d == 5 {
        '5'
    } else if d == 6 {
        '6'
    } else if d == 7 {
        '7'
    } else if d == 8 {
        '8'
    } else {
        '9'
    }
}

/// The decimal digits of `n`.
pub open spec fn decimal(n: nat) -> Seq<char>
    decreases n,
{
    if n < 10 {
        seq![digit_char(n)]
    } else {
        decimal(n / 10).push(digit_char(n % 10))
    }
}

fn digit_str(d: usize) -> (r: &'static str)
    requires
        d < 10,
    ensures
        r@ == seq![digit_char(d as nat)],
{
    proof {
        reveal_strlit("0");
        reveal_strlit("1");
        reveal_strlit("2");
        reveal_strlit("3");
        reveal_strlit("4");
        reveal_strlit("5");
        reveal_strlit("6");
        reveal_strlit("7");
        reveal_strlit("8");
        reveal_strlit("9");
    }
    if d == 0 {
        "0"
    } else if d == 1 {
        "1"
    } else if d == 2 {
        "2"
    } else if d == 3 {
        "3"
    } else if d == 4 {
        "4"
    } else if d == 5 {
        "5"
    } else if d == 6 {
        "6"
    } else if d == 7 {
        "7"
    } else if d == 8 {
        "8"
    } else {
        assert(seq!['9'] =~= "9"@);
        "9"
    }
}

fn decimal_string(n: usize) -> (r: String)
    ensures
        r@ == decimal(n as nat),
    decreases n,
{
    if n < 10 {
        String::from_str(digit_str(n))
    } else {
        let mut s = decimal_string(n / 10);
        s.append(digit_str(n % 10));
        s
    }
}

pub open spec fn missing_function_message(capture: Seq<char>) -> Seq<char> {
    "Expected predicate to start with a function name. Got @"@ + capture + "."@
}

pub open spec fn arity_message(function: Seq<char>, given: nat) -> Seq<char> {
    "Wrong number of arguments to "@ + function + " predicate. Expected 2, got "@ + decimal(given)
        + "."@
}

pub open spec fn first_argument_message(function: Seq<char>, literal: Seq<char>) -> Seq<char> {
    "First argument to "@ + function + " predicate must be a capture name. Got literal \""@ + literal
        + "\"."@
}

pub open spec fn second_argument_message(function: Seq<char>, capture: Seq<char>) -> Seq<char> {
    "Second argument to "@ + function + " predicate must be a literal. Got capture @"@ + capture
        + "."@
}

pub open spec fn invalid_regex_message(pattern: Seq<char>) -> Seq<char> {
    "Invalid regex '"@ + pattern + "'"@
}

pub open spec fn set_arguments_message() -> Seq<char> {
    "Argument to set! predicate must be strings."@
}

pub open spec fn unknown_function_message(function: Seq<char>) -> Seq<char> {
    "Unknown query predicate function "@ + function
}

/// The concatenation of a literal, a string and a literal.
fn framed(before: &str, middle: &str, after: &str) -> (r: String)
    ensures
        r@ == before@ + middle@ + after@,
{
    let mut s = String::from_str(before);
    s.append(middle);
    s.append(after);
    s
}

// ---------------------------------------------------------------------------
// Compiling one clause.

pub open spec fn string_views(v: Seq<String>) -> Seq<Seq<char>> {
    v.map_values(|s: String| s@)
}

/// Whether every step refers to an existing capture or string value.
pub open spec fn step_ok(s: QueryPredicateStep, n_captures: nat, n_strings: nat) -> bool {
    match s.kind {
        PredicateStepKind::Capture => (s.value_id as nat) < n_captures,
        PredicateStepKind::Literal => (s.value_id as nat) < n_strings,
        PredicateStepKind::Done => true,
    }
}

/// What a clause yields: a filter, or a declared property.
pub enum ClauseView {
    Filter(PredicateView),
    Property(Seq<char>, Seq<char>),
}

/// What a non-empty clause (a run of steps without an end marker) compiles
/// to, or the message of the error it raises.
pub open spec fn clause_spec(
    c: Seq<QueryPredicateStep>,
    caps: Seq<Seq<char>>,
    strs: Seq<Seq<char>>,
) -> Result<ClauseView, Seq<char>> {
    if !(c[0].kind is Literal) {
        Err(missing_function_message(caps[c[0].value_id as int]))
    } else {
        let name = strs[c[0].value_id as int];
        if name == "eq?"@ {
            if c.len() != 3 {
                Err(arity_message(name, (c.len() - 1) as nat))
            } else if !(c[1].kind is Capture) {
                Err(first_argument_message(name, strs[c[1].value_id as int]))
            } else if c[2].kind is Capture {
                Ok(ClauseView::Filter(PredicateView::CaptureEqCapture(c[1].value_id, c[2].value_id)))
            } else {
                Ok(
                    ClauseView::Filter(
                        PredicateView::CaptureEqString(c[1].value_id, strs[c[2].value_id as int]),
                    ),
                )
            }
        } else if name == "match?"@ {
            if c.len() != 3 {
                Err(arity_message(name, (c.len() - 1) as nat))
            } else if !(c[1].kind is Capture) {
                Err(first_argument_message(name, strs[c[1].value_id as int]))
            } else if c[2].kind is Capture {
                Err(second_argument_message(name, caps[c[2].value_id as int]))
            } else if !bytes_regex_compiles(strs[c[2].value_id as int]) {
                Err(invalid_regex_message(strs[c[2].value_id as int]))
            } else {
                Ok(
                    ClauseView::Filter(
                        PredicateView::CaptureMatchString(c[1].value_id, strs[c[2].value_id as int]),
                    ),
                )
            }
        } else if name == "set!"@ {
            if c.len() != 3 {
                Err(arity_message(name, (c.len() - 1) as nat))
            } else if !(c[1].kind is Literal) || !(c[2].kind is Literal) {
                Err(set_arguments_message())
            } else {
                Ok(ClauseView::Property(strs[c[1].value_id as int], strs[c[2].value_id as int]))
            }
        } else {
            Err(unknown_function_message(name))
        }
    }
}

enum CompiledClause {
    Filter(QueryPredicate),
    Property(String, String),
}

spec fn compiled_view(r: Result<CompiledClause, String>) -> Result<ClauseView, Seq<char>> {
    match r {
        Ok(CompiledClause::Filter(p)) => Ok(ClauseView::Filter(p.view())),
        Ok(CompiledClause::Property(k, v)) => Ok(ClauseView::Property(k@, v@)),
        Err(m) => Err(m@),
    }
}

fn arity_error(name: &String, given: usize) -> (r: String)
    ensures
        r@ == arity_message(name@, given as nat),
{
    let mut s = String::from_str("Wrong number of arguments to ");
    s.append(name.as_str());
    s.append(" predicate. Expected 2, got ");
    let n = decimal_string(given);
    s.append(n.as_str());
    s.append(".");
    s
}

/// Compiles the clause `steps[start..end]`.
fn compile_clause(
    steps: &Vec<QueryPredicateStep>,
    start: usize,
    end: usize,
    caps: &Vec<String>,
    strs: &Vec<String>,
) -> (r: Result<CompiledClause, String>)
    requires
        start < end <= steps@.len(),
        forall|j: int| start <= j < end ==> step_ok(#[trigger] steps@[j], caps@.len(), strs@.len()),
        forall|j: int| start <= j < end ==> !((#[trigger] steps@[j]).kind is Done),
    ensures
        compiled_view(r) == clause_spec(
            steps@.subrange(start as int, end as int),
            string_views(caps@),
            string_views(strs@),
        ),
{
    let ghost c = steps@.subrange(start as int, end as int);
    let ghost cv = string_views(caps@);
    let ghost sv = string_views(strs@);
    assert(c[0] == steps@[start as int]);
    assert(step_ok(steps@[start as int], caps@.len(), strs@.len()));
    assert(!(steps@[start as int].kind is Done));
    let first = steps[start];
    if first.kind != PredicateStepKind::Literal {
        assert(cv[first.value_id as int] == caps@[first.value_id as int]@);
        return Err(framed(
            "Expected predicate to start with a function name. Got @",
            caps[first.value_id as usize].as_str(),
            ".",
        ));
    }
    let name = &strs[first.value_id as usize];
    assert(sv[first.value_id as int] == name@);
    let len = end - start;
    if *name == String::from_str("eq?") || *name == String::from_str("match?") {
        if len != 3 {
            return Err(arity_error(name, len - 1));
        }
        assert(c[1] == steps@[start + 1] && c[2] == steps@[start + 2]);
        assert(step_ok(steps@[start + 1], caps@.len(), strs@.len()));
        assert(step_ok(steps@[start + 2], caps@.len(), strs@.len()));
        assert(!(steps@[start + 1].kind is Done) && !(steps@[start + 2].kind is Done));
        let a = steps[start + 1];
        let b = steps[start + 2];
        if a.kind != PredicateStepKind::Capture {
            assert(sv[a.value_id as int] == strs@[a.value_id as int]@);
            let mut m = String::from_str("First argument to ");
            m.append(name.as_str());
            m.append(" predicate must be a capture name. Got literal \"");
            m.append(strs[a.value_id as usize].as_str());
            m.append("\".");
            return Err(m);
        }
        if *name == String::from_str("eq?") {
            if b.kind == PredicateStepKind::Capture {
                return Ok(CompiledClause::Filter(QueryPredicate::CaptureEqCapture(a.value_id, b.value_id)));
            }
            assert(sv[b.value_id as int] == strs@[b.value_id as int]@);
            return Ok(CompiledClause::Filter(QueryPredicate::CaptureEqString(
                a.value_id,
                strs[b.value_id as usize].clone(),
            )));
        }
        if b.kind == PredicateStepKind::Capture {
            assert(cv[b.value_id as int] == caps@[b.value_id as int]@);
            let mut m = String::from_str("Second argument to ");
            m.append(name.as_str());
            m.append(" predicate must be a literal. Got capture @");
            m.append(caps[b.value_id as usize].as_str());
            m.append(".");
            return Err(m);
        }
        let pattern = &strs[b.value_id as usize];
        assert(sv[b.value_id as int] == pattern@);
        return match BytesRegex::compile(pattern.as_str()) {
            Ok(regex) => Ok(CompiledClause::Filter(QueryPredicate::CaptureMatchString(a.value_id, regex))),
            Err(_) => Err(framed("Invalid regex '", pattern.as_str(), "'")),
        };
    }
    if *name == String::from_str("set!") {
        if len != 3 {
            return Err(arity_error(name, len - 1));
        }
        assert(c[1] == steps@[start + 1] && c[2] == steps@[start + 2]);
        assert(step_ok(steps@[start + 1], caps@.len(), strs@.len()));
        assert(step_ok(steps@[start + 2], caps@.len(), strs@.len()));
        let a = steps[start + 1];
        let b = steps[start + 2];
        if a.kind != PredicateStepKind::Literal || b.kind != PredicateStepKind::Literal {
            return Err(String::from_str("Argument to set! predicate must be strings."));
        }
        assert(sv[a.value_id as int] == strs@[a.value_id as int]@);
        assert(sv[b.value_id as int] == strs@[b.value_id as int]@);
        return Ok(CompiledClause::Property(
            strs[a.value_id as usize].clone(),
            strs[b.value_id as usize].clone(),
        ));
    }
    let mut m = String::from_str("Unknown query predicate function ");
    m.append(name.as_str());
    Err(m)
}

// ---------------------------------------------------------------------------
// Compiling a pattern's clauses.

/// The predicates and declared properties of one pattern.
pub struct PatternView {
    pub predicates: Seq<PredicateView>,
    pub properties: Seq<(Seq<char>, Seq<char>)>,
}

pub open spec fn empty_pattern() -> PatternView {
    PatternView { predicates: Seq::empty(), properties: Seq::empty() }
}

/// The outcome after one more clause: an empty clause changes nothing, and
/// the first error stands.
pub open spec fn add_clause(
    r: Result<PatternView, Seq<char>>,
    c: Seq<QueryPredicateStep>,
    caps: Seq<Seq<char>>,
    strs: Seq<Seq<char>>,
) -> Result<PatternView, Seq<char>> {
    match r {
        Err(e) => Err(e),
        Ok(acc) => if c.len() == 0 {
            Ok(acc)
        } else {
            match clause_spec(c, caps, strs) {
                Err(e) => Err(e),
                Ok(ClauseView::Filter(p)) => Ok(
                    PatternView { predicates: acc.predicates.push(p), properties: acc.properties },
                ),
                Ok(ClauseView::Property(k, v)) => Ok(
                    PatternView { predicates: acc.predicates, properties: acc.properties.push((k, v)) },
                ),
            }
        },
    }
}

/// The outcome of the clauses that the first `i` steps close (a clause ends
/// at each end marker), and where the clause still open after them starts.
pub open spec fn scan(
    steps: Seq<QueryPredicateStep>,
    i: nat,
    caps: Seq<Seq<char>>,
    strs: Seq<Seq<char>>,
) -> (Result<PatternView, Seq<char>>, nat)
    decreases i,
{
    if i == 0 || i > steps.len() {
        (Ok(empty_pattern()), 0)
    } else {
        let (r, start) = scan(steps, (i - 1) as nat, caps, strs);
        if steps[i - 1].kind is Done {
            (add_clause(r, steps.subrange(start as int, i - 1), caps, strs), i)
        } else {
            (r, start)
        }
    }
}

/// What a pattern's predicate steps compile to: every clause in order, the
/// last one closed by the end of the steps.
pub open spec fn pattern_spec(
    steps: Seq<QueryPredicateStep>,
    caps: Seq<Seq<char>>,
    strs: Seq<Seq<char>>,
) -> Result<PatternView, Seq<char>> {
    let (r, start) = scan(steps, steps.len(), caps, strs);
    add_clause(r, steps.subrange(start as int, steps.len() as int), caps, strs)
}

/// What all patterns compile to; the first error stands.
pub open spec fn patterns_spec(
    ps: Seq<Seq<QueryPredicateStep>>,
    caps: Seq<Seq<char>>,
    strs: Seq<Seq<char>>,
) -> Result<Seq<PatternView>, Seq<char>>
    decreases ps.len(),
{
    if ps.len() == 0 {
        Ok(Seq::empty())
    } else {
        match patterns_spec(ps.drop_last(), caps, strs) {
            Err(e) => Err(e),
            Ok(vs) => match pattern_spec(ps.last(), caps, strs) {
                Err(e) => Err(e),
                Ok(v) => Ok(vs.push(v)),
            },
        }
    }
}

proof fn lemma_scan_start(steps: Seq<QueryPredicateStep>, i: nat, caps: Seq<Seq<char>>, strs: Seq<Seq<char>>)
    ensures
        scan(steps, i, caps, strs).1 <= i,
    decreases i,
{
    if i > 0 && i <= steps.len() {
        lemma_scan_start(steps, (i - 1) as nat, caps, strs);
    }
}

proof fn lemma_scan_error_stands(
    steps: Seq<QueryPredicateStep>,
    i: nat,
    j: nat,
    caps: Seq<Seq<char>>,
    strs: Seq<Seq<char>>,
    e: Seq<char>,
)
    requires
        i <= j <= steps.len(),
        scan(steps, i, caps, strs).0 == Err::<PatternView, Seq<char>>(e),
    ensures
        scan(steps, j, caps, strs).0 == Err::<PatternView, Seq<char>>(e),
    decreases j - i,
{
    if j > i {
        lemma_scan_error_stands(steps, i, (j - 1) as nat, caps, strs, e);
    }
}

proof fn lemma_patterns_error_stands(
    ps: Seq<Seq<QueryPredicateStep>>,
    i: int,
    caps: Seq<Seq<char>>,
    strs: Seq<Seq<char>>,
    e: Seq<char>,
)
    requires
        0 <= i <= ps.len(),
        patterns_spec(ps.take(i), caps, strs) == Err::<Seq<PatternView>, Seq<char>>(e),
    ensures
        patterns_spec(ps, caps, strs) == Err::<Seq<PatternView>, Seq<char>>(e),
    decreases ps.len() - i,
{
    if i < ps.len() {
        assert(ps.take(i + 1).drop_last() =~= ps.take(i));
        lemma_patterns_error_stands(ps, i + 1, caps, strs, e);
    } else {
        assert(ps.take(i) =~= ps);
    }
}

pub open spec fn predicate_views(ps: Seq<QueryPredicate>) -> Seq<PredicateView> {
    ps.map_values(|p: QueryPredicate| p.view())
}

pub open spec fn property_views(ps: Seq<(String, String)>) -> Seq<(Seq<char>, Seq<char>)> {
    ps.map_values(|p: (String, String)| (p.0@, p.1@))
}

spec fn pattern_view(preds: Seq<QueryPredicate>, props: Seq<(String, String)>) -> PatternView {
    PatternView { predicates: predicate_views(preds), properties: property_views(props) }
}

pub open spec fn steps_ok(steps: Seq<QueryPredicateStep>, n_captures: nat, n_strings: nat) -> bool {
    forall|j: int| 0 <= j < steps.len() ==> step_ok(#[trigger] steps[j], n_captures, n_strings)
}

/// Adds the clause `steps[start..end]` to the pattern's predicates or properties.
fn add_compiled_clause(
    steps: &Vec<QueryPredicateStep>,
    start: usize,
    end: usize,
    caps: &Vec<String>,
    strs: &Vec<String>,
    preds: &mut Vec<QueryPredicate>,
    props: &mut Vec<(String, String)>,
) -> (r: Result<(), String>)
    requires
        start <= end <= steps@.len(),
        steps_ok(steps@, caps@.len(), strs@.len()),
        forall|j: int| start <= j < end ==> !((#[trigger] steps@[j]).kind is Done),
    ensures
        match add_clause(
            Ok(pattern_view(old(preds)@, old(props)@)),
            steps@.subrange(start as int, end as int),
            string_views(caps@),
            string_views(strs@),
        ) {
            Ok(v) => r is Ok && pattern_view(final(preds)@, final(props)@) == v,
            Err(e) => r matches Err(m) && m@ == e,
        },
{
    if start == end {
        return Ok(());
    }
    match compile_clause(steps, start, end, caps, strs) {
        Ok(CompiledClause::Filter(p)) => {
            preds.push(p);
            assert(predicate_views(preds@) =~= predicate_views(old(preds)@).push(p.view()));
            Ok(())
        },
        Ok(CompiledClause::Property(k, v)) => {
            props.push((k, v));
            assert(property_views(props@) =~= property_views(old(props)@).push((k@, v@)));
            Ok(())
        },
        Err(m) => Err(m),
    }
}

/// Compiles one pattern's predicate steps.
fn compile_pattern(steps: &Vec<QueryPredicateStep>, caps: &Vec<String>, strs: &Vec<String>) -> (r: Result<
    (Vec<QueryPredicate>, Vec<(String, String)>),
    String,
>)
    requires
        steps_ok(steps@, caps@.len(), strs@.len()),
    ensures
        match pattern_spec(steps@, string_views(caps@), string_views(strs@)) {
            Ok(v) => r matches Ok((preds, props)) && pattern_view(preds@, props@) == v,
            Err(e) => r matches Err(m) && m@ == e,
        },
{
    let ghost cv = string_views(caps@);
    let ghost sv = string_views(strs@);
    let mut preds: Vec<QueryPredicate> = Vec::new();
    let mut props: Vec<(String, String)> = Vec::new();
    let mut start: usize = 0;
    let mut i: usize = 0;
    assert(pattern_view(preds@, props@) == empty_pattern()) by {
        assert(predicate_views(preds@) =~= Seq::<PredicateView>::empty());
        assert(property_views(props@) =~= Seq::<(Seq<char>, Seq<char>)>::empty());
    }
    while i < steps.len()
        invariant
            steps_ok(steps@, caps@.len(), strs@.len()),
            cv == string_views(caps@),
            sv == string_views(strs@),
            start <= i <= steps@.len(),
            scan(steps@, i as nat, cv, sv) == (
                Ok::<PatternView, Seq<char>>(pattern_view(preds@, props@)),
                start as nat,
            ),
            forall|j: int| start <= j < i ==> !((#[trigger] steps@[j]).kind is Done),
        decreases steps@.len() - i,
    {
        if steps[i].kind == PredicateStepKind::Done {
            match add_compiled_clause(steps, start, i, caps, strs, &mut preds, &mut props) {
                Ok(()) => {},
                Err(m) => {
                    proof {
                        lemma_scan_error_stands(steps@, (i + 1) as nat, steps@.len(), cv, sv, m@);
                    }
                    return Err(m);
                },
            }
            start = i + 1;
        }
        i += 1;
    }
    match add_compiled_clause(steps, start, i, caps, strs, &mut preds, &mut props) {
        Ok(()) => Ok((preds, props)),
        Err(m) => Err(m),
    }
}

/// A query's capture names, and for each pattern its predicates (all must
/// hold for a match to count) and its declared properties.
pub struct Query {
    capture_names: Vec<String>,
    predicates: Vec<Vec<QueryPredicate>>,
    properties: Vec<Vec<(String, String)>>,
}

impl Query {
    pub closed spec fn spec_capture_names(&self) -> Seq<Seq<char>> {
        string_views(self.capture_names@)
    }

    /// The compiled predicates and properties, one entry per pattern.
    pub closed spec fn patterns(&self) -> Seq<PatternView> {
        Seq::new(
            self.predicates@.len(),
            |i: int| pattern_view(self.predicates@[i]@, self.properties@[i]@),
        )
    }

    pub closed spec fn wf(&self) -> bool {
        self.predicates@.len() == self.properties@.len()
    }

    /// Compiles the predicates of a structural query: `capture_names` and
    /// `string_values` are the query's tables, and `pattern_steps` holds each
    /// pattern's raw predicate steps, in pattern order.
    pub fn new(
        capture_names: Vec<String>,
        string_values: Vec<String>,
        pattern_steps: Vec<Vec<QueryPredicateStep>>,
    ) -> (r: Result<Query, QueryError>)
        requires
            forall|i: int|
                0 <= i < pattern_steps@.len() ==> steps_ok(
                    #[trigger] pattern_steps@[i]@,
                    capture_names@.len(),
                    string_values@.len(),
                ),
        ensures
            match patterns_spec(
                pattern_steps@.map_values(|v: Vec<QueryPredicateStep>| v@),
                string_views(capture_names@),
                string_views(string_values@),
            ) {
                Ok(vs) => r matches Ok(q) && q.wf() && q.patterns() == vs && q.spec_capture_names()
                    == string_views(capture_names@),
                Err(e) => r matches Err(QueryError::Predicate(m)) && m@ == e,
            },
    {
        let ghost ps = pattern_steps@.map_values(|v: Vec<QueryPredicateStep>| v@);
        let ghost cv = string_views(capture_names@);
        let ghost sv = string_views(string_values@);
        let mut predicates: Vec<Vec<QueryPredicate>> = Vec::new();
        let mut properties: Vec<Vec<(String, String)>> = Vec::new();
        let mut i: usize = 0;
        assert(ps.take(0) =~= Seq::<Seq<QueryPredicateStep>>::empty());
        assert(Seq::new(0, |x: int| pattern_view(predicates@[x]@, properties@[x]@)) =~= Seq::<PatternView>::empty());
        while i < pattern_steps.len()
            invariant
                ps == pattern_steps@.map_values(|v: Vec<QueryPredicateStep>| v@),
                cv == string_views(capture_names@),
                sv == string_views(string_values@),
                forall|j: int|
                    0 <= j < pattern_steps@.len() ==> steps_ok(
                        #[trigger] pattern_steps@[j]@,
                        capture_names@.len(),
                        string_values@.len(),
                    ),
                i <= pattern_steps@.len(),
                predicates@.len() == i,
                properties@.len() == i,
                patterns_spec(ps.take(i as int), cv, sv) == Ok::<Seq<PatternView>, Seq<char>>(
                    Seq::new(i as nat, |x: int| pattern_view(predicates@[x]@, properties@[x]@)),
                ),
            decreases pattern_steps@.len() - i,
        {
            assert(ps.take(i + 1).drop_last() =~= ps.take(i as int));
            assert(ps.take(i + 1).last() == pattern_steps@[i as int]@);
            match compile_pattern(&pattern_steps[i], &capture_names, &string_values) {
                Ok((preds, props)) => {
                    let ghost before = Seq::new(i as nat, |x: int| pattern_view(predicates@[x]@, properties@[x]@));
                    predicates.push(preds);
                    properties.push(props);
                    assert(Seq::new((i + 1) as nat, |x: int| pattern_view(predicates@[x]@, properties@[x]@))
                        =~= before.push(pattern_view(predicates@[i as int]@, properties@[i as int]@)));
                },
                Err(m) => {
                    proof {
                        lemma_patterns_error_stands(ps, i + 1, cv, sv, m@);
                        assert(ps.take(ps.len() as int) =~= ps);
                    }
                    return Err(QueryError::Predicate(m));
                },
            }
            i += 1;
        }
        assert(ps.take(ps.len() as int) =~= ps);
        let q = Query { capture_names, predicates, properties };
        assert(q.patterns() =~= Seq::new(i as nat, |x: int| pattern_view(q.predicates@[x]@, q.properties@[x]@)));
        Ok(q)
    }

    pub fn pattern_count(&self) -> (r: usize)
        ensures
            r == self.patterns().len(),
    {
        self.predicates.len()
    }

    pub fn capture_names(&self) -> (r: &[String])
        ensures
            string_views(r@) == self.spec_capture_names(),
    {
        self.capture_names.as_slice()
    }

    /// The properties that pattern `index` declares, in order.
    pub fn pattern_properties(&self, index: usize) -> (r: &[(String, String)])
        requires
            self.wf(),
            index < self.patterns().len(),
        ensures
            property_views(r@) == self.patterns()[index as int].properties,
    {
        self.properties[index].as_slice()
    }

    pub(crate) fn pattern_predicates(&self, index: usize) -> (r: &Vec<QueryPredicate>)
        requires
            index < self.patterns().len(),
        ensures
            predicate_views(r@) == self.patterns()[index as int].predicates,
    {
        &self.predicates[index]
    }
}

proof fn lemma_scan_without_markers(
    steps: Seq<QueryPredicateStep>,
    i: nat,
    caps: Seq<Seq<char>>,
    strs: Seq<Seq<char>>,
)
    requires
        i <= steps.len(),
        forall|j: int| 0 <= j < steps.len() ==> !((#[trigger] steps[j]).kind is Done),
    ensures
        scan(steps, i, caps, strs) == (Ok::<PatternView, Seq<char>>(empty_pattern()), 0nat),
    decreases i,
{
    if i > 0 {
        lemma_scan_without_markers(steps, (i - 1) as nat, caps, strs);
        assert(!(steps[i - 1].kind is Done));
    }
}

/// A predicate clause whose function is none of `eq?`, `match?` and `set!`
/// is rejected with a message that names the function; so is a query whose
/// first pattern holds that clause alone, whatever the other patterns hold.
pub proof fn lemma_unknown_function_rejected(
    c: Seq<QueryPredicateStep>,
    rest: Seq<Seq<QueryPredicateStep>>,
    caps: Seq<Seq<char>>,
    strs: Seq<Seq<char>>,
)
    requires
        c.len() > 0,
        c[0].kind is Literal,
        (c[0].value_id as int) < strs.len(),
        strs[c[0].value_id as int] != "eq?"@,
        strs[c[0].value_id as int] != "match?"@,
        strs[c[0].value_id as int] != "set!"@,
        forall|j: int| 0 <= j < c.len() ==> !((#[trigger] c[j]).kind is Done),
    ensures
        clause_spec(c, caps, strs) == Err::<ClauseView, Seq<char>>(
            unknown_function_message(strs[c[0].value_id as int]),
        ),
        patterns_spec(seq![c] + rest, caps, strs) == Err::<Seq<PatternView>, Seq<char>>(
            unknown_function_message(strs[c[0].value_id as int]),
        ),
{
    let m = unknown_function_message(strs[c[0].value_id as int]);
    lemma_scan_without_markers(c, c.len(), caps, strs);
    assert(c.subrange(0, c.len() as int) =~= c);
    assert(pattern_spec(c, caps, strs) == Err::<PatternView, Seq<char>>(m));
    let ps = seq![c] + rest;
    assert(ps.take(1) =~= seq![c]);
    assert(seq![c].drop_last() =~= Seq::<Seq<QueryPredicateStep>>::empty());
    assert(patterns_spec(Seq::<Seq<QueryPredicateStep>>::empty(), caps, strs) is Ok);
    assert(seq![c].last() == c);
    assert(patterns_spec(seq![c], caps, strs) == Err::<Seq<PatternView>, Seq<char>>(m));
    assert(patterns_spec(ps.take(1), caps, strs) == Err::<Seq<PatternView>, Seq<char>>(m));
    lemma_patterns_error_stands(ps, 1, caps, strs, m);
}

} // verus!
