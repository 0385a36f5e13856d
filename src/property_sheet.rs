//! Property sheets: a declarative table of states and transitions, compiled
//! into per-state lookup tables keyed by field id and by node kind id.
use crate::language::{first_index_of, lemma_first_index_of, Language, MAX_IDS};
use crate::text::{regex_compiles, TextRegex};
use vstd::prelude::*;

verus! {

#[verifier::external_type_specification]
#[verifier::external_body]
pub struct ExJsonError(serde_json::Error);

/// A transition clause as written in a sheet's description.
pub struct PropertyTransitionJSON {
    /// The node kind the clause applies to.
    pub kind: Option<String>,
    /// Whether that node kind is named or anonymous.
    pub named: Option<bool>,
    /// The position the node must have among its siblings.
    pub index: Option<usize>,
    /// The field the node must fill in its parent.
    pub field: Option<String>,
    /// A regex that the node's text must match.
    pub text: Option<String>,
    /// The state to move to.
    pub state_id: usize,
}

/// A state as written in a sheet's description.
pub struct PropertyStateJSON {
    pub id: Option<usize>,
    pub property_set_id: usize,
    pub transitions: Vec<PropertyTransitionJSON>,
    pub default_next_state_id: usize,
}

/// A sheet's description: its states and its property sets.
pub struct PropertySheetJSON<P> {
    pub states: Vec<PropertyStateJSON>,
    pub property_sets: Vec<P>,
}

/// A compiled transition: the state it leads to, and the conditions under
/// which it applies (`None` means no condition).
#[derive(Clone, Copy, Debug, PartialEq, Eq)]
pub struct PropertyTransition {
    pub state_id: usize,
    pub child_index: Option<usize>,
    pub text_regex_index: Option<usize>,
    pub node_kind_id: Option<u16>,
}

impl PropertyTransition {
    /// Whether this transition applies to a node of kind `kind` that is child
    /// number `child_index` of its parent, given whether the node's text
    /// matches the transition's regex (consulted only when it has one).
    pub fn applies(&self, kind: u16, child_index: usize, text_matches: bool) -> (r: bool)
        ensures
            r == ((self.node_kind_id matches Some(k) ==> k == kind) && (self.text_regex_index is Some
                ==> text_matches) && (self.child_index matches Some(c) ==> c == child_index)),
    {
        if let Some(k) = self.node_kind_id {
            if k != kind {
                return false;
            }
        }
        if self.text_regex_index.is_some() && !text_matches {
            return false;
        }
        if let Some(c) = self.child_index {
            if c != child_index {
                return false;
            }
        }
        true
    }
}

/// A compiled state. `field_transitions[f]` holds the transitions for a node
/// that fills field `f` in its parent, when some clause instantiated that
/// bucket; `kind_transitions[k]` holds those for a node of kind `k`.
pub struct PropertyState {
    field_transitions: Vec<Option<Vec<PropertyTransition>>>,
    kind_transitions: Vec<Vec<PropertyTransition>>,
    property_set_id: usize,
    default_next_state_id: usize,
}

/// A compiled property sheet.
pub struct PropertySheet<P> {
    states: Vec<PropertyState>,
    property_sets: Vec<P>,
    text_regexes: Vec<TextRegex>,
}

#[derive(Debug)]
pub enum PropertySheetError {
    /// The description could not be read.
    InvalidJSON(serde_json::Error),
    /// A `text` condition is not a valid regex.
    InvalidRegex(regex::Error),
    /// The description has no states, or refers to a state or a property set
    /// that it does not have.
    InvalidStructure,
}

pub open spec fn opt_view(o: Option<Vec<PropertyTransition>>) -> Option<Seq<PropertyTransition>> {
    match o {
        Some(v) => Some(v@),
        None => None,
    }
}

impl PropertyState {
    pub closed spec fn field_table(&self) -> Seq<Option<Seq<PropertyTransition>>> {
        self.field_transitions@.map_values(|o: Option<Vec<PropertyTransition>>| opt_view(o))
    }

    pub closed spec fn kind_table(&self) -> Seq<Seq<PropertyTransition>> {
        self.kind_transitions@.map_values(|v: Vec<PropertyTransition>| v@)
    }

    pub closed spec fn spec_property_set_id(&self) -> usize {
        self.property_set_id
    }

    pub closed spec fn spec_default_next_state_id(&self) -> usize {
        self.default_next_state_id
    }

    /// The transitions to try for a node with the given field and kind: the
    /// field's bucket when the node fills a field that has one, otherwise the
    /// kind's bucket.
    pub open spec fn spec_lookup(&self, field: Option<u16>, kind: u16) -> Seq<PropertyTransition> {
        let by_field = match field {
            Some(f) => if (f as int) < self.field_table().len() {
                self.field_table()[f as int]
            } else {
                None
            },
            None => None,
        };
        match by_field {
            Some(ts) => ts,
            None => if (kind as int) < self.kind_table().len() {
                self.kind_table()[kind as int]
            } else {
                Seq::empty()
            },
        }
    }

    pub fn lookup(&self, field: Option<u16>, kind: u16) -> (r: Option<&Vec<PropertyTransition>>)
        ensures
            r matches Some(v) ==> v@ == self.spec_lookup(field, kind),
            r is None ==> self.spec_lookup(field, kind) == Seq::<PropertyTransition>::empty(),
    {
        if let Some(f) = field {
            if (f as usize) < self.field_transitions.len() {
                if let Some(ts) = &self.field_transitions[f as usize] {
                    return Some(ts);
                }
            }
        }
        if (kind as usize) < self.kind_transitions.len() {
            Some(&self.kind_transitions[kind as usize])
        } else {
            None
        }
    }

    pub fn property_set_id(&self) -> (r: usize)
        ensures
            r == self.spec_property_set_id(),
    {
        self.property_set_id
    }

    pub fn default_next_state_id(&self) -> (r: usize)
        ensures
            r == self.spec_default_next_state_id(),
    {
        self.default_next_state_id
    }
}

pub open spec fn transition_ok(t: PropertyTransition, n_states: nat, n_regexes: nat) -> bool {
    &&& t.state_id < n_states
    &&& t.text_regex_index matches Some(r) ==> r < n_regexes
}

pub open spec fn transitions_ok(ts: Seq<PropertyTransition>, n_states: nat, n_regexes: nat) -> bool {
    forall|i: int| 0 <= i < ts.len() ==> transition_ok(#[trigger] ts[i], n_states, n_regexes)
}

/// Whether a compiled state refers only to states, property sets and regexes that exist.
pub open spec fn state_ok(s: PropertyState, n_states: nat, n_sets: nat, n_regexes: nat) -> bool {
    &&& s.spec_property_set_id() < n_sets
    &&& s.spec_default_next_state_id() < n_states
    &&& forall|f: int|
        0 <= f < s.field_table().len() && (#[trigger] s.field_table()[f]) is Some ==> transitions_ok(
            s.field_table()[f].unwrap(),
            n_states,
            n_regexes,
        )
    &&& forall|k: int|
        0 <= k < s.kind_table().len() ==> transitions_ok(
            #[trigger] s.kind_table()[k],
            n_states,
            n_regexes,
        )
}

pub proof fn lemma_lookup_ok(s: PropertyState, n_states: nat, n_sets: nat, n_regexes: nat, field: Option<u16>, kind: u16)
    requires
        state_ok(s, n_states, n_sets, n_regexes),
    ensures
        transitions_ok(s.spec_lookup(field, kind), n_states, n_regexes),
{
    if let Some(f) = field {
        if (f as int) < s.field_table().len() {
            assert(s.field_table()[f as int] is Some ==> transitions_ok(s.field_table()[f as int].unwrap(), n_states, n_regexes));
        }
    }
    if (kind as int) < s.kind_table().len() {
        assert(transitions_ok(s.kind_table()[kind as int], n_states, n_regexes));
    }
}

// ---------------------------------------------------------------------------
// What a description compiles to.

/// Whether every reference in the description is in range, and state 0 exists.
pub open spec fn state_refs_ok(s: PropertyStateJSON, n_states: nat, n_sets: nat) -> bool {
    &&& s.property_set_id < n_sets
    &&& s.default_next_state_id < n_states
    &&& forall|j: int| 0 <= j < s.transitions@.len() ==> (#[trigger] s.transitions@[j]).state_id < n_states
}

pub open spec fn structure_ok<P>(input: PropertySheetJSON<P>) -> bool {
    &&& input.states@.len() > 0
    &&& forall|i: int|
        0 <= i < input.states@.len() ==> state_refs_ok(
            #[trigger] input.states@[i],
            input.states@.len(),
            input.property_sets@.len(),
        )
}

/// The regex patterns of a list of clauses, in order.
pub open spec fn transition_texts(ts: Seq<PropertyTransitionJSON>) -> Seq<Seq<char>>
    decreases ts.len(),
{
    if ts.len() == 0 {
        Seq::empty()
    } else {
        let prev = transition_texts(ts.drop_last());
        match ts.last().text {
            Some(p) => prev.push(p@),
            None => prev,
        }
    }
}

/// The regex patterns of a list of states, in order.
pub open spec fn state_texts(ss: Seq<PropertyStateJSON>) -> Seq<Seq<char>>
    decreases ss.len(),
{
    if ss.len() == 0 {
        Seq::empty()
    } else {
        state_texts(ss.drop_last()) + transition_texts(ss.last().transitions@)
    }
}

/// The distinct elements of `s`, in the order of their first occurrence.
pub open spec fn distinct(s: Seq<Seq<char>>) -> Seq<Seq<char>>
    decreases s.len(),
{
    if s.len() == 0 {
        Seq::empty()
    } else {
        let prev = distinct(s.drop_last());
        if prev.contains(s.last()) {
            prev
        } else {
            prev.push(s.last())
        }
    }
}

pub open spec fn text_invalid(t: PropertyTransitionJSON) -> bool {
    match t.text {
        Some(p) => !regex_compiles(p@),
        None => false,
    }
}

/// Whether some `text` condition of the description is not a valid regex.
pub open spec fn has_invalid_regex(ss: Seq<PropertyStateJSON>) -> bool {
    exists|i: int, j: int|
        0 <= i < ss.len() && 0 <= j < ss[i].transitions@.len() && text_invalid(
            #[trigger] ss[i].transitions@[j],
        )
}

pub open spec fn kind_matches(lang: Language, t: PropertyTransitionJSON, k: int) -> bool {
    match t.kind {
        Some(name) => lang.kind_names()[k] == name@ && t.named == Some(lang.kind_named()[k]),
        None => false,
    }
}

/// The kind ids below `n` whose name and named flag match the clause, in increasing order.
pub open spec fn matching_kinds(lang: Language, t: PropertyTransitionJSON, n: nat) -> Seq<u16>
    decreases n,
{
    if n == 0 {
        Seq::empty()
    } else {
        let prev = matching_kinds(lang, t, (n - 1) as nat);
        if kind_matches(lang, t, n - 1) {
            prev.push((n - 1) as u16)
        } else {
            prev
        }
    }
}

/// The field id the clause names, when the grammar has a field of that name.
pub open spec fn field_of(lang: Language, t: PropertyTransitionJSON) -> Option<u16> {
    match t.field {
        Some(name) => lang.spec_field_id_for_name(name@),
        None => None,
    }
}

/// The position of the clause's regex in the sheet's list of patterns.
pub open spec fn regex_ref(t: PropertyTransitionJSON, patterns: Seq<Seq<char>>) -> Option<usize> {
    match t.text {
        Some(p) => match first_index_of(patterns, p@) {
            Some(i) => Some(i as usize),
            None => None,
        },
        None => None,
    }
}

/// The transition a clause compiles to, before any kind filter is added.
pub open spec fn base_of(t: PropertyTransitionJSON, patterns: Seq<Seq<char>>) -> PropertyTransition {
    PropertyTransition {
        state_id: t.state_id,
        child_index: t.index,
        text_regex_index: regex_ref(t, patterns),
        node_kind_id: None,
    }
}

/// One copy of `base` per kind id, filtered to that kind.
pub open spec fn with_kinds(base: PropertyTransition, kinds: Seq<u16>) -> Seq<PropertyTransition> {
    kinds.map_values(
        |k: u16|
            PropertyTransition {
                state_id: base.state_id,
                child_index: base.child_index,
                text_regex_index: base.text_regex_index,
                node_kind_id: Some(k),
            },
    )
}

/// The kind bucket `k` after the clauses `ts`: each clause that names a kind
/// matching `k` and no known field adds its transition.
pub open spec fn kind_bucket_spec(
    lang: Language,
    patterns: Seq<Seq<char>>,
    ts: Seq<PropertyTransitionJSON>,
    k: int,
) -> Seq<PropertyTransition>
    decreases ts.len(),
{
    if ts.len() == 0 {
        Seq::empty()
    } else {
        let prev = kind_bucket_spec(lang, patterns, ts.drop_last(), k);
        let t = ts.last();
        if t.kind is Some && field_of(lang, t) is None && kind_matches(lang, t, k) {
            prev.push(base_of(t, patterns))
        } else {
            prev
        }
    }
}

pub open spec fn or_empty(o: Option<Seq<PropertyTransition>>) -> Seq<PropertyTransition> {
    match o {
        Some(s) => s,
        None => Seq::empty(),
    }
}

/// The field bucket `f` after the clauses `ts`. A clause that names field `f`
/// instantiates the bucket and adds its transitions, one per matching kind if
/// it names a kind. A clause that names a kind and no known field adds its
/// kind-filtered transitions to the bucket only if the bucket already exists.
pub open spec fn field_bucket_spec(
    lang: Language,
    patterns: Seq<Seq<char>>,
    ts: Seq<PropertyTransitionJSON>,
    f: int,
) -> Option<Seq<PropertyTransition>>
    decreases ts.len(),
{
    if ts.len() == 0 {
        None
    } else {
        let prev = field_bucket_spec(lang, patterns, ts.drop_last(), f);
        let t = ts.last();
        let base = base_of(t, patterns);
        let names_f = (field_of(lang, t) matches Some(x) && x == f);
        if t.kind is Some {
            let added = with_kinds(base, matching_kinds(lang, t, lang.kind_names().len()));
            if names_f {
                Some(or_empty(prev) + added)
            } else if field_of(lang, t) is None && prev is Some {
                Some(prev.unwrap() + added)
            } else {
                prev
            }
        } else if names_f {
            Some(or_empty(prev).push(base))
        } else {
            prev
        }
    }
}

/// Whether `st` is what the described state `s` compiles to.
pub open spec fn compiled_state(
    lang: Language,
    patterns: Seq<Seq<char>>,
    s: PropertyStateJSON,
    st: PropertyState,
) -> bool {
    &&& st.spec_property_set_id() == s.property_set_id
    &&& st.spec_default_next_state_id() == s.default_next_state_id
    &&& st.field_table().len() == lang.field_names().len() + 1
    &&& forall|f: int|
        0 <= f < st.field_table().len() ==> #[trigger] st.field_table()[f] == field_bucket_spec(
            lang,
            patterns,
            s.transitions@,
            f,
        )
    &&& st.kind_table().len() == lang.kind_names().len()
    &&& forall|k: int|
        0 <= k < st.kind_table().len() ==> #[trigger] st.kind_table()[k] == kind_bucket_spec(
            lang,
            patterns,
            s.transitions@,
            k,
        )
}

// ---------------------------------------------------------------------------
// Compilation.

pub open spec fn pattern_views(srcs: Seq<String>) -> Seq<Seq<char>> {
    srcs.map_values(|s: String| s@)
}

proof fn lemma_transition_texts_step(ts: Seq<PropertyTransitionJSON>, j: int)
    requires
        0 <= j < ts.len(),
    ensures
        transition_texts(ts.take(j + 1)) == match ts[j].text {
            Some(p) => transition_texts(ts.take(j)).push(p@),
            None => transition_texts(ts.take(j)),
        },
{
    assert(ts.take(j + 1).drop_last() =~= ts.take(j));
}

proof fn lemma_state_texts_step(ss: Seq<PropertyStateJSON>, i: int)
    requires
        0 <= i < ss.len(),
    ensures
        state_texts(ss.take(i + 1)) == state_texts(ss.take(i)) + transition_texts(ss[i].transitions@),
{
    assert(ss.take(i + 1).drop_last() =~= ss.take(i));
}

/// Whether the description refers only to states and property sets that it has.
fn check_structure<P>(input: &PropertySheetJSON<P>) -> (r: bool)
    ensures
        r == structure_ok(*input),
{
    let n = input.states.len();
    if n == 0 {
        return false;
    }
    let mut i: usize = 0;
    while i < n
        invariant
            n == input.states@.len(),
            i <= n,
            forall|a: int|
                0 <= a < i ==> state_refs_ok(
                    #[trigger] input.states@[a],
                    n as nat,
                    input.property_sets@.len(),
                ),
        decreases n - i,
    {
        let s = &input.states[i];
        if s.property_set_id >= input.property_sets.len() || s.default_next_state_id >= n {
            return false;
        }
        let mut j: usize = 0;
        while j < s.transitions.len()
            invariant
                n == input.states@.len(),
                i < n,
                *s == input.states@[i as int],
                j <= s.transitions@.len(),
                forall|b: int| 0 <= b < j ==> (#[trigger] s.transitions@[b]).state_id < n,
            decreases s.transitions@.len() - j,
        {
            if s.transitions[j].state_id >= n {
                assert(!state_refs_ok(input.states@[i as int], n as nat, input.property_sets@.len()));
                return false;
            }
            j += 1;
        }
        i += 1;
    }
    true
}

/// The position of the first of `srcs` equal to `p`.
fn position_of(srcs: &Vec<String>, p: &String) -> (r: Option<usize>)
    ensures
        r matches Some(i) ==> first_index_of(pattern_views(srcs@), p@) == Some(i as nat),
        r is None <==> first_index_of(pattern_views(srcs@), p@) is None,
{
    proof {
        lemma_first_index_of(pattern_views(srcs@), p@);
    }
    let mut i: usize = 0;
    while i < srcs.len()
        invariant
            i <= srcs@.len(),
            forall|j: int| 0 <= j < i ==> pattern_views(srcs@)[j] != p@,
            first_index_of(pattern_views(srcs@), p@) matches Some(k) ==> i <= k,
            first_index_of(pattern_views(srcs@), p@) matches Some(k) ==> k < srcs@.len()
                && pattern_views(srcs@)[k as int] == p@ && forall|j: int|
                0 <= j < k ==> pattern_views(srcs@)[j] != p@,
            first_index_of(pattern_views(srcs@), p@) is None ==> forall|j: int|
                0 <= j < srcs@.len() ==> pattern_views(srcs@)[j] != p@,
        decreases srcs@.len() - i,
    {
        assert(pattern_views(srcs@)[i as int] == srcs@[i as int]@);
        if srcs[i] == *p {
            return Some(i);
        }
        i += 1;
    }
    None
}

/// Whether every pattern is listed in `srcs` and compiled, in the same order, in `regexes`.
pub open spec fn registry_ok(srcs: Seq<String>, regexes: Seq<TextRegex>) -> bool {
    &&& regexes.len() == srcs.len()
    &&& forall|x: int| 0 <= x < srcs.len() ==> (#[trigger] regexes[x]).pattern() == srcs[x]@
    &&& forall|x: int| 0 <= x < srcs.len() ==> regex_compiles(#[trigger] srcs[x]@)
}

pub open spec fn texts_listed(ss: Seq<PropertyStateJSON>, patterns: Seq<Seq<char>>) -> bool {
    forall|i: int, j: int|
        0 <= i < ss.len() && 0 <= j < ss[i].transitions@.len() ==> match (#[trigger] ss[i].transitions@[j]).text {
            Some(p) => patterns.contains(p@),
            None => true,
        }
}

/// Compiles each distinct `text` pattern of the description once, in the
/// order of first occurrence.
fn intern_patterns(states: &Vec<PropertyStateJSON>) -> (r: Result<(Vec<String>, Vec<TextRegex>), regex::Error>)
    ensures
        r is Err <==> has_invalid_regex(states@),
        r matches Ok((srcs, regexes)) ==> {
            &&& pattern_views(srcs@) == distinct(state_texts(states@))
            &&& registry_ok(srcs@, regexes@)
            &&& texts_listed(states@, pattern_views(srcs@))
        },
{
    let mut srcs: Vec<String> = Vec::new();
    let mut regexes: Vec<TextRegex> = Vec::new();
    let mut i: usize = 0;
    assert(pattern_views(srcs@) =~= distinct(state_texts(states@.take(0)) + Seq::empty()));
    while i < states.len()
        invariant
            i <= states@.len(),
            pattern_views(srcs@) == distinct(state_texts(states@.take(i as int))),
            registry_ok(srcs@, regexes@),
            texts_listed(states@.take(i as int), pattern_views(srcs@)),
        decreases states@.len() - i,
    {
        let ts = &states[i].transitions;
        let mut j: usize = 0;
        assert(state_texts(states@.take(i as int)) + transition_texts(ts@.take(0)) =~= state_texts(
            states@.take(i as int),
        ));
        while j < ts.len()
            invariant
                i < states@.len(),
                *ts == states@[i as int].transitions,
                j <= ts@.len(),
                pattern_views(srcs@) == distinct(
                    state_texts(states@.take(i as int)) + transition_texts(ts@.take(j as int)),
                ),
                registry_ok(srcs@, regexes@),
                texts_listed(states@.take(i as int), pattern_views(srcs@)),
                forall|b: int| 0 <= b < j ==> match (#[trigger] ts@[b]).text {
                    Some(p) => pattern_views(srcs@).contains(p@),
                    None => true,
                },
            decreases ts@.len() - j,
        {
            proof {
                lemma_transition_texts_step(ts@, j as int);
            }
            let ghost before = pattern_views(srcs@);
            let ghost flat = state_texts(states@.take(i as int)) + transition_texts(ts@.take(j as int));
            if let Some(p) = &ts[j].text {
                assert(flat.push(p@).drop_last() =~= flat);
                assert(state_texts(states@.take(i as int)) + transition_texts(ts@.take(j + 1)) =~= flat.push(p@));
                match position_of(&srcs, p) {
                    Some(x) => {
                        proof {
                            lemma_first_index_of(before, p@);
                            assert(before.contains(p@));
                        }
                    },
                    None => {
                        proof {
                            lemma_first_index_of(before, p@);
                        }
                        match TextRegex::compile(p.as_str()) {
                            Ok(re) => {
                                srcs.push(p.clone());
                                regexes.push(re);
                                proof {
                                    assert(pattern_views(srcs@) =~= before.push(p@));
                                    assert(pattern_views(srcs@)[before.len() as int] == p@);
                                    assert(forall|q: Seq<char>| before.contains(q) ==> pattern_views(srcs@).contains(q)) by {
                                        assert forall|q: Seq<char>| before.contains(q) implies pattern_views(srcs@).contains(q) by {
                                            let w = choose|w: int| 0 <= w < before.len() && before[w] == q;
                                            assert(pattern_views(srcs@)[w] == q);
                                        }
                                    }
                                }
                            },
                            Err(e) => {
                                assert(text_invalid(states@[i as int].transitions@[j as int]));
                                return Err(e);
                            },
                        }
                    },
                }
            } else {
                assert(state_texts(states@.take(i as int)) + transition_texts(ts@.take(j + 1)) =~= flat);
            }
            j += 1;
        }
        proof {
            lemma_state_texts_step(states@, i as int);
            assert(ts@.take(ts@.len() as int) =~= ts@);
            assert forall|a: int, b: int|
                0 <= a < i + 1 && 0 <= b < states@.take(i + 1)[a].transitions@.len() implies match (#[trigger] states@.take(i + 1)[a].transitions@[b]).text {
                    Some(p) => pattern_views(srcs@).contains(p@),
                    None => true,
                } by {
                if a < i {
                    assert(states@.take(i + 1)[a] == states@.take(i as int)[a]);
                } else {
                    assert(states@.take(i + 1)[a].transitions@[b] == ts@[b]);
                }
            }
        }
        i += 1;
    }
    proof {
        assert(states@.take(states@.len() as int) =~= states@);
        assert forall|a: int, b: int|
            0 <= a < states@.len() && 0 <= b < states@[a].transitions@.len() implies !text_invalid(
                #[trigger] states@[a].transitions@[b],
            ) by {
            if let Some(p) = states@[a].transitions@[b].text {
                assert(pattern_views(srcs@).contains(p@));
                let w = choose|w: int| 0 <= w < pattern_views(srcs@).len() && pattern_views(srcs@)[w] == p@;
                assert(regex_compiles(srcs@[w]@));
            }
        }
    }
    Ok((srcs, regexes))
}

/// The kind ids whose name and named flag match the clause, in increasing order.
fn matching_kind_ids(lang: &Language, t: &PropertyTransitionJSON) -> (r: Vec<u16>)
    requires
        lang.wf(),
    ensures
        r@ == matching_kinds(*lang, *t, lang.kind_names().len()),
{
    let n = lang.node_kind_count();
    proof {
        lang.lemma_wf_bounds();
    }
    let mut r: Vec<u16> = Vec::new();
    let mut k: usize = 0;
    while k < n
        invariant
            lang.wf(),
            n == lang.kind_names().len(),
            n <= MAX_IDS,
            k <= n,
            r@ == matching_kinds(*lang, *t, k as nat),
        decreases n - k,
    {
        let m = match (&t.kind, t.named) {
            (Some(name), Some(named)) => lang.node_kind_matches(k as u16, name, named),
            _ => false,
        };
        assert(m == kind_matches(*lang, *t, k as int));
        if m {
            r.push(k as u16);
        }
        k += 1;
    }
    r
}

/// What a clause resolves to: its transition without a kind filter, the field
/// it names, and the kinds it names.
struct ResolvedClause {
    base: PropertyTransition,
    field: Option<u16>,
    kinds: Vec<u16>,
}

spec fn resolved_from(
    lang: Language,
    patterns: Seq<Seq<char>>,
    t: PropertyTransitionJSON,
    c: ResolvedClause,
) -> bool {
    &&& c.base == base_of(t, patterns)
    &&& c.field == field_of(lang, t)
    &&& c.kinds@ == matching_kinds(lang, t, lang.kind_names().len())
}

fn resolve_clause(lang: &Language, srcs: &Vec<String>, t: &PropertyTransitionJSON) -> (r: ResolvedClause)
    requires
        lang.wf(),
        t.text matches Some(p) ==> pattern_views(srcs@).contains(p@),
    ensures
        resolved_from(*lang, pattern_views(srcs@), *t, r),
{
    let text_regex_index = match &t.text {
        Some(p) => {
            proof {
                lemma_first_index_of(pattern_views(srcs@), p@);
            }
            position_of(srcs, p)
        },
        None => None,
    };
    let field = match &t.field {
        Some(name) => lang.field_id_for_name(name),
        None => None,
    };
    ResolvedClause {
        base: PropertyTransition {
            state_id: t.state_id,
            child_index: t.index,
            text_regex_index,
            node_kind_id: None,
        },
        field,
        kinds: matching_kind_ids(lang, t),
    }
}

/// Whether `cs` are the resolved clauses `ts`, each with a transition that
/// refers only to existing states and regexes.
spec fn all_resolved(
    lang: Language,
    patterns: Seq<Seq<char>>,
    ts: Seq<PropertyTransitionJSON>,
    cs: Seq<ResolvedClause>,
    n_states: nat,
) -> bool {
    &&& cs.len() == ts.len()
    &&& forall|j: int| 0 <= j < ts.len() ==> resolved_from(lang, patterns, ts[j], #[trigger] cs[j])
    &&& forall|j: int| 0 <= j < ts.len() ==> transition_ok((#[trigger] cs[j]).base, n_states, patterns.len())
}

fn build_kind_bucket(
    Ghost(lang): Ghost<Language>,
    Ghost(patterns): Ghost<Seq<Seq<char>>>,
    ts: &Vec<PropertyTransitionJSON>,
    cs: &Vec<ResolvedClause>,
    k: u16,
    Ghost(n_states): Ghost<nat>,
) -> (r: Vec<PropertyTransition>)
    requires
        lang.wf(),
        all_resolved(lang, patterns, ts@, cs@, n_states),
        (k as int) < lang.kind_names().len(),
    ensures
        r@ == kind_bucket_spec(lang, patterns, ts@, k as int),
        transitions_ok(r@, n_states, patterns.len()),
{
    let mut r: Vec<PropertyTransition> = Vec::new();
    let mut j: usize = 0;
    assert(ts@.take(0) =~= Seq::<PropertyTransitionJSON>::empty());
    while j < cs.len()
        invariant
            lang.wf(),
            all_resolved(lang, patterns, ts@, cs@, n_states),
            (k as int) < lang.kind_names().len(),
            j <= cs@.len(),
            r@ == kind_bucket_spec(lang, patterns, ts@.take(j as int), k as int),
            transitions_ok(r@, n_states, patterns.len()),
        decreases cs@.len() - j,
    {
        let c = &cs[j];
        assert(resolved_from(lang, patterns, ts@[j as int], cs@[j as int]));
        assert(ts@.take(j + 1).drop_last() =~= ts@.take(j as int));
        proof {
            // The clause adds to bucket `k` exactly when `k` is among its matching kinds.
            lang.lemma_wf_bounds();
            lemma_matching_kinds(lang, ts@[j as int], lang.kind_names().len());
        }
        if ts[j].kind.is_some() && c.field.is_none() && contains_kind(&c.kinds, k) {
            r.push(c.base);
        }
        j += 1;
    }
    assert(ts@.take(ts@.len() as int) =~= ts@);
    r
}

proof fn lemma_matching_kinds(lang: Language, t: PropertyTransitionJSON, n: nat)
    requires
        n <= MAX_IDS,
    ensures
        forall|k: u16| (k as int) < n ==> (matching_kinds(lang, t, n).contains(k) <==> kind_matches(lang, t, k as int)),
        forall|x: int| 0 <= x < matching_kinds(lang, t, n).len() ==> (#[trigger] matching_kinds(lang, t, n)[x] as int) < n,
    decreases n,
{
    if n > 0 {
        lemma_matching_kinds(lang, t, (n - 1) as nat);
        let prev = matching_kinds(lang, t, (n - 1) as nat);
        assert forall|k: u16| (k as int) < n implies (matching_kinds(lang, t, n).contains(k) <==> kind_matches(lang, t, k as int)) by {
            if kind_matches(lang, t, n - 1) {
                assert(prev.push((n - 1) as u16)[prev.len() as int] == (n - 1) as u16);
                let cur = prev.push((n - 1) as u16);
                if cur.contains(k) && (k as int) < n - 1 {
                    let w = choose|w: int| 0 <= w < cur.len() && #[trigger] cur[w] == k;
                    assert(w != prev.len());
                    assert(prev[w] == k);
                }
                if prev.contains(k) {
                    let w = choose|w: int| 0 <= w < prev.len() && prev[w] == k;
                    assert(prev.push((n - 1) as u16)[w] == k);
                }
            } else if (k as int) == n - 1 && prev.contains(k) {
                let w = choose|w: int| 0 <= w < prev.len() && prev[w] == k;
                assert((prev[w] as int) < n - 1);
            }
        }
    }
}

fn contains_kind(kinds: &Vec<u16>, k: u16) -> (r: bool)
    ensures
        r == kinds@.contains(k),
{
    let mut i: usize = 0;
    while i < kinds.len()
        invariant
            i <= kinds@.len(),
            forall|j: int| 0 <= j < i ==> kinds@[j] != k,
        decreases kinds@.len() - i,
    {
        if kinds[i] == k {
            return true;
        }
        i += 1;
    }
    false
}

/// Appends one copy of `base` per kind id, filtered to that kind.
fn push_with_kinds(v: &mut Vec<PropertyTransition>, base: PropertyTransition, kinds: &Vec<u16>)
    ensures
        final(v)@ == old(v)@ + with_kinds(base, kinds@),
{
    let mut i: usize = 0;
    while i < kinds.len()
        invariant
            i <= kinds@.len(),
            v@ == old(v)@ + with_kinds(base, kinds@.take(i as int)),
        decreases kinds@.len() - i,
    {
        v.push(PropertyTransition {
            state_id: base.state_id,
            child_index: base.child_index,
            text_regex_index: base.text_regex_index,
            node_kind_id: Some(kinds[i]),
        });
        assert(with_kinds(base, kinds@.take(i + 1)) =~= with_kinds(base, kinds@.take(i as int)).push(
            PropertyTransition {
                state_id: base.state_id,
                child_index: base.child_index,
                text_regex_index: base.text_regex_index,
                node_kind_id: Some(kinds@[i as int]),
            },
        ));
        i += 1;
    }
    assert(kinds@.take(kinds@.len() as int) =~= kinds@);
}

fn build_field_bucket(
    Ghost(lang): Ghost<Language>,
    Ghost(patterns): Ghost<Seq<Seq<char>>>,
    ts: &Vec<PropertyTransitionJSON>,
    cs: &Vec<ResolvedClause>,
    f: u16,
    Ghost(n_states): Ghost<nat>,
) -> (r: Option<Vec<PropertyTransition>>)
    requires
        all_resolved(lang, patterns, ts@, cs@, n_states),
    ensures
        opt_view(r) == field_bucket_spec(lang, patterns, ts@, f as int),
        r matches Some(v) ==> transitions_ok(v@, n_states, patterns.len()),
{
    let mut r: Option<Vec<PropertyTransition>> = None;
    let mut j: usize = 0;
    assert(ts@.take(0) =~= Seq::<PropertyTransitionJSON>::empty());
    while j < cs.len()
        invariant
            all_resolved(lang, patterns, ts@, cs@, n_states),
            j <= cs@.len(),
            opt_view(r) == field_bucket_spec(lang, patterns, ts@.take(j as int), f as int),
            r matches Some(v) ==> transitions_ok(v@, n_states, patterns.len()),
        decreases cs@.len() - j,
    {
        let c = &cs[j];
        assert(resolved_from(lang, patterns, ts@[j as int], cs@[j as int]));
        assert(transition_ok(cs@[j as int].base, n_states, patterns.len()));
        assert(ts@.take(j + 1).drop_last() =~= ts@.take(j as int));
        let names_f = match c.field {
            Some(x) => x == f,
            None => false,
        };
        if ts[j].kind.is_some() {
            if names_f || (c.field.is_none() && r.is_some()) {
                let mut v = match r {
                    Some(v) => v,
                    None => Vec::new(),
                };
                push_with_kinds(&mut v, c.base, &c.kinds);
                assert(transitions_ok(v@, n_states, patterns.len()));
                r = Some(v);
            }
        } else if names_f {
            let mut v = match r {
                Some(v) => v,
                None => Vec::new(),
            };
            v.push(c.base);
            r = Some(v);
        }
        j += 1;
    }
    assert(ts@.take(ts@.len() as int) =~= ts@);
    r
}

/// Compiles one described state, given the sheet's patterns.
fn compile_state(
    lang: &Language,
    srcs: &Vec<String>,
    s: &PropertyStateJSON,
    Ghost(n_states): Ghost<nat>,
    Ghost(n_sets): Ghost<nat>,
) -> (r: PropertyState)
    requires
        lang.wf(),
        state_refs_ok(*s, n_states, n_sets),
        forall|j: int| 0 <= j < s.transitions@.len() ==> match (#[trigger] s.transitions@[j]).text {
            Some(p) => pattern_views(srcs@).contains(p@),
            None => true,
        },
    ensures
        compiled_state(*lang, pattern_views(srcs@), *s, r),
        state_ok(r, n_states, n_sets, srcs@.len()),
{
    let ghost patterns = pattern_views(srcs@);
    let ts = &s.transitions;
    let mut cs: Vec<ResolvedClause> = Vec::new();
    let mut j: usize = 0;
    while j < ts.len()
        invariant
            lang.wf(),
            *ts == s.transitions,
            patterns == pattern_views(srcs@),
            state_refs_ok(*s, n_states, n_sets),
            forall|b: int| 0 <= b < ts@.len() ==> match (#[trigger] ts@[b]).text {
                Some(p) => patterns.contains(p@),
                None => true,
            },
            j <= ts@.len(),
            all_resolved(*lang, patterns, ts@.take(j as int), cs@, n_states),
        decreases ts@.len() - j,
    {
        assert(match ts@[j as int].text {
            Some(p) => patterns.contains(p@),
            None => true,
        });
        let c = resolve_clause(lang, srcs, &ts[j]);
        proof {
            if let Some(p) = ts@[j as int].text {
                lemma_first_index_of(patterns, p@);
            }
            assert(ts@[j as int].state_id < n_states);
        }
        cs.push(c);
        proof {
            assert forall|b: int| 0 <= b < j + 1 implies resolved_from(*lang, patterns, ts@.take(j + 1)[b], #[trigger] cs@[b]) && transition_ok(cs@[b].base, n_states, patterns.len()) by {
                if b < j {
                    assert(ts@.take(j + 1)[b] == ts@.take(j as int)[b]);
                }
            }
        }
        j += 1;
    }
    assert(ts@.take(ts@.len() as int) =~= ts@);

    let kind_count = lang.node_kind_count();
    let mut kind_transitions: Vec<Vec<PropertyTransition>> = Vec::new();
    let mut k: usize = 0;
    proof {
        lang.lemma_wf_bounds();
    }
    while k < kind_count
        invariant
            lang.wf(),
            kind_count == lang.kind_names().len(),
            kind_count <= MAX_IDS,
            all_resolved(*lang, patterns, ts@, cs@, n_states),
            k <= kind_count,
            kind_transitions@.len() == k,
            forall|x: int| 0 <= x < k ==> (#[trigger] kind_transitions@[x])@ == kind_bucket_spec(*lang, patterns, ts@, x),
            forall|x: int| 0 <= x < k ==> transitions_ok((#[trigger] kind_transitions@[x])@, n_states, patterns.len()),
        decreases kind_count - k,
    {
        let b = build_kind_bucket(Ghost(*lang), Ghost(patterns), ts, &cs, k as u16, Ghost(n_states));
        kind_transitions.push(b);
        k += 1;
    }

    let field_count = lang.field_count();
    let mut field_transitions: Vec<Option<Vec<PropertyTransition>>> = Vec::new();
    let mut f: usize = 0;
    while f <= field_count
        invariant
            lang.wf(),
            field_count == lang.field_names().len(),
            field_count <= MAX_IDS,
            all_resolved(*lang, patterns, ts@, cs@, n_states),
            f <= field_count + 1,
            field_transitions@.len() == f,
            forall|x: int| 0 <= x < f ==> opt_view(#[trigger] field_transitions@[x]) == field_bucket_spec(*lang, patterns, ts@, x),
            forall|x: int| 0 <= x < f ==> (#[trigger] field_transitions@[x] matches Some(v) ==> transitions_ok(v@, n_states, patterns.len())),
        decreases field_count + 1 - f,
    {
        let b = build_field_bucket(Ghost(*lang), Ghost(patterns), ts, &cs, f as u16, Ghost(n_states));
        field_transitions.push(b);
        f += 1;
    }
    let r = PropertyState {
        field_transitions,
        kind_transitions,
        property_set_id: s.property_set_id,
        default_next_state_id: s.default_next_state_id,
    };
    proof {
        assert forall|x: int| 0 <= x < r.field_table().len() implies #[trigger] r.field_table()[x] == field_bucket_spec(*lang, patterns, ts@, x) by {
            assert(r.field_table()[x] == opt_view(r.field_transitions@[x]));
        }
        assert forall|x: int| 0 <= x < r.kind_table().len() implies #[trigger] r.kind_table()[x] == kind_bucket_spec(*lang, patterns, ts@, x) by {
            assert(r.kind_table()[x] == r.kind_transitions@[x]@);
        }
        assert forall|x: int| 0 <= x < r.field_table().len() && (#[trigger] r.field_table()[x]) is Some implies transitions_ok(r.field_table()[x].unwrap(), n_states, patterns.len()) by {
            assert(r.field_table()[x] == opt_view(r.field_transitions@[x]));
        }
        assert forall|x: int| 0 <= x < r.kind_table().len() implies transitions_ok(#[trigger] r.kind_table()[x], n_states, patterns.len()) by {
            assert(r.kind_table()[x] == r.kind_transitions@[x]@);
        }
    }
    r
}

/// Whether `f` can return `Ok` on `p`.
pub open spec fn succeeds_on<P, T, E, F: Fn(P) -> Result<T, E>>(f: F, p: P) -> bool {
    exists|t: T| f.ensures((p,), Ok::<T, E>(t))
}

/// Whether `f` succeeds on `sets[..k]` and fails with `e` on `sets[k]`.
pub open spec fn fails_first_at<P, T, E, F: Fn(P) -> Result<T, E>>(f: F, sets: Seq<P>, k: int, e: E) -> bool {
    &&& 0 <= k < sets.len()
    &&& f.ensures((sets[k],), Err::<T, E>(e))
    &&& forall|i: int| 0 <= i < k ==> #[trigger] succeeds_on::<P, T, E, F>(f, sets[i])
}

impl<P> PropertySheet<P> {
    pub closed spec fn states(&self) -> Seq<PropertyState> {
        self.states@
    }

    pub closed spec fn property_sets(&self) -> Seq<P> {
        self.property_sets@
    }

    /// The sheet's regex patterns; a transition's `text_regex_index` points into it.
    pub closed spec fn patterns(&self) -> Seq<Seq<char>> {
        self.text_regexes@.map_values(|r: TextRegex| r.pattern())
    }

    /// State 0 exists, and every state refers only to states, property sets and
    /// regexes of the sheet.
    pub open spec fn wf(&self) -> bool {
        &&& self.states().len() > 0
        &&& forall|i: int|
            0 <= i < self.states().len() ==> state_ok(
                #[trigger] self.states()[i],
                self.states().len(),
                self.property_sets().len(),
                self.patterns().len(),
            )
    }

    /// Whether this sheet is what `input` compiles to for the grammar `lang`.
    pub open spec fn compiled_from(&self, lang: Language, input: PropertySheetJSON<P>) -> bool {
        &&& self.states().len() == input.states@.len()
        &&& forall|i: int|
            0 <= i < self.states().len() ==> compiled_state(
                lang,
                self.patterns(),
                input.states@[i],
                #[trigger] self.states()[i],
            )
        &&& self.property_sets() == input.property_sets@
        &&& self.patterns() == distinct(state_texts(input.states@))
    }

    /// Compiles a sheet's description for the grammar `language`.
    pub fn new(language: &Language, input: PropertySheetJSON<P>) -> (r: Result<
        PropertySheet<P>,
        PropertySheetError,
    >)
        requires
            language.wf(),
        ensures
            (r matches Err(PropertySheetError::InvalidStructure)) <==> !structure_ok(input),
            (r matches Err(PropertySheetError::InvalidRegex(_))) <==> structure_ok(input)
                && has_invalid_regex(input.states@),
            !(r matches Err(PropertySheetError::InvalidJSON(_))),
            r matches Ok(sheet) ==> sheet.wf() && sheet.compiled_from(*language, input)
                && sheet.patterns().len() == state_texts(input.states@).to_set().len(),
    {
        if !check_structure(&input) {
            return Err(PropertySheetError::InvalidStructure);
        }
        let (srcs, text_regexes) = match intern_patterns(&input.states) {
            Ok(registry) => registry,
            Err(e) => return Err(PropertySheetError::InvalidRegex(e)),
        };
        let ghost patterns = pattern_views(srcs@);
        let n = input.states.len();
        let ghost n_sets = input.property_sets@.len();
        let mut states: Vec<PropertyState> = Vec::new();
        let mut i: usize = 0;
        while i < n
            invariant
                language.wf(),
                n == input.states@.len(),
                structure_ok(input),
                patterns == pattern_views(srcs@),
                texts_listed(input.states@, patterns),
                n_sets == input.property_sets@.len(),
                i <= n,
                states@.len() == i,
                forall|x: int| 0 <= x < i ==> compiled_state(*language, patterns, input.states@[x], #[trigger] states@[x]),
                forall|x: int| 0 <= x < i ==> state_ok(#[trigger] states@[x], n as nat, n_sets, srcs@.len()),
            decreases n - i,
        {
            assert(state_refs_ok(input.states@[i as int], n as nat, n_sets));
            assert forall|j: int| 0 <= j < input.states@[i as int].transitions@.len() implies match (#[trigger] input.states@[i as int].transitions@[j]).text {
                Some(p) => patterns.contains(p@),
                None => true,
            } by {}
            let st = compile_state(language, &srcs, &input.states[i], Ghost(n as nat), Ghost(n_sets));
            states.push(st);
            i += 1;
        }
        let sheet = PropertySheet { states, property_sets: input.property_sets, text_regexes };
        assert(sheet.patterns() =~= patterns);
        proof {
            lemma_regex_count(sheet, *language, input);
        }
        Ok(sheet)
    }

    /// The number of distinct regexes the sheet compiled.
    pub fn text_regex_count(&self) -> (r: usize)
        ensures
            r == self.patterns().len(),
    {
        self.text_regexes.len()
    }

    pub fn state_count(&self) -> (r: usize)
        ensures
            r == self.states().len(),
    {
        self.states.len()
    }

    pub fn state(&self, i: usize) -> (r: &PropertyState)
        requires
            i < self.states().len(),
        ensures
            *r == self.states()[i as int],
    {
        &self.states[i]
    }

    pub(crate) fn text_regex(&self, i: usize) -> (r: &TextRegex)
        requires
            i < self.patterns().len(),
        ensures
            r.pattern() == self.patterns()[i as int],
    {
        &self.text_regexes[i]
    }

    /// The property set at position `i`.
    pub fn property_set(&self, i: usize) -> (r: &P)
        requires
            i < self.property_sets().len(),
        ensures
            *r == self.property_sets()[i as int],
    {
        &self.property_sets[i]
    }

    /// The same sheet with `f` applied to each property set, in order; or the
    /// error that `f` returns on the first property set it fails on.
    pub fn map<F, T, E>(self, f: F) -> (r: Result<PropertySheet<T>, E>) where F: Fn(P) -> Result<T, E>
        requires
            forall|p: P| f.requires((p,)),
        ensures
            r matches Ok(sheet) ==> {
                &&& sheet.states() == self.states()
                &&& sheet.patterns() == self.patterns()
                &&& sheet.property_sets().len() == self.property_sets().len()
                &&& forall|i: int|
                    0 <= i < self.property_sets().len() ==> f.ensures(
                        (self.property_sets()[i],),
                        Ok::<T, E>(#[trigger] sheet.property_sets()[i]),
                    )
            },
            r is Err ==> exists|k: int| #[trigger] fails_first_at::<P, T, E, F>(f, self.property_sets(), k, r->Err_0),
    {
        let ghost orig = self.property_sets@;
        let n = self.property_sets.len();
        let mut sets = self.property_sets;
        let mut reversed: Vec<P> = Vec::new();
        while sets.len() > 0
            invariant
                n == orig.len(),
                sets@.len() + reversed@.len() == n,
                sets@ == orig.take(sets@.len() as int),
                forall|x: int| 0 <= x < reversed@.len() ==> #[trigger] reversed@[x] == orig[n - 1 - x],
            decreases sets@.len(),
        {
            let p = sets.pop().unwrap();
            reversed.push(p);
            assert(sets@ =~= orig.take(sets@.len() as int));
        }
        let mut property_sets: Vec<T> = Vec::new();
        while reversed.len() > 0
            invariant
                n == orig.len(),
                orig == self.property_sets(),
                forall|p: P| f.requires((p,)),
                property_sets@.len() + reversed@.len() == n,
                forall|x: int| 0 <= x < reversed@.len() ==> #[trigger] reversed@[x] == orig[n - 1 - x],
                forall|x: int|
                    0 <= x < property_sets@.len() ==> f.ensures(
                        (orig[x],),
                        Ok::<T, E>(#[trigger] property_sets@[x]),
                    ),
            decreases reversed@.len(),
        {
            let p = reversed.pop().unwrap();
            let ghost k = property_sets@.len();
            assert(p == orig[k as int]);
            let result = f(p);
            match result {
                Ok(t) => property_sets.push(t),
                Err(e) => {
                    let ghost kk = k as int;
                    let ghost sets = self.property_sets();
                    assert forall|i: int| 0 <= i < kk implies #[trigger] succeeds_on::<P, T, E, F>(f, sets[i]) by {
                        assert(f.ensures((sets[i],), Ok::<T, E>(property_sets@[i])));
                    }
                    let r: Result<PropertySheet<T>, E> = Err(e);
                    assert(fails_first_at::<P, T, E, F>(f, sets, kk, r->Err_0));
                    return r;
                },
            }
        }
        Ok(PropertySheet { states: self.states, property_sets, text_regexes: self.text_regexes })
    }
}

/// `distinct` keeps exactly the elements of its input, each once.
pub proof fn lemma_distinct(s: Seq<Seq<char>>)
    ensures
        distinct(s).no_duplicates(),
        forall|x: Seq<char>| distinct(s).contains(x) <==> s.contains(x),
    decreases s.len(),
{
    if s.len() > 0 {
        let prev = distinct(s.drop_last());
        lemma_distinct(s.drop_last());
        assert forall|x: Seq<char>| distinct(s).contains(x) <==> s.contains(x) by {
            if s.contains(x) && x != s.last() {
                let w = choose|w: int| 0 <= w < s.len() && s[w] == x;
                assert(s.drop_last()[w] == x);
            }
            if s.drop_last().contains(x) {
                let w = choose|w: int| 0 <= w < s.drop_last().len() && s.drop_last()[w] == x;
                assert(s[w] == x);
            }
            if !prev.contains(s.last()) {
                assert(prev.push(s.last())[prev.len() as int] == s.last());
                if prev.push(s.last()).contains(x) && x != s.last() {
                    let w = choose|w: int| 0 <= w < prev.len() + 1 && #[trigger] prev.push(s.last())[w] == x;
                    assert(prev[w] == x);
                }
                if prev.contains(x) {
                    let w = choose|w: int| 0 <= w < prev.len() && prev[w] == x;
                    assert(prev.push(s.last())[w] == x);
                }
            }
            assert(s.last() == s[s.len() - 1]);
        }
        if !prev.contains(s.last()) {
            let d = prev.push(s.last());
            assert forall|i: int, j: int| 0 <= i < d.len() && 0 <= j < d.len() && i != j implies d[i] != d[j] by {
                if i < prev.len() && j < prev.len() {
                    assert(d[i] == prev[i] && d[j] == prev[j]);
                } else if i < prev.len() {
                    assert(d[i] == prev[i]);
                } else if j < prev.len() {
                    assert(d[j] == prev[j]);
                }
            }
        }
    }
}

/// A sheet compiles as many regexes as its description has distinct `text`
/// literals.
pub proof fn lemma_regex_count<P>(sheet: PropertySheet<P>, lang: Language, input: PropertySheetJSON<P>)
    requires
        sheet.compiled_from(lang, input),
    ensures
        sheet.patterns().len() == state_texts(input.states@).to_set().len(),
{
    let s = state_texts(input.states@);
    lemma_distinct(s);
    distinct(s).unique_seq_to_set();
    assert(distinct(s).to_set() =~= s.to_set());
}

/// A regex literal that a description uses, however many times, is compiled
/// once: it stands at exactly one position of the sheet's pattern list.
pub proof fn lemma_regex_compiled_once<P>(
    sheet: PropertySheet<P>,
    lang: Language,
    input: PropertySheetJSON<P>,
    pattern: Seq<char>,
)
    requires
        sheet.compiled_from(lang, input),
        state_texts(input.states@).contains(pattern),
    ensures
        exists|i: int|
            0 <= i < sheet.patterns().len() && sheet.patterns()[i] == pattern && forall|j: int|
                0 <= j < sheet.patterns().len() && #[trigger] sheet.patterns()[j] == pattern ==> j == i,
{
    lemma_distinct(state_texts(input.states@));
    let ps = sheet.patterns();
    let i = choose|i: int| 0 <= i < ps.len() && ps[i] == pattern;
    assert forall|j: int| 0 <= j < ps.len() && #[trigger] ps[j] == pattern implies j == i by {}
}

} // verus!
