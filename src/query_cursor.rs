//! Filtering the raw matches of a structural query by its text predicates.
use crate::property_cursor::node_text;
use crate::query::{predicate_views, PredicateView, Query, QueryPredicate};
use crate::text::{bytes_regex_search, str_from_utf8};
use crate::tree::{Node, NodeData};
use vstd::prelude::*;
use vstd::slice::slice_subrange;
use vstd::utf8::{encode_utf8, valid_utf8};

verus! {

/// A captured node, with the id of the capture in the query.
#[derive(Clone, Copy)]
pub struct QueryCapture<'a> {
    pub index: usize,
    pub node: Node<'a>,
}

/// A raw or filtered match: the pattern that matched and its captures.
pub struct QueryMatch<'a> {
    pub pattern_index: usize,
    captures: Vec<QueryCapture<'a>>,
}

impl<'a> QueryMatch<'a> {
    pub closed spec fn spec_captures(&self) -> Seq<QueryCapture<'a>> {
        self.captures@
    }

    pub closed spec fn spec_pattern_index(&self) -> usize {
        self.pattern_index
    }

    pub fn new(pattern_index: usize, captures: Vec<QueryCapture<'a>>) -> (r: Self)
        ensures
            r.spec_pattern_index() == pattern_index,
            r.spec_captures() == captures@,
    {
        QueryMatch { pattern_index, captures }
    }

    /// The match's captures, in order.
    pub fn captures(&self) -> (r: Vec<QueryCapture<'a>>)
        ensures
            r@ == self.spec_captures(),
    {
        let mut r: Vec<QueryCapture<'a>> = Vec::new();
        let mut i: usize = 0;
        while i < self.captures.len()
            invariant
                i <= self.captures@.len(),
                r@ == self.captures@.take(i as int),
            decreases self.captures@.len() - i,
        {
            r.push(self.captures[i]);
            assert(r@ =~= self.captures@.take(i + 1));
            i += 1;
        }
        assert(self.captures@.take(self.captures@.len() as int) =~= self.captures@);
        r
    }
}

/// The node of the first capture with id `id`.
pub open spec fn capture_node<'a>(caps: Seq<QueryCapture<'a>>, id: u32) -> Option<Node<'a>>
    decreases caps.len(),
{
    if caps.len() == 0 {
        None
    } else if caps[0].index == id as usize {
        Some(caps[0].node)
    } else {
        capture_node(caps.drop_first(), id)
    }
}

/// The text of the first capture with id `id`.
pub open spec fn capture_text(caps: Seq<QueryCapture>, id: u32, source: Seq<u8>) -> Option<Seq<u8>> {
    match capture_node(caps, id) {
        Some(n) => Some(node_text(source, n.data())),
        None => None,
    }
}

/// Whether a predicate holds of a match's captures. A predicate on a capture
/// that the match lacks fails, and a regex never matches text that is not
/// valid UTF-8.
pub open spec fn predicate_holds(p: PredicateView, caps: Seq<QueryCapture>, source: Seq<u8>) -> bool {
    match p {
        PredicateView::CaptureEqCapture(i, j) => match (
            capture_text(caps, i, source),
            capture_text(caps, j, source),
        ) {
            (Some(a), Some(b)) => a == b,
            _ => false,
        },
        PredicateView::CaptureEqString(i, s) => match capture_text(caps, i, source) {
            Some(t) => t == encode_utf8(s),
            None => false,
        },
        PredicateView::CaptureMatchString(i, pattern) => match capture_text(caps, i, source) {
            Some(t) => valid_utf8(t) && bytes_regex_search(pattern, t),
            None => false,
        },
    }
}

/// Whether all predicates of the match's pattern hold.
pub open spec fn match_passes(q: Query, pattern_index: usize, caps: Seq<QueryCapture>, source: Seq<u8>) -> bool {
    let preds = q.patterns()[pattern_index as int].predicates;
    forall|k: int| 0 <= k < preds.len() ==> predicate_holds(#[trigger] preds[k], caps, source)
}

/// Whether every captured node lies within a text of `len` bytes.
pub open spec fn captures_within(caps: Seq<QueryCapture>, len: nat) -> bool {
    forall|k: int| 0 <= k < caps.len() ==> (#[trigger] caps[k]).node.data().end_byte <= len
}

/// Whether a raw match belongs to the query and its nodes to the text.
pub open spec fn raw_match_ok(q: Query, m: QueryMatch, len: nat) -> bool {
    &&& m.spec_pattern_index() < q.patterns().len()
    &&& captures_within(m.spec_captures(), len)
}

/// The matches that pass their pattern's predicates, in order.
pub open spec fn passing_matches<'a>(q: Query, raw: Seq<QueryMatch<'a>>, source: Seq<u8>) -> Seq<QueryMatch<'a>> {
    raw.filter(|m: QueryMatch<'a>| match_passes(q, m.spec_pattern_index(), m.spec_captures(), source))
}

/// For each raw capture whose match passes, the pattern index and the capture, in order.
pub open spec fn passing_captures<'a>(q: Query, raw: Seq<(QueryMatch<'a>, usize)>, source: Seq<u8>) -> Seq<(usize, QueryCapture<'a>)> {
    raw.filter_map(
        |c: (QueryMatch<'a>, usize)|
            if match_passes(q, c.0.spec_pattern_index(), c.0.spec_captures(), source) {
                Some((c.0.spec_pattern_index(), c.0.spec_captures()[c.1 as int]))
            } else {
                None
            },
    )
}

fn bytes_equal(a: &[u8], b: &[u8]) -> (r: bool)
    ensures
        r == (a@ == b@),
{
    if a.len() != b.len() {
        return false;
    }
    let mut i: usize = 0;
    while i < a.len()
        invariant
            a@.len() == b@.len(),
            i <= a@.len(),
            forall|j: int| 0 <= j < i ==> a@[j] == b@[j],
        decreases a@.len() - i,
    {
        if a[i] != b[i] {
            return false;
        }
        i += 1;
    }
    assert(a@ =~= b@);
    true
}

/// Evaluates queries' predicates over raw matches.
pub struct QueryCursor {}

impl QueryCursor {
    pub fn new() -> (r: QueryCursor) {
        QueryCursor {  }
    }

    /// The node of the first capture with id `capture_id`.
    pub fn capture_for_id<'a>(captures: &[QueryCapture<'a>], capture_id: u32) -> (r: Option<Node<'a>>)
        ensures
            r == capture_node(captures@, capture_id),
    {
        let mut i: usize = 0;
        assert(captures@.subrange(0, captures@.len() as int) =~= captures@);
        while i < captures.len()
            invariant
                i <= captures@.len(),
                capture_node(captures@, capture_id) == capture_node(
                    captures@.subrange(i as int, captures@.len() as int),
                    capture_id,
                ),
            decreases captures@.len() - i,
        {
            let ghost rest = captures@.subrange(i as int, captures@.len() as int);
            assert(rest.drop_first() =~= captures@.subrange(i + 1, captures@.len() as int));
            assert(rest[0] == captures@[i as int]);
            if captures[i].index == capture_id as usize {
                return Some(captures[i].node);
            }
            i += 1;
        }
        None
    }

    fn capture_text<'a, 's>(captures: &[QueryCapture<'a>], capture_id: u32, source: &'s [u8]) -> (r: Option<&'s [u8]>)
        requires
            captures_within(captures@, source@.len()),
        ensures
            match capture_text(captures@, capture_id, source@) {
                Some(t) => r matches Some(s) && s@ == t,
                None => r is None,
            },
    {
        proof {
            lemma_capture_node_in(captures@, capture_id, source@.len());
        }
        match Self::capture_for_id(captures, capture_id) {
            Some(node) => {
                let start = node.start_byte();
                let end = node.end_byte();
                Some(slice_subrange(source, start, end))
            },
            None => None,
        }
    }

    fn predicate_holds<'a>(p: &QueryPredicate, captures: &[QueryCapture<'a>], source: &[u8]) -> (r: bool)
        requires
            captures_within(captures@, source@.len()),
        ensures
            r == predicate_holds(p.view(), captures@, source@),
    {
        match p {
            QueryPredicate::CaptureEqCapture(i, j) => {
                match (Self::capture_text(captures, *i, source), Self::capture_text(captures, *j, source)) {
                    (Some(a), Some(b)) => bytes_equal(a, b),
                    _ => false,
                }
            },
            QueryPredicate::CaptureEqString(i, s) => {
                match Self::capture_text(captures, *i, source) {
                    Some(t) => bytes_equal(t, s.as_str().as_bytes()),
                    None => false,
                }
            },
            QueryPredicate::CaptureMatchString(i, regex) => {
                match Self::capture_text(captures, *i, source) {
                    Some(t) => {
                        match str_from_utf8(t) {
                            Ok(_) => regex.is_match(t),
                            Err(_) => false,
                        }
                    },
                    None => false,
                }
            },
        }
    }

    /// Whether all predicates of pattern `pattern_index` hold of the captures.
    pub fn captures_match_condition<'a>(
        query: &Query,
        captures: &[QueryCapture<'a>],
        pattern_index: usize,
        source: &[u8],
    ) -> (r: bool)
        requires
            pattern_index < query.patterns().len(),
            captures_within(captures@, source@.len()),
        ensures
            r == match_passes(*query, pattern_index, captures@, source@),
    {
        let preds = query.pattern_predicates(pattern_index);
        let ghost views = query.patterns()[pattern_index as int].predicates;
        let mut k: usize = 0;
        while k < preds.len()
            invariant
                predicate_views(preds@) == views,
                views == query.patterns()[pattern_index as int].predicates,
                captures_within(captures@, source@.len()),
                k <= preds@.len(),
                forall|j: int| 0 <= j < k ==> predicate_holds(#[trigger] views[j], captures@, source@),
            decreases preds@.len() - k,
        {
            assert(views[k as int] == preds@[k as int].view());
            if !Self::predicate_holds(&preds[k], captures, source) {
                return false;
            }
            k += 1;
        }
        true
    }

    /// The raw matches whose predicates all hold, in their order.
    pub fn matches<'a>(&mut self, query: &Query, raw: Vec<QueryMatch<'a>>, source: &[u8]) -> (r: Vec<QueryMatch<'a>>)
        requires
            forall|i: int| 0 <= i < raw@.len() ==> raw_match_ok(*query, #[trigger] raw@[i], source@.len()),
        ensures
            r@ == passing_matches(*query, raw@, source@),
    {
        let ghost orig = raw@;
        let n = raw.len();
        let mut rest = raw;
        let mut reversed: Vec<QueryMatch<'a>> = Vec::new();
        while rest.len() > 0
            invariant
                n == orig.len(),
                rest@.len() + reversed@.len() == n,
                rest@ == orig.take(rest@.len() as int),
                forall|x: int| 0 <= x < reversed@.len() ==> #[trigger] reversed@[x] == orig[n - 1 - x],
            decreases rest@.len(),
        {
            let m = rest.pop().unwrap();
            reversed.push(m);
            assert(rest@ =~= orig.take(rest@.len() as int));
        }
        let mut result: Vec<QueryMatch<'a>> = Vec::new();
        assert(orig.take(0) =~= Seq::<QueryMatch<'a>>::empty());
        proof {
            reveal(Seq::filter);
        }
        while reversed.len() > 0
            invariant
                n == orig.len(),
                forall|i: int| 0 <= i < orig.len() ==> raw_match_ok(*query, #[trigger] orig[i], source@.len()),
                reversed@.len() <= n,
                forall|x: int| 0 <= x < reversed@.len() ==> #[trigger] reversed@[x] == orig[n - 1 - x],
                result@ == passing_matches(*query, orig.take(n - reversed@.len()), source@),
            decreases reversed@.len(),
        {
            let m = reversed.pop().unwrap();
            let ghost k = n - 1 - reversed@.len();
            assert(m == orig[k]);
            assert(m.captures@ == m.spec_captures() && m.pattern_index == m.spec_pattern_index());
            assert(raw_match_ok(*query, orig[k], source@.len()));
            proof {
                lemma_passing_step(*query, orig, k, source@);
            }
            if Self::captures_match_condition(query, m.captures.as_slice(), m.pattern_index, source) {
                result.push(m);
            }
            assert(n - reversed@.len() == k + 1);
        }
        assert(orig.take(n as int) =~= orig);
        result
    }

    /// For each raw capture (a match and the position of the capture in it)
    /// whose match passes its predicates, the pattern index and the capture,
    /// in their order. Each capture re-checks its whole match.
    pub fn captures<'a>(&mut self, query: &Query, raw: Vec<(QueryMatch<'a>, usize)>, source: &[u8]) -> (r: Vec<(usize, QueryCapture<'a>)>)
        requires
            forall|i: int|
                0 <= i < raw@.len() ==> raw_match_ok(*query, (#[trigger] raw@[i]).0, source@.len())
                    && raw@[i].1 < raw@[i].0.spec_captures().len(),
        ensures
            r@ == passing_captures(*query, raw@, source@),
    {
        let mut result: Vec<(usize, QueryCapture<'a>)> = Vec::new();
        let mut i: usize = 0;
        assert(raw@.take(0) =~= Seq::<(QueryMatch<'a>, usize)>::empty());
        while i < raw.len()
            invariant
                i <= raw@.len(),
                forall|j: int|
                    0 <= j < raw@.len() ==> raw_match_ok(*query, (#[trigger] raw@[j]).0, source@.len())
                        && raw@[j].1 < raw@[j].0.spec_captures().len(),
                result@ == passing_captures(*query, raw@.take(i as int), source@),
            decreases raw@.len() - i,
        {
            let m = &raw[i].0;
            let c = raw[i].1;
            assert(raw@.take(i + 1).drop_last() =~= raw@.take(i as int));
            assert(raw_match_ok(*query, raw@[i as int].0, source@.len()));
            if Self::captures_match_condition(query, m.captures.as_slice(), m.pattern_index, source) {
                result.push((m.pattern_index, m.captures[c]));
            }
            i += 1;
        }
        assert(raw@.take(raw@.len() as int) =~= raw@);
        result
    }
}

proof fn lemma_passing_step<'a>(q: Query, raw: Seq<QueryMatch<'a>>, k: int, source: Seq<u8>)
    requires
        0 <= k < raw.len(),
    ensures
        passing_matches(q, raw.take(k + 1), source) == if match_passes(
            q,
            raw[k].spec_pattern_index(),
            raw[k].spec_captures(),
            source,
        ) {
            passing_matches(q, raw.take(k), source).push(raw[k])
        } else {
            passing_matches(q, raw.take(k), source)
        },
{
    reveal(Seq::filter);
    assert(raw.take(k + 1).drop_last() =~= raw.take(k));
    assert(raw.take(k + 1).last() == raw[k]);
}

proof fn lemma_capture_node_in<'a>(caps: Seq<QueryCapture<'a>>, id: u32, len: nat)
    requires
        captures_within(caps, len),
    ensures
        capture_node(caps, id) matches Some(n) ==> n.data().end_byte <= len,
    decreases caps.len(),
{
    if caps.len() > 0 {
        assert(caps[0].node.data().end_byte <= len);
        assert forall|k: int| 0 <= k < caps.drop_first().len() implies (#[trigger] caps.drop_first()[k]).node.data().end_byte <= len by {
            assert(caps[k + 1].node.data().end_byte <= len);
        }
        lemma_capture_node_in(caps.drop_first(), id, len);
    }
}

/// Filtering is repeatable: running `matches` again, on a fresh cursor over
/// the same query, raw matches and text, yields the same matches in the same
/// order, and each of them passes its pattern's predicates.
pub proof fn lemma_matches_repeatable<'a>(
    query: Query,
    raw: Seq<QueryMatch<'a>>,
    source: Seq<u8>,
    first: Seq<QueryMatch<'a>>,
    second: Seq<QueryMatch<'a>>,
)
    requires
        first == passing_matches(query, raw, source),
        second == passing_matches(query, raw, source),
    ensures
        first == second,
        forall|i: int|
            0 <= i < first.len() ==> match_passes(
                query,
                (#[trigger] first[i]).spec_pattern_index(),
                first[i].spec_captures(),
                source,
            ) && raw.contains(first[i]),
{
    lemma_passing_sound(query, raw, source);
}

proof fn lemma_passing_sound<'a>(q: Query, raw: Seq<QueryMatch<'a>>, source: Seq<u8>)
    ensures
        forall|i: int|
            0 <= i < passing_matches(q, raw, source).len() ==> match_passes(
                q,
                (#[trigger] passing_matches(q, raw, source)[i]).spec_pattern_index(),
                passing_matches(q, raw, source)[i].spec_captures(),
                source,
            ) && raw.contains(passing_matches(q, raw, source)[i]),
    decreases raw.len(),
{
    reveal(Seq::filter);
    if raw.len() > 0 {
        let k = raw.len() - 1;
        lemma_passing_sound(q, raw.take(k), source);
        lemma_passing_step(q, raw, k, source);
        assert(raw.take(k + 1) =~= raw);
        let prev = passing_matches(q, raw.take(k), source);
        assert forall|i: int| 0 <= i < prev.len() implies raw.contains(#[trigger] prev[i]) by {
            assert(raw.take(k).contains(prev[i]));
            let w = choose|w: int| 0 <= w < raw.take(k).len() && raw.take(k)[w] == prev[i];
            assert(raw[w] == prev[i]);
        }
        assert(raw[k] == raw[raw.len() - 1]);
    } else {
        assert(passing_matches(q, raw, source) =~= Seq::<QueryMatch<'a>>::empty());
    }
}

} // verus!
