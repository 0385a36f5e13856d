//! Grammar metadata: the names of node kinds and of fields, and positions in text.
use vstd::prelude::*;

verus! {

/// The largest number of node kinds or of fields a grammar can have: ids are `u16`.
pub const MAX_IDS: usize = 65535;

/// A position in a text, as a row and a column.
#[derive(Clone, Copy, Debug, PartialEq, Eq, PartialOrd, Ord)]
pub struct Point {
    pub row: usize,
    pub column: usize,
}

impl Point {
    pub fn new(row: usize, column: usize) -> (r: Point)
        ensures
            r.row == row,
            r.column == column,
    {
        Point { row, column }
    }
}

/// A span of text, in bytes and in points.
#[derive(Clone, Copy, Debug, PartialEq, Eq, PartialOrd, Ord)]
pub struct Range {
    pub start_byte: usize,
    pub end_byte: usize,
    pub start_point: Point,
    pub end_point: Point,
}

/// The node kinds and fields of a grammar.
///
/// Node kind `k` has the name `node_kinds[k]` and is named or anonymous as
/// `node_kind_named[k]` says. Field ids start at 1: field `f` has the name
/// `field_names[f - 1]`, and id 0 stands for no field.
pub struct Language {
    node_kinds: Vec<String>,
    node_kind_named: Vec<bool>,
    field_names: Vec<String>,
}

/// The position of the first name in `names` equal to `name`, if any.
pub open spec fn first_index_of(names: Seq<Seq<char>>, name: Seq<char>) -> Option<nat>
    decreases names.len(),
{
    if names.len() == 0 {
        None
    } else if names[0] == name {
        Some(0)
    } else {
        match first_index_of(names.drop_first(), name) {
            Some(i) => Some(i + 1),
            None => None,
        }
    }
}

pub proof fn lemma_first_index_of(names: Seq<Seq<char>>, name: Seq<char>)
    ensures
        first_index_of(names, name) matches Some(i) ==> i < names.len() && names[i as int]
            == name && forall|j: int| 0 <= j < i ==> names[j] != name,
        first_index_of(names, name) is None ==> forall|j: int|
            0 <= j < names.len() ==> names[j] != name,
    decreases names.len(),
{
    if names.len() > 0 {
        lemma_first_index_of(names.drop_first(), name);
        if names[0] != name {
            assert forall|j: int| 0 <= j < names.len() && names[j] == name implies j > 0
                && names.drop_first()[j - 1] == name by {}
        }
    }
}

impl Language {
    pub closed spec fn kind_names(&self) -> Seq<Seq<char>> {
        self.node_kinds@.map_values(|s: String| s@)
    }

    pub closed spec fn kind_named(&self) -> Seq<bool> {
        self.node_kind_named@
    }

    pub closed spec fn field_names(&self) -> Seq<Seq<char>> {
        self.field_names@.map_values(|s: String| s@)
    }

    pub closed spec fn wf(&self) -> bool {
        &&& self.node_kinds@.len() == self.node_kind_named@.len()
        &&& self.node_kinds@.len() <= MAX_IDS
        &&& self.field_names@.len() <= MAX_IDS
    }

    pub proof fn lemma_wf_bounds(&self)
        requires
            self.wf(),
        ensures
            self.kind_names().len() <= MAX_IDS,
            self.kind_named().len() == self.kind_names().len(),
            self.field_names().len() <= MAX_IDS,
    {
    }

    pub open spec fn spec_field_id_for_name(&self, name: Seq<char>) -> Option<u16> {
        match first_index_of(self.field_names(), name) {
            Some(i) => Some((i + 1) as u16),
            None => None,
        }
    }

    /// Metadata with the given node kinds (a name and whether the kind is named)
    /// and field names; `None` when there are more than `MAX_IDS` of either.
    pub fn new(node_kinds: Vec<(String, bool)>, field_names: Vec<String>) -> (r: Option<Language>)
        ensures
            r is Some <==> node_kinds@.len() <= MAX_IDS && field_names@.len() <= MAX_IDS,
            r matches Some(l) ==> {
                &&& l.wf()
                &&& l.kind_names() == node_kinds@.map_values(|k: (String, bool)| k.0@)
                &&& l.kind_named() == node_kinds@.map_values(|k: (String, bool)| k.1)
                &&& l.field_names() == field_names@.map_values(|s: String| s@)
            },
    {
        if node_kinds.len() > MAX_IDS || field_names.len() > MAX_IDS {
            return None;
        }
        let mut names: Vec<String> = Vec::new();
        let mut named: Vec<bool> = Vec::new();
        let mut i: usize = 0;
        while i < node_kinds.len()
            invariant
                i <= node_kinds@.len(),
                names@.len() == i,
                named@.len() == i,
                forall|j: int| 0 <= j < i ==> names@[j]@ == node_kinds@[j].0@,
                forall|j: int| 0 <= j < i ==> named@[j] == node_kinds@[j].1,
            decreases node_kinds@.len() - i,
        {
            names.push(node_kinds[i].0.clone());
            named.push(node_kinds[i].1);
            i += 1;
        }
        let l = Language { node_kinds: names, node_kind_named: named, field_names };
        assert(l.kind_names() =~= node_kinds@.map_values(|k: (String, bool)| k.0@));
        assert(l.kind_named() =~= node_kinds@.map_values(|k: (String, bool)| k.1));
        Some(l)
    }

    pub fn node_kind_count(&self) -> (r: usize)
        ensures
            r == self.kind_names().len(),
    {
        self.node_kinds.len()
    }

    pub fn node_kind_for_id(&self, id: u16) -> (r: &str)
        requires
            (id as int) < self.kind_names().len(),
        ensures
            r@ == self.kind_names()[id as int],
    {
        self.node_kinds[id as usize].as_str()
    }

    pub fn node_kind_is_named(&self, id: u16) -> (r: bool)
        requires
            self.wf(),
            (id as int) < self.kind_names().len(),
        ensures
            r == self.kind_named()[id as int],
    {
        self.node_kind_named[id as usize]
    }

    /// Whether node kind `id` has the given name and named flag.
    pub fn node_kind_matches(&self, id: u16, name: &String, named: bool) -> (r: bool)
        requires
            self.wf(),
            (id as int) < self.kind_names().len(),
        ensures
            r == (self.kind_names()[id as int] == name@ && self.kind_named()[id as int] == named),
    {
        assert(self.kind_names()[id as int] == self.node_kinds@[id as int]@);
        self.node_kinds[id as usize] == *name && self.node_kind_named[id as usize] == named
    }

    pub fn field_count(&self) -> (r: usize)
        ensures
            r == self.field_names().len(),
    {
        self.field_names.len()
    }

    pub fn field_name_for_id(&self, field_id: u16) -> (r: &str)
        requires
            1 <= field_id <= self.field_names().len(),
        ensures
            r@ == self.field_names()[field_id - 1],
    {
        self.field_names[(field_id - 1) as usize].as_str()
    }

    /// The id of the first field with the given name.
    pub fn field_id_for_name(&self, field_name: &String) -> (r: Option<u16>)
        requires
            self.wf(),
        ensures
            r == self.spec_field_id_for_name(field_name@),
            r matches Some(f) ==> 1 <= f <= self.field_names().len(),
    {
        proof {
            lemma_first_index_of(self.field_names(), field_name@);
        }
        let mut i: usize = 0;
        while i < self.field_names.len()
            invariant
                self.wf(),
                i <= self.field_names@.len(),
                forall|j: int| 0 <= j < i ==> self.field_names()[j] != field_name@,
                first_index_of(self.field_names(), field_name@) matches Some(k) ==> i <= k,
            decreases self.field_names@.len() - i,
        {
            proof {
                lemma_first_index_of(self.field_names(), field_name@);
            }
            assert(self.field_names()[i as int] == self.field_names@[i as int]@);
            if self.field_names[i] == *field_name {
                return Some((i + 1) as u16);
            }
            i += 1;
        }
        None
    }
}

} // verus!
