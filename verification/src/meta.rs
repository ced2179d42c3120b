//! Embedded metadata as a dynamic value: the shape a parsed frontmatter block
//! takes. Link fields are configurable and therefore accessed dynamically.
use vstd::prelude::*;
use crate::strings::{str_eq, int_decimal, nat_decimal, int_to_string, u64_to_string};
use crate::embed::{
    FigNode, FigNodeView, fig_node, fig_node_of, fig_depth, float_text, fig_float_text, debug_text, fig_debug_text,
    parse_document, document_value, document_parse_failure, document_tree,
};
use fig::Value as FigValue;

verus! {

/// A metadata value.
#[derive(Debug)]
pub enum Value {
    /// An absent or explicit `null`.
    Null,
    /// A boolean scalar.
    Bool(bool),
    /// An integer scalar.
    Int(i64),
    /// A floating-point scalar, held as the text it was written with.
    Float(String),
    /// A string scalar.
    String(String),
    /// An ordered sequence of values.
    Sequence(Vec<Value>),
    /// A mapping of string keys to values.
    Mapping(Mapping),
}

/// A mapping of string keys to values, in insertion order. Inserting an
/// existing key replaces its value in place.
#[derive(Debug)]
pub struct Mapping {
    entries: Vec<(String, Value)>,
}

/// The first position in `s` whose key is `k`.
pub open spec fn key_index(s: Seq<(String, Value)>, k: Seq<char>) -> Option<int>
    decreases s.len(),
{
    if s.len() == 0 {
        None
    } else if s[0].0@ == k {
        Some(0)
    } else {
        match key_index(s.drop_first(), k) {
            Some(i) => Some(i + 1),
            None => None,
        }
    }
}

/// The value of the first entry of `s` keyed `k`.
pub open spec fn lookup(s: Seq<(String, Value)>, k: Seq<char>) -> Option<Value> {
    match key_index(s, k) {
        Some(i) => Some(s[i].1),
        None => None,
    }
}

/// `key_index` finds the first matching position.
pub proof fn lemma_key_index(s: Seq<(String, Value)>, k: Seq<char>)
    ensures
        key_index(s, k) matches Some(i) ==> 0 <= i < s.len() && s[i].0@ == k && forall|j: int|
            0 <= j < i ==> s[j].0@ != k,
        key_index(s, k) is None ==> forall|j: int| 0 <= j < s.len() ==> s[j].0@ != k,
    decreases s.len(),
{
    if s.len() > 0 {
        lemma_key_index(s.drop_first(), k);
        if s[0].0@ != k {
            assert forall|j: int| 1 <= j < s.len() implies s[j] == s.drop_first()[j - 1] by {}
        }
    }
}

/// The entries after inserting `key` ↦ `value`: an existing key is replaced in
/// place, a new one is appended.
pub open spec fn insert_entry(s: Seq<(String, Value)>, key: String, value: Value) -> Seq<
    (String, Value),
> {
    match key_index(s, key@) {
        Some(i) => s.update(i, (key, value)),
        None => s.push((key, value)),
    }
}

/// No two entries share a key.
pub open spec fn entry_keys_distinct(s: Seq<(String, Value)>) -> bool {
    forall|i: int, j: int| 0 <= i < j < s.len() ==> s[i].0@ != s[j].0@
}

impl Mapping {
    /// The entries, in order.
    pub closed spec fn entries(&self) -> Seq<(String, Value)> {
        self.entries@
    }

    /// A mapping never holds a key twice: inserting an existing key replaces
    /// its value in place.
    #[verifier::type_invariant]
    spec fn keys_unique(self) -> bool {
        entry_keys_distinct(self.entries@)
    }

    /// The value stored under `k`.
    pub open spec fn spec_get(&self, k: Seq<char>) -> Option<Value> {
        lookup(self.entries(), k)
    }

    /// An empty mapping.
    pub fn new() -> (m: Self)
        ensures
            m.entries() == Seq::<(String, Value)>::empty(),
    {
        Mapping { entries: Vec::new() }
    }

    /// The number of entries.
    pub fn len(&self) -> (n: usize)
        ensures
            n == self.entries().len(),
    {
        self.entries.len()
    }

    /// Whether the mapping has no entries.
    pub fn is_empty(&self) -> (r: bool)
        ensures
            r == (self.entries().len() == 0),
    {
        self.entries.len() == 0
    }

    /// The entries, in order.
    pub fn iter(&self) -> (r: &[(String, Value)])
        ensures
            r@ == self.entries(),
            entry_keys_distinct(r@),
    {
        proof {
            use_type_invariant(self);
        }
        self.entries.as_slice()
    }

    /// The position of the first entry keyed `key`.
    fn position(&self, key: &str) -> (r: Option<usize>)
        ensures
            r matches Some(i) ==> key_index(self.entries(), key@) == Some(i as int) && i < self.entries().len(),
            r is None ==> key_index(self.entries(), key@) is None,
    {
        let mut i: usize = 0;
        proof {
            lemma_key_index(self.entries@, key@);
        }
        while i < self.entries.len()
            invariant
                i <= self.entries@.len(),
                forall|j: int| 0 <= j < i ==> self.entries@[j].0@ != key@,
                key_index(self.entries@, key@) matches Some(x) ==> i <= x && x < self.entries@.len()
                    && self.entries@[x].0@ == key@ && forall|j: int| 0 <= j < x ==> self.entries@[j].0@ != key@,
                key_index(self.entries@, key@) is None ==> forall|j: int|
                    0 <= j < self.entries@.len() ==> self.entries@[j].0@ != key@,
            decreases self.entries@.len() - i,
        {
            if str_eq(self.entries[i].0.as_str(), key) {
                return Some(i);
            }
            i = i + 1;
        }
        None
    }

    /// The value stored under `key`, if any.
    pub fn get(&self, key: &str) -> (r: Option<&Value>)
        ensures
            r matches Some(v) ==> self.spec_get(key@) == Some(*v),
            r is None ==> self.spec_get(key@) is None,
    {
        match self.position(key) {
            Some(i) => Some(&self.entries[i].1),
            None => None,
        }
    }

    /// Store `value` under `key`, replacing any value already there.
    pub fn insert(&mut self, key: String, value: Value)
        ensures
            final(self).entries() == insert_entry(old(self).entries(), key, value),
    {
        proof {
            use_type_invariant(&*self);
        }
        let pos = self.position(key.as_str());
        let mut entries: Vec<(String, Value)> = Vec::new();
        std::mem::swap(&mut entries, &mut self.entries);
        let ghost before = entries@;
        proof {
            lemma_key_index(before, key@);
        }
        match pos {
            Some(i) => {
                entries.set(i, (key, value));
                proof {
                    assert forall|a: int, b: int| 0 <= a < b < entries@.len() implies entries@[a].0@ != entries@[b].0@ by {
                        assert(before[a].0@ != before[b].0@);
                    }
                }
            },
            None => {
                entries.push((key, value));
                proof {
                    assert forall|a: int, b: int| 0 <= a < b < entries@.len() implies entries@[a].0@ != entries@[b].0@ by {
                        if b < before.len() {
                            assert(before[a].0@ != before[b].0@);
                        }
                    }
                }
            },
        }
        self.entries = entries;
    }
}

impl Value {
    /// The value stored under `k` when this is a mapping.
    pub open spec fn spec_get(&self, k: Seq<char>) -> Option<Value> {
        match self {
            Value::Mapping(m) => m.spec_get(k),
            _ => None,
        }
    }

    /// Look up `key` in a mapping value; `None` for a missing key or a
    /// non-mapping value.
    pub fn get(&self, key: &str) -> (r: Option<&Value>)
        ensures
            r matches Some(v) ==> self.spec_get(key@) == Some(*v),
            r is None ==> self.spec_get(key@) is None,
    {
        match self {
            Value::Mapping(m) => m.get(key),
            _ => None,
        }
    }

    /// The string scalar this value holds.
    pub open spec fn spec_as_str(&self) -> Option<Seq<char>> {
        match self {
            Value::String(s) => Some(s@),
            _ => None,
        }
    }

    /// The string scalar this value holds, if it is one.
    pub fn as_str(&self) -> (r: Option<&str>)
        ensures
            r matches Some(s) ==> self.spec_as_str() == Some(s@),
            r is None ==> self.spec_as_str() is None,
    {
        match self {
            Value::String(s) => Some(s.as_str()),
            _ => None,
        }
    }

    /// The boolean scalar this value holds.
    pub open spec fn spec_as_bool(&self) -> Option<bool> {
        match self {
            Value::Bool(b) => Some(*b),
            _ => None,
        }
    }

    /// The boolean scalar this value holds, if it is one.
    pub fn as_bool(&self) -> (r: Option<bool>)
        ensures
            r == self.spec_as_bool(),
    {
        match self {
            Value::Bool(b) => Some(*b),
            _ => None,
        }
    }

    /// The mapping this value is, if it is one.
    pub fn as_mapping(&self) -> (r: Option<&Mapping>)
        ensures
            r matches Some(m) ==> *self == Value::Mapping(*m),
            r is None ==> !(self is Mapping),
    {
        match self {
            Value::Mapping(m) => Some(m),
            _ => None,
        }
    }

    /// Whether this value is `Null`.
    pub fn is_null(&self) -> (r: bool)
        ensures
            r == (self is Null),
    {
        match self {
            Value::Null => true,
            _ => false,
        }
    }

    /// The link targets a value declares: a string is one target, a sequence
    /// contributes each of its string items in order, anything else none.
    pub open spec fn spec_link_strings(&self) -> Seq<Seq<char>> {
        match self {
            Value::String(s) => seq![s@],
            Value::Sequence(items) => strings_in(items@),
            _ => Seq::empty(),
        }
    }

    /// The link targets this value declares (see [`Value::spec_link_strings`]).
    pub fn link_strings(&self) -> (r: Vec<String>)
        ensures
            r@.map_values(|s: String| s@) == self.spec_link_strings(),
    {
        match self {
            Value::String(s) => {
                let mut out: Vec<String> = Vec::new();
                out.push(s.clone());
                proof {
                    assert(out@.map_values(|s: String| s@) =~= seq![s@]);
                }
                out
            },
            Value::Sequence(items) => {
                let mut out: Vec<String> = Vec::new();
                let mut i: usize = 0;
                while i < items.len()
                    invariant
                        i <= items@.len(),
                        out@.map_values(|s: String| s@) == strings_in(items@.take(i as int)),
                    decreases items@.len() - i,
                {
                    proof {
                        assert(items@.take(i + 1).drop_last() =~= items@.take(i as int));
                    }
                    match &items[i] {
                        Value::String(s) => {
                            out.push(s.clone());
                            proof {
                                assert(out@.map_values(|s: String| s@) =~= strings_in(
                                    items@.take(i as int),
                                ).push(s@));
                            }
                        },
                        _ => {},
                    }
                    i = i + 1;
                }
                proof {
                    assert(items@.take(items@.len() as int) =~= items@);
                }
                out
            },
            _ => {
                let out: Vec<String> = Vec::new();
                proof {
                    assert(out@.map_values(|s: String| s@) =~= Seq::<Seq<char>>::empty());
                }
                out
            },
        }
    }
}

/// The string items of a sequence of values, in order.
pub open spec fn strings_in(items: Seq<Value>) -> Seq<Seq<char>>
    decreases items.len(),
{
    if items.len() == 0 {
        Seq::empty()
    } else {
        let rest = strings_in(items.drop_last());
        match items.last() {
            Value::String(s) => rest.push(s@),
            _ => rest,
        }
    }
}

// ── Reading metadata text ────────────────────────────────────────────────────

/// Entries with their keys as character sequences.
pub open spec fn entries_view(s: Seq<(String, Value)>) -> Seq<(Seq<char>, Value)> {
    s.map_values(|e: (String, Value)| (e.0@, e.1))
}

/// The first position in `s` whose key is `k`.
pub open spec fn view_key_index(s: Seq<(Seq<char>, Value)>, k: Seq<char>) -> Option<int>
    decreases s.len(),
{
    if s.len() == 0 {
        None
    } else if s[0].0 == k {
        Some(0)
    } else {
        match view_key_index(s.drop_first(), k) {
            Some(i) => Some(i + 1),
            None => None,
        }
    }
}

/// The entries after inserting `k` ↦ `v`: an existing key keeps its place and
/// takes the new value, a new one is appended.
pub open spec fn insert_view(s: Seq<(Seq<char>, Value)>, k: Seq<char>, v: Value) -> Seq<(Seq<char>, Value)> {
    match view_key_index(s, k) {
        Some(i) => s.update(i, (k, v)),
        None => s.push((k, v)),
    }
}

/// The entries of an empty mapping after inserting the first `n` keys with
/// their values, in order.
pub open spec fn inserted_all(keys: Seq<Seq<char>>, vals: Seq<Value>, n: int) -> Seq<(Seq<char>, Value)>
    decreases n,
{
    if n <= 0 {
        Seq::empty()
    } else {
        insert_view(inserted_all(keys, vals, n - 1), keys[n - 1], vals[n - 1])
    }
}

/// Looking a key up by its characters finds the same position.
proof fn lemma_view_key_index(s: Seq<(String, Value)>, k: Seq<char>)
    ensures
        view_key_index(entries_view(s), k) == key_index(s, k),
    decreases s.len(),
{
    if s.len() > 0 {
        assert(entries_view(s.drop_first()) =~= entries_view(s).drop_first());
        lemma_view_key_index(s.drop_first(), k);
    }
}

/// Inserting into entries and then viewing them is viewing and then inserting.
proof fn lemma_insert_view(s: Seq<(String, Value)>, key: String, value: Value)
    ensures
        entries_view(insert_entry(s, key, value)) == insert_view(entries_view(s), key@, value),
{
    lemma_view_key_index(s, key@);
    lemma_key_index(s, key@);
    assert(entries_view(insert_entry(s, key, value)) =~= insert_view(entries_view(s), key@, value));
}

/// The text a mapping key is known by: a string is itself; a boolean, an
/// integer or a float is its usual rendering; a format-specific scalar is its
/// text; anything else is its debug rendering.
pub open spec fn key_text(k: FigValue) -> Seq<char> {
    match fig_node_of(k) {
        FigNodeView::Str(s) => s,
        FigNodeView::Bool(b) => if b { "true"@ } else { "false"@ },
        FigNodeView::Int(i) => int_decimal(i as int),
        FigNodeView::Uint(u) => nat_decimal(u as nat),
        FigNodeView::Float => fig_float_text(k),
        FigNodeView::Extended(x) => x,
        _ => fig_debug_text(k),
    }
}

/// The largest `u64` that fits an `i64`.
pub open spec fn i64_max() -> u64 {
    0x7fff_ffff_ffff_ffffu64
}

/// `v` is the metadata value the fig tree `t` reads as: null, booleans and
/// strings as themselves (a format-specific scalar as its text); integers as
/// integers, except an unsigned one past `i64` range, kept as its decimal text;
/// a float as its text; a sequence item by item; a mapping as the entries
/// inserted in order, each key by [`key_text`] (a repeated key keeps its
/// first place and its last value).
pub open spec fn converts(t: FigValue, v: Value) -> bool
    decreases fig_depth(t),
{
    match fig_node_of(t) {
        FigNodeView::Null => v is Null,
        FigNodeView::Bool(b) => v == Value::Bool(b),
        FigNodeView::Int(i) => v == Value::Int(i),
        FigNodeView::Uint(u) => if u <= i64_max() {
            v == Value::Int(u as i64)
        } else {
            v matches Value::Float(s) && s@ == nat_decimal(u as nat)
        },
        FigNodeView::Float => v matches Value::Float(s) && s@ == fig_float_text(t),
        FigNodeView::Extended(x) => v matches Value::String(s) && s@ == x,
        FigNodeView::Str(x) => v matches Value::String(s) && s@ == x,
        FigNodeView::Sequence(items) => v matches Value::Sequence(vs) && vs@.len() == items.len() && forall|i: int|
            0 <= i < items.len() ==> (fig_depth(items[i]) < fig_depth(t) && converts(#[trigger] items[i], vs@[i])),
        FigNodeView::Mapping(es) => v matches Value::Mapping(m) && exists|vals: Seq<Value>| {
            &&& vals.len() == es.len()
            &&& forall|i: int| 0 <= i < es.len() ==> (fig_depth(es[i].1) < fig_depth(t) && converts(#[trigger] es[i].1, vals[i]))
            &&& entries_view(m.entries()) == inserted_all(es.map_values(|e: (FigValue, FigValue)| key_text(e.0)), vals, es.len() as int)
        },
    }
}

/// The text a mapping key is known by (see [`key_text`]).
fn key_string(k: &FigValue) -> (r: String)
    ensures
        r@ == key_text(*k),
{
    match fig_node(k) {
        FigNode::Str(s) => s,
        FigNode::Bool(b) => if b {
            String::from_str("true")
        } else {
            String::from_str("false")
        },
        FigNode::Int(i) => int_to_string(i),
        FigNode::Uint(u) => u64_to_string(u),
        FigNode::Float => float_text(k),
        FigNode::Extended(x) => x,
        _ => debug_text(k),
    }
}

/// A fig value tree as a metadata value (see [`converts`]).
pub fn from_fig(value: FigValue) -> (r: Value)
    ensures
        converts(value, r),
    decreases fig_depth(value),
{
    let node = fig_node(&value);
    let ghost nv = node.view();
    match node {
        FigNode::Null => Value::Null,
        FigNode::Bool(b) => Value::Bool(b),
        FigNode::Int(i) => Value::Int(i),
        FigNode::Uint(u) => if u <= 0x7fff_ffff_ffff_ffffu64 {
            Value::Int(u as i64)
        } else {
            Value::Float(u64_to_string(u))
        },
        FigNode::Float => Value::Float(float_text(&value)),
        FigNode::Extended(x) => Value::String(x),
        FigNode::Str(s) => Value::String(s),
        FigNode::Sequence(items) => {
            let ghost its = items@;
            proof {
                assert(nv == FigNodeView::Sequence(its));
                assert(nv matches FigNodeView::Sequence(items) ==> forall|i: int|
                    0 <= i < items.len() ==> fig_depth(#[trigger] items[i]) < fig_depth(value));
                assert(forall|i: int| 0 <= i < its.len() ==> fig_depth(#[trigger] its[i]) < fig_depth(value));
            }
            let mut rest = items;
            let mut out: Vec<Value> = Vec::new();
            while rest.len() > 0
                invariant
                    fig_node_of(value) == FigNodeView::Sequence(its),
                    forall|i: int| 0 <= i < its.len() ==> fig_depth(#[trigger] its[i]) < fig_depth(value),
                    out@.len() + rest@.len() == its.len(),
                    rest@ == its.skip(out@.len() as int),
                    forall|i: int| 0 <= i < out@.len() ==> converts(#[trigger] its[i], out@[i]),
                decreases rest@.len(),
            {
                let ghost k = out@.len() as int;
                let x = rest.remove(0);
                proof {
                    assert(x == its[k]);
                    assert(rest@ =~= its.skip(k + 1));
                }
                let v = from_fig(x);
                out.push(v);
            }
            let r = Value::Sequence(out);
            proof {
                assert(forall|i: int| 0 <= i < its.len() ==> (fig_depth(its[i]) < fig_depth(value) && converts(#[trigger] its[i], out@[i])));
            }
            r
        },
        FigNode::Mapping(entries) => {
            let ghost es = entries@;
            proof {
                assert(nv == FigNodeView::Mapping(es));
                assert(nv matches FigNodeView::Mapping(es2) ==> forall|i: int|
                    0 <= i < es2.len() ==> fig_depth((#[trigger] es2[i]).0) < fig_depth(value) && fig_depth(es2[i].1) < fig_depth(value));
                assert(forall|i: int| 0 <= i < es.len() ==> fig_depth((#[trigger] es[i]).1) < fig_depth(value));
            }
            let ghost keys = es.map_values(|e: (FigValue, FigValue)| key_text(e.0));
            let mut rest = entries;
            let mut m = Mapping::new();
            let ghost mut vals: Seq<Value> = Seq::empty();
            proof {
                assert(entries_view(m.entries()) =~= inserted_all(keys, vals, 0));
            }
            while rest.len() > 0
                invariant
                    fig_node_of(value) == FigNodeView::Mapping(es),
                    keys == es.map_values(|e: (FigValue, FigValue)| key_text(e.0)),
                    forall|i: int| 0 <= i < es.len() ==> fig_depth((#[trigger] es[i]).1) < fig_depth(value),
                    vals.len() + rest@.len() == es.len(),
                    rest@ == es.skip(vals.len() as int),
                    forall|i: int| 0 <= i < vals.len() ==> converts(#[trigger] es[i].1, vals[i]),
                    entries_view(m.entries()) == inserted_all(keys, vals, vals.len() as int),
                decreases rest@.len(),
            {
                let ghost k = vals.len() as int;
                let (key, item) = rest.remove(0);
                proof {
                    assert((key, item) == es[k]);
                    assert(rest@ =~= es.skip(k + 1));
                }
                let name = key_string(&key);
                let v = from_fig(item);
                let ghost before = m.entries();
                proof {
                    lemma_insert_view(before, name, v);
                }
                m.insert(name, v);
                proof {
                    let nv = vals.push(v);
                    assert(inserted_all(keys, nv, k) =~= inserted_all(keys, vals, k)) by {
                        lemma_inserted_all_prefix(keys, vals, nv, k);
                    }
                    vals = nv;
                }
            }
            let r = Value::Mapping(m);
            proof {
                assert(forall|i: int| 0 <= i < es.len() ==> (fig_depth(es[i].1) < fig_depth(value) && converts(#[trigger] es[i].1, vals[i])));
            }
            r
        },
    }
}

/// Inserting the first `n` keys depends only on the first `n` values.
proof fn lemma_inserted_all_prefix(keys: Seq<Seq<char>>, a: Seq<Value>, b: Seq<Value>, n: int)
    requires
        0 <= n <= a.len(),
        n <= b.len(),
        forall|i: int| 0 <= i < n ==> a[i] == b[i],
    ensures
        inserted_all(keys, a, n) == inserted_all(keys, b, n),
    decreases n,
{
    if n > 0 {
        lemma_inserted_all_prefix(keys, a, b, n - 1);
    }
}

/// What reading metadata text in a format gives: fig's parse error, or the
/// error its tree conversion gives, or the value the tree reads as.
pub open spec fn read_meta(content: Seq<char>, format: fig::Format, r: Result<Value, fig::Error>) -> bool {
    match document_parse_failure(content, format) {
        Some(e) => r == Err::<Value, fig::Error>(e),
        None => match document_tree(content, format) {
            Err(e) => r == Err::<Value, fig::Error>(e),
            Ok(t) => r matches Ok(v) && converts(t, v),
        },
    }
}

/// Parse metadata text in `format` into a metadata value (an empty document is
/// `Null`), through fig. Mapping keys that are not strings are keyed by their
/// rendering (see [`converts`]).
pub fn parse_value(content: &str, format: fig::Format) -> (r: Result<Value, fig::Error>)
    ensures
        read_meta(content@, format, r),
{
    let doc = match parse_document(content, format) {
        Ok(d) => d,
        Err(e) => return Err(e),
    };
    match document_value(&doc) {
        Ok(tree) => Ok(from_fig(tree)),
        Err(e) => Err(e),
    }
}

} // verus!
