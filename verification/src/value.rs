//! The free-form argument tree: scalars, sequences and ordered mappings.
//!
//! This is the payload of envelope `args` fields and the right-hand side of
//! templating. A float scalar is carried as its canonical decimal text, so
//! that stringifying and coercion can be stated exactly. Every executable
//! value has a mathematical view, `ValueV`, and all contracts speak of it.

use vstd::prelude::*;
use crate::numtext::{
    i64_to_chars, lemma_int_chars_head, lemma_int_chars_roundtrip, parse_i64_chars, is_digit_char,
    spec_int_chars, spec_parse_i64,
};
use crate::text::{chars_to_string, str_to_chars};

verus! {

broadcast use vstd::seq::group_seq_axioms, vstd::std_specs::vec::group_vec_axioms;

/// One node of the argument tree.
pub enum Value {
    Null,
    Bool(bool),
    Int(i64),
    /// A float scalar, held as its canonical decimal text.
    Float(String),
    Text(String),
    List(Vec<Value>),
    Mapping(Vec<(String, Value)>),
}

/// The mathematical view of an argument tree node.
#[verifier::ext_equal]
pub enum ValueV {
    Null,
    Bool(bool),
    Int(int),
    Float(Seq<char>),
    Text(Seq<char>),
    List(Seq<ValueV>),
    Mapping(Seq<(Seq<char>, ValueV)>),
}

/// The view of one node.
pub open spec fn value_view(v: Value) -> ValueV
    decreases v,
{
    match v {
        Value::Null => ValueV::Null,
        Value::Bool(b) => ValueV::Bool(b),
        Value::Int(n) => ValueV::Int(n as int),
        Value::Float(t) => ValueV::Float(t@),
        Value::Text(t) => ValueV::Text(t@),
        Value::List(xs) => ValueV::List(list_view(xs@)),
        Value::Mapping(es) => ValueV::Mapping(entries_view(es@)),
    }
}

/// The view of a sequence of nodes, element by element.
pub open spec fn list_view(s: Seq<Value>) -> Seq<ValueV>
    decreases s,
{
    if s.len() == 0 {
        Seq::empty()
    } else {
        seq![value_view(s[0])] + list_view(s.skip(1))
    }
}

/// The view of mapping entries: each key as its characters, each value as
/// its view.
pub open spec fn entries_view(s: Seq<(String, Value)>) -> Seq<(Seq<char>, ValueV)>
    decreases s,
{
    if s.len() == 0 {
        Seq::empty()
    } else {
        seq![(s[0].0@, value_view(s[0].1))] + entries_view(s.skip(1))
    }
}

impl View for Value {
    type V = ValueV;

    open spec fn view(&self) -> ValueV {
        value_view(*self)
    }
}

pub broadcast proof fn lemma_list_view_len(s: Seq<Value>)
    ensures
        #[trigger] list_view(s).len() == s.len(),
    decreases s,
{
    if s.len() > 0 {
        lemma_list_view_len(s.skip(1));
    }
}

pub broadcast proof fn lemma_list_view_index(s: Seq<Value>, i: int)
    requires
        0 <= i < s.len(),
    ensures
        #[trigger] list_view(s)[i] == value_view(s[i]),
    decreases s,
{
    lemma_list_view_len(s);
    if i > 0 {
        lemma_list_view_index(s.skip(1), i - 1);
    }
}

pub broadcast proof fn lemma_entries_view_len(s: Seq<(String, Value)>)
    ensures
        #[trigger] entries_view(s).len() == s.len(),
    decreases s,
{
    if s.len() > 0 {
        lemma_entries_view_len(s.skip(1));
    }
}

pub broadcast proof fn lemma_entries_view_index(s: Seq<(String, Value)>, i: int)
    requires
        0 <= i < s.len(),
    ensures
        #[trigger] entries_view(s)[i] == (s[i].0@, value_view(s[i].1)),
    decreases s,
{
    lemma_entries_view_len(s);
    if i > 0 {
        lemma_entries_view_index(s.skip(1), i - 1);
    }
}

/// First-match lookup among mapping entries.
pub open spec fn map_lookup(es: Seq<(Seq<char>, ValueV)>, k: Seq<char>) -> Option<ValueV>
    decreases es.len(),
{
    if es.len() == 0 {
        None
    } else if es[0].0 == k {
        Some(es[0].1)
    } else {
        map_lookup(es.skip(1), k)
    }
}

/// Whether a key occurs among mapping entries.
pub open spec fn map_has(es: Seq<(Seq<char>, ValueV)>, k: Seq<char>) -> bool {
    map_lookup(es, k) is Some
}

/// Index of the first entry with the given key.
pub open spec fn map_index_of(es: Seq<(Seq<char>, ValueV)>, k: Seq<char>) -> int
    decreases es.len(),
{
    if es.len() == 0 {
        0
    } else if es[0].0 == k {
        0
    } else {
        1 + map_index_of(es.skip(1), k)
    }
}

/// No two entries share a key.
pub open spec fn map_keys_unique(es: Seq<(Seq<char>, ValueV)>) -> bool {
    forall|i: int, j: int| 0 <= i < j < es.len() ==> es[i].0 != es[j].0
}

/// Insert into an ordered mapping: replace the first entry with this key
/// in place, or append a new entry at the end.
pub open spec fn spec_map_insert(es: Seq<(Seq<char>, ValueV)>, kv: (Seq<char>, ValueV)) -> Seq<
    (Seq<char>, ValueV),
> {
    if map_has(es, kv.0) {
        es.update(map_index_of(es, kv.0), kv)
    } else {
        es.push(kv)
    }
}

pub proof fn lemma_index_of_bounds(es: Seq<(Seq<char>, ValueV)>, k: Seq<char>)
    requires
        map_has(es, k),
    ensures
        0 <= map_index_of(es, k) < es.len(),
        es[map_index_of(es, k)].0 == k,
        forall|j: int| 0 <= j < map_index_of(es, k) ==> es[j].0 != k,
    decreases es.len(),
{
    if es.len() > 0 && es[0].0 != k {
        lemma_index_of_bounds(es.skip(1), k);
        assert forall|j: int| 0 <= j < map_index_of(es, k) implies es[j].0 != k by {
            if j > 0 {
                assert(es.skip(1)[j - 1] == es[j]);
            }
        }
    }
}

/// Looking a key up after an insert: the inserted key maps to the new value,
/// every other key is unchanged.
#[verifier::rlimit(50)]
pub proof fn lemma_insert_lookup(es: Seq<(Seq<char>, ValueV)>, kv: (Seq<char>, ValueV), x: Seq<char>)
    ensures
        map_lookup(spec_map_insert(es, kv), x) == if x == kv.0 {
            Some(kv.1)
        } else {
            map_lookup(es, x)
        },
    decreases es.len(),
{
    if map_has(es, kv.0) {
        lemma_index_of_bounds(es, kv.0);
        let i = map_index_of(es, kv.0);
        if i == 0 {
            assert(es[0].0 == kv.0);
            assert(es.update(0, kv)[0] == kv);
            assert(es.update(0, kv).skip(1) =~= es.skip(1));
            if x == kv.0 {
                assert(map_lookup(es.update(0, kv), x) == Some(kv.1));
            } else {
                assert(map_lookup(es.update(0, kv), x) == map_lookup(es.skip(1), x));
                assert(map_lookup(es, x) == map_lookup(es.skip(1), x));
            }
        } else {
            assert(map_has(es.skip(1), kv.0));
            assert(map_index_of(es.skip(1), kv.0) == i - 1);
            lemma_insert_lookup(es.skip(1), kv, x);
            assert(es[0].0 != kv.0);
            assert(es.update(i, kv)[0] == es[0]);
            assert(es.update(i, kv).skip(1) =~= es.skip(1).update(i - 1, kv));
            assert(spec_map_insert(es.skip(1), kv) == es.skip(1).update(i - 1, kv));
            if x == es[0].0 {
                assert(map_lookup(es.update(i, kv), x) == Some(es[0].1));
                assert(map_lookup(es, x) == Some(es[0].1));
            } else {
                assert(map_lookup(es.update(i, kv), x) == map_lookup(
                    es.skip(1).update(i - 1, kv),
                    x,
                ));
                assert(map_lookup(es, x) == map_lookup(es.skip(1), x));
            }
        }
    } else {
        if es.len() == 0 {
            assert(es.push(kv)[0] == kv);
            assert(es.push(kv).skip(1) =~= Seq::<(Seq<char>, ValueV)>::empty());
            if x == kv.0 {
                assert(map_lookup(es.push(kv), x) == Some(kv.1));
            } else {
                assert(map_lookup(Seq::<(Seq<char>, ValueV)>::empty(), x) is None);
                assert(map_lookup(es.push(kv), x) is None);
                assert(map_lookup(es, x) is None);
            }
        } else {
            assert(es.push(kv)[0] == es[0]);
            assert(es.push(kv).skip(1) =~= es.skip(1).push(kv));
            assert(!map_has(es.skip(1), kv.0));
            lemma_insert_lookup(es.skip(1), kv, x);
            assert(es[0].0 != kv.0);
            if x == es[0].0 {
                assert(map_lookup(es.push(kv), x) == Some(es[0].1));
                assert(map_lookup(es, x) == Some(es[0].1));
            } else {
                assert(map_lookup(es.push(kv), x) == map_lookup(es.skip(1).push(kv), x));
                assert(map_lookup(es, x) == map_lookup(es.skip(1), x));
            }
        }
    }
}

/// Insert keeps keys unique.
pub proof fn lemma_insert_unique(es: Seq<(Seq<char>, ValueV)>, kv: (Seq<char>, ValueV))
    requires
        map_keys_unique(es),
    ensures
        map_keys_unique(spec_map_insert(es, kv)),
{
    let r = spec_map_insert(es, kv);
    if map_has(es, kv.0) {
        lemma_index_of_bounds(es, kv.0);
        let i = map_index_of(es, kv.0);
        assert forall|a: int, b: int| 0 <= a < b < r.len() implies r[a].0 != r[b].0 by {
            if a != i && b != i {
                assert(r[a] == es[a] && r[b] == es[b]);
            } else if a == i {
                assert(r[b] == es[b] && es[i].0 == kv.0);
            } else {
                assert(r[a] == es[a] && es[i].0 == kv.0);
            }
        }
    } else {
        assert forall|a: int, b: int| 0 <= a < b < r.len() implies r[a].0 != r[b].0 by {
            if b == es.len() {
                assert(r[a] == es[a] && r[b] == kv);
                if es[a].0 == kv.0 {
                    lemma_lookup_found(es, a);
                }
            } else {
                assert(r[a] == es[a] && r[b] == es[b]);
            }
        }
    }
}

/// If some entry carries the key, lookup finds the key.
pub proof fn lemma_lookup_found(es: Seq<(Seq<char>, ValueV)>, i: int)
    requires
        0 <= i < es.len(),
    ensures
        map_has(es, es[i].0),
    decreases es.len(),
{
    if es[0].0 != es[i].0 {
        assert(es.skip(1)[i - 1] == es[i]);
        lemma_lookup_found(es.skip(1), i - 1);
    }
}

/// Lookup on a sequence with its last entry split off.
pub proof fn lemma_lookup_snoc(es: Seq<(Seq<char>, ValueV)>, k: Seq<char>)
    requires
        es.len() > 0,
    ensures
        map_lookup(es, k) == if map_has(es.take(es.len() - 1), k) {
            map_lookup(es.take(es.len() - 1), k)
        } else if es.last().0 == k {
            Some(es.last().1)
        } else {
            None
        },
    decreases es.len(),
{
    let pre = es.take(es.len() - 1);
    if es.len() == 1 {
        assert(pre =~= Seq::<(Seq<char>, ValueV)>::empty());
        assert(es.skip(1) =~= Seq::<(Seq<char>, ValueV)>::empty());
    } else {
        assert(pre[0] == es[0]);
        assert(es.skip(1).take(es.skip(1).len() - 1) =~= pre.skip(1));
        assert(es.skip(1).last() == es.last());
        lemma_lookup_snoc(es.skip(1), k);
        if es[0].0 != k {
            assert(map_lookup(es, k) == map_lookup(es.skip(1), k));
            assert(map_lookup(pre, k) == map_lookup(pre.skip(1), k));
        }
    }
}

/// If the first `j` entries miss the key, lookup continues in the rest.
pub proof fn lemma_lookup_prefix_miss(es: Seq<(Seq<char>, ValueV)>, k: Seq<char>, j: int)
    requires
        0 <= j <= es.len(),
        forall|i: int| 0 <= i < j ==> es[i].0 != k,
    ensures
        map_lookup(es, k) == map_lookup(es.skip(j), k),
    decreases j,
{
    if j == 0 {
        assert(es.skip(0) =~= es);
    } else {
        assert(es[0].0 != k);
        assert forall|i: int| 0 <= i < j - 1 implies es.skip(1)[i].0 != k by {
            assert(es.skip(1)[i] == es[i + 1]);
        }
        lemma_lookup_prefix_miss(es.skip(1), k, j - 1);
        assert(es.skip(1).skip(j - 1) =~= es.skip(j));
    }
}

/// If the first `j` entries miss the key and entry `j` carries it, `j` is
/// the key's index.
pub proof fn lemma_index_of_prefix_miss(es: Seq<(Seq<char>, ValueV)>, k: Seq<char>, j: int)
    requires
        0 <= j < es.len(),
        forall|i: int| 0 <= i < j ==> es[i].0 != k,
        es[j].0 == k,
    ensures
        map_index_of(es, k) == j,
    decreases j,
{
    if j > 0 {
        assert forall|i: int| 0 <= i < j - 1 implies es.skip(1)[i].0 != k by {
            assert(es.skip(1)[i] == es[i + 1]);
        }
        assert(es.skip(1)[j - 1] == es[j]);
        lemma_index_of_prefix_miss(es.skip(1), k, j - 1);
    }
}

/// Entries of the shallow merge: the original entries with every entry of
/// the new mapping inserted over them, in the new mapping's order.
pub open spec fn spec_merge_entries(
    orig: Seq<(Seq<char>, ValueV)>,
    news: Seq<(Seq<char>, ValueV)>,
) -> Seq<(Seq<char>, ValueV)>
    decreases news.len(),
{
    if news.len() == 0 {
        orig
    } else {
        spec_map_insert(spec_merge_entries(orig, news.take(news.len() - 1)), news.last())
    }
}

/// Shallow merge of two argument values: on two mappings, the original with
/// every top-level key of the new one overwriting; a mapping wins over null;
/// otherwise the original wins.
pub open spec fn spec_merge(original: ValueV, new: ValueV) -> ValueV {
    match (original, new) {
        (ValueV::Mapping(om), ValueV::Mapping(nm)) => ValueV::Mapping(spec_merge_entries(om, nm)),
        (ValueV::Null, ValueV::Mapping(nm)) => ValueV::Mapping(nm),
        _ => original,
    }
}

/// Merge shallowness: in the merged entries, a key present in the new
/// mapping carries the new mapping's value, and every other key keeps the
/// first mapping's value. Nested mappings are not merged recursively.
pub proof fn lemma_merge_shallow(
    orig: Seq<(Seq<char>, ValueV)>,
    news: Seq<(Seq<char>, ValueV)>,
    k: Seq<char>,
)
    requires
        map_keys_unique(news),
    ensures
        map_lookup(spec_merge_entries(orig, news), k) == if map_has(news, k) {
            map_lookup(news, k)
        } else {
            map_lookup(orig, k)
        },
    decreases news.len(),
{
    if news.len() > 0 {
        let pre = news.take(news.len() - 1);
        let last = news.last();
        assert(forall|i: int| 0 <= i < pre.len() ==> pre[i] == news[i]);
        lemma_merge_shallow(orig, pre, k);
        lemma_insert_lookup(spec_merge_entries(orig, pre), last, k);
        lemma_lookup_snoc(news, k);
        if k == last.0 && map_has(pre, k) {
            lemma_index_of_bounds(pre, k);
            let i = map_index_of(pre, k);
            assert(news[i] == pre[i]);
            assert(news[i].0 == news[news.len() - 1].0);
            assert(false);
        }
    }
}

/// Merge keeps keys unique.
pub proof fn lemma_merge_unique(orig: Seq<(Seq<char>, ValueV)>, news: Seq<(Seq<char>, ValueV)>)
    requires
        map_keys_unique(orig),
    ensures
        map_keys_unique(spec_merge_entries(orig, news)),
    decreases news.len(),
{
    if news.len() > 0 {
        let pre = news.take(news.len() - 1);
        lemma_merge_unique(orig, pre);
        lemma_insert_unique(spec_merge_entries(orig, pre), news.last());
    }
}

impl Value {
    /// Deep copy; the copy has the same view.
    #[verifier::loop_isolation(false)]
    pub fn duplicate(&self) -> (r: Value)
        ensures
            r@ == self@,
        decreases *self,
    {
        match self {
            Value::Null => Value::Null,
            Value::Bool(b) => Value::Bool(*b),
            Value::Int(n) => Value::Int(*n),
            Value::Float(t) => Value::Float(t.clone()),
            Value::Text(t) => Value::Text(t.clone()),
            Value::List(xs) => {
                let mut out: Vec<Value> = Vec::new();
                let mut i: usize = 0;
                while i < xs.len()
                    invariant
                        i <= xs@.len(),
                        out@.len() == i,
                        self is List && xs@ == self->List_0@,
                        forall|j: int|
                            0 <= j < i ==> value_view(#[trigger] out@[j]) == value_view(xs@[j]),
                    decreases xs@.len() - i,
                {
                    proof {
                        assert(decreases_to!(*self => self->List_0));
                        assert(decreases_to!(self->List_0 => self->List_0@));
                        assert(decreases_to!(self->List_0@ => self->List_0@[i as int]));
                    }
                    let e = xs[i].duplicate();
                    out.push(e);
                    i = i + 1;
                }
                let rv = Value::List(out);
                proof {
                    assert forall|j: int| 0 <= j < out@.len() implies list_view(out@)[j]
                        == list_view(xs@)[j] by {
                        lemma_list_view_index(out@, j);
                        lemma_list_view_index(xs@, j);
                    }
                    lemma_list_view_len(out@);
                    lemma_list_view_len(xs@);
                    assert(list_view(out@) =~= list_view(xs@));
                }
                rv
            },
            Value::Mapping(es) => {
                let mut out: Vec<(String, Value)> = Vec::new();
                let mut i: usize = 0;
                while i < es.len()
                    invariant
                        i <= es@.len(),
                        out@.len() == i,
                        self is Mapping && es@ == self->Mapping_0@,
                        forall|j: int|
                            0 <= j < i ==> (#[trigger] out@[j]).0@ == es@[j].0@ && value_view(
                                out@[j].1,
                            ) == value_view(es@[j].1),
                    decreases es@.len() - i,
                {
                    let k = es[i].0.clone();
                    proof {
                        assert(decreases_to!(*self => self->Mapping_0));
                        assert(decreases_to!(self->Mapping_0 => self->Mapping_0@));
                        assert(decreases_to!(self->Mapping_0@ => self->Mapping_0@[i as int]));
                        assert(decreases_to!(self->Mapping_0@[i as int] => self->Mapping_0@[
                            i as int
                        ].1));
                    }
                    let v = es[i].1.duplicate();
                    out.push((k, v));
                    i = i + 1;
                }
                let rv = Value::Mapping(out);
                proof {
                    assert forall|j: int| 0 <= j < out@.len() implies entries_view(out@)[j]
                        == entries_view(es@)[j] by {
                        lemma_entries_view_index(out@, j);
                        lemma_entries_view_index(es@, j);
                    }
                    lemma_entries_view_len(out@);
                    lemma_entries_view_len(es@);
                    assert(entries_view(out@) =~= entries_view(es@));
                }
                rv
            },
        }
    }

    /// Top-level lookup: on a mapping, the value at the key; `None` on
    /// every other kind of node.
    #[verifier::loop_isolation(false)]
    pub fn get_key<'a>(&'a self, key: &str) -> (r: Option<&'a Value>)
        ensures
            match r {
                Some(v) => self@ is Mapping && map_lookup(self@->Mapping_0, key@) == Some(v@),
                None => !(self@ is Mapping) || !map_has(self@->Mapping_0, key@),
            },
    {
        match self {
            Value::Mapping(es) => {
                let n = es.len();
                let mut i: usize = 0;
                while i < n
                    invariant
                        i <= n,
                        n == es@.len(),
                        self is Mapping && es@ == self->Mapping_0@,
                        forall|j: int| 0 <= j < i ==> (#[trigger] es@[j]).0@ != key@,
                    decreases n - i,
                {
                    if str_equal(es[i].0.as_str(), key) {
                        proof {
                            let ev = entries_view(es@);
                            lemma_entries_view_len(es@);
                            assert forall|j: int| 0 <= j < i implies (#[trigger] ev[j]).0 != key@ by {
                                lemma_entries_view_index(es@, j);
                            }
                            lemma_lookup_prefix_miss(ev, key@, i as int);
                            lemma_entries_view_index(es@, i as int);
                            assert(ev.skip(i as int)[0] == ev[i as int]);
                        }
                        return Some(&es[i].1);
                    }
                    i = i + 1;
                }
                proof {
                    let ev = entries_view(es@);
                    lemma_entries_view_len(es@);
                    assert forall|j: int| 0 <= j < n implies (#[trigger] ev[j]).0 != key@ by {
                        lemma_entries_view_index(es@, j);
                    }
                    lemma_lookup_prefix_miss(ev, key@, n as int);
                    assert(ev.skip(n as int) =~= Seq::<(Seq<char>, ValueV)>::empty());
                }
                None
            },
            _ => None,
        }
    }
}

/// Relies on str's PartialEq: character-for-character equality.
#[verifier::external_body]
pub fn str_equal(a: &str, b: &str) -> (r: bool)
    ensures
        r == (a@ == b@),
{
    a == b
}

/// Insert an entry into mapping entries: replace the first entry with this
/// key, or append.
#[verifier::loop_isolation(false)]
pub fn map_insert(entries: &mut Vec<(String, Value)>, k: String, v: Value)
    ensures
        entries_view(final(entries)@) == spec_map_insert(entries_view(old(entries)@), (k@, v@)),
{
    let ghost oes = old(entries)@;
    let ghost ov = entries_view(old(entries)@);
    let n = entries.len();
    let mut i: usize = 0;
    while i < n
        invariant
            i <= n,
            n == entries@.len(),
            entries@ == oes,
            forall|j: int| 0 <= j < i ==> (#[trigger] entries@[j]).0@ != k@,
        decreases n - i,
    {
        if str_equal(entries[i].0.as_str(), k.as_str()) {
            proof {
                lemma_entries_view_len(oes);
                assert forall|j: int| 0 <= j < i implies (#[trigger] ov[j]).0 != k@ by {
                    lemma_entries_view_index(oes, j);
                }
                lemma_entries_view_index(oes, i as int);
                lemma_lookup_prefix_miss(ov, k@, i as int);
                assert(ov.skip(i as int)[0] == ov[i as int]);
                assert(map_has(ov, k@));
                lemma_index_of_prefix_miss(ov, k@, i as int);
            }
            entries.set(i, (k, v));
            proof {
                lemma_entries_view_len(entries@);
                lemma_entries_view_len(oes);
                assert forall|j: int| 0 <= j < entries@.len() implies entries_view(entries@)[j]
                    == spec_map_insert(ov, (k@, v@))[j] by {
                    lemma_entries_view_index(entries@, j);
                    lemma_entries_view_index(oes, j);
                }
                assert(entries_view(entries@) =~= spec_map_insert(ov, (k@, v@)));
            }
            return ;
        }
        i = i + 1;
    }
    proof {
        lemma_entries_view_len(oes);
        assert forall|j: int| 0 <= j < n implies (#[trigger] ov[j]).0 != k@ by {
            lemma_entries_view_index(oes, j);
        }
        lemma_lookup_prefix_miss(ov, k@, n as int);
        assert(ov.skip(n as int) =~= Seq::<(Seq<char>, ValueV)>::empty());
        assert(!map_has(ov, k@));
    }
    entries.push((k, v));
    proof {
        lemma_entries_view_len(entries@);
        lemma_entries_view_len(oes);
        assert forall|j: int| 0 <= j < entries@.len() implies entries_view(entries@)[j]
            == spec_map_insert(ov, (k@, v@))[j] by {
            lemma_entries_view_index(entries@, j);
            if j < oes.len() {
                lemma_entries_view_index(oes, j);
            }
        }
        assert(entries_view(entries@) =~= spec_map_insert(ov, (k@, v@)));
    }
}

/// The argument helper: shallow merge and typed reads over the tree.
pub struct Args;

impl Args {
    /// Shallow merge per the merge rules: mapping keys of `new` overwrite
    /// top-level keys of `original`; a mapping wins over null; otherwise the
    /// original wins.
    #[verifier::loop_isolation(false)]
    pub fn merge_yaml_values(original: &Value, new: &Value) -> (r: Value)
        ensures
            r@ == spec_merge(original@, new@),
    {
        match (original, new) {
            (Value::Mapping(om), Value::Mapping(nm)) => {
                let ghost omv = entries_view(om@);
                let ghost nmv = entries_view(nm@);
                let mut out: Vec<(String, Value)> = Vec::new();
                let mut i: usize = 0;
                while i < om.len()
                    invariant
                        i <= om@.len(),
                        out@.len() == i,
                        original is Mapping && om@ == original->Mapping_0@,
                        forall|j: int|
                            0 <= j < i ==> (#[trigger] out@[j]).0@ == om@[j].0@ && value_view(
                                out@[j].1,
                            ) == value_view(om@[j].1),
                    decreases om@.len() - i,
                {
                    let k = om[i].0.clone();
                    proof {
                        assert(decreases_to!(*original => original->Mapping_0));
                        assert(decreases_to!(original->Mapping_0 => original->Mapping_0@));
                        assert(decreases_to!(original->Mapping_0@ => original->Mapping_0@[
                            i as int
                        ]));
                        assert(decreases_to!(original->Mapping_0@[i as int] => original->Mapping_0@[
                            i as int
                        ].1));
                    }
                    let v = om[i].1.duplicate();
                    out.push((k, v));
                    i = i + 1;
                }
                proof {
                    lemma_entries_view_len(out@);
                    lemma_entries_view_len(om@);
                    assert forall|j: int| 0 <= j < out@.len() implies entries_view(out@)[j]
                        == omv[j] by {
                        lemma_entries_view_index(out@, j);
                        lemma_entries_view_index(om@, j);
                    }
                    assert(entries_view(out@) =~= omv);
                    assert(nmv.take(0) =~= Seq::<(Seq<char>, ValueV)>::empty());
                    lemma_entries_view_len(nm@);
                }
                let mut j: usize = 0;
                while j < nm.len()
                    invariant
                        j <= nm@.len(),
                        new is Mapping && nm@ == new->Mapping_0@,
                        nmv == entries_view(nm@),
                        omv == entries_view(om@),
                        nmv.len() == nm@.len(),
                        entries_view(out@) == spec_merge_entries(omv, nmv.take(j as int)),
                    decreases nm@.len() - j,
                {
                    let k = nm[j].0.clone();
                    proof {
                        assert(decreases_to!(*new => new->Mapping_0));
                        assert(decreases_to!(new->Mapping_0 => new->Mapping_0@));
                        assert(decreases_to!(new->Mapping_0@ => new->Mapping_0@[j as int]));
                        assert(decreases_to!(new->Mapping_0@[j as int] => new->Mapping_0@[
                            j as int
                        ].1));
                    }
                    let v = nm[j].1.duplicate();
                    map_insert(&mut out, k, v);
                    proof {
                        lemma_entries_view_index(nm@, j as int);
                        let t = nmv.take(j + 1int);
                        assert(t.take(t.len() - 1) =~= nmv.take(j as int));
                        assert(t.last() == nmv[j as int]);
                        assert(nmv[j as int] == (nm@[j as int].0@, value_view(nm@[j as int].1)));
                    }
                    j = j + 1;
                }
                proof {
                    assert(nmv.take(nmv.len() as int) =~= nmv);
                }
                Value::Mapping(out)
            },
            (Value::Null, Value::Mapping(_)) => new.duplicate(),
            _ => original.duplicate(),
        }
    }
}





/// The text of a boolean, as `ToString` writes it.
pub open spec fn spec_bool_chars(b: bool) -> Seq<char> {
    if b {
        seq!['t', 'r', 'u', 'e']
    } else {
        seq!['f', 'a', 'l', 's', 'e']
    }
}

/// What `str::parse::<bool>` accepts: exactly the two boolean words.
pub open spec fn spec_parse_bool(s: Seq<char>) -> Option<bool> {
    if s == spec_bool_chars(true) {
        Some(true)
    } else if s == spec_bool_chars(false) {
        Some(false)
    } else {
        None
    }
}

/// The text of a scalar, as the coercion chain stringifies it: a string
/// verbatim, an integer or boolean as its canonical text, a float as its
/// canonical text; nothing for null, sequences and mappings.
pub open spec fn spec_value_text(v: ValueV) -> Option<Seq<char>> {
    match v {
        ValueV::Text(s) => Some(s),
        ValueV::Int(n) => Some(spec_int_chars(n)),
        ValueV::Bool(b) => Some(spec_bool_chars(b)),
        ValueV::Float(t) => Some(t),
        _ => None,
    }
}

/// Top-level lookup on a value: only a mapping has entries.
pub open spec fn spec_top_get(args: ValueV, k: Seq<char>) -> Option<ValueV> {
    match args {
        ValueV::Mapping(es) => map_lookup(es, k),
        _ => None,
    }
}

/// The coerced string read: the scalar's text, or the default.
pub open spec fn spec_get_string(args: ValueV, k: Seq<char>, default: Seq<char>) -> Seq<char> {
    match spec_top_get(args, k) {
        Some(v) => match spec_value_text(v) {
            Some(t) => t,
            None => default,
        },
        None => default,
    }
}

/// The coerced integer read: the scalar's text parsed as an `i64`, or the
/// default on a missing key, a non-scalar, or text that does not parse.
pub open spec fn spec_get_i64(args: ValueV, k: Seq<char>, default: i64) -> i64 {
    match spec_top_get(args, k) {
        Some(v) => match spec_value_text(v) {
            Some(t) => match spec_parse_i64(t) {
                Some(n) => n,
                None => default,
            },
            None => default,
        },
        None => default,
    }
}

/// The coerced boolean read: the scalar's text parsed as a boolean, or the
/// default.
pub open spec fn spec_get_bool(args: ValueV, k: Seq<char>, default: bool) -> bool {
    match spec_top_get(args, k) {
        Some(v) => match spec_value_text(v) {
            Some(t) => match spec_parse_bool(t) {
                Some(b) => b,
                None => default,
            },
            None => default,
        },
        None => default,
    }
}

/// Parse a boolean word as `str::parse::<bool>` does.
pub fn parse_bool_str(s: &str) -> (r: Option<bool>)
    ensures
        r == spec_parse_bool(s@),
{
    proof {
        reveal_strlit("true");
        reveal_strlit("false");
        assert("true"@ =~= spec_bool_chars(true));
        assert("false"@ =~= spec_bool_chars(false));
    }
    if str_equal(s, "true") {
        Some(true)
    } else if str_equal(s, "false") {
        Some(false)
    } else {
        None
    }
}

impl Value {
    /// The scalar's text per the coercion chain, or nothing.
    pub fn scalar_text(&self) -> (r: Option<String>)
        ensures
            match r {
                Some(t) => spec_value_text(self@) == Some(t@),
                None => spec_value_text(self@) is None,
            },
    {
        match self {
            Value::Text(t) => Some(t.clone()),
            Value::Int(n) => {
                let cs = i64_to_chars(*n);
                Some(chars_to_string(&cs))
            },
            Value::Bool(b) => {
                proof {
                    reveal_strlit("true");
                    reveal_strlit("false");
                    assert("true"@ =~= spec_bool_chars(true));
                    assert("false"@ =~= spec_bool_chars(false));
                }
                if *b {
                    Some(String::from_str("true"))
                } else {
                    Some(String::from_str("false"))
                }
            },
            Value::Float(t) => Some(t.clone()),
            _ => None,
        }
    }
}

impl Args {
    /// Read a string from the top-level key, through the coercion chain.
    pub fn get_string(args: &Value, key: &str, default: String) -> (r: String)
        ensures
            r@ == spec_get_string(args@, key@, default@),
    {
        match args.get_key(key) {
            Some(v) => match v.scalar_text() {
                Some(t) => t,
                None => default,
            },
            None => default,
        }
    }

    /// Read an `i64` from the top-level key, through the coercion chain:
    /// a string is parsed, an integer is returned as it is, a boolean never
    /// parses, a float parses when its canonical text is an integer's.
    pub fn get_i64(args: &Value, key: &str, default: i64) -> (r: i64)
        ensures
            r == spec_get_i64(args@, key@, default),
    {
        match args.get_key(key) {
            Some(v) => match v {
                Value::Int(n) => {
                    proof {
                        lemma_int_chars_roundtrip(*n as int);
                    }
                    *n
                },
                Value::Text(t) => {
                    let cs = str_to_chars(t.as_str());
                    match parse_i64_chars(&cs) {
                        Some(n) => n,
                        None => default,
                    }
                },
                Value::Float(t) => {
                    let cs = str_to_chars(t.as_str());
                    match parse_i64_chars(&cs) {
                        Some(n) => n,
                        None => default,
                    }
                },
                Value::Bool(b) => {
                    proof {
                        let bc = spec_bool_chars(*b);
                        assert(!is_digit_char(bc[0]) && bc[0] != '-' && bc[0] != '+');
                        assert(spec_parse_i64(bc) is None);
                    }
                    default
                },
                _ => default,
            },
            None => default,
        }
    }

    /// Read a boolean from the top-level key, through the coercion chain:
    /// only the two boolean words and a boolean scalar yield a value.
    pub fn get_bool(args: &Value, key: &str, default: bool) -> (r: bool)
        ensures
            r == spec_get_bool(args@, key@, default),
    {
        match args.get_key(key) {
            Some(v) => match v {
                Value::Bool(b) => {
                    proof {
                        assert(spec_parse_bool(spec_bool_chars(*b)) == Some(*b));
                    }
                    *b
                },
                Value::Text(t) => match parse_bool_str(t.as_str()) {
                    Some(b) => b,
                    None => default,
                },
                Value::Float(t) => match parse_bool_str(t.as_str()) {
                    Some(b) => b,
                    None => default,
                },
                Value::Int(n) => {
                    proof {
                        lemma_int_chars_head(*n as int);
                        let ic = spec_int_chars(*n as int);
                        assert(ic[0] != 't' && ic[0] != 'f');
                        assert(spec_parse_bool(ic) is None);
                    }
                    default
                },
                _ => default,
            },
            None => default,
        }
    }
}

/// Numeric coercion: reading an integer from a mapping returns the integer
/// value of the scalar at the key when its canonical text parses as an
/// `i64` - a parseable string, an integer itself, or a float whose text is
/// integral - and the default otherwise; a boolean's words never parse.
pub proof fn lemma_numeric_coercion(args: ValueV, k: Seq<char>, d: i64)
    ensures
        spec_top_get(args, k) is None ==> spec_get_i64(args, k, d) == d,
        forall|n: int|
            i64::MIN <= n <= i64::MAX && spec_top_get(args, k) == Some(ValueV::Int(n))
                ==> spec_get_i64(args, k, d) == n,
        forall|t: Seq<char>|
            spec_top_get(args, k) == Some(ValueV::Text(t)) ==> spec_get_i64(args, k, d) == (
            match spec_parse_i64(t) {
                Some(n) => n,
                None => d,
            }),
        forall|t: Seq<char>|
            spec_top_get(args, k) == Some(ValueV::Float(t)) ==> spec_get_i64(args, k, d) == (
            match spec_parse_i64(t) {
                Some(n) => n,
                None => d,
            }),
        forall|b: bool|
            spec_top_get(args, k) == Some(ValueV::Bool(b)) ==> spec_get_i64(args, k, d) == d,
{
    assert forall|n: int|
        i64::MIN <= n <= i64::MAX && spec_top_get(args, k) == Some(
            ValueV::Int(n),
        ) implies spec_get_i64(args, k, d) == n by {
        lemma_int_chars_roundtrip(n);
    }
    assert forall|b: bool| spec_top_get(args, k) == Some(
        ValueV::Bool(b),
    ) implies spec_get_i64(args, k, d) == d by {
        let bc = spec_bool_chars(b);
        assert(!is_digit_char(bc[0]) && bc[0] != '-' && bc[0] != '+');
        assert(spec_parse_i64(bc) is None);
    }
}

} // verus!
