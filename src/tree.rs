//! The document tree: JSON values with exact decimal numbers and objects that
//! keep their entries in insertion order.

use crate::decimal::Decimal;
use vstd::prelude::*;

verus! {

broadcast use vstd::std_specs::vec::axiom_vec_index_decreases;

/// A document node.
#[derive(Debug)]
pub enum Json {
    Null,
    Bool(bool),
    Number(Decimal),
    Str(String),
    Array(Vec<Json>),
    Object(Vec<(String, Json)>),
}

/// The mathematical model of a document node.
pub enum JsonV {
    Null,
    Bool(bool),
    Number(Decimal),
    Str(Seq<char>),
    Array(Seq<JsonV>),
    Object(Seq<(Seq<char>, JsonV)>),
}

pub open spec fn json_view(j: Json) -> JsonV
    decreases j,
{
    match j {
        Json::Null => JsonV::Null,
        Json::Bool(b) => JsonV::Bool(b),
        Json::Number(d) => JsonV::Number(d),
        Json::Str(s) => JsonV::Str(s@),
        Json::Array(items) => JsonV::Array(
            Seq::new(
                items@.len(),
                |i: int|
                    if 0 <= i < items@.len() {
                        json_view(items@[i])
                    } else {
                        JsonV::Null
                    },
            ),
        ),
        Json::Object(entries) => JsonV::Object(
            Seq::new(
                entries@.len(),
                |i: int|
                    if 0 <= i < entries@.len() {
                        (entries@[i].0@, json_view(entries@[i].1))
                    } else {
                        (Seq::empty(), JsonV::Null)
                    },
            ),
        ),
    }
}

impl View for Json {
    type V = JsonV;

    open spec fn view(&self) -> JsonV {
        json_view(*self)
    }
}


/// Entry `i` is the first whose key is `k`.
pub open spec fn first_key_at(es: Seq<(Seq<char>, JsonV)>, k: Seq<char>, i: int) -> bool {
    0 <= i < es.len() && es[i].0 == k && forall|j: int| 0 <= j < i ==> es[j].0 != k
}

pub open spec fn has_entry(es: Seq<(Seq<char>, JsonV)>, k: Seq<char>) -> bool {
    exists|i: int| first_key_at(es, k, i)
}

pub open spec fn first_index(es: Seq<(Seq<char>, JsonV)>, k: Seq<char>) -> int {
    choose|i: int| first_key_at(es, k, i)
}

/// The entries without any whose key is `k`, in their order.
pub open spec fn without_key(es: Seq<(Seq<char>, JsonV)>, k: Seq<char>) -> Seq<(Seq<char>, JsonV)>
    decreases es.len(),
{
    if es.len() == 0 {
        es
    } else {
        let rest = without_key(es.drop_last(), k);
        if es.last().0 == k {
            rest
        } else {
            rest.push(es.last())
        }
    }
}

pub proof fn lemma_without_key_absent(es: Seq<(Seq<char>, JsonV)>, k: Seq<char>)
    ensures
        forall|i: int| 0 <= i < without_key(es, k).len() ==> without_key(es, k)[i].0 != k,
    decreases es.len(),
{
    if es.len() > 0 {
        lemma_without_key_absent(es.drop_last(), k);
        let rest = without_key(es.drop_last(), k);
        if es.last().0 != k {
            assert forall|i: int| 0 <= i < rest.push(es.last()).len() implies rest.push(
                es.last(),
            )[i].0 != k by {
                if i < rest.len() {
                    assert(rest.push(es.last())[i] == rest[i]);
                }
            }
        }
    }
}

/// The model of an object's entries.
pub open spec fn entries_view(e: Seq<(String, Json)>) -> Seq<(Seq<char>, JsonV)> {
    Seq::new(e.len(), |i: int| (e[i].0@, json_view(e[i].1)))
}

pub proof fn lemma_object_view(e: Vec<(String, Json)>)
    ensures
        json_view(Json::Object(e)) == JsonV::Object(entries_view(e@)),
{
    assert(json_view(Json::Object(e))->Object_0 =~= entries_view(e@));
}

/// An entry under `k` means there is a first one.
pub proof fn lemma_first_exists(es: Seq<(Seq<char>, JsonV)>, k: Seq<char>, j: int)
    requires
        0 <= j < es.len(),
        es[j].0 == k,
    ensures
        has_entry(es, k),
    decreases j,
{
    if forall|i: int| 0 <= i < j ==> es[i].0 != k {
        assert(first_key_at(es, k, j));
    } else {
        let i = choose|i: int| 0 <= i < j && es[i].0 == k;
        lemma_first_exists(es, k, i);
    }
}

/// After `set(k, v)`, the node holds `v` under `k`.
pub proof fn lemma_set_get(o: JsonV, k: Seq<char>, v: JsonV)
    ensures
        o.set(k, v).has_key(k),
        o.set(k, v).get(k) == v,
{
    match o {
        JsonV::Object(es) => {
            if has_entry(es, k) {
                let i = first_index(es, k);
                let es2 = es.update(i, (k, v));
                assert(first_key_at(es2, k, i));
                assert(first_index(es2, k) == i);
            } else {
                let es2 = es.push((k, v));
                assert forall|j: int| 0 <= j < es.len() implies es[j].0 != k by {
                    if es[j].0 == k {
                        lemma_first_exists(es, k, j);
                    }
                }
                assert(first_key_at(es2, k, es.len() as int));
                assert(first_index(es2, k) == es.len());
            }
        },
        _ => {
            let es2 = seq![(k, v)];
            assert(first_key_at(es2, k, 0));
            assert(first_index(es2, k) == 0);
        },
    }
}

/// Setting another key leaves what an object holds under `k` as it was.
pub proof fn lemma_set_other(o: JsonV, k: Seq<char>, k2: Seq<char>, v: JsonV)
    requires
        k != k2,
        o is Object,
    ensures
        o.set(k2, v).has_key(k) == o.has_key(k),
        o.set(k2, v).get(k) == o.get(k),
{
    let es = o->Object_0;
    let es2 = o.set(k2, v)->Object_0;
    if has_entry(es, k2) {
        assert(first_key_at(es, k2, first_index(es, k2)));
        assert(es2 == es.update(first_index(es, k2), (k2, v)));
    } else {
        assert(es2 == es.push((k2, v)));
    }
    assert(es2.len() >= es.len());
    assert forall|i: int| 0 <= i < es.len() implies (#[trigger] es2[i].0 == k <==> es[i].0 == k) by {}
    assert(es2.len() > es.len() ==> es2[es.len() as int].0 == k2);
    assert forall|j: int| #[trigger] first_key_at(es2, k, j) <==> first_key_at(es, k, j) by {
        if first_key_at(es, k, j) {
            assert forall|i: int| 0 <= i < j implies es2[i].0 != k by {
                assert(es[i].0 != k);
            }
        }
        if first_key_at(es2, k, j) {
            assert(j < es.len());
            assert forall|i: int| 0 <= i < j implies es[i].0 != k by {
                assert(es2[i].0 != k);
            }
        }
    }
    if has_entry(es, k) {
        let i = first_index(es, k);
        assert(first_key_at(es2, k, i));
        assert(first_index(es2, k) == i);
    }
}

pub proof fn lemma_push_lookup(es: Seq<(Seq<char>, JsonV)>, x: (Seq<char>, JsonV), k: Seq<char>)
    ensures
        has_entry(es.push(x), k) == (has_entry(es, k) || x.0 == k),
        has_entry(es.push(x), k) ==> es.push(x)[first_index(es.push(x), k)].1 == (if has_entry(
            es,
            k,
        ) {
            es[first_index(es, k)].1
        } else {
            x.1
        }),
{
    let s2 = es.push(x);
    if has_entry(es, k) {
        let i = first_index(es, k);
        assert(first_key_at(s2, k, i));
        assert(first_index(s2, k) == i);
    } else {
        assert forall|j: int| 0 <= j < es.len() implies es[j].0 != k by {
            if es[j].0 == k {
                lemma_first_exists(es, k, j);
            }
        }
        if x.0 == k {
            assert(first_key_at(s2, k, es.len() as int));
            assert(first_index(s2, k) == es.len());
        } else {
            assert forall|j: int| !first_key_at(s2, k, j) by {
                if 0 <= j < s2.len() {
                    assert(s2[j].0 != k);
                }
            }
        }
    }
}

proof fn lemma_without_other(es: Seq<(Seq<char>, JsonV)>, k: Seq<char>, k2: Seq<char>)
    requires
        k != k2,
    ensures
        has_entry(without_key(es, k), k2) == has_entry(es, k2),
        has_entry(es, k2) ==> without_key(es, k)[first_index(without_key(es, k), k2)].1
            == es[first_index(es, k2)].1,
    decreases es.len(),
{
    if es.len() > 0 {
        let init = es.drop_last();
        let x = es.last();
        assert(es == init.push(x));
        lemma_without_other(init, k, k2);
        lemma_push_lookup(init, x, k2);
        if x.0 != k {
            lemma_push_lookup(without_key(init, k), x, k2);
        }
    } else {
        assert forall|j: int| !first_key_at(es, k2, j) by {}
    }
}

/// Removing `k` from an object leaves what it holds under any other key.
pub proof fn lemma_remove_other(o: JsonV, k: Seq<char>, k2: Seq<char>)
    requires
        k != k2,
    ensures
        o.remove(k).has_key(k2) == o.has_key(k2),
        o.remove(k).get(k2) == o.get(k2),
{
    if o is Object {
        lemma_without_other(o->Object_0, k, k2);
    }
}

/// After `remove(k)`, an object holds nothing under `k`.
pub proof fn lemma_remove_absent(o: JsonV, k: Seq<char>)
    requires
        o is Object,
    ensures
        !o.remove(k).has_key(k),
{
    lemma_without_key_absent(o->Object_0, k);
    let es2 = without_key(o->Object_0, k);
    assert(forall|j: int| !first_key_at(es2, k, j));
}

impl JsonV {
    pub open spec fn is_null(self) -> bool {
        self is Null
    }

    /// Whether the node is an object with an entry under `k`.
    pub open spec fn has_key(self, k: Seq<char>) -> bool {
        match self {
            JsonV::Object(es) => has_entry(es, k),
            _ => false,
        }
    }

    /// The value under `k`; `Null` where there is none or the node is no object.
    pub open spec fn get(self, k: Seq<char>) -> JsonV {
        match self {
            JsonV::Object(es) => if has_entry(es, k) {
                es[first_index(es, k)].1
            } else {
                JsonV::Null
            },
            _ => JsonV::Null,
        }
    }

    /// The node with `v` under `k`: the entry is replaced in place, or appended;
    /// a node that is no object becomes an object of that one entry.
    pub open spec fn set(self, k: Seq<char>, v: JsonV) -> JsonV {
        match self {
            JsonV::Object(es) => if has_entry(es, k) {
                JsonV::Object(es.update(first_index(es, k), (k, v)))
            } else {
                JsonV::Object(es.push((k, v)))
            },
            _ => JsonV::Object(seq![(k, v)]),
        }
    }

    /// `self[k1][k2] = v`, creating or replacing the inner object as needed.
    pub open spec fn set_in(self, k1: Seq<char>, k2: Seq<char>, v: JsonV) -> JsonV {
        self.set(k1, self.get(k1).set(k2, v))
    }

    /// The node without its entries under `k`.
    pub open spec fn remove(self, k: Seq<char>) -> JsonV {
        match self {
            JsonV::Object(es) => JsonV::Object(without_key(es, k)),
            _ => self,
        }
    }
}

impl Json {
    pub fn new_object() -> (r: Json)
        ensures
            r@ == JsonV::Object(Seq::empty()),
    {
        let r = Json::Object(Vec::new());
        assert(r@->Object_0 =~= Seq::empty());
        r
    }

    /// A deep copy.
    pub fn deep_clone(&self) -> (r: Json)
        ensures
            r@ == self@,
        decreases self,
    {
        match self {
            Json::Null => Json::Null,
            Json::Bool(b) => Json::Bool(*b),
            Json::Number(d) => Json::Number(*d),
            Json::Str(s) => Json::Str(s.clone()),
            Json::Array(items) => {
                let mut out: Vec<Json> = Vec::new();
                let mut i: usize = 0;
                while i < items.len()
                    invariant
                        i <= items@.len(),
                        *self == Json::Array(*items),
                        out@.len() == i,
                        forall|j: int| 0 <= j < i ==> out@[j]@ == items@[j]@,
                    decreases items@.len() - i,
                {
                    proof {
                        assert(*self == Json::Array(*items));
                        assert(decreases_to!(*self => (*self)->Array_0));
                        assert(decreases_to!(*items => items@[i as int]));
                    }
                    out.push(items[i].deep_clone());
                    i = i + 1;
                }
                let r = Json::Array(out);
                assert(r@->Array_0 =~= self@->Array_0);
                r
            },
            Json::Object(entries) => {
                let mut out: Vec<(String, Json)> = Vec::new();
                let mut i: usize = 0;
                while i < entries.len()
                    invariant
                        i <= entries@.len(),
                        *self == Json::Object(*entries),
                        out@.len() == i,
                        forall|j: int|
                            0 <= j < i ==> out@[j].0@ == entries@[j].0@ && out@[j].1@
                                == entries@[j].1@,
                    decreases entries@.len() - i,
                {
                    let k = entries[i].0.clone();
                    proof {
                        assert(*self == Json::Object(*entries));
                        assert(decreases_to!(*self => (*self)->Object_0));
                        assert(decreases_to!(*entries => entries@[i as int]));
                        assert(decreases_to!(entries@[i as int] => entries@[i as int].1));
                    }
                    let v = entries[i].1.deep_clone();
                    out.push((k, v));
                    i = i + 1;
                }
                let r = Json::Object(out);
                assert(r@->Object_0 =~= self@->Object_0);
                r
            },
        }
    }

    /// Where the node is an object holding `k`, the index of the first entry
    /// under `k`.
    pub fn find_key(&self, k: &str) -> (r: Option<usize>)
        ensures
            match r {
                Some(i) => self@ is Object && first_key_at(self@->Object_0, k@, i as int),
                None => !self@.has_key(k@),
            },
    {
        match self {
            Json::Object(entries) => {
                let mut i: usize = 0;
                while i < entries.len()
                    invariant
                        i <= entries@.len(),
                        self@ == json_view(Json::Object(*entries)),
                        forall|j: int| 0 <= j < i ==> self@->Object_0[j].0 != k@,
                    decreases entries@.len() - i,
                {
                    if str_eq(entries[i].0.as_str(), k) {
                        return Some(i);
                    }
                    i = i + 1;
                }
                None
            },
            _ => None,
        }
    }

    /// The value under `k`, if the node is an object holding `k`.
    pub fn get(&self, k: &str) -> (r: Option<&Json>)
        ensures
            match r {
                Some(v) => self@.has_key(k@) && v@ == self@.get(k@),
                None => !self@.has_key(k@) && self@.get(k@) == JsonV::Null,
            },
    {
        match self.find_key(k) {
            Some(i) => {
                match self {
                    Json::Object(entries) => {
                        assert(first_key_at(self@->Object_0, k@, first_index(self@->Object_0, k@)));
                        Some(&entries[i].1)
                    },
                    _ => None,
                }
            },
            None => None,
        }
    }

    /// Whether the node is an object holding `k`.
    pub fn has_key(&self, k: &str) -> (r: bool)
        ensures
            r == self@.has_key(k@),
    {
        self.find_key(k).is_some()
    }

    /// Whether the value under `k` is something other than `Null`.
    pub fn holds(&self, k: &str) -> (r: bool)
        ensures
            r == !self@.get(k@).is_null(),
    {
        match self.get(k) {
            Some(v) => !matches!(v, Json::Null),
            None => false,
        }
    }

    /// Puts `v` under `k`, as `JsonV::set` says.
    pub fn set(&mut self, k: &str, v: Json)
        ensures
            final(self)@ == old(self)@.set(k@, v@),
    {
        let found = self.find_key(k);
        match found {
            Some(i) => {
                if let Json::Object(entries) = self {
                    proof {
                        assert(first_key_at(old(self)@->Object_0, k@, first_index(old(self)@->Object_0, k@)));
                    }
                    entries.set(i, (k.to_string(), v));
                }
            },
            None => {
                if let Json::Object(entries) = self {
                    entries.push((k.to_string(), v));
                } else {
                    let mut entries: Vec<(String, Json)> = Vec::new();
                    entries.push((k.to_string(), v));
                    *self = Json::Object(entries);
                }
            },
        }
        assert(self@->Object_0 =~= old(self)@.set(k@, v@)->Object_0);
    }

    /// `self[k1][k2] = v`, as `JsonV::set_in` says.
    pub fn set_in(&mut self, k1: &str, k2: &str, v: Json)
        ensures
            final(self)@ == old(self)@.set_in(k1@, k2@, v@),
    {
        let mut inner = match self.get(k1) {
            Some(x) => x.deep_clone(),
            None => Json::Null,
        };
        inner.set(k2, v);
        self.set(k1, inner);
    }

    /// Takes the entries under `k` out of an object, returning the first one's
    /// value, or `Null`.
    pub fn remove(&mut self, k: &str) -> (r: Json)
        ensures
            final(self)@ == old(self)@.remove(k@),
            r@ == old(self)@.get(k@),
    {
        match self {
            Json::Object(entries) => {
                let ghost es = entries_view(entries@);
                proof {
                    lemma_object_view(*entries);
                }
                let mut taken: Option<Json> = None;
                let mut i: usize = 0;
                let ghost mut c: int = 0;
                proof {
                    assert(es.take(0) =~= Seq::<(Seq<char>, JsonV)>::empty());
                    assert(entries_view(entries@).skip(0) =~= es.skip(0));
                }
                while i < entries.len()
                    invariant
                        0 <= i <= c <= es.len(),
                        old(self)@ == JsonV::Object(es),
                        entries_view(entries@).len() == i + (es.len() - c),
                        entries_view(entries@).take(i as int) == without_key(es.take(c), k@),
                        entries_view(entries@).skip(i as int) == es.skip(c),
                        match taken {
                            None => forall|j: int| 0 <= j < c ==> es[j].0 != k@,
                            Some(t) => exists|j: int| j < c && first_key_at(es, k@, j) && t@ == es[j].1,
                        },
                    decreases entries@.len() - i,
                {
                    let ghost cur = entries_view(entries@);
                    proof {
                        assert(cur[i as int] == es[c]) by {
                            assert(cur.skip(i as int)[0] == es.skip(c)[0]);
                        }
                        assert(es.take(c + 1).drop_last() =~= es.take(c));
                    }
                    if str_eq(entries[i].0.as_str(), k) {
                        let (_, v) = entries.remove(i);
                        proof {
                            assert(entries_view(entries@) =~= cur.remove(i as int));
                            assert(entries_view(entries@).take(i as int) =~= cur.take(i as int));
                            assert forall|j: int|
                                0 <= j < es.skip(c + 1).len() implies #[trigger] entries_view(
                                entries@,
                            ).skip(i as int)[j] == es.skip(c + 1)[j] by {
                                assert(cur.skip(i as int)[j + 1] == es.skip(c)[j + 1]);
                            }
                            assert(entries_view(entries@).skip(i as int) =~= es.skip(c + 1));
                            assert(v@ == es[c].1);
                        }
                        if taken.is_none() {
                            taken = Some(v);
                            proof {
                                assert(first_key_at(es, k@, c));
                            }
                        }
                    } else {
                        proof {
                            assert(entries_view(entries@).take(i + 1) =~= cur.take(i as int).push(
                                es[c],
                            ));
                            assert forall|j: int|
                                0 <= j < es.skip(c + 1).len() implies #[trigger] entries_view(
                                entries@,
                            ).skip(i + 1)[j] == es.skip(c + 1)[j] by {
                                assert(cur.skip(i as int)[j + 1] == es.skip(c)[j + 1]);
                            }
                            assert(entries_view(entries@).skip(i + 1) =~= es.skip(c + 1));
                        }
                        i = i + 1;
                    }
                    proof {
                        c = c + 1;
                    }
                }
                proof {
                    assert(es.take(c) =~= es);
                    assert(entries_view(entries@) =~= entries_view(entries@).take(i as int));
                    lemma_object_view(*entries);
                }
                match taken {
                    Some(t) => t,
                    None => Json::Null,
                }
            },
            _ => Json::Null,
        }
    }
}

pub fn str_eq(a: &str, b: &str) -> (r: bool)
    ensures
        r == (a@ == b@),
{
    let x = a.to_string();
    let y = b.to_string();
    x == y
}

} // verus!
