//! A table from names to values.

use crate::types::{MalType, Value};
use vstd::prelude::*;

verus! {

/// One name with the value bound to it.
#[derive(Debug)]
pub struct Binding {
    pub key: String,
    pub value: MalType,
}

/// What the entries bind the name `k` to: the value of the last entry
/// under that name.
pub open spec fn lookup(entries: Seq<Binding>, k: Seq<char>) -> Option<Value>
    decreases entries.len(),
{
    if entries.len() == 0 {
        None
    } else if entries.last().key@ == k {
        Some(entries.last().value@)
    } else {
        lookup(entries.drop_last(), k)
    }
}

/// The map that a sequence of entries stands for.
pub open spec fn table_of(entries: Seq<Binding>) -> Map<Seq<char>, Value> {
    Map::new(|k: Seq<char>| lookup(entries, k) is Some, |k: Seq<char>| lookup(entries, k)->0)
}

/// Past the last entry under a name, the rest of the entries decide nothing.
proof fn lemma_lookup_at(entries: Seq<Binding>, k: Seq<char>, i: int)
    requires
        0 <= i < entries.len(),
        entries[i].key@ == k,
        forall|j: int| i < j < entries.len() ==> entries[j].key@ != k,
    ensures
        lookup(entries, k) == Some(entries[i].value@),
    decreases entries.len(),
{
    if i < entries.len() - 1 {
        lemma_lookup_at(entries.drop_last(), k, i);
    }
}

proof fn lemma_lookup_none(entries: Seq<Binding>, k: Seq<char>)
    requires
        forall|j: int| 0 <= j < entries.len() ==> entries[j].key@ != k,
    ensures
        lookup(entries, k) is None,
    decreases entries.len(),
{
    if entries.len() > 0 {
        lemma_lookup_none(entries.drop_last(), k);
    }
}

/// Entries that agree on their names, and on their values but at `i`,
/// bind every name but that of entry `i` alike.
proof fn lemma_lookup_other(a: Seq<Binding>, b: Seq<Binding>, i: int, name: Seq<char>)
    requires
        a.len() == b.len(),
        0 <= i < a.len(),
        forall|j: int| 0 <= j < a.len() ==> a[j].key@ == b[j].key@,
        forall|j: int| 0 <= j < a.len() && j != i ==> a[j].value@ == b[j].value@,
        name != a[i].key@,
    ensures
        lookup(a, name) == lookup(b, name),
    decreases a.len(),
{
    if a.len() - 1 > i {
        lemma_lookup_other(a.drop_last(), b.drop_last(), i, name);
    } else if a.len() > 1 {
        lemma_lookup_same(a.drop_last(), b.drop_last(), name);
    }
}

proof fn lemma_lookup_same(a: Seq<Binding>, b: Seq<Binding>, name: Seq<char>)
    requires
        a.len() == b.len(),
        forall|j: int| 0 <= j < a.len() ==> a[j].key@ == b[j].key@ && a[j].value@ == b[j].value@,
    ensures
        lookup(a, name) == lookup(b, name),
    decreases a.len(),
{
    if a.len() > 0 {
        lemma_lookup_same(a.drop_last(), b.drop_last(), name);
    }
}

/// A table from names to values.
#[derive(Debug)]
pub struct Expressions {
    expressions: Vec<Binding>,
}

impl View for Expressions {
    type V = Map<Seq<char>, Value>;

    closed spec fn view(&self) -> Map<Seq<char>, Value> {
        table_of(self.expressions@)
    }
}

impl Expressions {
    /// The table that binds nothing.
    pub fn new() -> (r: Self)
        ensures
            r@ == Map::<Seq<char>, Value>::empty(),
    {
        let r = Self { expressions: Vec::new() };
        assert(r@ =~= Map::<Seq<char>, Value>::empty());
        r
    }

    /// The table that binds the names of the built-in library, and no other.
    pub fn new_default() -> (r: Self)
        ensures
            r@ == crate::library::with_library(Map::empty()),
    {
        let mut s = Self::new();
        crate::library::add_functions(&mut s);
        s
    }

    /// The last entry under the name `k`.
    fn find(&self, k: &String) -> (r: Option<usize>)
        ensures
            match r {
                Some(i) => i < self.expressions.len() && self.expressions@[i as int].key@ == k@
                    && lookup(self.expressions@, k@) == Some(self.expressions@[i as int].value@)
                    && forall|j: int|
                    i < j < self.expressions.len() ==> self.expressions@[j].key@ != k@,
                None => lookup(self.expressions@, k@) is None,
            },
    {
        let mut i: usize = self.expressions.len();
        while i > 0
            invariant
                i <= self.expressions.len(),
                forall|j: int| i <= j < self.expressions.len() ==> self.expressions@[j].key@ != k@,
            decreases i,
        {
            i -= 1;
            if self.expressions[i].key == *k {
                proof {
                    lemma_lookup_at(self.expressions@, k@, i as int);
                }
                return Some(i);
            }
        }
        proof {
            lemma_lookup_none(self.expressions@, k@);
        }
        None
    }

    /// Binds `k` to `v`, in place of what `k` was bound to before.
    pub fn set(&mut self, k: String, v: MalType)
        ensures
            final(self)@ == old(self)@.insert(k@, v@),
    {
        let ghost before = self.expressions@;
        match self.find(&k) {
            Some(i) => {
                self.expressions[i].value = v;
                let ghost after = self.expressions@;
                assert forall|name: Seq<char>| lookup(after, name) == (if name == k@ {
                    Some(v@)
                } else {
                    lookup(before, name)
                }) by {
                    if name == k@ {
                        lemma_lookup_at(after, k@, i as int);
                    } else {
                        lemma_lookup_other(after, before, i as int, name);
                    }
                }
                assert(self@ =~= old(self)@.insert(k@, v@));
            },
            None => {
                self.expressions.push(Binding { key: k, value: v });
                assert(self.expressions@.drop_last() == before);
                assert(self@ =~= old(self)@.insert(k@, v@));
            },
        }
    }

    /// The value that `k` is bound to, if it is bound.
    pub fn get(&self, k: &str) -> (r: Option<&MalType>)
        ensures
            match r {
                Some(v) => self@.contains_key(k@) && v@ == self@[k@],
                None => !self@.contains_key(k@),
            },
    {
        let name = String::from_str(k);
        match self.find(&name) {
            Some(i) => Some(&self.expressions[i].value),
            None => None,
        }
    }
}

} // verus!
