//! A table from names to values, kept in the order of the names.

use crate::names::{increasing, name_lt, rank_names};
use crate::order::{lemma_lex_lt_irreflexive, lemma_lex_lt_transitive, Rank};
use crate::text::copy_words;
use vstd::prelude::*;
use vstd::utf8::encode_utf8;

verus! {

/// A table from names to values. Each name occurs once; registering under a name that is
/// present replaces what stood there. The names are held in increasing order.
pub struct Registry<S> {
    names: Vec<String>,
    values: Vec<S>,
}

/// In an increasing sequence a name stands at one position only.
pub proof fn lemma_increasing_distinct(names: Seq<Seq<char>>, i: int, j: int)
    requires
        increasing(names),
        0 <= i < names.len(),
        0 <= j < names.len(),
        names[i] == names[j],
    ensures
        i == j,
{
    lemma_lex_lt_irreflexive(encode_utf8(names[i]));
}

/// Where a name stands in an increasing sequence, that is the position `index_of` gives.
pub proof fn lemma_increasing_index_of(names: Seq<Seq<char>>, i: int)
    requires
        increasing(names),
        0 <= i < names.len(),
    ensures
        names.contains(names[i]),
        names.index_of(names[i]) == i,
{
    let j = names.index_of(names[i]);
    lemma_increasing_distinct(names, i, j);
}

/// A name that falls strictly between two neighbours of an increasing sequence, or before
/// its first, or after its last, does not occur in it.
pub proof fn lemma_gap_absent(names: Seq<Seq<char>>, name: Seq<char>, at: int)
    requires
        increasing(names),
        0 <= at <= names.len(),
        forall|j: int| 0 <= j < at ==> name_lt(#[trigger] names[j], name),
        forall|j: int| at <= j < names.len() ==> name_lt(name, #[trigger] names[j]),
    ensures
        !names.contains(name),
{
    if names.contains(name) {
        let j = names.index_of(name);
        lemma_lex_lt_irreflexive(encode_utf8(name));
    }
}

/// The last writer wins: of two registrations under one name the second alone counts, and
/// no other name is touched by either.
pub proof fn lemma_last_writer_wins<S>(
    table: Map<Seq<char>, S>,
    name: Seq<char>,
    first: S,
    second: S,
)
    ensures
        table.insert(name, first).insert(name, second) == table.insert(name, second),
        table.insert(name, second)[name] == second,
        forall|other: Seq<char>|
            other != name && table.dom().contains(other) ==> #[trigger] table.insert(
                name,
                second,
            )[other] == table[other],
{
    assert(table.insert(name, first).insert(name, second) =~= table.insert(name, second));
}

impl<S> View for Registry<S> {
    type V = Map<Seq<char>, S>;

    /// The table as a map from each name to its value.
    open spec fn view(&self) -> Map<Seq<char>, S> {
        Map::new(
            |name: Seq<char>| self.names().contains(name),
            |name: Seq<char>| self.values()[self.names().index_of(name)],
        )
    }
}

impl<S: Clone> Clone for Registry<S> {
    /// A table with the same names, each with a clone of its value.
    fn clone(&self) -> (r: Self)
        ensures
            r.names() == self.names(),
            r.values().len() == self.values().len(),
            forall|i: int|
                #![all_triggers]
                0 <= i < self.values().len() ==> cloned::<S>(self.values()[i], r.values()[i]),
    {
        Registry { names: self.name_list(), values: self.values.clone() }
    }
}

impl Registry<Vec<String>> {
    /// A table with the same names, each with a copy of its list of words.
    pub fn copy(&self) -> (r: Self)
        ensures
            r.names() == self.names(),
            r.values().len() == self.values().len(),
            forall|i: int|
                0 <= i < self.values().len() ==> (#[trigger] r.values()[i]).deep_view()
                    == self.values()[i].deep_view(),
    {
        let mut values: Vec<Vec<String>> = Vec::new();
        let mut i: usize = 0;
        while i < self.values.len()
            invariant
                i <= self.values.len(),
                values.len() == i,
                forall|j: int|
                    0 <= j < i ==> (#[trigger] values@[j]).deep_view()
                        == self.values@[j].deep_view(),
            decreases self.values.len() - i,
        {
            values.push(copy_words(&self.values[i]));
            i += 1;
        }
        Registry { names: self.name_list(), values }
    }
}

impl<S> Registry<S> {
    /// The names, in the order in which they are held.
    pub closed spec fn names(&self) -> Seq<Seq<char>> {
        self.names.deep_view()
    }

    /// The values, each at the position of its name.
    pub closed spec fn values(&self) -> Seq<S> {
        self.values@
    }

    /// Every name has its value, and the names increase strictly.
    pub open spec fn wf(&self) -> bool {
        &&& self.names().len() == self.values().len()
        &&& increasing(self.names())
    }

    /// The empty table.
    pub fn new() -> (r: Self)
        ensures
            r.wf(),
            r.names() == Seq::<Seq<char>>::empty(),
            r@ == Map::<Seq<char>, S>::empty(),
    {
        let r = Registry { names: Vec::new(), values: Vec::new() };
        assert(r.names() =~= Seq::<Seq<char>>::empty());
        assert(r@ =~= Map::<Seq<char>, S>::empty());
        r
    }

    /// The number of names.
    pub fn len(&self) -> (n: usize)
        requires
            self.wf(),
        ensures
            n == self.names().len(),
            n == self@.dom().len(),
            self@.dom().finite(),
    {
        proof {
            self.lemma_dom();
        }
        self.names.len()
    }

    /// The domain of the table is the set of the names it holds, one position each.
    pub proof fn lemma_dom(&self)
        requires
            self.wf(),
        ensures
            self@.dom() == self.names().to_set(),
            self@.dom().finite(),
            self@.dom().len() == self.names().len(),
    {
        assert(self@.dom() =~= self.names().to_set());
        assert(self.names().no_duplicates()) by {
            assert forall|i: int, j: int|
                0 <= i < self.names().len() && 0 <= j < self.names().len() && i != j implies self.names()[i]
                != self.names()[j] by {
                if self.names()[i] == self.names()[j] {
                    lemma_increasing_distinct(self.names(), i, j);
                }
            }
        }
        self.names().unique_seq_to_set();
    }

    /// The position at which `name` stands, or at which it would have to be put.
    fn locate(&self, name: &str) -> (r: (usize, bool))
        requires
            self.wf(),
        ensures
            r.0 <= self.names().len(),
            forall|j: int| 0 <= j < r.0 ==> name_lt(#[trigger] self.names()[j], name@),
            r.1 ==> r.0 < self.names().len() && self.names()[r.0 as int] == name@,
            !r.1 ==> forall|j: int|
                r.0 <= j < self.names().len() ==> name_lt(name@, #[trigger] self.names()[j]),
            r.1 == self.names().contains(name@),
    {
        let ghost names = self.names();
        let mut lo: usize = 0;
        let mut hi: usize = self.names.len();
        while lo < hi
            invariant
                self.wf(),
                names == self.names(),
                lo <= hi <= names.len(),
                forall|j: int| 0 <= j < lo ==> name_lt(#[trigger] names[j], name@),
                forall|j: int| hi <= j < names.len() ==> name_lt(name@, #[trigger] names[j]),
            decreases hi - lo,
        {
            let mid = lo + (hi - lo) / 2;
            match rank_names(self.names[mid].as_str(), name) {
                Rank::Same => {
                    assert(names[mid as int] == name@);
                    assert forall|j: int| 0 <= j < mid implies name_lt(
                        #[trigger] names[j],
                        name@,
                    ) by {
                        assert(name_lt(names[j], names[mid as int]));
                    }
                    return (mid, true);
                },
                Rank::Before => {
                    assert forall|j: int| 0 <= j < mid + 1 implies name_lt(
                        #[trigger] names[j],
                        name@,
                    ) by {
                        if j < mid {
                            lemma_lex_lt_transitive(
                                encode_utf8(names[j]),
                                encode_utf8(names[mid as int]),
                                encode_utf8(name@),
                            );
                        }
                    }
                    lo = mid + 1;
                },
                Rank::After => {
                    assert forall|j: int| mid <= j < names.len() implies name_lt(
                        name@,
                        #[trigger] names[j],
                    ) by {
                        if j > mid {
                            lemma_lex_lt_transitive(
                                encode_utf8(name@),
                                encode_utf8(names[mid as int]),
                                encode_utf8(names[j]),
                            );
                        }
                    }
                    hi = mid;
                },
            }
        }
        proof {
            lemma_gap_absent(names, name@, lo as int);
        }
        (lo, false)
    }

    /// Whether `name` is in the table.
    pub fn contains(&self, name: &str) -> (b: bool)
        requires
            self.wf(),
        ensures
            b == self@.dom().contains(name@),
    {
        self.locate(name).1
    }

    /// The value registered under `name`, if there is one. The match is exact.
    pub fn lookup(&self, name: &str) -> (r: Option<&S>)
        requires
            self.wf(),
        ensures
            r is Some <==> self@.dom().contains(name@),
            r is Some ==> *r->Some_0 == self@[name@],
    {
        let (at, found) = self.locate(name);
        if found {
            proof {
                lemma_increasing_index_of(self.names(), at as int);
            }
            Some(&self.values[at])
        } else {
            None
        }
    }

    /// Registers `value` under `name`. Where the name was present, its old value is replaced
    /// and handed back; the other names keep their values.
    pub fn register(&mut self, name: &str, value: S) -> (replaced: Option<S>)
        requires
            old(self).wf(),
        ensures
            final(self).wf(),
            final(self)@ == old(self)@.insert(name@, value),
            replaced == if old(self)@.dom().contains(name@) {
                Some(old(self)@[name@])
            } else {
                None::<S>
            },
            old(self)@.dom().contains(name@) ==> final(self).names() == old(self).names(),
            !old(self)@.dom().contains(name@) ==> exists|at: int|
                0 <= at <= old(self).names().len() && final(self).names() == #[trigger] old(
                    self,
                ).names().insert(at, name@),
    {
        let ghost names = self.names();
        let ghost values = self.values();
        let ghost before = self@;
        let (at, found) = self.locate(name);
        if found {
            proof {
                lemma_increasing_index_of(names, at as int);
            }
            self.values.push(value);
            let replaced = self.values.swap_remove(at);
            proof {
                assert(self.names() == names);
                assert(self.values() =~= values.update(at as int, value));
                assert(self@ =~= before.insert(name@, value)) by {
                    assert forall|k: Seq<char>| names.contains(k) implies #[trigger] self@[k]
                        == before.insert(name@, value)[k] by {
                        let i = names.index_of(k);
                        if k == name@ {
                        } else {
                            assert(i != at);
                        }
                    }
                }
            }
            Some(replaced)
        } else {
            let owned = name.to_owned();
            let ghost old_vec = self.names@;
            self.names.insert(at, owned);
            self.values.insert(at, value);
            proof {
                let after = self.names();
                assert(after =~= names.insert(at as int, name@)) by {
                    assert(self.names@ =~= old_vec.insert(at as int, owned));
                    assert forall|i: int| 0 <= i < after.len() implies after[i] == names.insert(
                        at as int,
                        name@,
                    )[i] by {
                        if i < at {
                            assert(self.names@[i] == old_vec[i]);
                        } else if i > at {
                            assert(self.names@[i] == old_vec[i - 1]);
                        }
                    }
                }
                assert(increasing(after)) by {
                    assert forall|i: int, j: int| 0 <= i < j < after.len() implies name_lt(
                        #[trigger] after[i],
                        #[trigger] after[j],
                    ) by {
                        let oi = if i < at { i } else { i - 1 };
                        let oj = if j < at { j } else { j - 1 };
                        if i == at {
                            assert(after[j] == names[oj]);
                        } else if j == at {
                            assert(after[i] == names[oi]);
                        } else {
                            assert(after[i] == names[oi]);
                            assert(after[j] == names[oj]);
                        }
                    }
                }
                assert(self@ =~= before.insert(name@, value)) by {
                    assert forall|k: Seq<char>| after.contains(k) <==> (names.contains(k) || k
                        == name@) by {
                        if after.contains(k) {
                            let i = after.index_of(k);
                            if i < at {
                                assert(names[i] == k);
                            } else if i > at {
                                assert(names[i - 1] == k);
                            }
                        }
                        if names.contains(k) {
                            let i = names.index_of(k);
                            if i < at {
                                assert(after[i] == k);
                            } else {
                                assert(after[i + 1] == k);
                            }
                        }
                        if k == name@ {
                            assert(after[at as int] == k);
                        }
                    }
                    assert forall|k: Seq<char>| after.contains(k) implies #[trigger] self@[k]
                        == before.insert(name@, value)[k] by {
                        if k == name@ {
                            lemma_increasing_index_of(after, at as int);
                        } else {
                            let i = names.index_of(k);
                            let ni = if i < at { i } else { i + 1 };
                            assert(after[ni] == k);
                            lemma_increasing_index_of(after, ni);
                        }
                    }
                }
            }
            None
        }
    }

    /// The name at a position of the increasing order.
    pub fn name_at(&self, i: usize) -> (name: &String)
        requires
            i < self.names().len(),
        ensures
            name@ == self.names()[i as int],
    {
        &self.names[i]
    }

    /// The value at a position of the increasing order of the names.
    pub fn value_at(&self, i: usize) -> (value: &S)
        requires
            self.wf(),
            i < self.names().len(),
        ensures
            *value == self@[self.names()[i as int]],
    {
        proof {
            lemma_increasing_index_of(self.names(), i as int);
        }
        &self.values[i]
    }

    /// All names, in increasing order.
    pub fn name_list(&self) -> (r: Vec<String>)
        ensures
            r.deep_view() == self.names(),
    {
        let mut out: Vec<String> = Vec::new();
        let mut i: usize = 0;
        while i < self.names.len()
            invariant
                i <= self.names.len(),
                out.deep_view() =~= self.names().take(i as int),
            decreases self.names.len() - i,
        {
            let ghost done = out.deep_view();
            out.push(self.names[i].clone());
            assert(out.deep_view() =~= done.push(self.names()[i as int]));
            i += 1;
        }
        assert(self.names().take(i as int) =~= self.names());
        out
    }
}

} // verus!
