//! Free-keyed tables: ordered `(key, value)` entries under string keys, and
//! the transforms that flatten their values when a request is built.

use vstd::prelude::*;

use crate::types::spec_flatten_array;
use crate::types::spec_flatten_primitive;
use crate::types::Primitive;
use crate::types::PrimitiveArray;
use crate::types::PrimitiveArrayModel;

verus! {

/// A table with a free set of string keys, kept in a fixed entry order.
#[derive(Debug, Clone)]
pub struct Table<V> {
    pub entries: Vec<(String, V)>,
}

impl<V: DeepView> View for Table<V> {
    type V = Seq<(Seq<char>, <V as DeepView>::V)>;

    open spec fn view(&self) -> Seq<(Seq<char>, <V as DeepView>::V)> {
        self.entries.deep_view()
    }
}

impl<V: DeepView> DeepView for Table<V> {
    type V = Seq<(Seq<char>, <V as DeepView>::V)>;

    open spec fn deep_view(&self) -> Seq<(Seq<char>, <V as DeepView>::V)> {
        self.view()
    }
}

/// The value of the first entry under `key`, if the table holds one.
pub open spec fn spec_table_get<T>(entries: Seq<(Seq<char>, T)>, key: Seq<char>) -> Option<T>
    decreases entries.len(),
{
    if entries.len() == 0 {
        None
    } else if entries[0].0 == key {
        Some(entries[0].1)
    } else {
        spec_table_get(entries.drop_first(), key)
    }
}

impl<V: DeepView> Table<V> {
    /// A table holding exactly the given entries, in their order.
    pub fn new(entries: Vec<(String, V)>) -> (r: Table<V>)
        ensures
            r@ == entries.deep_view(),
    {
        Table { entries }
    }

    /// The number of entries.
    pub fn len(&self) -> (n: usize)
        ensures
            n == self@.len(),
    {
        self.entries.len()
    }

    /// The entry at the given position.
    pub fn entry_at(&self, i: usize) -> (e: &(String, V))
        requires
            i < self@.len(),
        ensures
            e.0@ == self@[i as int].0,
            e.1.deep_view() == self@[i as int].1,
    {
        &self.entries[i]
    }

    /// The value of the first entry under `key`, if any.
    pub fn get(&self, key: &str) -> (r: Option<&V>)
        ensures
            match r {
                Some(v) => spec_table_get(self@, key@) == Some(v.deep_view()),
                None => spec_table_get(self@, key@) is None,
            },
    {
        let mut i: usize = 0;
        proof {
            assert(self@.skip(0) =~= self@);
        }
        while i < self.entries.len()
            invariant
                i <= self.entries.len(),
                spec_table_get(self@, key@) == spec_table_get(self@.skip(i as int), key@),
            decreases self.entries.len() - i,
        {
            proof {
                assert(self@.skip(i as int).drop_first() =~= self@.skip(i + 1));
            }
            if crate::text::str_eq(self.entries[i].0.as_str(), key) {
                return Some(&self.entries[i].1);
            }
            i = i + 1;
        }
        assert(self@.skip(self@.len() as int) =~= Seq::<(Seq<char>, <V as DeepView>::V)>::empty());
        None
    }

    pub(crate) fn entries_vec(&self) -> (r: &Vec<(String, V)>)
        ensures
            r.deep_view() == self@,
    {
        &self.entries
    }

    pub(crate) fn set_value_at(&mut self, i: usize, v: V)
        requires
            i < old(self)@.len(),
        ensures
            final(self)@ == old(self)@.update(i as int, (old(self)@[i as int].0, v.deep_view())),
    {
        let key = self.entries[i].0.clone();
        self.entries[i] = (key, v);
        proof {
            assert(final(self)@ =~= old(self)@.update(
                i as int,
                (old(self)@[i as int].0, v.deep_view()),
            ));
        }
    }
}

/// The flattened form of a table of scalar-or-array values: every value
/// collapsed to its deterministic string form, keys and order kept.
pub open spec fn spec_flatten_table(entries: Seq<(Seq<char>, PrimitiveArrayModel)>) -> Seq<
    (Seq<char>, Seq<char>),
> {
    entries.map_values(
        |e: (Seq<char>, PrimitiveArrayModel)| (e.0, spec_flatten_array(e.1)),
    )
}

/// The expansion of a table of scalar-or-array values into ordered pairs: a
/// single scalar gives one pair, an array of n scalars gives n consecutive
/// pairs sharing the key.
pub open spec fn spec_into_pairs(entries: Seq<(Seq<char>, PrimitiveArrayModel)>) -> Seq<
    (Seq<char>, Seq<char>),
>
    decreases entries.len(),
{
    if entries.len() == 0 {
        Seq::empty()
    } else {
        spec_entry_pairs(entries[0]) + spec_into_pairs(entries.drop_first())
    }
}

/// The ordered pairs one table entry expands to.
pub open spec fn spec_entry_pairs(entry: (Seq<char>, PrimitiveArrayModel)) -> Seq<
    (Seq<char>, Seq<char>),
> {
    match entry.1 {
        PrimitiveArrayModel::Single(p) => seq![(entry.0, spec_flatten_primitive(p))],
        PrimitiveArrayModel::Multiple(ps) => ps.map_values(
            |p: crate::types::PrimitiveModel| (entry.0, spec_flatten_primitive(p)),
        ),
    }
}

/// A transform of table values, carrying the mathematical description of
/// what each value becomes.
pub trait Transform<V: DeepView, O: DeepView> {
    /// What a value becomes under this transform.
    spec fn spec_value(v: <V as DeepView>::V) -> <O as DeepView>::V;

    /// Transforms one value.
    fn map_value(value: V) -> (r: O)
        ensures
            r.deep_view() == Self::spec_value(value.deep_view()),
    ;
}

impl Transform<PrimitiveArray, String> for Table<PrimitiveArray> {
    open spec fn spec_value(v: PrimitiveArrayModel) -> Seq<char> {
        spec_flatten_array(v)
    }

    fn map_value(value: PrimitiveArray) -> (r: String)
        ensures
            r.deep_view() == Self::spec_value(value.deep_view()),
    {
        value.flatten()
    }
}

impl Table<PrimitiveArray> {
    /// Collapses every value to its flattened string form, keeping keys and
    /// order.
    pub fn into_map(self) -> (r: Table<String>)
        ensures
            r@ == spec_flatten_table(self@),
    {
        let mut out: Vec<(String, String)> = Vec::new();
        let mut i: usize = 0;
        let n = self.entries.len();
        while i < n
            invariant
                i <= n,
                n == self@.len(),
                out.deep_view() =~= spec_flatten_table(self@.take(i as int)),
            decreases n - i,
        {
            let ghost before = out.deep_view();
            let key = self.entries[i].0.clone();
            let val = Self::map_value(self.entries[i].1.clone());
            out.push((key, val));
            proof {
                assert(out.deep_view() =~= before.push((key@, val@)));
                assert(self@.take(i + 1) =~= self@.take(i as int).push(self@[i as int]));
                assert(out.deep_view() =~= spec_flatten_table(self@.take(i + 1)));
            }
            i = i + 1;
        }
        assert(self@.take(n as int) =~= self@);
        Table::new(out)
    }

    /// Expands the table into ordered pairs: one pair per scalar, arrays
    /// giving consecutive pairs that share the key.
    pub fn into_pairs(self) -> (r: Vec<(String, String)>)
        ensures
            r.deep_view() == spec_into_pairs(self@),
    {
        let mut out: Vec<(String, String)> = Vec::new();
        let mut i: usize = 0;
        let n = self.entries.len();
        proof {
            lemma_into_pairs_take(self@, 0);
            assert(out.deep_view() =~= spec_into_pairs(self@.take(0)));
        }
        while i < n
            invariant
                i <= n,
                n == self@.len(),
                out.deep_view() =~= spec_into_pairs(self@.take(i as int)),
            decreases n - i,
        {
            let ghost before = out.deep_view();
            let key = &self.entries[i].0;
            match &self.entries[i].1 {
                PrimitiveArray::Single(p) => {
                    let val = p.flatten();
                    let k2 = key.clone();
                    out.push((k2, val));
                    proof {
                        assert(out.deep_view() =~= before.push((key@, val@)));
                        assert(out.deep_view() =~= before + spec_entry_pairs(self@[i as int]));
                    }
                },
                PrimitiveArray::Multiple(ps) => {
                    let ghost pairs = spec_entry_pairs(self@[i as int]);
                    proof {
                        assert(ps.deep_view() =~= ps@.map_values(|p: Primitive| p@));
                        assert(before + pairs.take(0) =~= before);
                    }
                    let mut j: usize = 0;
                    while j < ps.len()
                        invariant
                            j <= ps.len(),
                            pairs == spec_entry_pairs(self@[i as int]),
                            i < n == self@.len(),
                            self@[i as int].1 == PrimitiveArrayModel::Multiple(
                                ps.deep_view(),
                            ),
                            self@[i as int].0 == self.entries@[i as int].0@,
                            ps.deep_view().len() == ps@.len(),
                            out.deep_view() =~= before + pairs.take(j as int),
                        decreases ps.len() - j,
                    {
                        let ghost mid = out.deep_view();
                        let val = ps[j].flatten();
                        let k2 = key.clone();
                        out.push((k2, val));
                        proof {
                            assert(out.deep_view() =~= mid.push((key@, val@)));
                            assert(pairs[j as int] == (
                                self@[i as int].0,
                                spec_flatten_primitive(ps.deep_view()[j as int]),
                            ));
                            assert(pairs.take(j + 1) =~= pairs.take(j as int).push(
                                pairs[j as int],
                            ));
                            assert(out.deep_view() =~= before + pairs.take(j + 1));
                        }
                        j = j + 1;
                    }
                    proof {
                        assert(pairs.take(pairs.len() as int) =~= pairs);
                    }
                },
            }
            proof {
                lemma_into_pairs_take(self@, i + 1);
                assert(self@.take(i + 1).drop_last() =~= self@.take(i as int));
                assert(self@.take(i + 1).last() == self@[i as int]);
                assert(out.deep_view() =~= spec_into_pairs(self@.take(i + 1)));
            }
            i = i + 1;
        }
        assert(self@.take(n as int) =~= self@);
        out
    }
}

/// Expansion over a prefix extends entry by entry.
proof fn lemma_into_pairs_take(entries: Seq<(Seq<char>, PrimitiveArrayModel)>, i: int)
    requires
        0 <= i <= entries.len(),
    ensures
        spec_into_pairs(entries.take(i)) == if i == 0 {
            Seq::<(Seq<char>, Seq<char>)>::empty()
        } else {
            spec_into_pairs(entries.take(i - 1)) + spec_entry_pairs(entries[i - 1])
        },
    decreases i,
{
    if i > 0 {
        lemma_into_pairs_append(entries.take(i));
        assert(entries.take(i).drop_last() =~= entries.take(i - 1));
    }
}

/// Expansion of a non-empty sequence splits at its last entry.
proof fn lemma_into_pairs_append(entries: Seq<(Seq<char>, PrimitiveArrayModel)>)
    requires
        entries.len() > 0,
    ensures
        spec_into_pairs(entries) == spec_into_pairs(entries.drop_last()) + spec_entry_pairs(
            entries.last(),
        ),
    decreases entries.len(),
{
    if entries.len() == 1 {
        assert(entries.drop_last().len() == 0);
        assert(spec_into_pairs(entries) == spec_entry_pairs(entries[0]) + spec_into_pairs(
            entries.drop_first(),
        ));
        assert(entries.drop_first().len() == 0);
        assert(spec_entry_pairs(entries[0]) + Seq::<(Seq<char>, Seq<char>)>::empty()
            =~= spec_entry_pairs(entries[0]));
        assert(Seq::<(Seq<char>, Seq<char>)>::empty() + spec_entry_pairs(entries[0])
            =~= spec_entry_pairs(entries[0]));
    } else {
        lemma_into_pairs_append(entries.drop_first());
        assert(entries.drop_first().drop_last() =~= entries.drop_last().drop_first());
        assert(entries.drop_first().last() == entries.last());
        assert(entries.drop_last()[0] == entries[0]);
        assert(spec_into_pairs(entries.drop_last()) == spec_entry_pairs(entries[0])
            + spec_into_pairs(entries.drop_last().drop_first()));
        assert((spec_entry_pairs(entries[0]) + spec_into_pairs(entries.drop_last().drop_first()))
            + spec_entry_pairs(entries.last()) =~= spec_entry_pairs(entries[0]) + (spec_into_pairs(
            entries.drop_last().drop_first(),
        ) + spec_entry_pairs(entries.last())));
    }
}

} // verus!
