//! The resolver: queries an ordered chain of value sources for each
//! placeholder key; the first source that offers a value wins, and a key
//! no source answers stays unresolved.

use vstd::prelude::*;

use crate::placeholders::Placeholders;
use crate::value_picker::ValuePicker;

verus! {

/// The value an ordered chain of sources gives a key: the first source's
/// answer that is not `None`, or `None` when every source passes.
pub open spec fn spec_chain_picks<P: ValuePicker>(pickers: Seq<P>, key: Seq<char>) -> Option<
    Seq<char>,
>
    decreases pickers.len(),
{
    if pickers.len() == 0 {
        None
    } else {
        match pickers[0].picks(key) {
            Some(v) => Some(v),
            None => spec_chain_picks(pickers.drop_first(), key),
        }
    }
}

/// Resolves placeholder keys through an ordered list of value sources.
pub struct Resolver<P: ValuePicker> {
    pub pickers: Vec<P>,
}

/// The resolved values of the placeholders: one entry per key, in index
/// order; `None` marks an unresolved key.
#[derive(Debug)]
pub struct PlaceholderValues {
    /// The placeholder keys with the value each resolved to, if any.
    pub values: Vec<(String, Option<String>)>,
}

impl View for PlaceholderValues {
    type V = Seq<(Seq<char>, Option<Seq<char>>)>;

    open spec fn view(&self) -> Seq<(Seq<char>, Option<Seq<char>>)> {
        self.values.deep_view()
    }
}

/// The value recorded for a key: the first entry's value, with an
/// unresolved entry giving nothing.
pub open spec fn spec_get_value(
    entries: Seq<(Seq<char>, Option<Seq<char>>)>,
    key: Seq<char>,
) -> Option<Seq<char>> {
    match crate::table::spec_table_get(entries, key) {
        Some(v) => v,
        None => None,
    }
}

impl<P: ValuePicker> Resolver<P> {
    /// A resolver with no sources.
    pub fn new() -> (r: Resolver<P>)
        ensures
            r.pickers@ =~= Seq::<P>::empty(),
    {
        Resolver { pickers: Vec::new() }
    }

    /// Adds a source at the end of the chain: sources are queried in the
    /// order they were added.
    pub fn add_picker(self, picker: P) -> (r: Resolver<P>)
        ensures
            r.pickers@ == self.pickers@.push(picker),
    {
        let mut pickers = self.pickers;
        pickers.push(picker);
        Resolver { pickers }
    }

    /// Resolves every key of the placeholder index: the result holds one
    /// entry per key, in index order, each carrying the chain's answer
    /// for that key. Resolution is total: no key is left without an entry.
    pub fn resolve(&self, placeholders: &Placeholders) -> (r: PlaceholderValues)
        ensures
            r@.len() == placeholders@.len(),
            forall|i: int|
                0 <= i < r@.len() ==> (#[trigger] r@[i]).0 == placeholders@[i].0 && r@[i].1
                    == spec_chain_picks(self.pickers@, placeholders@[i].0),
    {
        let keys = placeholders.keys();
        let mut out: Vec<(String, Option<String>)> = Vec::new();
        let mut i: usize = 0;
        while i < keys.len()
            invariant
                i <= keys.len(),
                keys.deep_view().len() == placeholders@.len(),
                forall|q: int|
                    0 <= q < keys.deep_view().len() ==> #[trigger] keys.deep_view()[q]
                        == placeholders@[q].0,
                out.deep_view().len() == i,
                forall|q: int|
                    0 <= q < i ==> (#[trigger] out.deep_view()[q]).0 == placeholders@[q].0
                        && out.deep_view()[q].1 == spec_chain_picks(
                        self.pickers@,
                        placeholders@[q].0,
                    ),
            decreases keys.len() - i,
        {
            let key = &keys[i];
            let val = self.pick_first(key.as_str());
            let ghost before = out.deep_view();
            let k2 = key.clone();
            out.push((k2, val));
            proof {
                assert(key@ == keys.deep_view()[i as int]);
                assert(out.deep_view() =~= before.push((key@, val.deep_view())));
            }
            i = i + 1;
        }
        PlaceholderValues { values: out }
    }

    /// Queries the sources in order for one key, stopping at the first
    /// answer.
    fn pick_first(&self, key: &str) -> (r: Option<String>)
        ensures
            r.deep_view() == spec_chain_picks(self.pickers@, key@),
    {
        let mut j: usize = 0;
        proof {
            assert(self.pickers@.skip(0) =~= self.pickers@);
        }
        while j < self.pickers.len()
            invariant
                j <= self.pickers@.len(),
                spec_chain_picks(self.pickers@, key@) == spec_chain_picks(
                    self.pickers@.skip(j as int),
                    key@,
                ),
            decreases self.pickers@.len() - j,
        {
            proof {
                assert(self.pickers@.skip(j as int).drop_first() =~= self.pickers@.skip(j + 1));
                assert(self.pickers@.skip(j as int)[0] == self.pickers@[j as int]);
            }
            match self.pickers[j].pick_for(key) {
                Some(v) => {
                    return Some(v);
                },
                None => {},
            }
            j = j + 1;
        }
        assert(self.pickers@.skip(self.pickers@.len() as int) =~= Seq::<P>::empty());
        None
    }
}

/// Precedence: when the source at position `i` offers a value for the key
/// and every source before it passes, the chain answers with exactly that
/// source's value.
pub proof fn lemma_chain_precedence<P: ValuePicker>(pickers: Seq<P>, key: Seq<char>, i: int)
    requires
        0 <= i < pickers.len(),
        pickers[i].picks(key) is Some,
        forall|j: int| 0 <= j < i ==> (#[trigger] pickers[j]).picks(key) is None,
    ensures
        spec_chain_picks(pickers, key) == pickers[i].picks(key),
    decreases i,
{
    if i > 0 {
        lemma_chain_precedence(pickers.drop_first(), key, i - 1);
        assert(forall|j: int|
            0 <= j < i - 1 ==> (#[trigger] pickers.drop_first()[j]).picks(key) is None);
    }
}

/// A key no source answers is unresolved: the chain answers nothing
/// exactly when every source passes on the key.
pub proof fn lemma_chain_unresolved<P: ValuePicker>(pickers: Seq<P>, key: Seq<char>)
    ensures
        spec_chain_picks(pickers, key) is None <==> forall|j: int|
            0 <= j < pickers.len() ==> (#[trigger] pickers[j]).picks(key) is None,
    decreases pickers.len(),
{
    if pickers.len() > 0 {
        lemma_chain_unresolved(pickers.drop_first(), key);
        if spec_chain_picks(pickers, key) is None {
            assert forall|j: int|
                0 <= j < pickers.len() implies (#[trigger] pickers[j]).picks(key) is None by {
                if j > 0 {
                    assert(pickers.drop_first()[j - 1] == pickers[j]);
                }
            }
        }
        if forall|j: int| 0 <= j < pickers.len() ==> (#[trigger] pickers[j]).picks(key) is None {
            assert(forall|j: int|
                0 <= j < pickers.drop_first().len() ==> (#[trigger] pickers.drop_first()[j]).picks(
                    key,
                ) is None);
        }
    }
}

/// The resolved pairs of an entry sequence, in order.
pub open spec fn spec_resolved(entries: Seq<(Seq<char>, Option<Seq<char>>)>) -> Seq<
    (Seq<char>, Seq<char>),
>
    decreases entries.len(),
{
    if entries.len() == 0 {
        Seq::empty()
    } else {
        let rest = spec_resolved(entries.drop_last());
        match entries.last().1 {
            Some(v) => rest.push((entries.last().0, v)),
            None => rest,
        }
    }
}

/// The unresolved keys of an entry sequence, in order.
pub open spec fn spec_unresolved(entries: Seq<(Seq<char>, Option<Seq<char>>)>) -> Seq<Seq<char>>
    decreases entries.len(),
{
    if entries.len() == 0 {
        Seq::empty()
    } else {
        let rest = spec_unresolved(entries.drop_last());
        match entries.last().1 {
            Some(_) => rest,
            None => rest.push(entries.last().0),
        }
    }
}

/// Every listed unresolved key comes from an unresolved entry.
pub proof fn lemma_unresolved_elements(entries: Seq<(Seq<char>, Option<Seq<char>>)>)
    ensures
        forall|j: int|
            0 <= j < spec_unresolved(entries).len() ==> exists|i: int|
                0 <= i < entries.len() && (#[trigger] entries[i]).0 == #[trigger] spec_unresolved(
                    entries,
                )[j] && entries[i].1 is None,
    decreases entries.len(),
{
    if entries.len() > 0 {
        lemma_unresolved_elements(entries.drop_last());
        assert forall|j: int|
            0 <= j < spec_unresolved(entries).len() implies exists|i: int|
                0 <= i < entries.len() && (#[trigger] entries[i]).0 == #[trigger] spec_unresolved(
                    entries,
                )[j] && entries[i].1 is None by {
            let prev = spec_unresolved(entries.drop_last());
            if j < prev.len() {
                let i = choose|i: int|
                    0 <= i < entries.drop_last().len() && (#[trigger] entries.drop_last()[i]).0
                        == prev[j] && entries.drop_last()[i].1 is None;
                assert(entries[i].0 == spec_unresolved(entries)[j] && entries[i].1 is None);
            } else {
                assert(entries.last().1 is None);
                assert(entries[entries.len() - 1].0 == spec_unresolved(entries)[j]
                    && entries[entries.len() - 1].1 is None);
            }
        }
    }
}

/// No key is listed unresolved exactly when every entry resolved.
pub proof fn lemma_unresolved_empty(entries: Seq<(Seq<char>, Option<Seq<char>>)>)
    ensures
        spec_unresolved(entries).len() == 0 <==> forall|i: int|
            0 <= i < entries.len() ==> (#[trigger] entries[i]).1 is Some,
    decreases entries.len(),
{
    if entries.len() > 0 {
        lemma_unresolved_empty(entries.drop_last());
        if spec_unresolved(entries).len() == 0 {
            assert forall|i: int| 0 <= i < entries.len() implies (#[trigger] entries[i]).1
                is Some by {
                if i < entries.len() - 1 {
                    assert(entries.drop_last()[i] == entries[i]);
                } else {
                    assert(entries.last() == entries[i]);
                }
            }
        }
        if forall|i: int| 0 <= i < entries.len() ==> (#[trigger] entries[i]).1 is Some {
            assert(forall|i: int|
                0 <= i < entries.drop_last().len() ==> (#[trigger] entries.drop_last()[i]).1
                    is Some);
            assert(entries.last().1 is Some);
        }
    }
}

impl PlaceholderValues {
    /// The value resolved for the key, if the key is known and resolved.
    /// A key that is unknown and one that is known but unresolved both
    /// give nothing.
    pub fn get_value(&self, k: &str) -> (r: Option<&String>)
        ensures
            match r {
                Some(v) => spec_get_value(self@, k@) == Some(v@),
                None => spec_get_value(self@, k@) is None,
            },
    {
        let mut i: usize = 0;
        proof {
            assert(self@.skip(0) =~= self@);
        }
        while i < self.values.len()
            invariant
                i <= self.values.len(),
                crate::table::spec_table_get(self@, k@) == crate::table::spec_table_get(
                    self@.skip(i as int),
                    k@,
                ),
            decreases self.values.len() - i,
        {
            proof {
                assert(self@.skip(i as int).drop_first() =~= self@.skip(i + 1));
            }
            if crate::text::str_eq(self.values[i].0.as_str(), k) {
                return match &self.values[i].1 {
                    Some(v) => Some(v),
                    None => None,
                };
            }
            i = i + 1;
        }
        proof {
            assert(self@.skip(self@.len() as int) =~= Seq::<
                (Seq<char>, Option<Seq<char>>),
            >::empty());
        }
        None
    }

    /// The keys that resolved, each with its value, in entry order.
    pub fn resolved(&self) -> (r: Vec<(String, String)>)
        ensures
            r.deep_view() == spec_resolved(self@),
    {
        let mut out: Vec<(String, String)> = Vec::new();
        let mut i: usize = 0;
        proof {
            assert(self@.take(0) =~= Seq::<(Seq<char>, Option<Seq<char>>)>::empty());
            assert(out.deep_view() =~= spec_resolved(self@.take(0)));
        }
        while i < self.values.len()
            invariant
                i <= self.values.len(),
                self@.len() == self.values@.len(),
                out.deep_view() == spec_resolved(self@.take(i as int)),
            decreases self.values.len() - i,
        {
            proof {
                assert(self@.take(i + 1).drop_last() =~= self@.take(i as int));
                assert(self@.take(i + 1).last() == self@[i as int]);
            }
            match &self.values[i].1 {
                Some(v) => {
                    let ghost before = out.deep_view();
                    let key = self.values[i].0.clone();
                    let value = v.clone();
                    out.push((key, value));
                    proof {
                        assert(out.deep_view() =~= before.push((key@, value@)));
                        assert(self@[i as int].1 == Some(value@));
                        assert(out.deep_view() =~= spec_resolved(self@.take(i + 1)));
                    }
                },
                None => {
                    proof {
                        assert(self@[i as int].1 is None);
                        assert(spec_resolved(self@.take(i + 1)) == spec_resolved(
                            self@.take(i as int),
                        ));
                    }
                },
            }
            i = i + 1;
        }
        assert(self@.take(self@.len() as int) =~= self@);
        out
    }

    /// The keys that stayed unresolved, in entry order.
    pub fn unresolved(&self) -> (r: Vec<String>)
        ensures
            r.deep_view() == spec_unresolved(self@),
    {
        let mut out: Vec<String> = Vec::new();
        let mut i: usize = 0;
        proof {
            assert(self@.take(0) =~= Seq::<(Seq<char>, Option<Seq<char>>)>::empty());
            assert(out.deep_view() =~= spec_unresolved(self@.take(0)));
        }
        while i < self.values.len()
            invariant
                i <= self.values.len(),
                self@.len() == self.values@.len(),
                out.deep_view() == spec_unresolved(self@.take(i as int)),
            decreases self.values.len() - i,
        {
            proof {
                assert(self@.take(i + 1).drop_last() =~= self@.take(i as int));
                assert(self@.take(i + 1).last() == self@[i as int]);
            }
            match &self.values[i].1 {
                None => {
                    let ghost before = out.deep_view();
                    let key = self.values[i].0.clone();
                    out.push(key);
                    proof {
                        assert(out.deep_view() =~= before.push(self@[i as int].0));
                        assert(self@[i as int].1 is None);
                        assert(out.deep_view() =~= spec_unresolved(self@.take(i + 1)));
                    }
                },
                Some(_) => {
                    proof {
                        assert(self@[i as int].1 is Some);
                        assert(spec_unresolved(self@.take(i + 1)) == spec_unresolved(
                            self@.take(i as int),
                        ));
                    }
                },
            }
            i = i + 1;
        }
        assert(self@.take(self@.len() as int) =~= self@);
        out
    }

    /// Whether every key resolved to a value.
    pub fn is_all_resolved(&self) -> (b: bool)
        ensures
            b == forall|i: int| 0 <= i < self@.len() ==> (#[trigger] self@[i]).1 is Some,
    {
        let mut i: usize = 0;
        while i < self.values.len()
            invariant
                i <= self.values.len(),
                forall|q: int| 0 <= q < i ==> (#[trigger] self@[q]).1 is Some,
            decreases self.values.len() - i,
        {
            if self.values[i].1.is_none() {
                assert(self@[i as int].1 is None);
                return false;
            }
            i = i + 1;
        }
        true
    }
}

} // verus!
