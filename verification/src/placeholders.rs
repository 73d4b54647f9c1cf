//! The placeholder scanner: finds every `{{key}}` token in the
//! substitutable fields of a request and indexes the keys by the location
//! where each occurs.

use vstd::prelude::*;

use crate::text::has_substring;
use crate::text::matches_at;
use crate::text::str_chars;
use crate::text::string_of_chars;

verus! {

/// A character allowed inside a placeholder key: an ASCII letter or digit,
/// underscore, dot or hyphen.
pub open spec fn spec_key_char(c: char) -> bool {
    (65 <= c as u32 <= 90) || (97 <= c as u32 <= 122) || (48 <= c as u32 <= 57) || c == '_' || c
        == '.' || c == '-'
}

/// A well-formed placeholder key: key characters only, possibly empty.
pub open spec fn spec_is_key(k: Seq<char>) -> bool {
    forall|i: int| 0 <= i < k.len() ==> spec_key_char(#[trigger] k[i])
}

/// The literal token text of a key.
pub open spec fn spec_token(k: Seq<char>) -> Seq<char> {
    seq!['{', '{'] + k + seq!['}', '}']
}

/// The text holds the token of `k` starting at position `p`.
pub open spec fn spec_token_at(s: Seq<char>, p: int, k: Seq<char>) -> bool {
    spec_is_key(k) && matches_at(s, spec_token(k), p)
}

/// The text holds the token of the well-formed key `k` somewhere.
pub open spec fn spec_has_token(s: Seq<char>, k: Seq<char>) -> bool {
    spec_is_key(k) && has_substring(s, spec_token(k))
}

/// Whether `c` may stand inside a placeholder key.
pub fn is_key_char(c: char) -> (b: bool)
    ensures
        b == spec_key_char(c),
{
    let u = c as u32;
    (65 <= u && u <= 90) || (97 <= u && u <= 122) || (48 <= u && u <= 57) || c == '_' || c == '.'
        || c == '-'
}

/// A token occurrence is pinned down by its characters.
proof fn lemma_token_chars(s: Seq<char>, p: int, k: Seq<char>)
    requires
        spec_token_at(s, p, k),
    ensures
        0 <= p,
        p + k.len() + 4 <= s.len(),
        s[p] == '{',
        s[p + 1] == '{',
        forall|q: int| 0 <= q < k.len() ==> #[trigger] k[q] == s[p + 2 + q] && spec_key_char(k[q]),
        s[p + 2 + k.len()] == '}',
        s[p + 3 + k.len()] == '}',
{
    let t = spec_token(k);
    assert(s.subrange(p, p + t.len() as int) == t);
    assert(forall|q: int|
        0 <= q < t.len() ==> #[trigger] t[q] == s.subrange(p, p + t.len() as int)[q]);
    assert(t[0] == '{');
    assert(t[1] == '{');
    assert(forall|q: int| 0 <= q < k.len() ==> #[trigger] k[q] == t[q + 2]);
    assert(t[2 + k.len() as int] == '}');
    assert(t[3 + k.len() as int] == '}');
}

/// Conversely, the characters of a token occurrence make it one.
proof fn lemma_chars_token(s: Seq<char>, p: int, k: Seq<char>)
    requires
        0 <= p,
        p + k.len() + 4 <= s.len(),
        s[p] == '{',
        s[p + 1] == '{',
        forall|q: int| 0 <= q < k.len() ==> #[trigger] k[q] == s[p + 2 + q] && spec_key_char(k[q]),
        s[p + 2 + k.len()] == '}',
        s[p + 3 + k.len()] == '}',
    ensures
        spec_token_at(s, p, k),
{
    let t = spec_token(k);
    assert(s.subrange(p, p + t.len() as int) =~= t);
}

/// Finds every placeholder key in the text, in scan order, one entry per
/// occurrence: exactly the well-formed keys whose token the text holds.
pub fn find_placeholders(haystack: &str) -> (keys: Vec<String>)
    ensures
        forall|j: int|
            0 <= j < keys.deep_view().len() ==> spec_has_token(
                haystack@,
                #[trigger] keys.deep_view()[j],
            ),
        forall|k: Seq<char>| spec_has_token(haystack@, k) ==> keys.deep_view().contains(k),
{
    let s = str_chars(haystack);
    let n = s.len();
    let mut keys: Vec<String> = Vec::new();
    let mut i: usize = 0;
    while i < n
        invariant
            i <= n,
            n == s@.len(),
            s@ == haystack@,
            forall|j: int|
                0 <= j < keys.deep_view().len() ==> spec_has_token(
                    haystack@,
                    #[trigger] keys.deep_view()[j],
                ),
            forall|p: int, k: Seq<char>|
                p < i && #[trigger] spec_token_at(haystack@, p, k) ==> keys.deep_view().contains(
                    k,
                ),
        decreases n - i,
    {
        if !(s[i] == '{' && i + 1 < n && s[i + 1] == '{') {
            proof {
                assert forall|k: Seq<char>| !spec_token_at(haystack@, i as int, k) by {
                    if spec_token_at(haystack@, i as int, k) {
                        lemma_token_chars(haystack@, i as int, k);
                    }
                }
            }
            i = i + 1;
        } else {
            let mut j: usize = i + 2;
            while j < n && is_key_char(s[j])
                invariant
                    i + 2 <= j <= n,
                    n == s@.len(),
                    s@ == haystack@,
                    forall|q: int| i + 2 <= q < j ==> spec_key_char(#[trigger] s@[q]),
                decreases n - j,
            {
                j = j + 1;
            }
            if j < n && s[j] == '}' && j + 1 < n && s[j + 1] == '}' {
                let mut key: Vec<char> = Vec::new();
                let mut q: usize = i + 2;
                while q < j
                    invariant
                        i + 2 <= q <= j,
                        j <= n == s@.len(),
                        key@ =~= s@.subrange(i + 2, q as int),
                    decreases j - q,
                {
                    key.push(s[q]);
                    q = q + 1;
                    assert(s@.subrange(i + 2, q as int) =~= s@.subrange(i + 2, q - 1).push(
                        s@[q - 1],
                    ));
                }
                let ghost kseq = s@.subrange(i + 2, j as int);
                proof {
                    lemma_chars_token(haystack@, i as int, kseq);
                }
                let ghost old_keys = keys.deep_view();
                let key_string = string_of_chars(&key);
                keys.push(key_string);
                proof {
                    assert(keys.deep_view() =~= old_keys.push(kseq));
                    assert(keys.deep_view().contains(kseq)) by {
                        assert(keys.deep_view()[old_keys.len() as int] == kseq);
                    }
                    assert forall|p: int, k: Seq<char>|
                        p < j + 2 && #[trigger] spec_token_at(haystack@, p, k) implies keys.deep_view().contains(k) by {
                        if p < i {
                            assert(old_keys.contains(k));
                            let w = choose|w: int| 0 <= w < old_keys.len() && old_keys[w] == k;
                            assert(keys.deep_view()[w] == k);
                        } else if spec_token_at(haystack@, p, k) {
                            lemma_token_chars(haystack@, p, k);
                            if p == i {
                                lemma_same_start(haystack@, i as int, k, kseq, j as int);
                                assert(keys.deep_view()[old_keys.len() as int] == kseq);
                            } else if i < p < j + 2 {
                                lemma_no_overlap(haystack@, i as int, j as int, p, k);
                            }
                        }
                    }
                }
                i = j + 2;
            } else {
                proof {
                    assert forall|k: Seq<char>| !spec_token_at(haystack@, i as int, k) by {
                        if spec_token_at(haystack@, i as int, k) {
                            lemma_token_chars(haystack@, i as int, k);
                            let e = i + 2 + k.len() as int;
                            if e < j {
                                assert(spec_key_char(s@[e]));
                                assert(s@[e] == '}');
                                assert(false);
                            } else if e > j {
                                if j < n {
                                    assert(spec_key_char(k[j - i - 2]));
                                    assert(k[j - i - 2] == s@[j as int]);
                                    assert(false);
                                } else {
                                    assert(e + 1 < s@.len());
                                    assert(false);
                                }
                            } else {
                                assert(s@[e] == '}');
                                assert(s@[e + 1] == '}');
                                assert(false);
                            }
                        }
                    }
                }
                i = i + 1;
            }
        }
    }
    proof {
        assert forall|k: Seq<char>| spec_has_token(haystack@, k) implies keys.deep_view().contains(
            k,
        ) by {
            let p = choose|p: int| matches_at(haystack@, spec_token(k), p);
            assert(spec_token_at(haystack@, p, k));
            assert(p < n);
        }
    }
    keys
}

/// Two tokens starting at the same position name the same key, the
/// maximal run of key characters before the closing braces.
proof fn lemma_same_start(s: Seq<char>, i: int, k: Seq<char>, kseq: Seq<char>, j: int)
    requires
        spec_token_at(s, i, k),
        i + 2 <= j,
        j + 2 <= s.len(),
        kseq == s.subrange(i + 2, j),
        forall|q: int| i + 2 <= q < j ==> spec_key_char(#[trigger] s[q]),
        s[j] == '}',
        s[j + 1] == '}',
    ensures
        k == kseq,
{
    lemma_token_chars(s, i, k);
    let e = i + 2 + k.len() as int;
    if e < j {
        assert(spec_key_char(s[e]));
        assert(s[e] == '}');
        assert(!spec_key_char('}'));
        assert(false);
    } else if e > j {
        assert(k[j - i - 2] == s[j]);
        assert(spec_key_char(k[j - i - 2]));
        assert(false);
    }
    assert(k =~= kseq);
}

/// No token can start strictly inside another token's span.
proof fn lemma_no_overlap(s: Seq<char>, i: int, j: int, p: int, k: Seq<char>)
    requires
        i + 2 <= j,
        j + 2 <= s.len(),
        forall|q: int| i + 2 <= q < j ==> spec_key_char(#[trigger] s[q]),
        s[i] == '{',
        s[i + 1] == '{',
        s[j] == '}',
        s[j + 1] == '}',
        i < p < j + 2,
    ensures
        !spec_token_at(s, p, k),
{
    if spec_token_at(s, p, k) {
        lemma_token_chars(s, p, k);
        assert(s[p] == '{');
        if p == i + 1 {
            assert(s[p + 1] == '{');
            if i + 2 < j {
                assert(spec_key_char(s[i + 2]));
                assert(!spec_key_char('{'));
            } else {
                assert(s[j] == '}');
            }
            assert(false);
        } else if i + 2 <= p < j {
            assert(spec_key_char(s[p]));
            assert(!spec_key_char('{'));
            assert(false);
        } else {
            assert(p == j || p == j + 1);
            assert(s[p] == '}');
            assert(false);
        }
    }
}

/// Two tokens at the same position name the same key.
proof fn lemma_token_unique(s: Seq<char>, p: int, k1: Seq<char>, k2: Seq<char>)
    requires
        spec_token_at(s, p, k1),
        spec_token_at(s, p, k2),
    ensures
        k1 == k2,
{
    lemma_token_chars(s, p, k1);
    lemma_token_chars(s, p, k2);
    if k1.len() < k2.len() {
        assert(k2[k1.len() as int] == s[p + 2 + k1.len()]);
        assert(s[p + 2 + k1.len()] == '}');
        assert(spec_key_char(k2[k1.len() as int]));
        assert(false);
    } else if k2.len() < k1.len() {
        assert(k1[k2.len() as int] == s[p + 2 + k2.len()]);
        assert(s[p + 2 + k2.len()] == '}');
        assert(spec_key_char(k1[k2.len() as int]));
        assert(false);
    }
    assert(k1 =~= k2);
}

/// Distinct token occurrences are disjoint: a token cannot start inside
/// another token's span.
proof fn lemma_tokens_disjoint(s: Seq<char>, p1: int, k1: Seq<char>, p2: int, k2: Seq<char>)
    requires
        spec_token_at(s, p1, k1),
        spec_token_at(s, p2, k2),
        p1 < p2,
    ensures
        p2 >= p1 + k1.len() + 4,
{
    lemma_token_chars(s, p1, k1);
    lemma_token_chars(s, p2, k2);
    if p2 < p1 + k1.len() + 4 {
        assert(s[p2] == '{');
        if p2 == p1 + 1 {
            assert(s[p2 + 1] == '{');
            if k1.len() > 0 {
                assert(k1[0] == s[p1 + 2]);
                assert(spec_key_char(s[p1 + 2]));
            } else {
                assert(s[p1 + 2] == '}');
            }
            assert(false);
        } else if p1 + 2 <= p2 < p1 + 2 + k1.len() {
            assert(k1[p2 - p1 - 2] == s[p2]);
            assert(spec_key_char(s[p2]));
            assert(false);
        } else {
            assert(p2 == p1 + 2 + k1.len() || p2 == p1 + 3 + k1.len());
            assert(s[p2] == '}');
            assert(false);
        }
    }
}

/// Replacing one key's token never erases another key's token: an
/// occurrence of `k` survives the replacement of every occurrence of the
/// distinct key `k2`.
proof fn lemma_replace_keeps_token_at(
    s: Seq<char>,
    p: int,
    k: Seq<char>,
    k2: Seq<char>,
    to: Seq<char>,
)
    requires
        spec_token_at(s, p, k),
        spec_is_key(k2),
        k != k2,
    ensures
        spec_has_token(s, k),
        spec_has_token(crate::text::replace_all(s, spec_token(k2), to), k),
    decreases s.len(),
{
    let pat2 = spec_token(k2);
    let m2 = pat2.len() as int;
    let t1 = spec_token(k).len() as int;
    let r = crate::text::replace_all(s, pat2, to);
    lemma_token_chars(s, p, k);
    if s.len() < m2 {
        assert(r == s);
    } else if s.subrange(0, m2) == pat2 {
        assert(matches_at(s, pat2, 0));
        assert(spec_token_at(s, 0, k2));
        assert(r == to + crate::text::replace_all(s.skip(m2), pat2, to));
        if p == 0 {
            lemma_token_unique(s, 0, k, k2);
            assert(false);
        }
        lemma_tokens_disjoint(s, 0, k2, p, k);
        assert(p >= m2);
        crate::text::lemma_unshift_occurrence(s, spec_token(k), p, m2);
        assert(spec_token_at(s.skip(m2), p - m2, k));
        lemma_replace_keeps_token_at(s.skip(m2), p - m2, k, k2, to);
        let rr = crate::text::replace_all(s.skip(m2), pat2, to);
        let q = choose|q: int| matches_at(rr, spec_token(k), q);
        assert(matches_at(r, spec_token(k), q + to.len())) by {
            assert(r.subrange(
                q + to.len(),
                q + to.len() + spec_token(k).len(),
            ) =~= rr.subrange(q, q + spec_token(k).len()));
        }
    } else {
        assert(r == seq![s[0]] + crate::text::replace_all(s.skip(1), pat2, to));
        if p > 0 {
            crate::text::lemma_unshift_occurrence(s, spec_token(k), p, 1);
            lemma_replace_keeps_token_at(s.skip(1), p - 1, k, k2, to);
            let rr = crate::text::replace_all(s.skip(1), pat2, to);
            let q = choose|q: int| matches_at(rr, spec_token(k), q);
            assert(matches_at(r, spec_token(k), q + 1)) by {
                assert(r.subrange(q + 1, q + 1 + spec_token(k).len()) =~= rr.subrange(
                    q,
                    q + spec_token(k).len(),
                ));
            }
        } else {
            assert forall|j: int| 0 <= j < t1 implies !matches_at(s, pat2, j) by {
                if matches_at(s, pat2, j) {
                    assert(spec_token_at(s, j, k2));
                    if j == 0 {
                        lemma_token_unique(s, 0, k, k2);
                        assert(false);
                    } else {
                        lemma_tokens_disjoint(s, 0, k, j, k2);
                        assert(j >= t1);
                        assert(false);
                    }
                }
            }
            assert(t1 <= s.len());
            crate::text::lemma_replace_block(s, pat2, to, t1);
            assert(r == s.take(t1) + crate::text::replace_all(s.skip(t1), pat2, to));
            assert(matches_at(r, spec_token(k), 0)) by {
                assert(r.subrange(0, t1) =~= s.subrange(0, t1));
                assert(s.subrange(0, t1) == spec_token(k));
            }
        }
    }
}

/// A key with no resolved value keeps its token: replacing the tokens of
/// any other key leaves an occurrence of this key's token in place.
pub proof fn lemma_replace_keeps_token(s: Seq<char>, k: Seq<char>, k2: Seq<char>, to: Seq<char>)
    requires
        spec_has_token(s, k),
        spec_is_key(k2),
        k != k2,
    ensures
        spec_has_token(crate::text::replace_all(s, spec_token(k2), to), k),
{
    let p = choose|p: int| matches_at(s, spec_token(k), p);
    lemma_replace_keeps_token_at(s, p, k, k2, to);
}

/// The part of a request where a placeholder occurrence was found: keyed
/// containers carry the owning sub-key.
#[derive(Debug)]
pub enum Location {
    Url,
    Headers(String),
    QueryParams(String),
    Body,
    BodyForm(String),
}

/// The mathematical model of a [`Location`].
pub enum LocationModel {
    Url,
    Headers(Seq<char>),
    QueryParams(Seq<char>),
    Body,
    BodyForm(Seq<char>),
}

impl View for Location {
    type V = LocationModel;

    open spec fn view(&self) -> LocationModel {
        match self {
            Location::Url => LocationModel::Url,
            Location::Headers(n) => LocationModel::Headers(n@),
            Location::QueryParams(k) => LocationModel::QueryParams(k@),
            Location::Body => LocationModel::Body,
            Location::BodyForm(k) => LocationModel::BodyForm(k@),
        }
    }
}

impl DeepView for Location {
    type V = LocationModel;

    open spec fn deep_view(&self) -> LocationModel {
        self.view()
    }
}

impl Clone for Location {
    /// An equal location.
    fn clone(&self) -> (r: Location)
        ensures
            r == *self,
    {
        match self {
            Location::Url => Location::Url,
            Location::Headers(n) => Location::Headers(n.clone()),
            Location::QueryParams(k) => Location::QueryParams(k.clone()),
            Location::Body => Location::Body,
            Location::BodyForm(k) => Location::BodyForm(k.clone()),
        }
    }
}

impl PartialEq for Location {
    fn eq(&self, other: &Location) -> (r: bool) {
        match (self, other) {
            (Location::Url, Location::Url) => true,
            (Location::Body, Location::Body) => true,
            (Location::Headers(a), Location::Headers(b)) => crate::text::str_eq(
                a.as_str(),
                b.as_str(),
            ),
            (Location::QueryParams(a), Location::QueryParams(b)) => crate::text::str_eq(
                a.as_str(),
                b.as_str(),
            ),
            (Location::BodyForm(a), Location::BodyForm(b)) => crate::text::str_eq(
                a.as_str(),
                b.as_str(),
            ),
            _ => false,
        }
    }
}

impl vstd::std_specs::cmp::PartialEqSpecImpl for Location {
    open spec fn obeys_eq_spec() -> bool {
        true
    }

    open spec fn eq_spec(&self, other: &Location) -> bool {
        self@ == other@
    }
}

/// The placeholder index of a request: every key found, with the set of
/// locations where its token occurs. Entries are kept one per key and one
/// per location by [`Placeholders::insert`]; presence, not an occurrence
/// count, is what the index records.
#[derive(Debug)]
pub struct Placeholders {
    pub entries: Vec<(String, Vec<Location>)>,
}

impl View for Placeholders {
    type V = Seq<(Seq<char>, Seq<LocationModel>)>;

    open spec fn view(&self) -> Seq<(Seq<char>, Seq<LocationModel>)> {
        self.entries.deep_view()
    }
}

impl Placeholders {
    /// The set of keys the index holds.
    pub open spec fn key_set(&self) -> Set<Seq<char>> {
        Set::new(|k: Seq<char>| exists|i: int| 0 <= i < self@.len() && (#[trigger] self@[i]).0 == k)
    }

    /// The set of locations recorded for a key.
    pub open spec fn locs(&self, k: Seq<char>) -> Set<LocationModel> {
        Set::new(
            |l: LocationModel|
                exists|i: int|
                    0 <= i < self@.len() && (#[trigger] self@[i]).0 == k && self@[i].1.contains(l),
        )
    }

    /// Every key the index holds records at least one location.
    pub open spec fn wf(&self) -> bool {
        forall|i: int| 0 <= i < self@.len() ==> (#[trigger] self@[i]).1.len() > 0
    }

    /// Every key the index holds is a well-formed placeholder key.
    pub open spec fn keys_wf(&self) -> bool {
        forall|i: int| 0 <= i < self@.len() ==> spec_is_key((#[trigger] self@[i]).0)
    }

    /// An empty index.
    pub fn new() -> (r: Placeholders)
        ensures
            r@ == Seq::<(Seq<char>, Seq<LocationModel>)>::empty(),
            r.wf(),
            r.keys_wf(),
    {
        let r = Placeholders { entries: Vec::new() };
        proof {
            assert(r@ =~= Seq::<(Seq<char>, Seq<LocationModel>)>::empty());
        }
        r
    }

    /// The number of distinct keys the index holds.
    pub fn len(&self) -> (n: usize)
        ensures
            n == self@.len(),
    {
        self.entries.len()
    }

    /// The keys of the index, in insertion order.
    pub fn keys(&self) -> (r: Vec<String>)
        ensures
            r.deep_view() == self@.map_values(|e: (Seq<char>, Seq<LocationModel>)| e.0),
    {
        let mut out: Vec<String> = Vec::new();
        let mut i: usize = 0;
        while i < self.entries.len()
            invariant
                i <= self.entries.len(),
                out.deep_view().len() == i,
                forall|q: int| 0 <= q < i ==> #[trigger] out.deep_view()[q] == self@[q].0,
            decreases self.entries.len() - i,
        {
            let ghost before = out.deep_view();
            let key = self.entries[i].0.clone();
            out.push(key);
            proof {
                assert(out.deep_view() =~= before.push(self@[i as int].0));
            }
            i = i + 1;
        }
        proof {
            assert(out.deep_view() =~= self@.map_values(
                |e: (Seq<char>, Seq<LocationModel>)| e.0,
            ));
        }
        out
    }

    /// The entries of the index: each key with its recorded locations.
    pub fn iter(&self) -> (r: &Vec<(String, Vec<Location>)>)
        ensures
            r.deep_view() == self@,
    {
        &self.entries
    }

    /// The locations recorded for a key, if the index holds it.
    pub fn locations(&self, key: &str) -> (r: Option<&Vec<Location>>)
        ensures
            match r {
                Some(v) => self.key_set().contains(key@) && v.deep_view()
                    == crate::table::spec_table_get(self@, key@)->0,
                None => !self.key_set().contains(key@),
            },
    {
        let mut i: usize = 0;
        proof {
            assert(self@.skip(0) =~= self@);
        }
        while i < self.entries.len()
            invariant
                i <= self.entries.len(),
                crate::table::spec_table_get(self@, key@) == crate::table::spec_table_get(
                    self@.skip(i as int),
                    key@,
                ),
                forall|q: int| 0 <= q < i ==> (#[trigger] self@[q]).0 != key@,
            decreases self.entries.len() - i,
        {
            proof {
                assert(self@.skip(i as int).drop_first() =~= self@.skip(i + 1));
            }
            if crate::text::str_eq(self.entries[i].0.as_str(), key) {
                return Some(&self.entries[i].1);
            }
            i = i + 1;
        }
        proof {
            assert(self@.skip(self@.len() as int) =~= Seq::<
                (Seq<char>, Seq<LocationModel>),
            >::empty());
            assert(!self.key_set().contains(key@));
        }
        None
    }

    /// Records one occurrence of `key` at `location`: the key joins the
    /// index if it is new, the location joins the key's set if it is new,
    /// and nothing else changes.
    pub fn insert(&mut self, key: &str, location: Location)
        ensures
            old(self).wf() ==> final(self).wf(),
            old(self).keys_wf() && spec_is_key(key@) ==> final(self).keys_wf(),
            forall|k: Seq<char>|
                final(self).key_set().contains(k) <==> (old(self).key_set().contains(k) || k
                    == key@),
            forall|k: Seq<char>, l: LocationModel|
                final(self).locs(k).contains(l) <==> (old(self).locs(k).contains(l) || (k == key@
                    && l == location@)),
    {
        let ghost old_self = *self;
        let mut i: usize = 0;
        while i < self.entries.len()
            invariant
                i <= self.entries.len(),
                *self == old_self,
                forall|q: int| 0 <= q < i ==> (#[trigger] self@[q]).0 != key@,
            decreases self.entries.len() - i,
        {
            if crate::text::str_eq(self.entries[i].0.as_str(), key) {
                let mut j: usize = 0;
                let n = self.entries[i].1.len();
                while j < n
                    invariant
                        j <= n,
                        i < self.entries@.len(),
                        *self == old_self,
                        n == self@[i as int].1.len(),
                        forall|q: int|
                            0 <= q < j ==> #[trigger] self@[i as int].1[q] != location@,
                    decreases n - j,
                {
                    if self.entries[i].1[j] == location {
                        proof {
                            lemma_insert_found(old_self, i as int, j as int, key@, location@);
                        }
                        return ;
                    }
                    j = j + 1;
                }
                let ghost before = self@;
                self.entries[i].1.push(location);
                proof {
                    assert(self@ =~~= before.update(
                        i as int,
                        (before[i as int].0, before[i as int].1.push(location@)),
                    ));
                    lemma_insert_pushed(old_self, *self, i as int, key@, location@);
                }
                return ;
            }
            i = i + 1;
        }
        let ghost before = self@;
        let mut locs: Vec<Location> = Vec::new();
        locs.push(location);
        self.entries.push((key.to_owned(), locs));
        proof {
            assert(self@ =~~= before.push((key@, seq![location@])));
            lemma_insert_new(old_self, *self, key@, location@);
        }
    }

    /// Records every key of `keys` at `location`.
    pub fn add_all(&mut self, location: &Location, keys: Vec<String>)
        ensures
            old(self).wf() ==> final(self).wf(),
            old(self).keys_wf() && (forall|j: int|
                0 <= j < keys.deep_view().len() ==> spec_is_key(#[trigger] keys.deep_view()[j]))
                ==> final(self).keys_wf(),
            forall|k: Seq<char>|
                final(self).key_set().contains(k) <==> (old(self).key_set().contains(k)
                    || keys.deep_view().contains(k)),
            forall|k: Seq<char>, l: LocationModel|
                final(self).locs(k).contains(l) <==> (old(self).locs(k).contains(l) || (
                keys.deep_view().contains(k) && l == location@)),
    {
        let ghost all = keys.deep_view();
        let mut i: usize = 0;
        while i < keys.len()
            invariant
                i <= keys.len(),
                all == keys.deep_view(),
                old(self).wf() ==> self.wf(),
                old(self).keys_wf() && (forall|j: int|
                    0 <= j < all.len() ==> spec_is_key(#[trigger] all[j])) ==> self.keys_wf(),
                forall|k: Seq<char>|
                    self.key_set().contains(k) <==> (old(self).key_set().contains(k) || all.take(
                        i as int,
                    ).contains(k)),
                forall|k: Seq<char>, l: LocationModel|
                    self.locs(k).contains(l) <==> (old(self).locs(k).contains(l) || (all.take(
                        i as int,
                    ).contains(k) && l == location@)),
            decreases keys.len() - i,
        {
            let loc = location.clone();
            self.insert(keys[i].as_str(), loc);
            proof {
                assert(keys@[i as int]@ == all[i as int]);
                assert(all.take(i + 1) =~= all.take(i as int).push(all[i as int]));
                assert forall|k: Seq<char>| all.take(i + 1).contains(k) <==> (all.take(
                    i as int,
                ).contains(k) || k == all[i as int]) by {
                    if all.take(i + 1).contains(k) {
                        let w = choose|w: int| 0 <= w < i + 1 && #[trigger] all.take(i + 1)[w]
                            == k;
                        if w < i {
                            assert(all.take(i as int)[w] == k);
                        }
                    }
                    if all.take(i as int).contains(k) {
                        let w = choose|w: int| 0 <= w < i && all.take(i as int)[w] == k;
                        assert(all.take(i + 1)[w] == k);
                    }
                    if k == all[i as int] {
                        assert(all.take(i + 1)[i as int] == k);
                    }
                }
            }
            i = i + 1;
        }
        proof {
            assert(all.take(keys.len() as int) =~= all);
        }
    }
}

/// The text a form value offers for substitution: its submitted text or
/// its file path.
pub open spec fn spec_form_text(v: crate::body::FormDataModel) -> Seq<char> {
    match v {
        crate::body::FormDataModel::Text(t) => t,
        crate::body::FormDataModel::File(p) => p,
    }
}

/// The contribution of the body alone to the placeholder index.
pub open spec fn spec_body_contribution(
    b: crate::body::BodyModel,
    k: Seq<char>,
    l: LocationModel,
) -> bool {
    match l {
        LocationModel::Body => match b {
            crate::body::BodyModel::Raw { content, .. } => spec_has_token(content, k),
            crate::body::BodyModel::Binary { path, .. } => spec_has_token(path, k),
            _ => false,
        },
        LocationModel::BodyForm(fk) => match b {
            crate::body::BodyModel::FormData(es) => exists|i: int|
                0 <= i < es.len() && (#[trigger] es[i]).0 == fk && spec_has_token(
                    spec_form_text(es[i].1),
                    k,
                ),
            crate::body::BodyModel::XFormUrlEncoded(es) => exists|i: int|
                0 <= i < es.len() && (#[trigger] es[i]).0 == fk && spec_has_token(es[i].1, k),
            _ => false,
        },
        _ => false,
    }
}

/// The key `k` occurs, as a placeholder token, at the given location of
/// the request.
pub open spec fn spec_key_at_location(
    rm: crate::request::RequestModel,
    k: Seq<char>,
    loc: LocationModel,
) -> bool {
    match loc {
        LocationModel::Url => spec_has_token(rm.url, k),
        LocationModel::Headers(name) => exists|i: int|
            0 <= i < rm.headers.len() && (#[trigger] rm.headers[i]).0 == name && spec_has_token(
                rm.headers[i].1,
                k,
            ),
        LocationModel::QueryParams(qk) => exists|i: int|
            0 <= i < rm.query_params.len() && (#[trigger] rm.query_params[i]).0 == qk
                && spec_has_token(rm.query_params[i].1, k),
        LocationModel::Body => match rm.body {
            crate::body::BodyModel::Raw { content, .. } => spec_has_token(content, k),
            crate::body::BodyModel::Binary { path, .. } => spec_has_token(path, k),
            _ => false,
        },
        LocationModel::BodyForm(fk) => match rm.body {
            crate::body::BodyModel::FormData(es) => exists|i: int|
                0 <= i < es.len() && (#[trigger] es[i]).0 == fk && spec_has_token(
                    spec_form_text(es[i].1),
                    k,
                ),
            crate::body::BodyModel::XFormUrlEncoded(es) => exists|i: int|
                0 <= i < es.len() && (#[trigger] es[i]).0 == fk && spec_has_token(es[i].1, k),
            _ => false,
        },
    }
}

/// The key `k` occurs, as a placeholder token, somewhere in the request's
/// substitutable fields.
pub open spec fn spec_request_has_key(rm: crate::request::RequestModel, k: Seq<char>) -> bool {
    exists|loc: LocationModel| spec_key_at_location(rm, k, loc)
}

impl Placeholders {
    /// Scans every substitutable field of the request — URL, header
    /// values, query parameter values, body content or path, and form
    /// entry values — and indexes each key found by the locations of its
    /// occurrences: the index holds exactly the keys the request holds,
    /// each with exactly the locations where its token occurs.
    pub fn from(request: &crate::request::Request) -> (r: Placeholders)
        ensures
            forall|k: Seq<char>, l: LocationModel|
                r.locs(k).contains(l) <==> spec_key_at_location(request@, k, l),
            forall|k: Seq<char>|
                r.key_set().contains(k) <==> spec_request_has_key(request@, k),
            r.keys_wf(),
    {
        let ghost rm = request@;
        let mut pm = Placeholders::new();
        proof {
            assert(forall|k: Seq<char>, l: LocationModel| !pm.locs(k).contains(l));
            assert(forall|k: Seq<char>| !pm.key_set().contains(k));
        }
        let url_keys = find_placeholders(request.url.as_str());
        pm.add_all(&Location::Url, url_keys);
        proof {
            assert forall|k: Seq<char>, l: LocationModel| pm.locs(k).contains(l) <==> (l
                == LocationModel::Url && spec_has_token(rm.url, k)) by {
                if pm.locs(k).contains(l) {
                    let w = choose|w: int|
                        0 <= w < url_keys.deep_view().len() && url_keys.deep_view()[w] == k;
                }
            }
        }
        let mut i: usize = 0;
        let hn = request.headers.len();
        while i < hn
            invariant
                pm.wf(),
                pm.keys_wf(),
                i <= hn,
                hn == rm.headers.len(),
                rm == request@,
                forall|k: Seq<char>, l: LocationModel|
                    pm.locs(k).contains(l) <==> ((l == LocationModel::Url && spec_has_token(
                        rm.url,
                        k,
                    )) || exists|w: int|
                        0 <= w < i && l == LocationModel::Headers(
                            (#[trigger] rm.headers[w]).0,
                        ) && spec_has_token(rm.headers[w].1, k)),
            decreases hn - i,
        {
            let e = request.headers.entry_at(i);
            let keys = find_placeholders(e.1.as_str());
            let loc = Location::Headers(e.0.clone());
            let ghost before = pm;
            pm.add_all(&loc, keys);
            proof {
                assert forall|k: Seq<char>, l: LocationModel| pm.locs(k).contains(l) <==> ((l
                    == LocationModel::Url && spec_has_token(rm.url, k)) || exists|w: int|
                    0 <= w < i + 1 && l == LocationModel::Headers((#[trigger] rm.headers[w]).0)
                        && spec_has_token(rm.headers[w].1, k)) by {
                    if pm.locs(k).contains(l) {
                        if before.locs(k).contains(l) {
                            if !(l == LocationModel::Url && spec_has_token(rm.url, k)) {
                                let w = choose|w: int|
                                    0 <= w < i && l == LocationModel::Headers(
                                        (#[trigger] rm.headers[w]).0,
                                    ) && spec_has_token(rm.headers[w].1, k);
                                assert(0 <= w < i + 1 && l == LocationModel::Headers(
                                    rm.headers[w].0,
                                ) && spec_has_token(rm.headers[w].1, k));
                            }
                        } else {
                            let w = choose|w: int|
                                0 <= w < keys.deep_view().len() && keys.deep_view()[w] == k;
                            assert(l == LocationModel::Headers(rm.headers[i as int].0)
                                && spec_has_token(rm.headers[i as int].1, k));
                        }
                    }
                    if (l == LocationModel::Url && spec_has_token(rm.url, k)) {
                        assert(pm.locs(k).contains(l));
                    }
                    if exists|w: int|
                        0 <= w < i + 1 && l == LocationModel::Headers(
                            (#[trigger] rm.headers[w]).0,
                        ) && spec_has_token(rm.headers[w].1, k) {
                        let w = choose|w: int|
                            0 <= w < i + 1 && l == LocationModel::Headers(
                                (#[trigger] rm.headers[w]).0,
                            ) && spec_has_token(rm.headers[w].1, k);
                        if w < i {
                            assert(before.locs(k).contains(l));
                        } else {
                            assert(keys.deep_view().contains(k));
                        }
                        assert(pm.locs(k).contains(l));
                    }
                }
            }
            i = i + 1;
        }
        let ghost after_headers = pm;
        let mut i: usize = 0;
        let qn = request.query_params.len();
        while i < qn
            invariant
                pm.wf(),
                pm.keys_wf(),
                i <= qn,
                qn == rm.query_params.len(),
                rm == request@,
                forall|k: Seq<char>, l: LocationModel|
                    pm.locs(k).contains(l) <==> (after_headers.locs(k).contains(l) || exists|
                        w: int,
                    |
                        0 <= w < i && l == LocationModel::QueryParams(
                            (#[trigger] rm.query_params[w]).0,
                        ) && spec_has_token(rm.query_params[w].1, k)),
            decreases qn - i,
        {
            let keys = find_placeholders(request.query_params[i].1.as_str());
            let loc = Location::QueryParams(request.query_params[i].0.clone());
            let ghost before = pm;
            pm.add_all(&loc, keys);
            proof {
                assert(rm.query_params[i as int]
                    == (request.query_params@[i as int].0@, request.query_params@[i as int].1@));
                assert forall|k: Seq<char>, l: LocationModel| pm.locs(k).contains(l) <==> (
                after_headers.locs(k).contains(l) || exists|w: int|
                    0 <= w < i + 1 && l == LocationModel::QueryParams(
                        (#[trigger] rm.query_params[w]).0,
                    ) && spec_has_token(rm.query_params[w].1, k)) by {
                    if pm.locs(k).contains(l) {
                        if before.locs(k).contains(l) {
                            if !after_headers.locs(k).contains(l) {
                                let w = choose|w: int|
                                    0 <= w < i && l == LocationModel::QueryParams(
                                        (#[trigger] rm.query_params[w]).0,
                                    ) && spec_has_token(rm.query_params[w].1, k);
                                assert(0 <= w < i + 1 && l == LocationModel::QueryParams(
                                    rm.query_params[w].0,
                                ) && spec_has_token(rm.query_params[w].1, k));
                            }
                        } else {
                            let w = choose|w: int|
                                0 <= w < keys.deep_view().len() && keys.deep_view()[w] == k;
                            assert(l == LocationModel::QueryParams(rm.query_params[i as int].0)
                                && spec_has_token(rm.query_params[i as int].1, k));
                        }
                    }
                    if after_headers.locs(k).contains(l) {
                        assert(pm.locs(k).contains(l));
                    }
                    if exists|w: int|
                        0 <= w < i + 1 && l == LocationModel::QueryParams(
                            (#[trigger] rm.query_params[w]).0,
                        ) && spec_has_token(rm.query_params[w].1, k) {
                        let w = choose|w: int|
                            0 <= w < i + 1 && l == LocationModel::QueryParams(
                                (#[trigger] rm.query_params[w]).0,
                            ) && spec_has_token(rm.query_params[w].1, k);
                        if w < i {
                            assert(before.locs(k).contains(l));
                        } else {
                            assert(keys.deep_view().contains(k));
                        }
                        assert(pm.locs(k).contains(l));
                    }
                }
            }
            i = i + 1;
        }
        let ghost after_query = pm;
        match &request.body {
            crate::body::Body::Raw { content, .. } => {
                let keys = find_placeholders(content.as_str());
                pm.add_all(&Location::Body, keys);
                proof {
                    lemma_scan_single(after_query, pm, keys.deep_view(), content@);
                    assert(forall|k: Seq<char>, l: LocationModel|
                        pm.locs(k).contains(l) <==> (after_query.locs(k).contains(l)
                            || spec_body_contribution(rm.body, k, l)));
                }
            },
            crate::body::Body::Binary { path, .. } => {
                let keys = find_placeholders(path.as_str());
                pm.add_all(&Location::Body, keys);
                proof {
                    lemma_scan_single(after_query, pm, keys.deep_view(), path@);
                    assert(forall|k: Seq<char>, l: LocationModel|
                        pm.locs(k).contains(l) <==> (after_query.locs(k).contains(l)
                            || spec_body_contribution(rm.body, k, l)));
                }
            },
            crate::body::Body::XFormUrlEncoded(form) => {
                let ghost es = rm.body->XFormUrlEncoded_0;
                let mut i: usize = 0;
                let fn_ = form.len();
                while i < fn_
                    invariant
                        pm.wf(),
                        pm.keys_wf(),
                        i <= fn_,
                        fn_ == es.len(),
                        rm == request@,
                        rm.body == crate::body::BodyModel::XFormUrlEncoded(es),
                        request.body matches crate::body::Body::XFormUrlEncoded(f) && f@ == es,
                        forall|k: Seq<char>, l: LocationModel|
                            pm.locs(k).contains(l) <==> (after_query.locs(k).contains(l) || exists|
                                w: int,
                            |
                                0 <= w < i && l == LocationModel::BodyForm((#[trigger] es[w]).0)
                                    && spec_has_token(es[w].1, k)),
                    decreases fn_ - i,
                {
                    let e = form.entry_at(i);
                    let keys = find_placeholders(e.1.as_str());
                    let loc = Location::BodyForm(e.0.clone());
                    let ghost before = pm;
                    pm.add_all(&loc, keys);
                    proof {
                        assert forall|k: Seq<char>, l: LocationModel| pm.locs(k).contains(l) <==> (
                        after_query.locs(k).contains(l) || exists|w: int|
                            0 <= w < i + 1 && l == LocationModel::BodyForm((#[trigger] es[w]).0)
                                && spec_has_token(es[w].1, k)) by {
                            if pm.locs(k).contains(l) {
                                if before.locs(k).contains(l) {
                                    if !after_query.locs(k).contains(l) {
                                        let w = choose|w: int|
                                            0 <= w < i && l == LocationModel::BodyForm(
                                                (#[trigger] es[w]).0,
                                            ) && spec_has_token(es[w].1, k);
                                        assert(0 <= w < i + 1 && l == LocationModel::BodyForm(
                                            es[w].0,
                                        ) && spec_has_token(es[w].1, k));
                                    }
                                } else {
                                    let w = choose|w: int|
                                        0 <= w < keys.deep_view().len() && keys.deep_view()[w]
                                            == k;
                                    assert(l == LocationModel::BodyForm(es[i as int].0)
                                        && spec_has_token(es[i as int].1, k));
                                }
                            }
                            if after_query.locs(k).contains(l) {
                                assert(pm.locs(k).contains(l));
                            }
                            if exists|w: int|
                                0 <= w < i + 1 && l == LocationModel::BodyForm(
                                    (#[trigger] es[w]).0,
                                ) && spec_has_token(es[w].1, k) {
                                let w = choose|w: int|
                                    0 <= w < i + 1 && l == LocationModel::BodyForm(
                                        (#[trigger] es[w]).0,
                                    ) && spec_has_token(es[w].1, k);
                                if w < i {
                                    assert(before.locs(k).contains(l));
                                } else {
                                    assert(keys.deep_view().contains(k));
                                }
                                assert(pm.locs(k).contains(l));
                            }
                        }
                    }
                    i = i + 1;
                }
                proof {
                    assert(forall|k: Seq<char>, l: LocationModel|
                        pm.locs(k).contains(l) <==> (after_query.locs(k).contains(l)
                            || spec_body_contribution(rm.body, k, l)));
                }
            },
            crate::body::Body::FormData(form) => {
                let ghost es = rm.body->FormData_0;
                let mut i: usize = 0;
                let fn_ = form.len();
                while i < fn_
                    invariant
                        pm.wf(),
                        pm.keys_wf(),
                        i <= fn_,
                        fn_ == es.len(),
                        rm == request@,
                        rm.body == crate::body::BodyModel::FormData(es),
                        request.body matches crate::body::Body::FormData(f) && f@ == es,
                        forall|k: Seq<char>, l: LocationModel|
                            pm.locs(k).contains(l) <==> (after_query.locs(k).contains(l) || exists|
                                w: int,
                            |
                                0 <= w < i && l == LocationModel::BodyForm((#[trigger] es[w]).0)
                                    && spec_has_token(spec_form_text(es[w].1), k)),
                    decreases fn_ - i,
                {
                    let e = form.entry_at(i);
                    let keys = match &e.1 {
                        crate::body::FormDataValue::Text(t) => find_placeholders(t.as_str()),
                        crate::body::FormDataValue::File(p) => find_placeholders(p.as_str()),
                    };
                    let loc = Location::BodyForm(e.0.clone());
                    let ghost before = pm;
                    pm.add_all(&loc, keys);
                    proof {
                        assert forall|k: Seq<char>, l: LocationModel| pm.locs(k).contains(l) <==> (
                        after_query.locs(k).contains(l) || exists|w: int|
                            0 <= w < i + 1 && l == LocationModel::BodyForm((#[trigger] es[w]).0)
                                && spec_has_token(spec_form_text(es[w].1), k)) by {
                            if pm.locs(k).contains(l) {
                                if before.locs(k).contains(l) {
                                    if !after_query.locs(k).contains(l) {
                                        let w = choose|w: int|
                                            0 <= w < i && l == LocationModel::BodyForm(
                                                (#[trigger] es[w]).0,
                                            ) && spec_has_token(spec_form_text(es[w].1), k);
                                        assert(0 <= w < i + 1 && l == LocationModel::BodyForm(
                                            es[w].0,
                                        ) && spec_has_token(spec_form_text(es[w].1), k));
                                    }
                                } else {
                                    let w = choose|w: int|
                                        0 <= w < keys.deep_view().len() && keys.deep_view()[w]
                                            == k;
                                    assert(l == LocationModel::BodyForm(es[i as int].0)
                                        && spec_has_token(spec_form_text(es[i as int].1), k));
                                }
                            }
                            if after_query.locs(k).contains(l) {
                                assert(pm.locs(k).contains(l));
                            }
                            if exists|w: int|
                                0 <= w < i + 1 && l == LocationModel::BodyForm(
                                    (#[trigger] es[w]).0,
                                ) && spec_has_token(spec_form_text(es[w].1), k) {
                                let w = choose|w: int|
                                    0 <= w < i + 1 && l == LocationModel::BodyForm(
                                        (#[trigger] es[w]).0,
                                    ) && spec_has_token(spec_form_text(es[w].1), k);
                                if w < i {
                                    assert(before.locs(k).contains(l));
                                } else {
                                    assert(keys.deep_view().contains(k));
                                }
                                assert(pm.locs(k).contains(l));
                            }
                        }
                    }
                    i = i + 1;
                }
                proof {
                    assert(forall|k: Seq<char>, l: LocationModel|
                        pm.locs(k).contains(l) <==> (after_query.locs(k).contains(l)
                            || spec_body_contribution(rm.body, k, l)));
                }
            },
            crate::body::Body::Empty => {
                proof {
                    assert(forall|k: Seq<char>, l: LocationModel|
                        pm.locs(k).contains(l) <==> (after_query.locs(k).contains(l)
                            || spec_body_contribution(rm.body, k, l)));
                }
            },
        }
        proof {
            assert forall|k: Seq<char>, l: LocationModel| pm.locs(k).contains(l)
                <==> spec_key_at_location(rm, k, l) by {
                let url_part = (l == LocationModel::Url && spec_has_token(rm.url, k));
                let headers_part = exists|w: int|
                    0 <= w < rm.headers.len() && l == LocationModel::Headers(
                        (#[trigger] rm.headers[w]).0,
                    ) && spec_has_token(rm.headers[w].1, k);
                let query_part = exists|w: int|
                    0 <= w < rm.query_params.len() && l == LocationModel::QueryParams(
                        (#[trigger] rm.query_params[w]).0,
                    ) && spec_has_token(rm.query_params[w].1, k);
                if headers_part {
                    let w = choose|w: int|
                        0 <= w < rm.headers.len() && l == LocationModel::Headers(
                            (#[trigger] rm.headers[w]).0,
                        ) && spec_has_token(rm.headers[w].1, k);
                    assert(l is Headers);
                }
                if query_part {
                    let w = choose|w: int|
                        0 <= w < rm.query_params.len() && l == LocationModel::QueryParams(
                            (#[trigger] rm.query_params[w]).0,
                        ) && spec_has_token(rm.query_params[w].1, k);
                    assert(l is QueryParams);
                }
                assert(pm.locs(k).contains(l) <==> (url_part || headers_part || query_part
                    || spec_body_contribution(rm.body, k, l)));
                match l {
                    LocationModel::Url => {
                        assert(spec_key_at_location(rm, k, l) == url_part);
                    },
                    LocationModel::Headers(name) => {
                        if spec_key_at_location(rm, k, l) {
                            let w = choose|w: int|
                                0 <= w < rm.headers.len() && (#[trigger] rm.headers[w]).0 == name
                                    && spec_has_token(rm.headers[w].1, k);
                            assert(0 <= w < rm.headers.len() && l == LocationModel::Headers(
                                rm.headers[w].0,
                            ) && spec_has_token(rm.headers[w].1, k));
                        }
                        if headers_part {
                            let w = choose|w: int|
                                0 <= w < rm.headers.len() && l == LocationModel::Headers(
                                    (#[trigger] rm.headers[w]).0,
                                ) && spec_has_token(rm.headers[w].1, k);
                            assert(rm.headers[w].0 == name);
                            assert(spec_key_at_location(rm, k, l));
                        }
                    },
                    LocationModel::QueryParams(qk) => {
                        if spec_key_at_location(rm, k, l) {
                            let w = choose|w: int|
                                0 <= w < rm.query_params.len() && (#[trigger] rm.query_params[w]).0
                                    == qk && spec_has_token(rm.query_params[w].1, k);
                            assert(0 <= w < rm.query_params.len() && l
                                == LocationModel::QueryParams(rm.query_params[w].0)
                                && spec_has_token(rm.query_params[w].1, k));
                        }
                        if query_part {
                            let w = choose|w: int|
                                0 <= w < rm.query_params.len() && l == LocationModel::QueryParams(
                                    (#[trigger] rm.query_params[w]).0,
                                ) && spec_has_token(rm.query_params[w].1, k);
                            assert(rm.query_params[w].0 == qk);
                            assert(spec_key_at_location(rm, k, l));
                        }
                    },
                    LocationModel::Body => {
                        assert(spec_body_contribution(rm.body, k, l) == spec_key_at_location(
                            rm,
                            k,
                            l,
                        ));
                    },
                    LocationModel::BodyForm(fk) => {
                        assert(spec_body_contribution(rm.body, k, l) == spec_key_at_location(
                            rm,
                            k,
                            l,
                        ));
                    },
                }
            }
            assert forall|k: Seq<char>| pm.key_set().contains(k) <==> spec_request_has_key(
                rm,
                k,
            ) by {
                if pm.key_set().contains(k) {
                    let w = choose|w: int| 0 <= w < pm@.len() && (#[trigger] pm@[w]).0 == k;
                    if pm@[w].1.len() > 0 {
                        let l = pm@[w].1[0];
                        assert(pm@[w].1.contains(l));
                        assert(pm.locs(k).contains(l));
                        assert(spec_key_at_location(rm, k, l));
                    }
                }
                if spec_request_has_key(rm, k) {
                    let l = choose|l: LocationModel| spec_key_at_location(rm, k, l);
                    assert(pm.locs(k).contains(l));
                    let w = choose|w: int|
                        0 <= w < pm@.len() && (#[trigger] pm@[w]).0 == k && pm@[w].1.contains(l);
                    assert(pm.key_set().contains(k));
                }
            }
        }
        pm
    }
}

/// After one whole-text scan into one location, the recorded locations
/// grow by exactly that location for the text's keys.
proof fn lemma_scan_single(
    before: Placeholders,
    after: Placeholders,
    keys: Seq<Seq<char>>,
    text: Seq<char>,
)
    requires
        forall|j: int| 0 <= j < keys.len() ==> spec_has_token(text, #[trigger] keys[j]),
        forall|k: Seq<char>| spec_has_token(text, k) ==> keys.contains(k),
        forall|k: Seq<char>, l: LocationModel|
            after.locs(k).contains(l) <==> (before.locs(k).contains(l) || (keys.contains(k) && l
                == LocationModel::Body)),
    ensures
        forall|k: Seq<char>, l: LocationModel|
            after.locs(k).contains(l) <==> (before.locs(k).contains(l) || (spec_has_token(text, k)
                && l == LocationModel::Body)),
{
    assert forall|k: Seq<char>| keys.contains(k) <==> spec_has_token(text, k) by {
        if keys.contains(k) {
            let w = choose|w: int| 0 <= w < keys.len() && keys[w] == k;
        }
    }
}

/// When the key already records the location, an insert changes nothing.
proof fn lemma_insert_found(p: Placeholders, i: int, j: int, key: Seq<char>, loc: LocationModel)
    requires
        0 <= i < p@.len(),
        p@[i].0 == key,
        0 <= j < p@[i].1.len(),
        p@[i].1[j] == loc,
    ensures
        forall|k: Seq<char>| p.key_set().contains(k) <==> (p.key_set().contains(k) || k == key),
        forall|k: Seq<char>, l: LocationModel|
            p.locs(k).contains(l) <==> (p.locs(k).contains(l) || (k == key && l == loc)),
{
    assert(p.key_set().contains(key));
    assert(p@[i].1.contains(loc));
    assert(p.locs(key).contains(loc));
}

/// When the key is present without the location, pushing the location
/// extends exactly that key's set.
proof fn lemma_insert_pushed(
    p: Placeholders,
    q: Placeholders,
    i: int,
    key: Seq<char>,
    loc: LocationModel,
)
    requires
        0 <= i < p@.len(),
        p@[i].0 == key,
        q@ == p@.update(i, (p@[i].0, p@[i].1.push(loc))),
    ensures
        forall|k: Seq<char>| q.key_set().contains(k) <==> (p.key_set().contains(k) || k == key),
        forall|k: Seq<char>, l: LocationModel|
            q.locs(k).contains(l) <==> (p.locs(k).contains(l) || (k == key && l == loc)),
{
    assert forall|k: Seq<char>| q.key_set().contains(k) <==> (p.key_set().contains(k) || k
        == key) by {
        if q.key_set().contains(k) {
            let w = choose|w: int| 0 <= w < q@.len() && q@[w].0 == k;
            assert(p@[w].0 == k);
        }
        if p.key_set().contains(k) {
            let w = choose|w: int| 0 <= w < p@.len() && p@[w].0 == k;
            assert(q@[w].0 == k);
        }
        if k == key {
            assert(q@[i].0 == k);
        }
    }
    assert forall|k: Seq<char>, l: LocationModel| q.locs(k).contains(l) <==> (p.locs(k).contains(
        l,
    ) || (k == key && l == loc)) by {
        if q.locs(k).contains(l) {
            let w = choose|w: int| 0 <= w < q@.len() && q@[w].0 == k && q@[w].1.contains(l);
            if w != i {
                assert(p@[w].0 == k && p@[w].1.contains(l));
            } else {
                let u = choose|u: int| 0 <= u < q@[i].1.len() && q@[i].1[u] == l;
                if u < p@[i].1.len() {
                    assert(p@[i].1[u] == l);
                    assert(p@[i].1.contains(l));
                } else {
                    assert(l == loc);
                }
            }
        }
        if p.locs(k).contains(l) {
            let w = choose|w: int| 0 <= w < p@.len() && p@[w].0 == k && p@[w].1.contains(l);
            if w != i {
                assert(q@[w].0 == k && q@[w].1.contains(l));
            } else {
                let u = choose|u: int| 0 <= u < p@[i].1.len() && p@[i].1[u] == l;
                assert(q@[i].1[u] == l);
                assert(q@[i].1.contains(l));
            }
        }
        if k == key && l == loc {
            assert(q@[i].0 == k);
            assert(q@[i].1[p@[i].1.len() as int] == loc);
            assert(q@[i].1.contains(l));
        }
    }
}

/// When the key is absent, appending a fresh entry adds exactly it.
proof fn lemma_insert_new(p: Placeholders, q: Placeholders, key: Seq<char>, loc: LocationModel)
    requires
        forall|w: int| 0 <= w < p@.len() ==> (#[trigger] p@[w]).0 != key,
        q@ == p@.push((key, seq![loc])),
    ensures
        forall|k: Seq<char>| q.key_set().contains(k) <==> (p.key_set().contains(k) || k == key),
        forall|k: Seq<char>, l: LocationModel|
            q.locs(k).contains(l) <==> (p.locs(k).contains(l) || (k == key && l == loc)),
{
    assert forall|k: Seq<char>| q.key_set().contains(k) <==> (p.key_set().contains(k) || k
        == key) by {
        if q.key_set().contains(k) {
            let w = choose|w: int| 0 <= w < q@.len() && q@[w].0 == k;
            if w < p@.len() {
                assert(p@[w].0 == k);
            } else {
                assert(k == key);
            }
        }
        if p.key_set().contains(k) {
            let w = choose|w: int| 0 <= w < p@.len() && p@[w].0 == k;
            assert(q@[w].0 == k);
        }
        if k == key {
            assert(q@[p@.len() as int].0 == k);
        }
    }
    assert forall|k: Seq<char>, l: LocationModel| q.locs(k).contains(l) <==> (p.locs(k).contains(
        l,
    ) || (k == key && l == loc)) by {
        if q.locs(k).contains(l) {
            let w = choose|w: int| 0 <= w < q@.len() && q@[w].0 == k && q@[w].1.contains(l);
            if w < p@.len() {
                assert(p@[w].0 == k && p@[w].1.contains(l));
            } else {
                assert(k == key);
                assert(seq![loc].contains(l));
                assert(l == loc);
            }
        }
        if p.locs(k).contains(l) {
            let w = choose|w: int| 0 <= w < p@.len() && p@[w].0 == k && p@[w].1.contains(l);
            assert(q@[w].0 == k && q@[w].1.contains(l));
        }
        if k == key && l == loc {
            assert(q@[p@.len() as int].0 == k);
            assert(q@[p@.len() as int].1[0] == loc);
            assert(q@[p@.len() as int].1.contains(l));
        }
    }
}

} // verus!
