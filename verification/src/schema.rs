//! Schema primitives: identifiers, ordered key/value configuration maps and
//! version selectors.
//!
//! A `Config` keeps its entries sorted by key, with no key occurring twice;
//! inserting an existing key replaces its value. The sorted order is also the
//! order in which the renderer emits the entries, which keeps the output
//! deterministic.

use vstd::prelude::*;
use crate::textutil::StrOrder;
use crate::textutil::lex_lt;
use crate::textutil::lemma_lex_transitive;
use crate::textutil::lemma_lex_trichotomy;
use crate::textutil::str_compare;

verus! {

/// A non-empty display string used as a map key and as a rendered name.
pub type Identifier = String;

/// A path to a file, kept verbatim.
pub type FilePath = String;

/// A path to a directory, kept verbatim.
pub type DirPath = String;

/// A plain integer in the rendered document.
pub type Number = i64;

/// A key together with its value, as character sequences.
pub type SpecEntry = (Seq<char>, Seq<char>);

/// Entries are strictly ascending by key, so every key occurs at most once.
pub open spec fn entries_sorted(s: Seq<SpecEntry>) -> bool {
    forall|i: int, j: int| 0 <= i < j < s.len() ==> lex_lt(#[trigger] s[i].0, #[trigger] s[j].0)
}

/// Sorted insertion of `(k, v)`: an existing entry for `k` is replaced,
/// otherwise the new entry lands just before the first larger key.
pub open spec fn spec_insert_entry(s: Seq<SpecEntry>, k: Seq<char>, v: Seq<char>) -> Seq<SpecEntry>
    decreases s.len(),
{
    if s.len() == 0 {
        seq![(k, v)]
    } else if lex_lt(k, s[0].0) {
        seq![(k, v)] + s
    } else if k == s[0].0 {
        s.update(0, (k, v))
    } else {
        seq![s[0]] + spec_insert_entry(s.drop_first(), k, v)
    }
}

/// Inserting every pair of `pairs` into `s` from left to right.
pub open spec fn spec_insert_entries(s: Seq<SpecEntry>, pairs: Seq<SpecEntry>) -> Seq<SpecEntry>
    decreases pairs.len(),
{
    if pairs.len() == 0 {
        s
    } else {
        spec_insert_entries(spec_insert_entry(s, pairs[0].0, pairs[0].1), pairs.drop_first())
    }
}

/// An ordered mapping from string keys to string values.
pub struct Config {
    pub entries: Vec<(String, String)>,
}

impl View for Config {
    type V = Seq<SpecEntry>;

    open spec fn view(&self) -> Seq<SpecEntry> {
        Seq::new(self.entries@.len(), |i: int| (self.entries@[i].0.view(), self.entries@[i].1.view()))
    }
}

/// Inserting preserves sortedness, and afterwards the key is bound to the
/// value while every other binding is kept.
pub proof fn lemma_insert_entry_sorted(s: Seq<SpecEntry>, k: Seq<char>, v: Seq<char>)
    requires
        entries_sorted(s),
    ensures
        entries_sorted(spec_insert_entry(s, k, v)),
        spec_insert_entry(s, k, v).len() >= s.len(),
    decreases s.len(),
{
    let r = spec_insert_entry(s, k, v);
    if s.len() == 0 {
    } else if lex_lt(k, s[0].0) {
        assert forall|i: int, j: int| 0 <= i < j < r.len() implies lex_lt(r[i].0, r[j].0) by {
            if i == 0 {
                if j > 1 {
                    lemma_lex_transitive(k, s[0].0, s[j - 1].0);
                }
            }
        }
    } else if k == s[0].0 {
        assert forall|i: int, j: int| 0 <= i < j < r.len() implies lex_lt(r[i].0, r[j].0) by {
            assert(s[i].0 == r[i].0);
            assert(s[j].0 == r[j].0);
        }
    } else {
        lemma_lex_trichotomy(k, s[0].0);
        assert(entries_sorted(s.drop_first())) by {
            assert(forall|i: int, j: int| 0 <= i < j < s.drop_first().len()
                ==> lex_lt(#[trigger] s.drop_first()[i].0, #[trigger] s.drop_first()[j].0));
        }
        lemma_insert_entry_sorted(s.drop_first(), k, v);
        let rest = spec_insert_entry(s.drop_first(), k, v);
        assert forall|i: int, j: int| 0 <= i < j < r.len() implies lex_lt(r[i].0, r[j].0) by {
            if i == 0 {
                assert(r[j].0 == rest[j - 1].0);
                lemma_insert_entry_first_key(s.drop_first(), k, v, j - 1);
            } else {
                assert(r[i].0 == rest[i - 1].0);
                assert(r[j].0 == rest[j - 1].0);
            }
        }
    }
}

/// Every key of the inserted sequence is either the new key or one of the old
/// keys; in particular the head key is bounded below.
proof fn lemma_insert_entry_first_key(s: Seq<SpecEntry>, k: Seq<char>, v: Seq<char>, j: int)
    requires
        entries_sorted(s),
        0 <= j < spec_insert_entry(s, k, v).len(),
    ensures
        spec_insert_entry(s, k, v)[j].0 == k || exists|m: int|
            0 <= m < s.len() && spec_insert_entry(s, k, v)[j].0 == #[trigger] s[m].0,
    decreases s.len(),
{
    let r = spec_insert_entry(s, k, v);
    if s.len() == 0 {
    } else if lex_lt(k, s[0].0) {
        if j > 0 {
            assert(r[j].0 == s[j - 1].0);
        }
    } else if k == s[0].0 {
        if j > 0 {
            assert(r[j].0 == s[j].0);
        }
    } else {
        if j > 0 {
            assert(entries_sorted(s.drop_first())) by {
                assert(forall|i2: int, j2: int| 0 <= i2 < j2 < s.drop_first().len()
                    ==> lex_lt(#[trigger] s.drop_first()[i2].0, #[trigger] s.drop_first()[j2].0));
            }
            lemma_insert_entry_first_key(s.drop_first(), k, v, j - 1);
            let rest = spec_insert_entry(s.drop_first(), k, v);
            if rest[j - 1].0 == k {
            } else {
                let m = choose|m: int|
                    0 <= m < s.drop_first().len() && rest[j - 1].0 == #[trigger] s.drop_first()[m].0;
                assert(s.drop_first()[m].0 == s[m + 1].0);
            }
        }
    }
}

impl Config {
    /// The empty configuration map.
    pub fn new() -> (r: Config)
        ensures
            r@ == Seq::<SpecEntry>::empty(),
            entries_sorted(r@),
    {
        let r = Config { entries: Vec::new() };
        proof {
            assert(r@ =~= Seq::<SpecEntry>::empty());
        }
        r
    }

    /// Whether the map holds no entry.
    pub fn is_empty(&self) -> (r: bool)
        ensures
            r == (self@.len() == 0),
    {
        self.entries.len() == 0
    }

    /// The number of entries.
    pub fn len(&self) -> (r: usize)
        ensures
            r == self@.len(),
    {
        self.entries.len()
    }

    /// The key of the entry at position `i`.
    pub fn key_at(&self, i: usize) -> (r: &String)
        requires
            i < self@.len(),
        ensures
            r@ == self@[i as int].0,
    {
        &self.entries[i].0
    }

    /// The value of the entry at position `i`.
    pub fn value_at(&self, i: usize) -> (r: &String)
        requires
            i < self@.len(),
        ensures
            r@ == self@[i as int].1,
    {
        &self.entries[i].1
    }

    /// Binds `key` to `value`, replacing any earlier binding of the same key
    /// and keeping the entries sorted.
    pub fn insert(&mut self, key: &str, value: &str)
        requires
            entries_sorted(old(self)@),
        ensures
            final(self)@ == spec_insert_entry(old(self)@, key@, value@),
            entries_sorted(final(self)@),
    {
        proof {
            lemma_insert_entry_sorted(old(self)@, key@, value@);
        }
        let ghost orig = self@;
        let mut i: usize = 0;
        loop
            invariant
                old(self)@ == orig,
                entries_sorted(orig),
                i <= self@.len(),
                self@ == orig,
                self.entries@.len() == orig.len(),
                forall|m: int| 0 <= m < i ==> lex_lt(#[trigger] orig[m].0, key@),
            ensures
                i <= orig.len(),
                self@ == orig,
                self.entries@.len() == orig.len(),
                forall|m: int| 0 <= m < i ==> lex_lt(#[trigger] orig[m].0, key@),
                i == orig.len() || lex_lt(key@, orig[i as int].0),
            decreases self@.len() - i,
        {
            if i == self.entries.len() {
                break;
            }
            let o = str_compare(key, self.entries[i].0.as_str());
            match o {
                StrOrder::After => {
                    i = i + 1;
                }
                StrOrder::Same => {
                    let mut owned_key = String::new();
                    owned_key.append(key);
                    let mut owned_value = String::new();
                    owned_value.append(value);
                    proof {
                        assert(owned_key@ =~= key@);
                        assert(owned_value@ =~= value@);
                        lemma_lex_trichotomy(orig[i as int].0, key@);
                        lemma_insert_keeps_prefix(orig, key@, value@, i as int);
                    }
                    self.entries.set(i, (owned_key, owned_value));
                    proof {
                        assert(self@ =~= spec_insert_entry(orig, key@, value@));
                    }
                    return;
                }
                StrOrder::Before => {
                    break;
                }
            }
        }
        let mut owned_key = String::new();
        owned_key.append(key);
        let mut owned_value = String::new();
        owned_value.append(value);
        proof {
            assert(owned_key@ =~= key@);
            assert(owned_value@ =~= value@);
            if i < orig.len() {
                lemma_lex_trichotomy(key@, orig[i as int].0);
            }
            lemma_insert_keeps_prefix(orig, key@, value@, i as int);
        }
        self.entries.insert(i, (owned_key, owned_value));
        proof {
            assert(self@ =~= spec_insert_entry(orig, key@, value@));
        }
    }

    /// Inserts every pair of `pairs`, left to right.
    pub fn insert_all(&mut self, pairs: &[(&str, &str)])
        requires
            entries_sorted(old(self)@),
        ensures
            final(self)@ == spec_insert_entries(old(self)@, pairs.deep_view()),
            entries_sorted(final(self)@),
    {
        let ghost orig = self@;
        let ghost pv = pairs.deep_view();
        let mut i: usize = 0;
        proof {
            assert(pairs.deep_view().len() == pairs@.len());
        }
        while i < pairs.len()
            invariant
                entries_sorted(self@),
                i <= pv.len(),
                pv.len() == pairs@.len(),
                pv == pairs.deep_view(),
                forall|m: int| 0 <= m < pv.len()
                    ==> #[trigger] pv[m] == (pairs@[m].0@, pairs@[m].1@),
                self@ == spec_insert_entries(orig, pv.subrange(0, i as int)),
            decreases pv.len() - i,
        {
            let pair = vstd::slice::slice_index_get(pairs, i);
            let ghost before = self@;
            self.insert(pair.0, pair.1);
            proof {
                lemma_insert_entries_snoc(orig, pv, i as int);
            }
            i = i + 1;
        }
        proof {
            assert(pv.subrange(0, pv.len() as int) =~= pv);
        }
    }
}

/// Folding one more pair onto a prefix equals the fold of the longer prefix.
proof fn lemma_insert_entries_snoc(orig: Seq<SpecEntry>, pv: Seq<SpecEntry>, i: int)
    requires
        0 <= i < pv.len(),
    ensures
        spec_insert_entry(spec_insert_entries(orig, pv.subrange(0, i)), pv[i].0, pv[i].1)
            == spec_insert_entries(orig, pv.subrange(0, i + 1)),
    decreases i,
{
    if i == 0 {
        let s0 = pv.subrange(0, 0);
        let s1 = pv.subrange(0, 1);
        assert(s0 =~= Seq::<SpecEntry>::empty());
        assert(spec_insert_entries(orig, s0) == orig);
        assert(s1.len() == 1);
        assert(s1[0] == pv[0]);
        assert(s1.drop_first() =~= Seq::<SpecEntry>::empty());
        let one = spec_insert_entry(orig, s1[0].0, s1[0].1);
        assert(spec_insert_entries(one, s1.drop_first()) == one);
        assert(spec_insert_entries(orig, s1) == one);
    } else {
        let s1 = pv.subrange(0, i + 1);
        assert(s1[0] == pv[0]);
        assert(pv.subrange(0, i).drop_first() =~= pv.drop_first().subrange(0, i - 1));
        assert(s1.drop_first() =~= pv.drop_first().subrange(0, i));
        lemma_insert_entries_snoc(spec_insert_entry(orig, pv[0].0, pv[0].1), pv.drop_first(), i - 1);
        assert(pv.drop_first()[i - 1] == pv[i]);
    }
}

/// After a sorted insert at position `i`, the entries before `i` are kept,
/// the entry at `i` is the new pair, and what follows is the old tail.
proof fn lemma_insert_keeps_prefix(s: Seq<SpecEntry>, k: Seq<char>, v: Seq<char>, i: int)
    requires
        entries_sorted(s),
        0 <= i <= s.len(),
        forall|m: int| 0 <= m < i ==> lex_lt(#[trigger] s[m].0, k),
        i < s.len() ==> !lex_lt(s[i].0, k),
    ensures
        i < s.len() && s[i].0 == k ==> spec_insert_entry(s, k, v) == s.update(i, (k, v)),
        (i == s.len() || lex_lt(k, s[i].0)) ==> spec_insert_entry(s, k, v)
            == s.subrange(0, i) + seq![(k, v)] + s.subrange(i, s.len() as int),
    decreases i,
{
    lemma_lex_trichotomy(k, if i < s.len() { s[i].0 } else { k });
    if i == 0 {
        if s.len() == 0 {
            assert(spec_insert_entry(s, k, v) =~= s.subrange(0, 0) + seq![(k, v)]
                + s.subrange(0, s.len() as int));
        } else if lex_lt(k, s[0].0) {
            assert(spec_insert_entry(s, k, v) =~= s.subrange(0, 0) + seq![(k, v)]
                + s.subrange(0, s.len() as int));
        } else {
        }
    } else {
        assert(lex_lt(s[0].0, k));
        lemma_lex_trichotomy(s[0].0, k);
        assert(entries_sorted(s.drop_first())) by {
            assert(forall|i2: int, j2: int| 0 <= i2 < j2 < s.drop_first().len()
                ==> lex_lt(#[trigger] s.drop_first()[i2].0, #[trigger] s.drop_first()[j2].0));
        }
        assert(forall|m: int| 0 <= m < i - 1 ==> lex_lt(#[trigger] s.drop_first()[m].0, k)) by {
            assert(forall|m: int| 0 <= m < i - 1 ==> s.drop_first()[m] == s[m + 1]);
        }
        assert(i - 1 < s.drop_first().len() ==> s.drop_first()[i - 1] == s[i]);
        lemma_insert_keeps_prefix(s.drop_first(), k, v, i - 1);
        if i < s.len() && s[i].0 == k {
            assert(spec_insert_entry(s, k, v)
                =~= s.update(i, (k, v)));
        } else {
            assert(spec_insert_entry(s, k, v)
                =~= s.subrange(0, i) + seq![(k, v)] + s.subrange(i, s.len() as int));
        }
    }
}

impl Clone for Config {
    /// A clone carries exactly the same entries.
    fn clone(&self) -> (r: Self)
        ensures
            r@ == self@,
    {
        let mut entries: Vec<(String, String)> = Vec::new();
        let mut i: usize = 0;
        while i < self.entries.len()
            invariant
                i <= self.entries@.len(),
                entries@.len() == i as int,
                forall|m: int| 0 <= m < i ==> #[trigger] entries@[m] == self.entries@[m],
            decreases self.entries@.len() - i,
        {
            let k = self.entries[i].0.clone();
            let v = self.entries[i].1.clone();
            entries.push((k, v));
            proof {
                assert(entries@[i as int] =~= self.entries@[i as int]);
            }
            i = i + 1;
        }
        let r = Config { entries };
        proof {
            assert(r@ =~= self@);
        }
        r
    }
}

/// A version selector for a resource.
pub enum Version {
    /// Use the latest available version.
    Latest,
    /// Run against every version.
    Every,
    /// Pin the exact version given by the key/value mapping.
    Custom(Config),
}

/// The mathematical value of a version selector.
pub ghost enum SpecVersion {
    Latest,
    Every,
    Custom(Seq<SpecEntry>),
}

impl View for Version {
    type V = SpecVersion;

    open spec fn view(&self) -> SpecVersion {
        match self {
            Version::Latest => SpecVersion::Latest,
            Version::Every => SpecVersion::Every,
            Version::Custom(c) => SpecVersion::Custom(c@),
        }
    }
}

impl Clone for Version {
    /// A clone carries exactly the same selector.
    fn clone(&self) -> (r: Self)
        ensures
            r@ == self@,
    {
        match self {
            Version::Latest => Version::Latest,
            Version::Every => Version::Every,
            Version::Custom(c) => Version::Custom(c.clone()),
        }
    }
}

} // verus!
