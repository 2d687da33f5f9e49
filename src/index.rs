use vstd::prelude::*;

use crate::entry::{opt_str_view, opt_view, Entry, EntryView};

verus! {

/// The abstract value of a sequence of entries.
pub open spec fn entries_view(v: Seq<Entry>) -> Seq<EntryView> {
    v.map_values(|e: Entry| e@)
}

/// `s` after `e` has been registered: unchanged if it already holds `e`,
/// else with `e` added at the end.
pub open spec fn registered(s: Seq<EntryView>, e: EntryView) -> Seq<EntryView> {
    if s.contains(e) {
        s
    } else {
        s.push(e)
    }
}

/// The entries of `s`, each once, in the order of first occurrence.
pub open spec fn dedup(s: Seq<EntryView>) -> Seq<EntryView>
    decreases s.len(),
{
    if s.len() == 0 {
        s
    } else {
        registered(dedup(s.drop_last()), s.last())
    }
}

/// Whether an entry answers a query by `key`, restricted to `tag_filter`
/// exactly when one is given.
pub open spec fn matches_query(
    key: Seq<char>,
    tag_filter: Option<Seq<char>>,
    e: EntryView,
) -> bool {
    e.0 == key && (tag_filter is None || e.1 == tag_filter)
}

/// The entries of `s` that answer a query by `key` and `tag_filter`, in order.
pub open spec fn matching(
    s: Seq<EntryView>,
    key: Seq<char>,
    tag_filter: Option<Seq<char>>,
) -> Seq<EntryView> {
    s.filter(|e: EntryView| matches_query(key, tag_filter, e))
}

/// Which entries a listing shows.
#[derive(Debug, Clone, PartialEq, Eq)]
pub enum TagFilter {
    /// Every entry.
    All,
    /// The entries without a tag.
    NoTagOnly,
    /// The entries whose tag is exactly this one.
    Tag(String),
}

/// Whether a listing under `f` shows the entry `e`.
pub open spec fn admits(f: TagFilter, e: EntryView) -> bool {
    match f {
        TagFilter::All => true,
        TagFilter::NoTagOnly => e.1 is None,
        TagFilter::Tag(t) => e.1 == Some(t@),
    }
}

/// The entries of `s` that a listing under `f` shows, in order.
pub open spec fn listed(s: Seq<EntryView>, f: TagFilter) -> Seq<EntryView> {
    s.filter(|e: EntryView| admits(f, e))
}

/// The set of `(key, tag)` pairs that are known to hold a secret in the
/// credential store. No pair is held twice; pairs keep the order in which
/// they were registered.
#[derive(Debug)]
pub struct Index {
    entries: Vec<Entry>,
}

impl View for Index {
    type V = Seq<EntryView>;

    closed spec fn view(&self) -> Seq<EntryView> {
        entries_view(self.entries@)
    }
}

proof fn lemma_view_push(v: Seq<Entry>, e: Entry)
    ensures
        entries_view(v.push(e)) == entries_view(v).push(e@),
{
    assert(entries_view(v.push(e)) =~= entries_view(v).push(e@));
}

proof fn lemma_remove_keeps_distinct(s: Seq<EntryView>, i: int)
    requires
        s.no_duplicates(),
        0 <= i < s.len(),
    ensures
        s.remove(i).no_duplicates(),
        !s.remove(i).contains(s[i]),
{
    let r = s.remove(i);
    assert forall|a: int, b: int| 0 <= a < r.len() && 0 <= b < r.len() && a != b implies r[a]
        != r[b] by {
        let a2 = if a < i { a } else { a + 1 };
        let b2 = if b < i { b } else { b + 1 };
        assert(r[a] == s[a2]);
        assert(r[b] == s[b2]);
    }
    if r.contains(s[i]) {
        let k = choose|k: int| 0 <= k < r.len() && r[k] == s[i];
        let k2 = if k < i { k } else { k + 1 };
        assert(s[k2] == s[i]);
    }
}

impl Index {
    /// The index holds no pair twice.
    pub open spec fn wf(&self) -> bool {
        self@.no_duplicates()
    }

    /// An empty index.
    pub fn new() -> (r: Index)
        ensures
            r.wf(),
            r@ == Seq::<EntryView>::empty(),
    {
        let r = Index { entries: Vec::new() };
        assert(r@ =~= Seq::<EntryView>::empty());
        r
    }

    /// The number of pairs held.
    pub fn len(&self) -> (r: usize)
        ensures
            r == self@.len(),
    {
        self.entries.len()
    }

    /// Whether the index holds no pair.
    pub fn is_empty(&self) -> (r: bool)
        ensures
            r == (self@.len() == 0),
    {
        self.entries.len() == 0
    }

    /// Whether the index holds `(key, tag)`.
    pub fn contains(&self, key: &str, tag: Option<&str>) -> (r: bool)
        ensures
            r == self@.contains((key@, opt_str_view(tag))),
    {
        self.position(key, tag).is_some()
    }

    /// Where `(key, tag)` stands in the index, if it is there.
    fn position(&self, key: &str, tag: Option<&str>) -> (r: Option<usize>)
        ensures
            match r {
                Some(i) => i < self@.len() && self@[i as int] == (key@, opt_str_view(tag)),
                None => !self@.contains((key@, opt_str_view(tag))),
            },
    {
        let ghost e = (key@, opt_str_view(tag));
        let mut i: usize = 0;
        while i < self.entries.len()
            invariant
                i <= self.entries@.len(),
                e == (key@, opt_str_view(tag)),
                forall|j: int| 0 <= j < i ==> self@[j] != e,
            decreases self.entries@.len() - i,
        {
            assert(self@[i as int] == self.entries@[i as int]@);
            if self.entries[i].is(key, tag) {
                return Some(i);
            }
            i = i + 1;
        }
        None
    }

    /// Registers `(key, tag)`. Returns whether the index changed: registering
    /// a pair that is already held changes nothing.
    pub fn register(&mut self, key: String, tag: Option<String>) -> (changed: bool)
        requires
            old(self).wf(),
        ensures
            final(self).wf(),
            final(self)@ == registered(old(self)@, (key@, opt_view(tag))),
            changed == !old(self)@.contains((key@, opt_view(tag))),
    {
        let present = match &tag {
            Some(t) => self.contains(key.as_str(), Some(t.as_str())),
            None => self.contains(key.as_str(), None),
        };
        if present {
            false
        } else {
            let e = Entry::new(key, tag);
            proof {
                lemma_view_push(self.entries@, e);
            }
            self.entries.push(e);
            true
        }
    }

    /// Removes the pair `(key, tag)`. Returns whether it was held. The other
    /// pairs keep their order.
    pub fn unregister(&mut self, key: &str, tag: Option<&str>) -> (removed: bool)
        requires
            old(self).wf(),
        ensures
            final(self).wf(),
            removed == old(self)@.contains((key@, opt_str_view(tag))),
            !final(self)@.contains((key@, opt_str_view(tag))),
            !removed ==> final(self)@ == old(self)@,
            removed ==> exists|i: int|
                0 <= i < old(self)@.len() && old(self)@[i] == (key@, opt_str_view(tag))
                    && final(self)@ == old(self)@.remove(i),
    {
        match self.position(key, tag) {
            Some(i) => {
                let ghost before = self@;
                self.entries.remove(i);
                proof {
                    assert(self@ =~= before.remove(i as int));
                    lemma_remove_keeps_distinct(before, i as int);
                }
                true
            },
            None => false,
        }
    }

    /// An index of the given entries, each held once, in the order of first
    /// occurrence.
    pub fn from_entries(entries: &Vec<Entry>) -> (r: Index)
        ensures
            r.wf(),
            r@ == dedup(entries_view(entries@)),
    {
        let mut r = Index::new();
        let mut i: usize = 0;
        while i < entries.len()
            invariant
                i <= entries@.len(),
                r.wf(),
                r@ == dedup(entries_view(entries@.take(i as int))),
            decreases entries@.len() - i,
        {
            let e = entries[i].duplicate();
            proof {
                let s = entries_view(entries@.take(i + 1));
                assert(s.drop_last() =~= entries_view(entries@.take(i as int)));
                assert(s.last() == e@);
            }
            r.register(e.key, e.tag);
            i = i + 1;
        }
        assert(entries@.take(entries@.len() as int) =~= entries@);
        r
    }

    /// Copies of the entries held, in order.
    pub fn to_entries(&self) -> (r: Vec<Entry>)
        ensures
            entries_view(r@) == self@,
    {
        let mut r: Vec<Entry> = Vec::new();
        let mut i: usize = 0;
        while i < self.entries.len()
            invariant
                i <= self.entries@.len(),
                entries_view(r@) == self@.take(i as int),
            decreases self.entries@.len() - i,
        {
            let e = self.entries[i].duplicate();
            proof {
                lemma_view_push(r@, e);
                assert(self@.take(i + 1) =~= self@.take(i as int).push(e@));
            }
            r.push(e);
            i = i + 1;
        }
        assert(self@.take(self@.len() as int) =~= self@);
        r
    }

    /// The entries whose key is `key` and, when `tag_filter` is given, whose
    /// tag is exactly that tag, in index order.
    pub fn find_matches(&self, key: &str, tag_filter: Option<&str>) -> (r: Vec<Entry>)
        ensures
            entries_view(r@) == matching(self@, key@, opt_str_view(tag_filter)),
    {
        let ghost p = |x: EntryView| matches_query(key@, opt_str_view(tag_filter), x);
        let mut r: Vec<Entry> = Vec::new();
        let mut i: usize = 0;
        while i < self.entries.len()
            invariant
                i <= self.entries@.len(),
                p == (|x: EntryView| matches_query(key@, opt_str_view(tag_filter), x)),
                entries_view(r@) == self@.take(i as int).filter(p),
            decreases self.entries@.len() - i,
        {
            let e = &self.entries[i];
            proof {
                assert(self@[i as int] == e@);
                assert(self@.take(i + 1) =~= self@.take(i as int).push(e@));
                self@.take(i as int).lemma_filter_push(e@, p);
            }
            let hit = crate::entry::str_eq(e.key.as_str(), key) && match tag_filter {
                Some(t) => crate::entry::opt_eq(crate::entry::as_opt_str(&e.tag), Some(t)),
                None => true,
            };
            assert(hit == matches_query(key@, opt_str_view(tag_filter), e@));
            if hit {
                let d = e.duplicate();
                proof {
                    lemma_view_push(r@, d);
                }
                r.push(d);
            }
            i = i + 1;
        }
        assert(self@.take(self@.len() as int) =~= self@);
        r
    }

    /// The entries that a listing under `filter` shows, in index order.
    pub fn list(&self, filter: &TagFilter) -> (r: Vec<Entry>)
        ensures
            entries_view(r@) == listed(self@, *filter),
    {
        let ghost p = |x: EntryView| admits(*filter, x);
        let mut r: Vec<Entry> = Vec::new();
        let mut i: usize = 0;
        while i < self.entries.len()
            invariant
                i <= self.entries@.len(),
                p == (|x: EntryView| admits(*filter, x)),
                entries_view(r@) == self@.take(i as int).filter(p),
            decreases self.entries@.len() - i,
        {
            let e = &self.entries[i];
            proof {
                assert(self@[i as int] == e@);
                assert(self@.take(i + 1) =~= self@.take(i as int).push(e@));
                self@.take(i as int).lemma_filter_push(e@, p);
            }
            let shown = match filter {
                TagFilter::All => true,
                TagFilter::NoTagOnly => e.tag.is_none(),
                TagFilter::Tag(t) => crate::entry::opt_eq(
                    crate::entry::as_opt_str(&e.tag),
                    Some(t.as_str()),
                ),
            };
            assert(shown == admits(*filter, e@));
            if shown {
                let d = e.duplicate();
                proof {
                    lemma_view_push(r@, d);
                }
                r.push(d);
            }
            i = i + 1;
        }
        assert(self@.take(self@.len() as int) =~= self@);
        r
    }
}

} // verus!
