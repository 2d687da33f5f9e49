use vstd::prelude::*;

use crate::entry::{opt_str_view, Entry, EntryView};
use crate::index::{entries_view, matching, Index};

verus! {

/// The abstract value of a resolution.
pub enum Resolved {
    Unique(EntryView),
    Ambiguous(Seq<EntryView>),
    NotFound,
}

/// What a query by key and optional tag resolves to.
#[derive(Debug, PartialEq, Eq)]
pub enum Resolution {
    /// Exactly one entry is meant.
    Unique(Entry),
    /// Several entries share the key and no tag was given: the caller has to
    /// name one by its tag. These are all of them, in index order.
    Ambiguous(Vec<Entry>),
    /// No entry has the key and no tag was given.
    NotFound,
}

impl View for Resolution {
    type V = Resolved;

    open spec fn view(&self) -> Resolved {
        match self {
            Resolution::Unique(e) => Resolved::Unique(e@),
            Resolution::Ambiguous(v) => Resolved::Ambiguous(entries_view(v@)),
            Resolution::NotFound => Resolved::NotFound,
        }
    }
}

/// What the query `(key, tag)` resolves to against the entries `s`. A given
/// tag names the entry `(key, tag)` whatever the index holds; without one, the
/// entries with that key decide: none, exactly one, or several.
pub open spec fn resolve(s: Seq<EntryView>, key: Seq<char>, tag: Option<Seq<char>>) -> Resolved {
    match tag {
        Some(t) => Resolved::Unique((key, Some(t))),
        None => {
            let c = matching(s, key, None);
            if c.len() == 0 {
                Resolved::NotFound
            } else if c.len() == 1 {
                Resolved::Unique(c[0])
            } else {
                Resolved::Ambiguous(c)
            }
        },
    }
}

/// Resolves the query `(key, tag)` against `index` for reading or removing a
/// secret. Several candidates are never ranked: the answer is then
/// `Ambiguous` with all of them.
pub fn resolve_for_read_or_remove(index: &Index, key: &str, tag: Option<&str>) -> (r: Resolution)
    ensures
        r@ == resolve(index@, key@, opt_str_view(tag)),
{
    match tag {
        Some(t) => Resolution::Unique(Entry::new(key.to_owned(), Some(t.to_owned()))),
        None => {
            let mut c = index.find_matches(key, None);
            if c.len() == 0 {
                Resolution::NotFound
            } else if c.len() == 1 {
                let e = c.remove(0);
                Resolution::Unique(e)
            } else {
                Resolution::Ambiguous(c)
            }
        },
    }
}

} // verus!
