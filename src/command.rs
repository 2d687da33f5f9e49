use vstd::prelude::*;

use crate::entry::{identifier_of, opt_str_view, opt_view, Entry, EntryView};
use crate::index::{entries_view, registered, Index};
use crate::resolve::{resolve, resolve_for_read_or_remove, Resolution, Resolved};

verus! {

/// The abstract value of a sequence of strings.
pub open spec fn strings_view(v: Seq<String>) -> Seq<Seq<char>> {
    v.map_values(|s: String| s@)
}

/// The storage identifiers of the entries `s`, in order.
pub open spec fn identifiers_of(s: Seq<EntryView>) -> Seq<Seq<char>> {
    s.map_values(|e: EntryView| identifier_of(e.0, e.1))
}

/// One line of a listing: `* ` and then the identifier.
pub open spec fn bullet(id: Seq<char>) -> Seq<char> {
    seq!['*', ' '] + id
}

/// The lines of a listing of `ids`, joined by line breaks, with no line break
/// at the end.
pub open spec fn bullets(ids: Seq<Seq<char>>) -> Seq<char>
    decreases ids.len(),
{
    if ids.len() == 0 {
        Seq::empty()
    } else if ids.len() == 1 {
        bullet(ids[0])
    } else {
        bullets(ids.drop_last()) + seq!['\n'] + bullet(ids.last())
    }
}

/// The storage identifiers of `entries`, in order.
pub fn identifiers(entries: &Vec<Entry>) -> (r: Vec<String>)
    ensures
        strings_view(r@) == identifiers_of(entries_view(entries@)),
{
    let mut r: Vec<String> = Vec::new();
    let mut i: usize = 0;
    while i < entries.len()
        invariant
            i <= entries@.len(),
            strings_view(r@) == identifiers_of(entries_view(entries@.take(i as int))),
        decreases entries@.len() - i,
    {
        let id = entries[i].identifier();
        proof {
            assert(entries_view(entries@.take(i + 1)) =~= entries_view(
                entries@.take(i as int),
            ).push(entries@[i as int]@));
            assert(strings_view(r@.push(id)) =~= strings_view(r@).push(id@));
            assert(identifiers_of(entries_view(entries@.take(i + 1))) =~= identifiers_of(
                entries_view(entries@.take(i as int)),
            ).push(id@));
        }
        r.push(id);
        i = i + 1;
    }
    assert(entries@.take(entries@.len() as int) =~= entries@);
    r
}

/// Renders `ids` as a listing: one `* id` line each, joined by line breaks.
pub fn render_bullets(ids: &Vec<String>) -> (r: String)
    ensures
        r@ == bullets(strings_view(ids@)),
{
    let mut out = String::new();
    let mut i: usize = 0;
    while i < ids.len()
        invariant
            i <= ids@.len(),
            out@ == bullets(strings_view(ids@.take(i as int))),
        decreases ids@.len() - i,
    {
        let ghost before = out@;
        if i > 0 {
            out.append("\n");
        }
        out.append("* ");
        out.append(ids[i].as_str());
        proof {
            reveal_strlit("\n");
            reveal_strlit("* ");
            let t = strings_view(ids@.take(i + 1));
            assert(t.drop_last() =~= strings_view(ids@.take(i as int)));
            assert(t.last() == ids@[i as int]@);
            if i == 0 {
                assert(out@ =~= bullet(t[0]));
            } else {
                assert(out@ =~= before + seq!['\n'] + bullet(t.last()));
            }
        }
        i = i + 1;
    }
    assert(ids@.take(ids@.len() as int) =~= ids@);
    out
}

/// The abstract value of a read plan.
pub enum ReadStep {
    Fetch(Seq<char>),
    Ambiguous(Seq<Seq<char>>),
}

/// What reading a secret comes to.
#[derive(Debug, PartialEq, Eq)]
pub enum ReadPlan {
    /// Ask the credential store for the secret under this identifier. Where
    /// the index knows no entry with the key, this is the key itself, and the
    /// store reports whether it holds it.
    Fetch(String),
    /// Several entries share the key: these are their identifiers, and no
    /// store operation is made.
    Ambiguous(Vec<String>),
}

impl View for ReadPlan {
    type V = ReadStep;

    open spec fn view(&self) -> ReadStep {
        match self {
            ReadPlan::Fetch(id) => ReadStep::Fetch(id@),
            ReadPlan::Ambiguous(ids) => ReadStep::Ambiguous(strings_view(ids@)),
        }
    }
}

/// The read plan for the query `(key, tag)` against the entries `s`.
pub open spec fn read_step(s: Seq<EntryView>, key: Seq<char>, tag: Option<Seq<char>>) -> ReadStep {
    match resolve(s, key, tag) {
        Resolved::Unique(e) => ReadStep::Fetch(identifier_of(e.0, e.1)),
        Resolved::Ambiguous(c) => ReadStep::Ambiguous(identifiers_of(c)),
        Resolved::NotFound => ReadStep::Fetch(key),
    }
}

/// Decides how to read the secret that the query `(key, tag)` names.
pub fn plan_read(index: &Index, key: &str, tag: Option<&str>) -> (r: ReadPlan)
    ensures
        r@ == read_step(index@, key@, opt_str_view(tag)),
{
    match resolve_for_read_or_remove(index, key, tag) {
        Resolution::Unique(e) => ReadPlan::Fetch(e.identifier()),
        Resolution::Ambiguous(c) => ReadPlan::Ambiguous(identifiers(&c)),
        Resolution::NotFound => ReadPlan::Fetch(key.to_owned()),
    }
}

/// Updates the index once the credential store has answered a request to
/// store the secret of `(key, tag)`. `stored` is whether it succeeded. Only a
/// success registers the entry. Returns whether the index changed, that is,
/// whether it must be saved.
pub fn finish_set(index: &mut Index, key: String, tag: Option<String>, stored: bool) -> (persist:
    bool)
    requires
        old(index).wf(),
    ensures
        final(index).wf(),
        stored ==> final(index)@ == registered(old(index)@, (key@, opt_view(tag))),
        !stored ==> final(index)@ == old(index)@,
        persist == (stored && !old(index)@.contains((key@, opt_view(tag)))),
{
    if stored {
        index.register(key, tag)
    } else {
        false
    }
}

/// Updates the index once the credential store has answered a request to
/// delete the secret of `target`. `deleted` is whether it succeeded. Only a
/// success removes the entry. Returns whether the index changed, that is,
/// whether it must be saved.
pub fn finish_remove(index: &mut Index, target: &Entry, deleted: bool) -> (persist: bool)
    requires
        old(index).wf(),
    ensures
        final(index).wf(),
        persist == (deleted && old(index)@.contains(target@)),
        !persist ==> final(index)@ == old(index)@,
        persist ==> exists|i: int|
            0 <= i < old(index)@.len() && old(index)@[i] == target@ && final(index)@ == old(
                index,
            )@.remove(i),
{
    if deleted {
        index.unregister(target.key.as_str(), crate::entry::as_opt_str(&target.tag))
    } else {
        false
    }
}

} // verus!
