use vstd::prelude::*;

use crate::entry::{identifier_of, separator, EntryView};
use crate::index::{dedup, registered};

verus! {

/// Keys and tags share one namespace: the key `k:t` without a tag has the same
/// storage identifier as the key `k` with the tag `t`.
pub proof fn lemma_identifier_collision(k: Seq<char>, t: Seq<char>)
    ensures
        identifier_of(k + seq![separator()] + t, None) == identifier_of(k, Some(t)),
{
}

/// Among keys that hold no separator, distinct `(key, tag)` pairs have
/// distinct storage identifiers.
pub proof fn lemma_identifier_injective(
    k1: Seq<char>,
    t1: Option<Seq<char>>,
    k2: Seq<char>,
    t2: Option<Seq<char>>,
)
    requires
        !k1.contains(separator()),
        !k2.contains(separator()),
        identifier_of(k1, t1) == identifier_of(k2, t2),
    ensures
        k1 == k2,
        t1 == t2,
{
    let id = identifier_of(k1, t1);
    match (t1, t2) {
        (Some(a), None) => {
            assert(id[k1.len() as int] == separator());
            assert(k2[k1.len() as int] == separator());
        },
        (None, Some(b)) => {
            assert(id[k2.len() as int] == separator());
            assert(k1[k2.len() as int] == separator());
        },
        (Some(a), Some(b)) => {
            if k1.len() < k2.len() {
                assert(id[k1.len() as int] == separator());
                assert(k2[k1.len() as int] == separator());
            } else if k2.len() < k1.len() {
                assert(id[k2.len() as int] == separator());
                assert(k1[k2.len() as int] == separator());
            } else {
                assert(k1 =~= id.take(k1.len() as int));
                assert(k2 =~= id.take(k2.len() as int));
                assert(a =~= id.skip(k1.len() as int + 1));
                assert(b =~= id.skip(k2.len() as int + 1));
            }
        },
        (None, None) => {},
    }
}

/// Building an index from a sequence of entries yields each of them once, and
/// nothing else.
pub proof fn lemma_dedup_contents(s: Seq<EntryView>)
    ensures
        dedup(s).no_duplicates(),
        forall|e: EntryView| #[trigger] dedup(s).contains(e) <==> s.contains(e),
    decreases s.len(),
{
    if s.len() > 0 {
        let d = dedup(s.drop_last());
        lemma_dedup_contents(s.drop_last());
        assert forall|e: EntryView| #[trigger] s.contains(e) <==> (s.drop_last().contains(e) || e
            == s.last()) by {
            if s.contains(e) {
                let i = choose|i: int| 0 <= i < s.len() && s[i] == e;
                if i < s.len() - 1 {
                    assert(s.drop_last()[i] == e);
                }
            }
            if s.drop_last().contains(e) {
                let i = choose|i: int| 0 <= i < s.len() - 1 && s.drop_last()[i] == e;
                assert(s[i] == e);
            }
            if e == s.last() {
                assert(s[s.len() - 1] == e);
            }
        }
        if !d.contains(s.last()) {
            assert forall|e: EntryView| #[trigger] d.push(s.last()).contains(e) <==> (d.contains(e)
                || e == s.last()) by {
                if d.push(s.last()).contains(e) {
                    let i = choose|i: int| 0 <= i < d.len() + 1 && d.push(s.last())[i] == e;
                    if i < d.len() {
                        assert(d[i] == e);
                    }
                }
                if d.contains(e) {
                    let i = choose|i: int| 0 <= i < d.len() && d[i] == e;
                    assert(d.push(s.last())[i] == e);
                }
                if e == s.last() {
                    assert(d.push(s.last())[d.len() as int] == e);
                }
            }
        }
    }
}

/// Round trip of the persisted index: the entries that a well-formed index
/// hands out build the very same index again.
pub proof fn lemma_round_trip(s: Seq<EntryView>)
    requires
        s.no_duplicates(),
    ensures
        dedup(s) == s,
    decreases s.len(),
{
    if s.len() > 0 {
        let p = s.drop_last();
        assert(p.no_duplicates());
        lemma_round_trip(p);
        assert(!p.contains(s.last())) by {
            if p.contains(s.last()) {
                let i = choose|i: int| 0 <= i < p.len() && p[i] == s.last();
                assert(s[i] == s[s.len() - 1]);
            }
        }
        assert(p.push(s.last()) =~= s);
    }
}

/// Saving an index that was just loaded, and loading it again, gives back the
/// index that was loaded; and loading keeps exactly the set of stored entries.
pub proof fn lemma_reload_stable(s: Seq<EntryView>)
    ensures
        dedup(dedup(s)) == dedup(s),
        dedup(s).to_set() == s.to_set(),
{
    lemma_dedup_contents(s);
    lemma_round_trip(dedup(s));
    assert(dedup(s).to_set() =~= s.to_set());
}

/// Registering is idempotent: after the first registration the pair is held,
/// and registering it again changes nothing and reports no change.
pub proof fn lemma_register_idempotent(s: Seq<EntryView>, e: EntryView)
    ensures
        registered(s, e).contains(e),
        registered(registered(s, e), e) == registered(s, e),
{
    if !s.contains(e) {
        assert(s.push(e)[s.len() as int] == e);
    }
}

} // verus!
