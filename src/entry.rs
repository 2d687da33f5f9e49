use vstd::prelude::*;

verus! {

/// The abstract value of an entry: its key and its optional tag.
pub type EntryView = (Seq<char>, Option<Seq<char>>);

/// The character that joins a key and its tag in a storage identifier.
pub open spec fn separator() -> char {
    ':'
}

/// The mathematical value of an optional string.
pub open spec fn opt_view(o: Option<String>) -> Option<Seq<char>> {
    match o {
        Some(s) => Some(s@),
        None => None,
    }
}

/// The mathematical value of an optional string slice.
pub open spec fn opt_str_view(o: Option<&str>) -> Option<Seq<char>> {
    match o {
        Some(s) => Some(s@),
        None => None,
    }
}

/// The flat identifier under which the secret of `(key, tag)` is stored:
/// `key:tag` when a tag is present, the key itself otherwise.
pub open spec fn identifier_of(key: Seq<char>, tag: Option<Seq<char>>) -> Seq<char> {
    match tag {
        Some(t) => key + seq![separator()] + t,
        None => key,
    }
}

/// A registered secret: a key and an optional tag that tells apart several
/// secrets under the same key.
#[derive(Debug, Clone, PartialEq, Eq, Hash)]
pub struct Entry {
    pub key: String,
    pub tag: Option<String>,
}

impl View for Entry {
    type V = EntryView;

    open spec fn view(&self) -> EntryView {
        (self.key@, opt_view(self.tag))
    }
}

/// Copies an optional string.
pub fn clone_opt(o: &Option<String>) -> (r: Option<String>)
    ensures
        opt_view(r) == opt_view(*o),
{
    match o {
        Some(s) => Some(s.clone()),
        None => None,
    }
}

/// Borrows the contents of an optional string.
pub fn as_opt_str(o: &Option<String>) -> (r: Option<&str>)
    ensures
        opt_str_view(r) == opt_view(*o),
{
    match o {
        Some(s) => Some(s.as_str()),
        None => None,
    }
}

/// Compares two optional strings by value.
pub fn opt_eq(a: Option<&str>, b: Option<&str>) -> (r: bool)
    ensures
        r == (opt_str_view(a) == opt_str_view(b)),
{
    match (a, b) {
        (Some(x), Some(y)) => str_eq(x, y),
        (None, None) => true,
        _ => false,
    }
}

/// Compares two string slices character by character.
pub fn str_eq(a: &str, b: &str) -> (r: bool)
    ensures
        r == (a@ == b@),
{
    let n = a.unicode_len();
    if n != b.unicode_len() {
        return false;
    }
    let mut i: usize = 0;
    while i < n
        invariant
            n == a@.len(),
            n == b@.len(),
            i <= n,
            a@.take(i as int) == b@.take(i as int),
        decreases n - i,
    {
        if a.get_char(i) != b.get_char(i) {
            assert(a@[i as int] != b@[i as int]);
            return false;
        }
        assert(a@.take(i + 1) =~= a@.take(i as int).push(a@[i as int]));
        assert(b@.take(i + 1) =~= b@.take(i as int).push(b@[i as int]));
        i = i + 1;
    }
    assert(a@ =~= a@.take(n as int));
    assert(b@ =~= b@.take(n as int));
    true
}

/// The storage identifier of `(key, tag)`: `key:tag` with a tag, `key` without.
///
/// Keys and tags share one namespace: the key `a:b` without a tag has the same
/// identifier as the key `a` with the tag `b`.
pub fn derive_identifier(key: &str, tag: Option<&str>) -> (r: String)
    ensures
        r@ == identifier_of(key@, opt_str_view(tag)),
{
    let mut r = key.to_owned();
    match tag {
        Some(t) => {
            let sep = ":";
            proof {
                reveal_strlit(":");
            }
            r.append(sep);
            r.append(t);
        },
        None => {},
    }
    r
}

impl Entry {
    /// Makes the entry `(key, tag)`.
    pub fn new(key: String, tag: Option<String>) -> (r: Entry)
        ensures
            r@ == (key@, opt_view(tag)),
    {
        Entry { key, tag }
    }

    /// A copy of this entry.
    pub fn duplicate(&self) -> (r: Entry)
        ensures
            r@ == self@,
    {
        Entry { key: self.key.clone(), tag: clone_opt(&self.tag) }
    }

    /// Whether this entry is `(key, tag)`.
    pub fn is(&self, key: &str, tag: Option<&str>) -> (r: bool)
        ensures
            r == (self@ == (key@, opt_str_view(tag))),
    {
        str_eq(self.key.as_str(), key) && opt_eq(as_opt_str(&self.tag), tag)
    }

    /// The storage identifier of this entry.
    pub fn identifier(&self) -> (r: String)
        ensures
            r@ == identifier_of(self@.0, self@.1),
    {
        derive_identifier(self.key.as_str(), as_opt_str(&self.tag))
    }
}

} // verus!
