//! Package descriptors and the repository snapshot that resolution reads.
use vstd::prelude::*;

verus! {

/// The metadata of one package, as its `package.json` holds it.
#[derive(Debug)]
pub struct JSONPackage {
    pub name: String,
    pub version: String,
    pub patches: bool,
    pub filename: String,
    pub url: String,
    pub depends: Vec<String>,
}

/// The text of each name in a list.
pub open spec fn names_view(v: Seq<String>) -> Seq<Seq<char>> {
    v.map_values(|s: String| s@)
}

/// What reading a package's descriptor file gave.
#[derive(Debug)]
pub enum Descriptor {
    /// `<mirror>/<name>/package.json` does not exist.
    Missing,
    /// It exists but could not be read or parsed.
    Unreadable,
    Read(JSONPackage),
}

/// A package name together with what its descriptor file held.
pub struct Entry {
    pub name: String,
    pub descriptor: Descriptor,
}

/// What resolution sees of the local mirror: the index text, and the
/// descriptors that have been read so far.
pub struct Repository {
    pub index: String,
    pub entries: Vec<Entry>,
}

/// The descriptor recorded for `name`: the first entry under that name.
pub open spec fn descriptor_of(entries: Seq<Entry>, name: Seq<char>) -> Option<Descriptor>
    decreases entries.len(),
{
    if entries.len() == 0 {
        None
    } else if entries[0].name@ == name {
        Some(entries[0].descriptor)
    } else {
        descriptor_of(entries.drop_first(), name)
    }
}

impl Repository {
    /// A snapshot of a mirror whose index text is `index`, with no descriptor read yet.
    pub fn new(index: String) -> (r: Repository)
        ensures
            r.index@ == index@,
            r.entries@.len() == 0,
    {
        Repository { index, entries: Vec::new() }
    }

    /// Records what reading the descriptor of `name` gave.
    pub fn record(&mut self, name: String, descriptor: Descriptor)
        ensures
            final(self).index == old(self).index,
            final(self).entries@ == old(self).entries@.push(Entry { name, descriptor }),
    {
        self.entries.push(Entry { name, descriptor });
    }

    /// Looks up the descriptor recorded for `name`.
    pub fn descriptor(&self, name: &str) -> (r: Option<&Descriptor>)
        ensures
            r matches Some(d) ==> descriptor_of(self.entries@, name@) == Some(*d),
            r is None ==> descriptor_of(self.entries@, name@) is None,
    {
        let mut i: usize = 0;
        assert(self.entries@.subrange(0, self.entries@.len() as int) =~= self.entries@);
        while i < self.entries.len()
            invariant
                i <= self.entries@.len(),
                descriptor_of(self.entries@, name@) == descriptor_of(
                    self.entries@.subrange(i as int, self.entries@.len() as int),
                    name@,
                ),
            decreases self.entries@.len() - i,
        {
            let ghost rest = self.entries@.subrange(i as int, self.entries@.len() as int);
            assert(rest.drop_first() =~= self.entries@.subrange(i + 1, self.entries@.len() as int));
            if same_text(self.entries[i].name.as_str(), name) {
                return Some(&self.entries[i].descriptor);
            }
            i = i + 1;
        }
        None
    }
}

/// Whether two texts are equal, character for character.
pub fn same_text(a: &str, b: &str) -> (r: bool)
    ensures
        r == (a@ == b@),
{
    let n = a.unicode_len();
    if n != b.unicode_len() {
        return false;
    }
    let mut i: usize = 0;
    while i < n
        invariant
            n == a@.len(),
            n == b@.len(),
            i <= n,
            a@.take(i as int) == b@.take(i as int),
        decreases n - i,
    {
        if a.get_char(i) != b.get_char(i) {
            return false;
        }
        assert(a@.take(i + 1) =~= a@.take(i as int).push(a@[i as int]));
        assert(b@.take(i + 1) =~= b@.take(i as int).push(b@[i as int]));
        i = i + 1;
    }
    assert(a@.take(n as int) =~= a@);
    assert(b@.take(n as int) =~= b@);
    true
}

} // verus!
