//! The deduplicated catalog of scanned filesystem entries.
//!
//! One `Entry` describes one filesystem object: its base name, its full path
//! (the deduplication key), its kind, and its size in bytes. The catalog
//! itself is an insert-if-absent-by-path collection: a second scan of an
//! already-indexed path changes nothing. Durable storage of the catalog is
//! the caller's concern; the catalog here is the model every query runs on.

use vstd::prelude::*;
use crate::glob::{Matcher, regex_match};

verus! {

/// What kind of filesystem object an entry describes: a directory, or a
/// file with its extension if its name has one.
pub enum EntryKind {
    Directory,
    File { extension: Option<String> },
}

impl Clone for EntryKind {
    fn clone(&self) -> (r: EntryKind)
        ensures
            r == *self,
    {
        match self {
            EntryKind::Directory => EntryKind::Directory,
            EntryKind::File { extension } => EntryKind::File {
                extension: match extension {
                    Option::Some(e) => Option::Some(e.clone()),
                    Option::None => Option::None,
                },
            },
        }
    }
}

/// One scanned filesystem object.
pub struct Entry {
    /// Base name of the file or directory.
    pub name: String,
    /// Full path; the deduplication key within the catalog.
    pub path: String,
    /// Directory, or file with an optional extension.
    pub kind: EntryKind,
    /// For a file, its own byte length; for a directory, the recursive sum
    /// of its descendants' file sizes.
    pub size: u64,
}

impl Clone for Entry {
    fn clone(&self) -> (r: Entry)
        ensures
            r == *self,
    {
        Entry {
            name: self.name.clone(),
            path: self.path.clone(),
            kind: self.kind.clone(),
            size: self.size,
        }
    }
}

/// Index of the last `.` in a name, or -1 if the name has none.
pub open spec fn last_dot(name: Seq<char>) -> int
    decreases name.len(),
{
    if name.len() == 0 {
        -1
    } else if name.last() == '.' {
        name.len() - 1
    } else {
        last_dot(name.drop_last())
    }
}

/// The extension of a file name: the characters after the last `.`, when
/// that dot is neither absent nor the name's first character (so a leading
/// dot alone, as in a hidden file, gives no extension).
pub open spec fn extension_spec(name: Seq<char>) -> Option<Seq<char>> {
    if last_dot(name) >= 1 {
        Option::Some(name.skip(last_dot(name) + 1))
    } else {
        Option::None
    }
}

/// Whether `kind` is the correct classification of an object with this name.
pub open spec fn kind_matches(kind: EntryKind, name: Seq<char>, is_dir: bool) -> bool {
    match kind {
        EntryKind::Directory => is_dir,
        EntryKind::File { extension } => !is_dir && match (extension, extension_spec(name)) {
            (Option::Some(have), Option::Some(want)) => have@ == want,
            (Option::None, Option::None) => true,
            _ => false,
        },
    }
}

/// Classifies a scanned object: directories as `Directory`, files by the
/// extension of their name per `extension_spec`.
pub fn classify(name: &str, is_dir: bool) -> (r: EntryKind)
    ensures
        kind_matches(r, name@, is_dir),
{
    if is_dir {
        return EntryKind::Directory;
    }
    let n = name.unicode_len();
    let mut j: usize = n;
    let mut found = false;
    proof {
        assert(name@.take(n as int) =~= name@);
    }
    while 0 < j && !found
        invariant
            j <= n,
            n == name@.len(),
            !found ==> last_dot(name@) == last_dot(name@.take(j as int)),
            found ==> 1 <= j && name@[j - 1] == '.' && last_dot(name@) == j - 1,
        decreases j + (if found { 0int } else { 1 }),
    {
        let ghost pre = name@.take(j as int);
        proof {
            assert(pre.len() == j);
            assert(pre.last() == name@[j - 1]);
            assert(pre.drop_last() =~= name@.take(j - 1));
        }
        let c = name.get_char(j - 1);
        if c == '.' {
            found = true;
        } else {
            j = j - 1;
        }
    }
    if found && j >= 2 {
        let ext = name.substring_char(j, n);
        proof {
            assert(name@.subrange(j as int, n as int) =~= name@.skip(last_dot(name@) + 1));
        }
        EntryKind::File { extension: Option::Some(ext.to_owned()) }
    } else {
        proof {
            if !found {
                assert(name@.take(0) =~= Seq::<char>::empty());
            }
        }
        EntryKind::File { extension: Option::None }
    }
}

/// Whether some entry of the catalog already carries this path.
pub open spec fn has_path(s: Seq<Entry>, path: Seq<char>) -> bool {
    exists|i: int| 0 <= i < s.len() && s[i].path@ == path
}

/// Insert-if-absent: the catalog unchanged when the path is already present,
/// the entry appended otherwise.
pub open spec fn spec_insert(s: Seq<Entry>, e: Entry) -> Seq<Entry> {
    if has_path(s, e.path@) {
        s
    } else {
        s.push(e)
    }
}

/// One indexing pass: every entry of the batch offered to the catalog in
/// order, each with insert-if-absent semantics.
pub open spec fn spec_index_batch(s: Seq<Entry>, b: Seq<Entry>) -> Seq<Entry>
    decreases b.len(),
{
    if b.len() == 0 {
        s
    } else {
        spec_insert(spec_index_batch(s, b.drop_last()), b.last())
    }
}

/// No two entries share a path.
pub open spec fn unique_paths(s: Seq<Entry>) -> bool {
    forall|i: int, j: int| 0 <= i < j < s.len() ==> s[i].path@ != s[j].path@
}

/// The deduplicated catalog.
pub struct IndexStore {
    entries: Vec<Entry>,
}

impl View for IndexStore {
    type V = Seq<Entry>;

    closed spec fn view(&self) -> Seq<Entry> {
        self.entries@
    }
}

impl IndexStore {
    /// The catalog's invariant: paths are unique.
    pub open spec fn wf(self) -> bool {
        unique_paths(self@)
    }

    /// An empty catalog.
    pub fn new() -> (r: IndexStore)
        ensures
            r@ == Seq::<Entry>::empty(),
            r.wf(),
    {
        IndexStore { entries: Vec::new() }
    }

    /// How many entries the catalog holds.
    pub fn len(&self) -> (r: usize)
        ensures
            r == self@.len(),
    {
        self.entries.len()
    }

    /// All entries, in insertion order.
    pub fn entries(&self) -> (r: &Vec<Entry>)
        ensures
            r@ == self@,
    {
        &self.entries
    }

    /// Whether an entry with this path is already catalogued.
    pub fn contains_path(&self, path: &String) -> (r: bool)
        ensures
            r == has_path(self@, path@),
    {
        let mut i: usize = 0;
        while i < self.entries.len()
            invariant
                i <= self@.len(),
                forall|k: int| 0 <= k < i ==> self@[k].path@ != path@,
            decreases self@.len() - i,
        {
            if self.entries[i].path == *path {
                return true;
            }
            i = i + 1;
        }
        false
    }

    /// Inserts the entry unless its path is already present; reports whether
    /// a row was added.
    pub fn insert_if_absent(&mut self, e: Entry) -> (added: bool)
        requires
            old(self).wf(),
        ensures
            final(self)@ == spec_insert(old(self)@, e),
            final(self).wf(),
            added == !has_path(old(self)@, e.path@),
    {
        let present = self.contains_path(&e.path);
        if present {
            false
        } else {
            proof {
                let s = self@;
                assert forall|i: int, j: int|
                    0 <= i < j < s.push(e).len() implies s.push(e)[i].path@ != s.push(e)[j].path@
                by {
                    if j < s.len() {
                        assert(s.push(e)[i] == s[i] && s.push(e)[j] == s[j]);
                    } else {
                        assert(s.push(e)[i] == s[i] && s.push(e)[j] == e);
                    }
                }
            }
            self.entries.push(e);
            true
        }
    }

    /// One indexing pass over a batch of scanned entries; returns how many
    /// entries were processed (every one of the batch, whether or not it was
    /// new to the catalog).
    pub fn index_batch(&mut self, batch: Vec<Entry>) -> (count: usize)
        requires
            old(self).wf(),
        ensures
            final(self)@ == spec_index_batch(old(self)@, batch@),
            final(self).wf(),
            count == batch@.len(),
    {
        let ghost orig = self@;
        let mut i: usize = 0;
        proof {
            assert(batch@.take(0) =~= Seq::<Entry>::empty());
        }
        while i < batch.len()
            invariant
                i <= batch@.len(),
                self@ == spec_index_batch(orig, batch@.take(i as int)),
                self.wf(),
            decreases batch@.len() - i,
        {
            proof {
                assert(batch@.take(i + 1).drop_last() =~= batch@.take(i as int));
                assert(batch@.take(i + 1).last() == batch@[i as int]);
            }
            let e = batch[i].clone();
            self.insert_if_absent(e);
            i = i + 1;
        }
        proof {
            assert(batch@.take(batch@.len() as int) =~= batch@);
        }
        batch.len()
    }

    /// The entries that are not directories, in catalog order.
    pub fn non_directory_entries(&self) -> (r: Vec<Entry>)
        ensures
            r@ == self@.filter(|e: Entry| !(e.kind is Directory)),
    {
        let ghost pred = |e: Entry| !(e.kind is Directory);
        let mut r: Vec<Entry> = Vec::new();
        let mut i: usize = 0;
        proof {
            reveal(Seq::filter);
            assert(self@.take(0) =~= Seq::<Entry>::empty());
        }
        while i < self.entries.len()
            invariant
                i <= self@.len(),
                r@ == self@.take(i as int).filter(pred),
                pred == (|e: Entry| !(e.kind is Directory)),
            decreases self@.len() - i,
        {
            proof {
                reveal(Seq::filter);
                assert(self@.take(i + 1).drop_last() =~= self@.take(i as int));
                assert(self@.take(i + 1).last() == self@[i as int]);
            }
            let e = &self.entries[i];
            match e.kind {
                EntryKind::Directory => {},
                EntryKind::File { .. } => {
                    r.push(e.clone());
                },
            }
            i = i + 1;
        }
        proof {
            assert(self@.take(self@.len() as int) =~= self@);
        }
        r
    }

    /// The entries whose name the compiled pattern matches, in catalog order.
    pub fn wildcard_search(&self, m: &Matcher) -> (r: Vec<Entry>)
        ensures
            r@ == self@.filter(|e: Entry| regex_match(m.regex_text(), e.name@)),
    {
        let ghost pred = |e: Entry| regex_match(m.regex_text(), e.name@);
        let mut r: Vec<Entry> = Vec::new();
        let mut i: usize = 0;
        proof {
            reveal(Seq::filter);
            assert(self@.take(0) =~= Seq::<Entry>::empty());
        }
        while i < self.entries.len()
            invariant
                i <= self@.len(),
                r@ == self@.take(i as int).filter(pred),
                pred == (|e: Entry| regex_match(m.regex_text(), e.name@)),
            decreases self@.len() - i,
        {
            proof {
                reveal(Seq::filter);
                assert(self@.take(i + 1).drop_last() =~= self@.take(i as int));
                assert(self@.take(i + 1).last() == self@[i as int]);
            }
            let e = &self.entries[i];
            if m.matches(e.name.as_str()) {
                r.push(e.clone());
            }
            i = i + 1;
        }
        proof {
            assert(self@.take(self@.len() as int) =~= self@);
        }
        r
    }
}

/// Appending an entry cannot remove a path from the catalog.
proof fn lemma_insert_preserves_path(s: Seq<Entry>, e: Entry, p: Seq<char>)
    requires
        has_path(s, p),
    ensures
        has_path(spec_insert(s, e), p),
{
    let i = choose|i: int| 0 <= i < s.len() && s[i].path@ == p;
    if !has_path(s, e.path@) {
        assert(s.push(e)[i] == s[i]);
    }
}

/// After an indexing pass every previously catalogued path is still there.
proof fn lemma_batch_preserves_path(s: Seq<Entry>, b: Seq<Entry>, p: Seq<char>)
    requires
        has_path(s, p),
    ensures
        has_path(spec_index_batch(s, b), p),
    decreases b.len(),
{
    if b.len() > 0 {
        lemma_batch_preserves_path(s, b.drop_last(), p);
        lemma_insert_preserves_path(spec_index_batch(s, b.drop_last()), b.last(), p);
    }
}

/// After an indexing pass every path of the batch is catalogued.
proof fn lemma_batch_adds_paths(s: Seq<Entry>, b: Seq<Entry>)
    ensures
        forall|i: int| 0 <= i < b.len() ==> has_path(spec_index_batch(s, b), b[i].path@),
    decreases b.len(),
{
    if b.len() > 0 {
        lemma_batch_adds_paths(s, b.drop_last());
        let t = spec_index_batch(s, b.drop_last());
        assert forall|i: int| 0 <= i < b.len() implies has_path(
            spec_index_batch(s, b),
            b[i].path@,
        ) by {
            if i < b.len() - 1 {
                assert(b.drop_last()[i] == b[i]);
                lemma_insert_preserves_path(t, b.last(), b[i].path@);
            } else {
                if has_path(t, b.last().path@) {
                    assert(spec_insert(t, b.last()) == t);
                } else {
                    assert(t.push(b.last())[t.len() as int] == b.last());
                }
            }
        }
    }
}

/// A pass whose paths are all already catalogued changes nothing.
proof fn lemma_batch_noop(t: Seq<Entry>, b: Seq<Entry>)
    requires
        forall|i: int| 0 <= i < b.len() ==> has_path(t, b[i].path@),
    ensures
        spec_index_batch(t, b) == t,
    decreases b.len(),
{
    if b.len() > 0 {
        assert forall|i: int| 0 <= i < b.drop_last().len() implies has_path(
            t,
            b.drop_last()[i].path@,
        ) by {
            assert(b.drop_last()[i] == b[i]);
        }
        lemma_batch_noop(t, b.drop_last());
        assert(has_path(t, b.last().path@));
    }
}

/// Indexing is idempotent: offering the same batch of scanned entries to the
/// catalog a second time leaves the catalog exactly as the first pass left
/// it — same rows, and so the same total entry count.
pub proof fn lemma_index_idempotent(s: Seq<Entry>, b: Seq<Entry>)
    ensures
        spec_index_batch(spec_index_batch(s, b), b) == spec_index_batch(s, b),
{
    let t = spec_index_batch(s, b);
    lemma_batch_adds_paths(s, b);
    lemma_batch_noop(t, b);
}

} // verus!
