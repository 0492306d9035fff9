//! The in-memory file table the preprocessor reads from. The caller fills
//! it from the real filesystem; the preprocessor itself never touches the
//! disk.

use vstd::prelude::*;
use crate::text::str_eq;

verus! {

/// What the filesystem holds at one path: readable text, a file whose read
/// fails (with the reported reason), or no file at all.
pub enum FileData {
    Text(String),
    Unreadable(String),
    Absent,
}

/// The mathematical shape of a [`FileData`].
#[verifier::ext_equal]
pub enum FileView {
    Text(Seq<char>),
    Unreadable(Seq<char>),
    Absent,
}

impl View for FileData {
    type V = FileView;

    open spec fn view(&self) -> FileView {
        match self {
            FileData::Text(t) => FileView::Text(t@),
            FileData::Unreadable(m) => FileView::Unreadable(m@),
            FileData::Absent => FileView::Absent,
        }
    }
}

/// One known path with its state.
pub struct VfsEntry {
    pub path: String,
    pub data: FileData,
}

/// An in-memory table of file states, keyed by path text.
pub struct Vfs {
    entries: Vec<VfsEntry>,
}

/// The map a sequence of entries spells out; a well-formed table never
/// repeats a path, so the order of the entries carries no weight.
pub open spec fn entries_map(es: Seq<VfsEntry>) -> Map<Seq<char>, FileView>
    decreases es.len(),
{
    if es.len() == 0 {
        Map::empty()
    } else {
        entries_map(es.drop_last()).insert(es.last().path@, es.last().data@)
    }
}

/// A path is in the map exactly when some entry carries it.
proof fn lemma_entries_map_dom(es: Seq<VfsEntry>)
    ensures
        forall|p: Seq<char>|
            #[trigger] entries_map(es).dom().contains(p) <==> (exists|i: int|
                0 <= i < es.len() && es[i].path@ == p),
    decreases es.len(),
{
    if es.len() > 0 {
        lemma_entries_map_dom(es.drop_last());
        assert forall|p: Seq<char>| #[trigger]
            entries_map(es).dom().contains(p) implies (exists|i: int|
            0 <= i < es.len() && es[i].path@ == p) by {
            if p == es.last().path@ {
                assert(es[es.len() - 1].path@ == p);
            } else {
                assert(entries_map(es) == entries_map(es.drop_last()).insert(
                    es.last().path@,
                    es.last().data@,
                ));
                assert(entries_map(es.drop_last()).dom().contains(p));
                let i = choose|i: int| 0 <= i < es.drop_last().len() && es.drop_last()[i].path@
                    == p;
                assert(es[i] == es.drop_last()[i]);
                assert(es[i].path@ == p);
            }
        }
        assert forall|p: Seq<char>|
            (exists|i: int| 0 <= i < es.len() && es[i].path@ == p) implies #[trigger]
            entries_map(es).dom().contains(p) by {
            let i = choose|i: int| 0 <= i < es.len() && es[i].path@ == p;
            if i < es.len() - 1 {
                assert(es.drop_last()[i].path@ == p);
                assert(entries_map(es.drop_last()).dom().contains(p));
                assert(entries_map(es) == entries_map(es.drop_last()).insert(
                    es.last().path@,
                    es.last().data@,
                ));
            }
        }
    }
}

/// Without repeated paths, each entry's data is what the map holds at its
/// path.
proof fn lemma_entries_map_at(es: Seq<VfsEntry>, i: int)
    requires
        0 <= i < es.len(),
        forall|a: int, b: int| 0 <= a < b < es.len() ==> es[a].path@ != es[b].path@,
    ensures
        entries_map(es).dom().contains(es[i].path@),
        entries_map(es)[es[i].path@] == es[i].data@,
    decreases es.len(),
{
    if i < es.len() - 1 {
        assert(forall|a: int, b: int|
            0 <= a < b < es.drop_last().len() ==> es.drop_last()[a].path@
                != es.drop_last()[b].path@);
        lemma_entries_map_at(es.drop_last(), i);
        assert(es[i].path@ != es.last().path@);
        assert(es.drop_last()[i] == es[i]);
    }
}

/// Without repeated paths, the map is exactly as large as the table.
proof fn lemma_entries_map_len(es: Seq<VfsEntry>)
    requires
        forall|a: int, b: int| 0 <= a < b < es.len() ==> es[a].path@ != es[b].path@,
    ensures
        entries_map(es).dom().finite(),
        entries_map(es).dom().len() == es.len(),
    decreases es.len(),
{
    if es.len() > 0 {
        assert(forall|a: int, b: int|
            0 <= a < b < es.drop_last().len() ==> es.drop_last()[a].path@
                != es.drop_last()[b].path@);
        lemma_entries_map_len(es.drop_last());
        lemma_entries_map_dom(es.drop_last());
        assert(!entries_map(es.drop_last()).dom().contains(es.last().path@)) by {
            if entries_map(es.drop_last()).dom().contains(es.last().path@) {
                let i = choose|i: int|
                    0 <= i < es.drop_last().len() && es.drop_last()[i].path@ == es.last().path@;
                assert(es[i].path@ == es[es.len() - 1].path@);
            }
        }
        assert(entries_map(es).dom() =~= entries_map(es.drop_last()).dom().insert(
            es.last().path@,
        ));
    }
}

impl View for Vfs {
    type V = Map<Seq<char>, FileView>;

    closed spec fn view(&self) -> Map<Seq<char>, FileView> {
        entries_map(self.entries@)
    }
}

impl Vfs {
    /// No path appears twice in the table.
    pub closed spec fn wf(&self) -> bool {
        forall|i: int, j: int|
            0 <= i < j < self.entries@.len() ==> self.entries@[i].path@ != self.entries@[j].path@
    }

    /// An empty table: no path is known.
    pub fn new() -> (v: Vfs)
        ensures
            v.wf(),
            v@ == Map::<Seq<char>, FileView>::empty(),
            v@.dom().finite(),
            v@.dom().len() == 0,
    {
        Vfs { entries: Vec::new() }
    }

    /// How many paths the table knows.
    pub fn len(&self) -> (n: usize)
        requires
            self.wf(),
        ensures
            n == self@.dom().len(),
            self@.dom().finite(),
    {
        proof {
            lemma_entries_map_len(self.entries@);
        }
        self.entries.len()
    }

    /// Records the state of one path the table does not know yet.
    pub fn insert(&mut self, path: String, data: FileData)
        requires
            old(self).wf(),
            !old(self)@.dom().contains(path@),
        ensures
            final(self).wf(),
            final(self)@ == old(self)@.insert(path@, data@),
            final(self)@.dom().finite(),
            final(self)@.dom().len() == old(self)@.dom().len() + 1,
    {
        proof {
            lemma_entries_map_len(self.entries@);
        }
        proof {
            lemma_entries_map_dom(self.entries@);
        }
        let ghost oldes = self.entries@;
        let ghost pview = path@;
        self.entries.push(VfsEntry { path, data });
        proof {
            assert(self.entries@.drop_last() =~= oldes);
            assert forall|i: int, j: int|
                0 <= i < j < self.entries@.len() implies self.entries@[i].path@
                != self.entries@[j].path@ by {
                if j == self.entries@.len() - 1 {
                    assert(self.entries@[i] == oldes[i]);
                    if oldes[i].path@ == pview {
                        assert(entries_map(oldes).dom().contains(pview));
                    }
                } else {
                    assert(self.entries@[i] == oldes[i]);
                    assert(self.entries@[j] == oldes[j]);
                }
            }
            lemma_entries_map_len(self.entries@);
        }
    }

    /// Finds the recorded state of `path`, if the table knows it.
    pub fn lookup(&self, path: &str) -> (r: Option<&FileData>)
        requires
            self.wf(),
        ensures
            match r {
                Some(d) => self@.dom().contains(path@) && d@ == self@[path@],
                None => !self@.dom().contains(path@),
            },
    {
        let n = self.entries.len();
        let mut i: usize = 0;
        while i < n
            invariant
                i <= n,
                n == self.entries@.len(),
                self.wf(),
                forall|j: int| 0 <= j < i ==> self.entries@[j].path@ != path@,
            decreases n - i,
        {
            if str_eq(self.entries[i].path.as_str(), path) {
                proof {
                    lemma_entries_map_at(self.entries@, i as int);
                }
                return Some(&self.entries[i].data);
            }
            i = i + 1;
        }
        proof {
            lemma_entries_map_dom(self.entries@);
        }
        None
    }
}

} // verus!
