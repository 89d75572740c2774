//! An explicit model of the filesystem under the server's root: the
//! collaborator the method handlers read and write. The surrounding
//! application materializes the files a request touches into a `Disk`,
//! runs the handler, and applies the recorded writes to the real
//! filesystem afterwards.

use crate::text::str_eq;
use vstd::prelude::*;

verus! {

/// A file as the handlers see it: readable text, or binary content that
/// only the sender will stream byte for byte.
pub enum FileEntry {
    Text(String),
    Binary,
}

/// The meaning of a file entry.
pub enum FileModel {
    Text(Seq<char>),
    Binary,
}

impl View for FileEntry {
    type V = FileModel;

    open spec fn view(&self) -> FileModel {
        match self {
            FileEntry::Text(s) => FileModel::Text(s@),
            FileEntry::Binary => FileModel::Binary,
        }
    }
}

impl Clone for FileEntry {
    fn clone(&self) -> (r: Self)
        ensures
            r@ == self@,
    {
        match self {
            FileEntry::Text(s) => FileEntry::Text(s.clone()),
            FileEntry::Binary => FileEntry::Binary,
        }
    }
}

/// The meaning of a disk: its files by path, and whether writes fail
/// (a full or otherwise failing disk).
#[verifier::ext_equal]
pub struct DiskView {
    pub files: Seq<(Seq<char>, FileModel)>,
    pub writes_fail: bool,
}

/// The entry stored under `path`, if any.
pub open spec fn spec_disk_lookup(
    files: Seq<(Seq<char>, FileModel)>,
    path: Seq<char>,
) -> Option<FileModel>
    decreases files.len(),
{
    if files.len() == 0 {
        None
    } else if files[0].0 == path {
        Some(files[0].1)
    } else {
        spec_disk_lookup(files.drop_first(), path)
    }
}

/// The files after storing `m` under `path`: the first entry with that
/// path is replaced, or the pair is appended.
pub open spec fn spec_disk_upsert(
    files: Seq<(Seq<char>, FileModel)>,
    path: Seq<char>,
    m: FileModel,
) -> Seq<(Seq<char>, FileModel)>
    decreases files.len(),
{
    if files.len() == 0 {
        seq![(path, m)]
    } else if files[0].0 == path {
        seq![(path, m)] + files.drop_first()
    } else {
        seq![files[0]] + spec_disk_upsert(files.drop_first(), path, m)
    }
}

/// After an upsert, `path` holds `m` and every other path is unchanged.
pub proof fn lemma_disk_lookup_upsert(
    files: Seq<(Seq<char>, FileModel)>,
    path: Seq<char>,
    m: FileModel,
    q: Seq<char>,
)
    ensures
        spec_disk_lookup(spec_disk_upsert(files, path, m), q) == if q == path {
            Some(m)
        } else {
            spec_disk_lookup(files, q)
        },
    decreases files.len(),
{
    let r = spec_disk_upsert(files, path, m);
    if files.len() == 0 {
        if q != path {
            assert(r.drop_first() =~= Seq::<(Seq<char>, FileModel)>::empty());
        }
    } else if files[0].0 == path {
        assert(r[0] == (path, m));
        assert(r.drop_first() =~= files.drop_first());
        if q == path {
            assert(spec_disk_lookup(r, q) == Some(m));
        } else {
            assert(spec_disk_lookup(r, q) == spec_disk_lookup(files.drop_first(), q));
            assert(spec_disk_lookup(files, q) == spec_disk_lookup(files.drop_first(), q));
        }
    } else {
        lemma_disk_lookup_upsert(files.drop_first(), path, m, q);
        assert(r[0] == files[0]);
        assert(r.drop_first() =~= spec_disk_upsert(files.drop_first(), path, m));
        if q == files[0].0 {
            assert(spec_disk_lookup(r, q) == Some(files[0].1));
            assert(spec_disk_lookup(files, q) == Some(files[0].1));
        } else {
            assert(spec_disk_lookup(r, q) == spec_disk_lookup(r.drop_first(), q));
            assert(spec_disk_lookup(files, q) == spec_disk_lookup(files.drop_first(), q));
        }
    }
}

spec fn files_view(files: Seq<(String, FileEntry)>) -> Seq<(Seq<char>, FileModel)> {
    Seq::new(files.len(), |i: int| (files[i].0@, files[i].1@))
}

/// The filesystem under the server root, as the handlers see it.
pub struct Disk {
    files: Vec<(String, FileEntry)>,
    writes_fail: bool,
}

impl View for Disk {
    type V = DiskView;

    closed spec fn view(&self) -> DiskView {
        DiskView { files: files_view(self.files@), writes_fail: self.writes_fail }
    }
}

impl Disk {
    /// An empty disk whose writes succeed.
    pub fn new() -> (r: Disk)
        ensures
            r@.files == Seq::<(Seq<char>, FileModel)>::empty(),
            r@.writes_fail == false,
    {
        let r = Disk { files: Vec::new(), writes_fail: false };
        proof {
            assert(r@.files =~= Seq::<(Seq<char>, FileModel)>::empty());
        }
        r
    }

    /// An empty disk on which every write fails.
    pub fn new_failing() -> (r: Disk)
        ensures
            r@.files == Seq::<(Seq<char>, FileModel)>::empty(),
            r@.writes_fail == true,
    {
        let r = Disk { files: Vec::new(), writes_fail: true };
        proof {
            assert(r@.files =~= Seq::<(Seq<char>, FileModel)>::empty());
        }
        r
    }

    /// Stores an entry unconditionally: how the surrounding application
    /// fills the model from the real filesystem before handling.
    pub fn put_entry(&mut self, path: String, entry: FileEntry)
        ensures
            final(self)@.files == spec_disk_upsert(old(self)@.files, path@, entry@),
            final(self)@.writes_fail == old(self)@.writes_fail,
    {
        let ghost s = self@.files;
        let n = self.files.len();
        let mut i: usize = 0;
        while i < n && !str_eq(self.files[i].0.as_str(), path.as_str())
            invariant
                n == self.files@.len(),
                i <= n,
                s == self@.files,
                forall|j: int| 0 <= j < i ==> #[trigger] s[j].0 != path@,
            decreases n - i,
        {
            i = i + 1;
        }
        proof {
            lemma_upsert_at(s, path@, entry@, i as int);
        }
        if i < n {
            self.files.remove(i);
            self.files.insert(i, (path, entry));
            proof {
                assert(final(self)@.files =~= s.take(i as int) + seq![(path@, entry@)] + s.skip(
                    i + 1,
                ));
            }
        } else {
            self.files.push((path, entry));
            proof {
                assert(final(self)@.files =~= s.take(i as int) + seq![(path@, entry@)] + s.skip(
                    i as int,
                ));
            }
        }
    }

    /// Opens `path` and reads it, as GET and HEAD do: the text content,
    /// the binary marker, or nothing when the file does not exist.
    pub fn read(&self, path: &str) -> (r: Option<FileEntry>)
        ensures
            spec_disk_lookup(self@.files, path@) matches Some(m) ==> (r matches Some(e) && e@
                == m),
            spec_disk_lookup(self@.files, path@) is None ==> r is None,
    {
        let ghost s = self@.files;
        let n = self.files.len();
        let mut i: usize = 0;
        proof {
            assert(s.skip(0) =~= s);
        }
        while i < n
            invariant
                n == self.files@.len(),
                i <= n,
                s == self@.files,
                spec_disk_lookup(s, path@) == spec_disk_lookup(s.skip(i as int), path@),
            decreases n - i,
        {
            proof {
                assert(s.skip(i as int)[0] == s[i as int]);
                assert(s.skip(i as int).drop_first() =~= s.skip(i + 1));
            }
            if str_eq(self.files[i].0.as_str(), path) {
                return Some(self.files[i].1.clone());
            }
            i = i + 1;
        }
        None
    }

    /// Whether `path` exists, as `File::open` decides it.
    pub fn file_exists(&self, path: &str) -> (r: bool)
        ensures
            r == (spec_disk_lookup(self@.files, path@) is Some),
    {
        match self.read(path) {
            Some(_) => true,
            None => false,
        }
    }

    /// Writes text to `path`, creating or replacing the file. Fails
    /// exactly when the disk fails writes, leaving everything unchanged.
    pub fn write_text(&mut self, path: String, content: String) -> (ok: bool)
        ensures
            ok == !old(self)@.writes_fail,
            ok ==> final(self)@ == (DiskView {
                files: spec_disk_upsert(old(self)@.files, path@, FileModel::Text(content@)),
                writes_fail: old(self)@.writes_fail,
            }),
            !ok ==> final(self)@ == old(self)@,
    {
        if self.writes_fail {
            return false;
        }
        self.put_entry(path, FileEntry::Text(content));
        true
    }
}

/// What `spec_disk_upsert` yields once the entry's position is known.
proof fn lemma_upsert_at(files: Seq<(Seq<char>, FileModel)>, path: Seq<char>, m: FileModel, i: int)
    requires
        0 <= i <= files.len(),
        forall|j: int| 0 <= j < i ==> #[trigger] files[j].0 != path,
        i < files.len() ==> files[i].0 == path,
    ensures
        i < files.len() ==> spec_disk_upsert(files, path, m) == files.take(i) + seq![(path, m)]
            + files.skip(i + 1),
        i == files.len() ==> spec_disk_upsert(files, path, m) == files.take(i) + seq![(path, m)]
            + files.skip(i),
    decreases files.len(),
{
    if files.len() == 0 {
        assert(spec_disk_upsert(files, path, m) =~= files.take(0) + seq![(path, m)] + files.skip(
            0,
        ));
    } else if i == 0 {
        assert(files[0].0 == path);
        assert(seq![(path, m)] + files.drop_first() =~= files.take(0) + seq![(path, m)]
            + files.skip(1));
    } else {
        assert(files[0].0 != path);
        let t = files.drop_first();
        assert(forall|j: int| 0 <= j < i - 1 ==> #[trigger] t[j].0 == files[j + 1].0);
        lemma_upsert_at(t, path, m, i - 1);
        if i < files.len() {
            assert(t[i - 1].0 == path);
            assert(seq![files[0]] + (t.take(i - 1) + seq![(path, m)] + t.skip(i)) =~= files.take(i)
                + seq![(path, m)] + files.skip(i + 1));
        } else {
            assert(seq![files[0]] + (t.take(i - 1) + seq![(path, m)] + t.skip(i - 1))
                =~= files.take(i) + seq![(path, m)] + files.skip(i));
        }
    }
}

} // verus!
