use vstd::prelude::*;

use vstd::string::{StringExecFns, StringSliceAdditionalSpecFns};

verus! {

/// The scheme prefix of a file URI.
pub open spec fn file_scheme() -> Seq<char> {
    "file://"@
}

/// `s` with every run of `/` collapsed to one.
pub open spec fn collapse_slashes(s: Seq<char>) -> Seq<char>
    decreases s.len(),
{
    if s.len() == 0 {
        Seq::empty()
    } else {
        let a = collapse_slashes(s.drop_last());
        if s.last() == '/' && a.len() > 0 && a.last() == '/' {
            a
        } else {
            a.push(s.last())
        }
    }
}

/// The normal form of a path: runs of `/` collapsed to one, and a trailing
/// `/` dropped unless the path is `/`. Two ids name the same file when their
/// normal forms are equal.
pub open spec fn normal_path(s: Seq<char>) -> Seq<char> {
    let a = collapse_slashes(s);
    if a.len() > 1 && a.last() == '/' {
        a.drop_last()
    } else {
        a
    }
}

/// Why a URI does not name a file.
#[derive(Debug, Clone, Copy, PartialEq, Eq, Structural)]
pub enum UriErr {
    /// The URI does not start with `file://`.
    NotFileScheme,
    /// Nothing follows the scheme.
    EmptyPath,
}

/// The identity of a log file: its path.
#[derive(Debug)]
pub struct FileId {
    path: String,
}

impl View for FileId {
    type V = Seq<char>;

    closed spec fn view(&self) -> Seq<char> {
        self.path@
    }
}

impl FileId {
    /// The id of the file at `path`, in normal form.
    pub fn new(path: &str) -> (r: FileId)
        ensures
            r@ == normal_path(path@),
    {
        proof {
            reveal_strlit("/");
        }
        let n = path.unicode_len();
        let mut out = String::new();
        let mut pending = false;
        let mut i: usize = 0;
        while i < n
            invariant
                i <= n,
                n == path@.len(),
                "/"@ == seq!['/'],
                collapse_slashes(path@.subrange(0, i as int)) == out@ + if pending {
                    seq!['/']
                } else {
                    Seq::<char>::empty()
                },
                out@.len() == 0 || out@.last() != '/',
            decreases n - i,
        {
            let c = path.get_char(i);
            let ghost prev = out@;
            assert(path@.subrange(0, i + 1).drop_last() =~= path@.subrange(0, i as int));
            if c == '/' {
                if !pending {
                    assert(prev + Seq::<char>::empty() =~= prev);
                }
                pending = true;
            } else {
                if pending {
                    out.append("/");
                }
                let ghost mid = out@;
                let one = path.substring_char(i, i + 1);
                assert(one@ =~= seq![c]);
                out.append(one);
                if !pending {
                    assert(prev + Seq::<char>::empty() =~= prev);
                }
                assert(out@ =~= mid.push(c));
                pending = false;
                assert(out@ + Seq::<char>::empty() =~= out@);
            }
            i = i + 1;
        }
        assert(path@.subrange(0, n as int) =~= path@);
        if pending && out.unicode_len() == 0 {
            out.append("/");
            assert(out@ =~= seq!['/']);
        } else if pending {
            assert((out@ + seq!['/']).drop_last() =~= out@);
        } else {
            assert(out@ + Seq::<char>::empty() =~= out@);
        }
        FileId { path: out }
    }

    /// The file that `uri` names: what follows `file://`, up to a `?` that
    /// starts query parameters, which are ignored, in normal form.
    pub fn from_uri(uri: &str) -> (r: Result<FileId, UriErr>)
        ensures
            !(uri@.len() >= 7 && uri@.subrange(0, 7) == file_scheme()) ==> r == Err::<
                FileId,
                UriErr,
            >(UriErr::NotFileScheme),
            uri@.len() >= 7 && uri@.subrange(0, 7) == file_scheme() && (uri@.len() == 7 || uri@[7]
                == '?') ==> r == Err::<FileId, UriErr>(UriErr::EmptyPath),
            uri@.len() > 7 && uri@.subrange(0, 7) == file_scheme() && uri@[7] != '?' ==> (r matches Ok(id)
                && exists|q: int| 7 < q <= uri@.len() && id@ == normal_path(uri@.subrange(7, q))
                && (forall|i: int| 7 <= i < q ==> uri@[i] != '?')
                && (q == uri@.len() || uri@[q] == '?')),
    {
        proof {
            reveal_strlit("file://");
        }
        let n = uri.unicode_len();
        if n < 7 {
            return Err(UriErr::NotFileScheme);
        }
        let scheme = uri.substring_char(0, 7);
        let expected = "file://";
        assert(expected@.len() == 7);
        let mut k: usize = 0;
        while k < 7
            invariant
                k <= 7,
                n == uri@.len(),
                7 <= n,
                scheme@ == uri@.subrange(0, 7),
                scheme@.len() == 7,
                expected@.len() == 7,
                expected@ == file_scheme(),
                forall|j: int| 0 <= j < k ==> scheme@[j] == expected@[j],
            decreases 7 - k,
        {
            if scheme.get_char(k) != expected.get_char(k) {
                assert(scheme@ != file_scheme());
                return Err(UriErr::NotFileScheme);
            }
            k = k + 1;
        }
        assert(scheme@ =~= file_scheme());
        let mut end: usize = 7;
        while end < n && uri.get_char(end) != '?'
            invariant
                7 <= end <= n,
                n == uri@.len(),
                forall|j: int| 7 <= j < end ==> uri@[j] != '?',
            decreases n - end,
        {
            end = end + 1;
        }
        if end == 7 {
            return Err(UriErr::EmptyPath);
        }
        let path = uri.substring_char(7, end);
        let id = FileId::new(path);
        assert(id@ == normal_path(uri@.subrange(7, end as int)));
        Ok(id)
    }

    /// The URI of the file: `file://` and the path.
    pub fn to_uri(&self) -> (r: String)
        ensures
            r@ == file_scheme() + self@,
    {
        proof {
            reveal_strlit("file://");
        }
        let mut u = String::from_str("file://");
        u.append(self.path.as_str());
        u
    }

    /// The path of the file.
    pub fn path(&self) -> (r: &str)
        ensures
            r@ == self@,
    {
        self.path.as_str()
    }

    /// A second id of the same file.
    pub fn copied(&self) -> (r: FileId)
        ensures
            r@ == self@,
    {
        FileId { path: self.path.clone() }
    }

    /// Whether two ids name the same file.
    pub fn same(&self, other: &FileId) -> (r: bool)
        ensures
            r == (self@ == other@),
    {
        self.path == other.path
    }
}

/// An entry of the registry: a file and the number of live handles to its writer.
pub type EntryModel = (Seq<char>, u64);

/// Whether `es` has an entry for `p`.
pub open spec fn holds(es: Seq<EntryModel>, p: Seq<char>) -> bool {
    exists|i: int| 0 <= i < es.len() && (#[trigger] es[i]).0 == p
}

/// No two entries for one file, and every entry has a live handle.
pub open spec fn registry_wf(es: Seq<EntryModel>) -> bool {
    &&& forall|i: int, j: int| 0 <= i < j < es.len() ==> (#[trigger] es[i]).0 != (#[trigger] es[j]).0
    &&& forall|i: int| 0 <= i < es.len() ==> (#[trigger] es[i]).1 > 0
}

/// What happens to a writer when a handle goes away.
#[derive(Debug, Clone, Copy, PartialEq, Eq, Structural)]
pub enum Release {
    /// Other handles remain; the writer goes on.
    Kept,
    /// That was the last handle; the writer exits.
    Retired,
    /// No writer was registered for the file; nothing happens.
    Unknown,
}

struct Entry {
    id: FileId,
    handles: u64,
}

/// The process-wide registry of writers, one per file.
pub struct Registry {
    entries: Vec<Entry>,
}

impl View for Registry {
    type V = Seq<EntryModel>;

    closed spec fn view(&self) -> Seq<EntryModel> {
        self.entries@.map_values(|e: Entry| (e.id@, e.handles))
    }
}

impl Registry {
    /// No writers.
    pub fn new() -> (r: Registry)
        ensures
            r@ == Seq::<EntryModel>::empty(),
            registry_wf(r@),
    {
        let r = Registry { entries: Vec::new() };
        assert(r@ =~= Seq::<EntryModel>::empty());
        r
    }

    fn find(&self, id: &FileId) -> (r: Option<usize>)
        ensures
            match r {
                Some(i) => i < self@.len() && self@[i as int].0 == id@,
                None => !holds(self@, id@),
            },
    {
        let mut i: usize = 0;
        while i < self.entries.len()
            invariant
                i <= self@.len(),
                self@.len() == self.entries@.len(),
                forall|j: int| 0 <= j < i ==> (#[trigger] self@[j]).0 != id@,
            decreases self@.len() - i,
        {
            if self.entries[i].id.same(id) {
                return Some(i);
            }
            i = i + 1;
        }
        None
    }

    /// The number of live handles to the writer of `id`; 0 when it has none.
    pub fn handles(&self, id: &FileId) -> (r: u64)
        requires
            registry_wf(self@),
        ensures
            holds(self@, id@) <==> r > 0,
            forall|i: int| 0 <= i < self@.len() && (#[trigger] self@[i]).0 == id@ ==> r == self@[i].1,
    {
        match self.find(id) {
            Some(i) => self.entries[i].handles,
            None => 0,
        }
    }

    /// A new handle to the writer of `id`. Returns whether a writer has to be
    /// started: only when the file has none. Fails, changing nothing, when the
    /// handle count is exhausted.
    pub fn open(&mut self, id: &FileId) -> (r: Result<bool, ()>)
        requires
            registry_wf(old(self)@),
        ensures
            registry_wf(final(self)@),
            holds(final(self)@, id@),
            !holds(old(self)@, id@) ==> r == Ok::<bool, ()>(true) && final(self)@ == old(self)@.push((id@, 1u64)),
            holds(old(self)@, id@) ==> exists|i: int| 0 <= i < old(self)@.len() && (#[trigger] old(self)@[i]).0 == id@ && (
                if old(self)@[i].1 == u64::MAX {
                    r == Err::<bool, ()>(()) && final(self)@ == old(self)@
                } else {
                    r == Ok::<bool, ()>(false) && final(self)@ == old(self)@.update(i, (id@, (old(self)@[i].1 + 1) as u64))
                }),
    {
        match self.find(id) {
            Some(i) => {
                let n = self.entries[i].handles;
                if n == u64::MAX {
                    return Err(());
                }
                let ghost before = self@;
                self.entries.set(i, Entry { id: id.copied(), handles: n + 1 });
                assert(self@ =~= before.update(i as int, (id@, (n + 1) as u64)));
                assert(self@[i as int].0 == id@);
                Ok(false)
            },
            None => {
                let ghost before = self@;
                self.entries.push(Entry { id: id.copied(), handles: 1 });
                assert(self@ =~= before.push((id@, 1u64)));
                assert(self@[before.len() as int].0 == id@);
                Ok(true)
            },
        }
    }

    /// A handle to the writer of `id` went away. Never fails: for a file
    /// without a writer, nothing changes.
    pub fn release(&mut self, id: &FileId) -> (r: Release)
        requires
            registry_wf(old(self)@),
        ensures
            registry_wf(final(self)@),
            !holds(old(self)@, id@) ==> r == Release::Unknown && final(self)@ == old(self)@,
            holds(old(self)@, id@) ==> exists|i: int| 0 <= i < old(self)@.len() && (#[trigger] old(self)@[i]).0 == id@ && (
                if old(self)@[i].1 > 1 {
                    r == Release::Kept && final(self)@ == old(self)@.update(i, (id@, (old(self)@[i].1 - 1) as u64))
                } else {
                    r == Release::Retired && final(self)@ == old(self)@.remove(i)
                }),
    {
        match self.find(id) {
            Some(i) => {
                let n = self.entries[i].handles;
                let ghost before = self@;
                if n > 1 {
                    self.entries.set(i, Entry { id: id.copied(), handles: n - 1 });
                    assert(self@ =~= before.update(i as int, (id@, (n - 1) as u64)));
                    Release::Kept
                } else {
                    self.entries.remove(i);
                    assert(self@ =~= before.remove(i as int));
                    Release::Retired
                }
            },
            None => Release::Unknown,
        }
    }

    /// The writer of `id` ended: its entry goes, whatever its handle count.
    /// Returns whether there was one.
    pub fn end(&mut self, id: &FileId) -> (r: bool)
        requires
            registry_wf(old(self)@),
        ensures
            registry_wf(final(self)@),
            r == holds(old(self)@, id@),
            !holds(final(self)@, id@),
            !r ==> final(self)@ == old(self)@,
            r ==> exists|i: int| 0 <= i < old(self)@.len() && (#[trigger] old(self)@[i]).0 == id@
                && final(self)@ == old(self)@.remove(i),
    {
        match self.find(id) {
            Some(i) => {
                let ghost before = self@;
                self.entries.remove(i);
                assert(self@ =~= before.remove(i as int));
                assert forall|j: int| 0 <= j < self@.len() implies (#[trigger] self@[j]).0 != id@ by {
                    if j < i {
                        assert(self@[j] == before[j]);
                    } else {
                        assert(self@[j] == before[j + 1]);
                    }
                }
                true
            },
            None => false,
        }
    }
}

/// At most one writer per file: in a well-formed registry, two entries for
/// the same file are one entry, so a second writer is never started while the
/// first is registered.
pub proof fn lemma_single_writer(es: Seq<EntryModel>, i: int, j: int)
    requires
        registry_wf(es),
        0 <= i < es.len(),
        0 <= j < es.len(),
        es[i].0 == es[j].0,
    ensures
        i == j,
{
    if i < j {
        assert(es[i].0 != es[j].0);
    } else if j < i {
        assert(es[j].0 != es[i].0);
    }
}

/// Dropping a handle is idempotent: once the last handle of a file has retired
/// its writer, the file has no entry, so a further drop finds nothing to do
/// and fails nothing.
pub proof fn lemma_drop_idempotent(es: Seq<EntryModel>, p: Seq<char>, i: int)
    requires
        registry_wf(es),
        0 <= i < es.len(),
        es[i].0 == p,
    ensures
        !holds(es.remove(i), p),
        registry_wf(es.remove(i)),
{
    let after = es.remove(i);
    assert forall|j: int| 0 <= j < after.len() implies (#[trigger] after[j]).0 != p by {
        if j < i {
            assert(after[j] == es[j]);
        } else {
            assert(after[j] == es[j + 1]);
        }
    }
    assert forall|a: int, b: int| 0 <= a < b < after.len() implies (#[trigger] after[a]).0 != (#[trigger] after[b]).0 by {
        let a2 = if a < i { a } else { a + 1 };
        let b2 = if b < i { b } else { b + 1 };
        assert(after[a] == es[a2]);
        assert(after[b] == es[b2]);
    }
    assert forall|j: int| 0 <= j < after.len() implies (#[trigger] after[j]).1 > 0 by {
        let j2 = if j < i { j } else { j + 1 };
        assert(after[j] == es[j2]);
    }
}

} // verus!
