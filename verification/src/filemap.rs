//! The virtual archive: a name-keyed collection of byte buffers backed by
//! a zip container. Names are unique; files are retrieved either
//! exclusively (claimed and removed) or shared (read in place).
use vstd::prelude::*;
use crate::assoc::{spec_index_of, spec_has_key, spec_lookup, unique_keys, lemma_index_of_first,
    lemma_index_of_none, lemma_index_of_in_range, lemma_push_fresh_preserves_unique,
    lemma_remove_preserves_unique};
use crate::error::PlaymissionError;
use crate::text::{spec_ends_with, str_ends_with};

verus! {

/// One model entry of the archive: a name and its bytes.
pub type FileEntryV = (Seq<char>, Seq<u8>);

/// Model of a raw entry list.
pub open spec fn file_entries_view(v: Seq<(String, Vec<u8>)>) -> Seq<FileEntryV> {
    Seq::new(v.len(), |i: int| (v[i].0@, v[i].1@))
}

/// The entry list encoded in a zip container's bytes, or nothing where
/// the bytes are not a readable container.
pub uninterp spec fn spec_zip_entries(b: Seq<u8>) -> Option<Seq<FileEntryV>>;

/// The bytes of the zip container holding the given entries, written with
/// the engine's fixed options, or nothing where writing fails.
pub uninterp spec fn spec_zip_bytes(entries: Seq<FileEntryV>) -> Option<Seq<u8>>;

/// Relies on `zip::ZipArchive` reading an in-memory buffer: on success
/// every entry is listed in index order, with its name and its fully
/// read, decompressed contents; reading is a function of the bytes alone.
#[verifier::external_body]
pub(crate) fn zip_extract(bytes: &Vec<u8>) -> (r: Result<Vec<(String, Vec<u8>)>, String>)
    ensures
        match r {
            Ok(v) => spec_zip_entries(bytes@) == Some(file_entries_view(v@)),
            Err(_) => spec_zip_entries(bytes@) is None,
        },
{
    let cursor = std::io::Cursor::new(bytes.as_slice());
    let mut zip = zip::ZipArchive::new(cursor).map_err(|e| e.to_string())?;
    let mut out = Vec::new();
    for i in 0..zip.len() {
        let mut f = zip.by_index(i).map_err(|e| e.to_string())?;
        let mut buf = Vec::new();
        std::io::Read::read_to_end(&mut f, &mut buf).map_err(|e| e.to_string())?;
        out.push((f.name().to_string(), buf));
    }
    Ok(out)
}

/// Relies on `zip::ZipWriter` writing an in-memory buffer: each entry is
/// started under its name and written in full, in order, with the
/// crate's constant file options (fixed timestamp, default compression),
/// so the output is a function of the entries alone.
#[verifier::external_body]
pub(crate) fn zip_build(entries: &Vec<(String, Vec<u8>)>) -> (r: Result<Vec<u8>, String>)
    ensures
        match r {
            Ok(b) => spec_zip_bytes(file_entries_view(entries@)) == Some(b@),
            Err(_) => spec_zip_bytes(file_entries_view(entries@)) is None,
        },
{
    let mut zip = zip::ZipWriter::new(std::io::Cursor::new(Vec::new()));
    let options = zip::write::SimpleFileOptions::DEFAULT;
    for (name, buf) in entries {
        zip.start_file(name.as_str(), options).map_err(|e| e.to_string())?;
        std::io::Write::write_all(&mut zip, buf).map_err(|e| e.to_string())?;
    }
    let cursor = zip.finish().map_err(|e| e.to_string())?;
    Ok(cursor.into_inner())
}

/// Index of the first entry whose name ends with the suffix, or -1.
pub open spec fn spec_first_suffix(s: Seq<FileEntryV>, suffix: Seq<char>) -> int
    decreases s.len(),
{
    if s.len() == 0 {
        -1
    } else if spec_ends_with(s[0].0, suffix) {
        0
    } else {
        let r = spec_first_suffix(s.skip(1), suffix);
        if r < 0 {
            -1
        } else {
            r + 1
        }
    }
}

pub proof fn lemma_first_suffix_at(s: Seq<FileEntryV>, suffix: Seq<char>, i: int)
    requires
        0 <= i < s.len(),
        spec_ends_with(s[i].0, suffix),
        forall|j: int| 0 <= j < i ==> !spec_ends_with(#[trigger] s[j].0, suffix),
    ensures
        spec_first_suffix(s, suffix) == i,
    decreases i,
{
    if i > 0 {
        assert(s.skip(1)[i - 1] == s[i]);
        assert(forall|j: int| 0 <= j < i - 1 ==> (#[trigger] s.skip(1)[j]) == s[j + 1]);
        lemma_first_suffix_at(s.skip(1), suffix, i - 1);
    }
}

pub proof fn lemma_first_suffix_none(s: Seq<FileEntryV>, suffix: Seq<char>)
    requires
        forall|j: int| 0 <= j < s.len() ==> !spec_ends_with(#[trigger] s[j].0, suffix),
    ensures
        spec_first_suffix(s, suffix) == -1,
    decreases s.len(),
{
    if s.len() > 0 {
        assert(forall|j: int| 0 <= j < s.len() - 1 ==> (#[trigger] s.skip(1)[j]) == s[j + 1]);
        lemma_first_suffix_none(s.skip(1), suffix);
    }
}

/// Manages access to a set of loaded files. Names are unique.
#[derive(Debug, Clone, PartialEq)]
pub struct Filemap {
    entries: Vec<(String, Vec<u8>)>,
}

impl View for Filemap {
    type V = Seq<FileEntryV>;

    closed spec fn view(&self) -> Seq<FileEntryV> {
        file_entries_view(self.entries@)
    }
}

impl Filemap {
    /// Names are unique: the archive invariant.
    pub open spec fn wf(&self) -> bool {
        unique_keys(self@)
    }

    /// Creates an empty filemap.
    pub fn new() -> (r: Filemap)
        ensures
            r@ == Seq::<FileEntryV>::empty(),
            r.wf(),
    {
        let r = Filemap { entries: Vec::new() };
        proof {
            assert(r@ =~= Seq::<FileEntryV>::empty());
        }
        r
    }

    /// Number of files held.
    pub fn len(&self) -> (n: usize)
        ensures
            n == self@.len(),
    {
        self.entries.len()
    }

    /// The name at a position, cloned.
    pub fn name_at(&self, i: usize) -> (k: String)
        requires
            i < self@.len(),
        ensures
            k@ == self@[i as int].0,
    {
        self.entries[i].0.clone()
    }

    /// Borrows the bytes at a position.
    pub fn buf_at(&self, i: usize) -> (b: &Vec<u8>)
        requires
            i < self@.len(),
        ensures
            b@ == self@[i as int].1,
    {
        &self.entries[i].1
    }

    /// Index of the first entry with the given name.
    pub fn find_index(&self, name: &str) -> (r: Option<usize>)
        ensures
            match r {
                Some(i) => spec_index_of(self@, name@) == i as int && i < self@.len()
                    && self@[i as int].0 == name@,
                None => !spec_has_key(self@, name@),
            },
    {
        let n = self.entries.len();
        let mut i: usize = 0;
        let key: String = name.to_owned();
        while i < n
            invariant
                i <= n,
                n == self@.len(),
                key@ == name@,
                forall|j: int| 0 <= j < i ==> (#[trigger] self@[j].0) != name@,
            decreases n - i,
        {
            if self.entries[i].0 == key {
                proof {
                    lemma_index_of_first(self@, name@, i as int);
                }
                return Some(i);
            }
            i = i + 1;
        }
        proof {
            lemma_index_of_none(self@, name@);
        }
        None
    }

    /// Whether a file of this name is held.
    pub fn contains(&self, name: &str) -> (r: bool)
        ensures
            r == spec_has_key(self@, name@),
    {
        proof {
            lemma_index_of_in_range(self@, name@);
        }
        self.find_index(name).is_some()
    }

    /// Adds a file under a fresh name; a taken name is an error and
    /// leaves the archive unchanged.
    pub fn add(&mut self, name: String, buf: Vec<u8>) -> (r: Result<(), PlaymissionError>)
        ensures
            match r {
                Ok(_) => !spec_has_key(old(self)@, name@) && final(self)@ == old(self)@.push(
                    (name@, buf@),
                ),
                Err(e) => spec_has_key(old(self)@, name@) && final(self)@ == old(self)@ && e
                    == PlaymissionError::TakenFileName(name),
            },
            old(self).wf() ==> final(self).wf(),
    {
        match self.find_index(name.as_str()) {
            Some(_) => Err(PlaymissionError::TakenFileName(name)),
            None => {
                let ghost pre = self@;
                self.entries.push((name, buf));
                proof {
                    assert(self@ =~= pre.push((name@, buf@)));
                    if unique_keys(pre) {
                        lemma_push_fresh_preserves_unique(pre, name@, buf@);
                    }
                }
                Ok(())
            },
        }
    }

    /// Exclusively claims a file: removes and returns it.
    pub fn take(&mut self, name: &str) -> (r: Option<Vec<u8>>)
        ensures
            match r {
                Some(buf) => {
                    &&& spec_lookup(old(self)@, name@) == Some(buf@)
                    &&& final(self)@ == old(self)@.remove(spec_index_of(old(self)@, name@))
                },
                None => !spec_has_key(old(self)@, name@) && final(self)@ == old(self)@,
            },
            old(self).wf() ==> final(self).wf(),
    {
        match self.find_index(name) {
            Some(i) => {
                let ghost pre = self@;
                let (_, buf) = self.entries.remove(i);
                proof {
                    assert(self@ =~= pre.remove(i as int));
                    if unique_keys(pre) {
                        lemma_remove_preserves_unique(pre, i as int);
                    }
                }
                Some(buf)
            },
            None => None,
        }
    }

    /// Shared read: borrows a file, leaving it in place.
    pub fn get(&self, name: &str) -> (r: Option<&Vec<u8>>)
        ensures
            match r {
                Some(buf) => spec_lookup(self@, name@) == Some(buf@),
                None => !spec_has_key(self@, name@),
            },
    {
        match self.find_index(name) {
            Some(i) => Some(&self.entries[i].1),
            None => None,
        }
    }

    /// Exclusively claims the first file whose name satisfies the given
    /// test. The test must be callable on any name.
    pub fn take_closure<F: Fn(&str) -> bool>(&mut self, closure: F) -> (r: Option<Vec<u8>>)
        requires
            forall|s: &str| #[trigger] closure.requires((s,)),
        ensures
            match r {
                Some(buf) => exists|i: int|
                    0 <= i < old(self)@.len() && old(self)@[i].1 == buf@ && final(self)@ == old(
                        self,
                    )@.remove(i),
                None => final(self)@ == old(self)@,
            },
            old(self).wf() ==> final(self).wf(),
    {
        let n = self.entries.len();
        let mut i: usize = 0;
        while i < n
            invariant
                i <= n,
                n == self@.len(),
                self@ == old(self)@,
                forall|s: &str| #[trigger] closure.requires((s,)),
            decreases n - i,
        {
            if closure(self.entries[i].0.as_str()) {
                let ghost pre = self@;
                let (_, buf) = self.entries.remove(i);
                proof {
                    assert(self@ =~= pre.remove(i as int));
                    if unique_keys(pre) {
                        lemma_remove_preserves_unique(pre, i as int);
                    }
                }
                return Some(buf);
            }
            i = i + 1;
        }
        None
    }

    /// Exclusively claims the first file whose name ends with the given
    /// suffix, returning its name and bytes.
    pub fn take_with_suffix(&mut self, suffix: &str) -> (r: Option<(String, Vec<u8>)>)
        ensures
            match r {
                Some(e) => {
                    &&& spec_first_suffix(old(self)@, suffix@) >= 0
                    &&& old(self)@[spec_first_suffix(old(self)@, suffix@)] == (e.0@, e.1@)
                    &&& final(self)@ == old(self)@.remove(
                        spec_first_suffix(old(self)@, suffix@),
                    )
                },
                None => final(self)@ == old(self)@ && spec_first_suffix(old(self)@, suffix@) < 0,
            },
            old(self).wf() ==> final(self).wf(),
    {
        let n = self.entries.len();
        let mut i: usize = 0;
        while i < n
            invariant
                i <= n,
                n == self@.len(),
                self@ == old(self)@,
                forall|j: int| 0 <= j < i ==> !spec_ends_with(#[trigger] self@[j].0, suffix@),
            decreases n - i,
        {
            if str_ends_with(self.entries[i].0.as_str(), suffix) {
                let ghost pre = self@;
                proof {
                    lemma_first_suffix_at(pre, suffix@, i as int);
                }
                let (name, buf) = self.entries.remove(i);
                proof {
                    assert(self@ =~= pre.remove(i as int));
                    if unique_keys(pre) {
                        lemma_remove_preserves_unique(pre, i as int);
                    }
                }
                return Some((name, buf));
            }
            i = i + 1;
        }
        proof {
            lemma_first_suffix_none(self@, suffix@);
        }
        None
    }

    /// Structurally copies this filemap.
    pub fn duplicate(&self) -> (r: Filemap)
        ensures
            r@ == self@,
    {
        let n = self.entries.len();
        let mut entries: Vec<(String, Vec<u8>)> = Vec::new();
        let mut i: usize = 0;
        while i < n
            invariant
                i <= n,
                n == self@.len(),
                entries@.len() == i,
                forall|j: int|
                    0 <= j < i ==> ((#[trigger] entries@[j]).0@, entries@[j].1@) == self@[j],
            decreases n - i,
        {
            entries.push((self.entries[i].0.clone(), crate::text::clone_bytes(&self.entries[i].1)));
            i = i + 1;
        }
        let r = Filemap { entries };
        proof {
            assert(r@ =~= self@);
        }
        r
    }

    /// Replaces a file's bytes, or adds the file when its name is fresh;
    /// returns the prior bytes when the name was taken.
    pub fn replace(&mut self, name: String, buf: Vec<u8>) -> (r: Option<Vec<u8>>)
        ensures
            match r {
                Some(old_buf) => {
                    &&& spec_lookup(old(self)@, name@) == Some(old_buf@)
                    &&& final(self)@ == old(self)@.update(
                        spec_index_of(old(self)@, name@),
                        (name@, buf@),
                    )
                },
                None => {
                    &&& !spec_has_key(old(self)@, name@)
                    &&& final(self)@ == old(self)@.push((name@, buf@))
                },
            },
            old(self).wf() ==> final(self).wf(),
    {
        match self.find_index(name.as_str()) {
            Some(i) => {
                let ghost pre = self@;
                let (_, old_buf) = self.entries.remove(i);
                self.entries.insert(i, (name, buf));
                proof {
                    assert(self@ =~= pre.update(i as int, (name@, self@[i as int].1)));
                    if unique_keys(pre) {
                        crate::assoc::lemma_update_value_preserves_unique(
                            pre,
                            i as int,
                            (name@, self@[i as int].1),
                        );
                    }
                }
                Some(old_buf)
            },
            None => {
                let ghost pre = self@;
                self.entries.push((name, buf));
                proof {
                    assert(self@ =~= pre.push((name@, buf@)));
                    if unique_keys(pre) {
                        lemma_push_fresh_preserves_unique(pre, name@, buf@);
                    }
                }
                None
            },
        }
    }

    /// Merges another archive into this one, failing on any name
    /// collision before anything moves: on error both stand unchanged in
    /// content, and on success the other's entries follow this one's.
    pub fn merge(&mut self, other: Filemap) -> (r: Result<(), PlaymissionError>)
        ensures
            match r {
                Ok(_) => {
                    &&& final(self)@ == old(self)@ + other@
                    &&& forall|j: int|
                        0 <= j < other@.len() ==> !spec_has_key(
                            old(self)@,
                            #[trigger] other@[j].0,
                        )
                },
                Err(e) => {
                    &&& final(self)@ == old(self)@
                    &&& exists|j: int|
                        0 <= j < other@.len() && spec_has_key(old(self)@, #[trigger] other@[j].0)
                    &&& e matches PlaymissionError::TakenFileName(_)
                },
            },
            old(self).wf() && other.wf() ==> final(self).wf(),
    {
        let n = other.entries.len();
        let mut i: usize = 0;
        while i < n
            invariant
                i <= n,
                n == other@.len(),
                self@ == old(self)@,
                forall|j: int| 0 <= j < i ==> !spec_has_key(self@, #[trigger] other@[j].0),
            decreases n - i,
        {
            if let Some(_) = self.find_index(other.entries[i].0.as_str()) {
                proof {
                    lemma_index_of_in_range(self@, other@[i as int].0);
                }
                let name = other.entries[i].0.clone();
                return Err(PlaymissionError::TakenFileName(name));
            }
            i = i + 1;
        }
        let ghost selfpre = self@;
        let ghost otherv = other@;
        let mut rest = other;
        let ghost mut done: int = 0;
        while rest.entries.len() > 0
            invariant
                0 <= done <= otherv.len(),
                rest@ =~= otherv.skip(done),
                self@ =~= selfpre + otherv.take(done),
                forall|j: int| 0 <= j < otherv.len() ==> !spec_has_key(selfpre, #[trigger] otherv[j].0),
                unique_keys(selfpre) && unique_keys(otherv) ==> unique_keys(self@),
            decreases rest.entries.len(),
        {
            let ghost restpre = rest@;
            let ghost selfstep = self@;
            let (name, buf) = rest.entries.remove(0);
            proof {
                assert(rest@ =~= restpre.skip(1));
                assert(restpre[0] == (name@, buf@));
                assert(otherv[done] == (name@, buf@));
            }
            self.entries.push((name, buf));
            proof {
                assert(self@ =~= selfstep.push((name@, buf@)));
                assert(self@ =~= selfpre + otherv.take(done + 1));
                assert(rest@ =~= otherv.skip(done + 1));
                if unique_keys(selfpre) && unique_keys(otherv) {
                    assert forall|a: int, b: int| 0 <= a < b < self@.len() implies (
                    #[trigger] self@[a].0) != (#[trigger] self@[b].0) by {
                        if b == self@.len() - 1 {
                            if a < selfpre.len() {
                                if selfpre[a].0 == otherv[done].0 {
                                    crate::assoc::lemma_index_of_has(
                                        selfpre,
                                        otherv[done].0,
                                        a,
                                    );
                                }
                            } else {
                                assert(self@[a] == otherv[a - selfpre.len()]);
                            }
                        }
                    }
                }
            }
            proof {
                done = done + 1;
            }
        }
        proof {
            assert(self@ =~= selfpre + otherv.take(otherv.len() as int));
            assert(otherv.take(otherv.len() as int) =~= otherv);
        }
        Ok(())
    }

    /// Loads a filemap from the bytes of a zip container. A container
    /// that cannot be read, or one with a repeated entry name, aborts the
    /// whole load.
    #[verifier::loop_isolation(false)]
    pub fn load(bytes: &Vec<u8>) -> (r: Result<Filemap, PlaymissionError>)
        ensures
            match r {
                Ok(fm) => {
                    &&& spec_zip_entries(bytes@) matches Some(es) && fm@ == es
                    &&& fm.wf()
                },
                Err(e) => match spec_zip_entries(bytes@) {
                    Some(es) => !unique_keys(es) && e matches PlaymissionError::TakenFileName(_),
                    None => e matches PlaymissionError::ArchiveFormat(_),
                },
            },
    {
        let mut raw = match zip_extract(bytes) {
            Ok(v) => v,
            Err(m) => {
                return Err(PlaymissionError::ArchiveFormat(m));
            },
        };
        let ghost es = file_entries_view(raw@);
        let mut fm = Filemap::new();
        let ghost mut done: int = 0;
        while raw.len() > 0
            invariant
                0 <= done <= es.len(),
                file_entries_view(raw@) =~= es.skip(done),
                fm@ =~= es.take(done),
                fm.wf(),
            decreases raw.len(),
        {
            let ghost rawpre = file_entries_view(raw@);
            let (name, buf) = raw.remove(0);
            proof {
                assert(file_entries_view(raw@) =~= rawpre.skip(1));
                assert(rawpre[0] == (name@, buf@));
                assert(es[done] == (name@, buf@));
            }
            match fm.add(name, buf) {
                Ok(_) => {},
                Err(e) => {
                    proof {
                        let i = spec_index_of(fm@, es[done].0);
                        lemma_index_of_in_range(fm@, es[done].0);
                        assert(es.take(done)[i] == es[i]);
                        assert(es[i].0 == es[done].0);
                        assert(!unique_keys(es));
                    }
                    return Err(e);
                },
            }
            proof {
                assert(fm@ =~= es.take(done + 1));
                done = done + 1;
            }
        }
        proof {
            assert(fm@ =~= es.take(es.len() as int));
            assert(es.take(es.len() as int) =~= es);
        }
        Ok(fm)
    }

    /// Writes this filemap into the bytes of a zip container.
    pub fn save(&self) -> (r: Result<Vec<u8>, PlaymissionError>)
        ensures
            match r {
                Ok(b) => spec_zip_bytes(self@) == Some(b@),
                Err(e) => spec_zip_bytes(self@) is None && e
                    matches PlaymissionError::ArchiveFormat(_),
            },
    {
        match zip_build(&self.entries) {
            Ok(b) => Ok(b),
            Err(m) => Err(PlaymissionError::ArchiveFormat(m)),
        }
    }
}

} // verus!
