//! The catalog of datasets: the subdirectories of the data directory, each
//! with the mutation files it holds, built from what a directory scan saw.

use vstd::prelude::*;
use vstd::slice::slice_to_vec;
use crate::paths::DOT;
use crate::text::{before_first, find_byte};

verus! {

/// A point in time: seconds and nanoseconds since the Unix epoch.
#[derive(Clone, Copy, Debug, PartialEq, Eq, Structural)]
pub struct Timestamp {
    pub secs: i64,
    pub nanos: u32,
}

/// The times that a file's metadata gives.
#[derive(Clone, Copy, Debug, PartialEq, Eq, Structural)]
pub struct FileTimes {
    pub modified: Timestamp,
    pub accessed: Timestamp,
}

/// One entry of a dataset directory as the scan saw it.
pub struct ScannedFile {
    /// The file name; `None` when it is not valid UTF-8.
    pub name: Option<Vec<u8>>,
    /// The file's times; `None` when its metadata could not be read.
    pub times: Option<FileTimes>,
}

/// One entry of the data directory as the scan saw it.
pub struct ScannedDir {
    /// The directory name; `None` when it is not valid UTF-8.
    pub name: Option<Vec<u8>>,
    /// Its entries; `None` when it could not be listed.
    pub files: Option<Vec<ScannedFile>>,
}

/// A mutation file of a dataset: its stem and times.
pub struct MutationFile {
    pub name: Vec<u8>,
    pub modified: Timestamp,
    pub accessed: Timestamp,
}

/// A dataset: a subdirectory of the data directory and its mutation files.
pub struct Dataset {
    pub name: Vec<u8>,
    pub files: Vec<MutationFile>,
}

/// Why the catalog could not be built.
#[derive(Debug)]
pub enum CatalogError {
    /// The metadata of the mutation file `file` could not be read.
    Metadata { file: Vec<u8> },
}

/// What a `MutationFile` holds, its name as bytes.
pub ghost struct MutationFileView {
    pub name: Seq<u8>,
    pub modified: Timestamp,
    pub accessed: Timestamp,
}

/// What a `Dataset` holds, its name as bytes and its files in order.
pub ghost struct DatasetView {
    pub name: Seq<u8>,
    pub files: Seq<MutationFileView>,
}

impl View for MutationFile {
    type V = MutationFileView;

    open spec fn view(&self) -> MutationFileView {
        MutationFileView { name: self.name@, modified: self.modified, accessed: self.accessed }
    }
}

impl View for Dataset {
    type V = DatasetView;

    open spec fn view(&self) -> DatasetView {
        DatasetView { name: self.name@, files: self.files@.map_values(|f: MutationFile| f@) }
    }
}

/// `s` ends with `suffix`.
pub open spec fn ends_with(s: Seq<u8>, suffix: Seq<u8>) -> bool {
    suffix.len() <= s.len() && s.skip(s.len() - suffix.len()) == suffix
}

/// `.vcf`
pub open spec fn vcf_suffix() -> Seq<u8> {
    seq![DOT, 118u8, 99u8, 102u8]
}

/// `.vcf.gz`
pub open spec fn vcf_gz_suffix() -> Seq<u8> {
    seq![DOT, 118u8, 99u8, 102u8, DOT, 103u8, 122u8]
}

/// A mutation file is named `<stem>.vcf` or `<stem>.vcf.gz`.
pub open spec fn recognized(name: Seq<u8>) -> bool {
    ends_with(name, vcf_suffix()) || ends_with(name, vcf_gz_suffix())
}

/// The stem of a file name: what precedes its first `.`.
pub open spec fn stem(name: Seq<u8>) -> Seq<u8> {
    before_first(name, DOT)
}

/// What the scan of one directory's entries `fs` gives: the mutation files
/// in scan order, or the name of the first mutation file whose metadata
/// could not be read.
pub open spec fn scan_files(fs: Seq<ScannedFile>) -> Result<Seq<MutationFileView>, Seq<u8>>
    decreases fs.len(),
{
    if fs.len() == 0 {
        Ok(Seq::empty())
    } else {
        match scan_files(fs.drop_last()) {
            Err(e) => Err(e),
            Ok(found) => {
                let f = fs.last();
                match f.name {
                    Some(n) => if !recognized(n@) {
                        Ok(found)
                    } else {
                        match f.times {
                            Some(t) => Ok(
                                found.push(
                                    MutationFileView {
                                        name: stem(n@),
                                        modified: t.modified,
                                        accessed: t.accessed,
                                    },
                                ),
                            ),
                            None => Err(n@),
                        }
                    },
                    None => Ok(found),
                }
            },
        }
    }
}

/// What the scan of one subdirectory gives: its dataset, `None` where it
/// could not be listed or its name is not UTF-8, or the failing file.
pub open spec fn scan_dir(d: ScannedDir) -> Result<Option<DatasetView>, Seq<u8>> {
    match d.files {
        None => Ok(None),
        Some(fs) => match scan_files(fs@) {
            Err(e) => Err(e),
            Ok(found) => match d.name {
                Some(n) => Ok(Some(DatasetView { name: n@, files: found })),
                None => Ok(None),
            },
        },
    }
}

/// The catalog of the subdirectories `ds`, in scan order, or the name of
/// the first mutation file whose metadata could not be read.
pub open spec fn catalog(ds: Seq<ScannedDir>) -> Result<Seq<DatasetView>, Seq<u8>>
    decreases ds.len(),
{
    if ds.len() == 0 {
        Ok(Seq::empty())
    } else {
        match catalog(ds.drop_last()) {
            Err(e) => Err(e),
            Ok(found) => match scan_dir(ds.last()) {
                Err(e) => Err(e),
                Ok(None) => Ok(found),
                Ok(Some(d)) => Ok(found.push(d)),
            },
        }
    }
}

proof fn lemma_scan_files_fails(fs: Seq<ScannedFile>, k: int)
    requires
        0 <= k <= fs.len(),
        scan_files(fs.take(k)) is Err,
    ensures
        scan_files(fs) == scan_files(fs.take(k)),
    decreases fs.len() - k,
{
    if k == fs.len() {
        assert(fs.take(k) == fs);
    } else {
        assert(fs.drop_last().take(k) == fs.take(k));
        lemma_scan_files_fails(fs.drop_last(), k);
    }
}

proof fn lemma_catalog_fails(ds: Seq<ScannedDir>, k: int)
    requires
        0 <= k <= ds.len(),
        catalog(ds.take(k)) is Err,
    ensures
        catalog(ds) == catalog(ds.take(k)),
    decreases ds.len() - k,
{
    if k == ds.len() {
        assert(ds.take(k) == ds);
    } else {
        assert(ds.drop_last().take(k) == ds.take(k));
        lemma_catalog_fails(ds.drop_last(), k);
    }
}

/// Whether `s` ends with `suffix`.
fn has_suffix(s: &[u8], suffix: &[u8]) -> (r: bool)
    ensures
        r == ends_with(s@, suffix@),
{
    let n = s.len();
    let m = suffix.len();
    if m > n {
        return false;
    }
    let mut i: usize = 0;
    while i < m
        invariant
            n == s@.len(),
            m == suffix@.len(),
            m <= n,
            i <= m,
            forall|j: int| 0 <= j < i ==> s@[n - m + j] == #[trigger] suffix@[j],
        decreases m - i,
    {
        if s[n - m + i] != suffix[i] {
            assert(s@.skip(n - m)[i as int] != suffix@[i as int]);
            return false;
        }
        i = i + 1;
    }
    assert(s@.skip(n - m) =~= suffix@);
    true
}

/// Whether `name` is that of a mutation file.
pub fn is_mutation_file(name: &[u8]) -> (r: bool)
    ensures
        r == recognized(name@),
{
    let vcf: [u8; 4] = [DOT, 118u8, 99u8, 102u8];
    let vcf_gz: [u8; 7] = [DOT, 118u8, 99u8, 102u8, DOT, 103u8, 122u8];
    assert(vcf@ =~= vcf_suffix());
    assert(vcf_gz@ =~= vcf_gz_suffix());
    has_suffix(name, vcf.as_slice()) || has_suffix(name, vcf_gz.as_slice())
}

/// The stem of the file name `name`.
pub fn file_stem(name: &[u8]) -> (r: Vec<u8>)
    ensures
        r@ == stem(name@),
{
    let k = find_byte(name, DOT);
    slice_to_vec(&name[0..k])
}

/// The mutation files among one directory's entries `fs`, in scan order.
pub fn scan_mutation_files(fs: &Vec<ScannedFile>) -> (r: Result<Vec<MutationFile>, CatalogError>)
    ensures
        match r {
            Ok(found) => scan_files(fs@) == Ok::<_, Seq<u8>>(
                found@.map_values(|f: MutationFile| f@),
            ),
            Err(CatalogError::Metadata { file }) => scan_files(fs@) == Err::<
                Seq<MutationFileView>,
                _,
            >(file@),
        },
{
    let mut found: Vec<MutationFile> = Vec::new();
    let mut i: usize = 0;
    assert(fs@.take(0) =~= Seq::<ScannedFile>::empty());
    assert(found@.map_values(|f: MutationFile| f@) =~= Seq::<MutationFileView>::empty());
    while i < fs.len()
        invariant
            i <= fs@.len(),
            scan_files(fs@.take(i as int)) == Ok::<_, Seq<u8>>(
                found@.map_values(|f: MutationFile| f@),
            ),
        decreases fs@.len() - i,
    {
        let f = &fs[i];
        assert(fs@.take(i + 1).drop_last() == fs@.take(i as int));
        assert(fs@.take(i + 1).last() == *f);
        let ghost before = found@.map_values(|f: MutationFile| f@);
        match &f.name {
            Some(n) => {
                if is_mutation_file(n.as_slice()) {
                    match f.times {
                        Some(t) => {
                            let m = MutationFile {
                                name: file_stem(n.as_slice()),
                                modified: t.modified,
                                accessed: t.accessed,
                            };
                            found.push(m);
                            assert(found@.map_values(|f: MutationFile| f@) =~= before.push(m@));
                        },
                        None => {
                            proof {
                                lemma_scan_files_fails(fs@, i + 1);
                            }
                            return Err(CatalogError::Metadata { file: slice_to_vec(n.as_slice()) });
                        },
                    }
                }
            },
            None => {},
        }
        i = i + 1;
    }
    assert(fs@.take(i as int) == fs@);
    Ok(found)
}

/// Builds the catalog from the scanned subdirectories `dirs`: one dataset
/// for each that could be listed and has a UTF-8 name, in scan order, each
/// with its mutation files; fails on the first mutation file whose metadata
/// could not be read.
pub fn build_catalog(dirs: &Vec<ScannedDir>) -> (r: Result<Vec<Dataset>, CatalogError>)
    ensures
        match r {
            Ok(found) => catalog(dirs@) == Ok::<_, Seq<u8>>(found@.map_values(|d: Dataset| d@)),
            Err(CatalogError::Metadata { file }) => catalog(dirs@) == Err::<
                Seq<DatasetView>,
                _,
            >(file@),
        },
{
    let mut found: Vec<Dataset> = Vec::new();
    let mut i: usize = 0;
    assert(dirs@.take(0) =~= Seq::<ScannedDir>::empty());
    assert(found@.map_values(|d: Dataset| d@) =~= Seq::<DatasetView>::empty());
    while i < dirs.len()
        invariant
            i <= dirs@.len(),
            catalog(dirs@.take(i as int)) == Ok::<_, Seq<u8>>(
                found@.map_values(|d: Dataset| d@),
            ),
        decreases dirs@.len() - i,
    {
        let d = &dirs[i];
        assert(dirs@.take(i + 1).drop_last() == dirs@.take(i as int));
        assert(dirs@.take(i + 1).last() == *d);
        let ghost before = found@.map_values(|d: Dataset| d@);
        match &d.files {
            Some(fs) => {
                let files = match scan_mutation_files(fs) {
                    Ok(files) => files,
                    Err(e) => {
                        proof {
                            lemma_catalog_fails(dirs@, i + 1);
                        }
                        return Err(e);
                    },
                };
                match &d.name {
                    Some(n) => {
                        let ds = Dataset { name: slice_to_vec(n.as_slice()), files };
                        found.push(ds);
                        assert(found@.map_values(|d: Dataset| d@) =~= before.push(ds@));
                    },
                    None => {},
                }
            },
            None => {},
        }
        i = i + 1;
    }
    assert(dirs@.take(i as int) == dirs@);
    Ok(found)
}

} // verus!
