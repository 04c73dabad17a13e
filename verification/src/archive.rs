//! Planning the extraction of a downloaded archive: which files to create,
//! at which root-relative paths, with which bytes.
//!
//! The archive format itself is read by the `zip` crate behind the trusted
//! declarations below; everything decided about the result — which members
//! are skipped as directories, when extraction is refused for safety, and
//! what ends up where — is verified here.

use vstd::prelude::*;

use crate::error::Error;
use crate::paths::{check_member_path, spec_safe_member};
use crate::text::chars_of;

use std::io::Cursor;
use zip::result::ZipError;
use zip::ZipArchive;

verus! {

#[verifier::external_type_specification]
#[verifier::external_body]
#[verifier::reject_recursive_types(T)]
pub struct ExCursor<T>(Cursor<T>);

#[verifier::external_type_specification]
#[verifier::external_body]
#[verifier::reject_recursive_types(R)]
pub struct ExZipArchive<R>(ZipArchive<R>);

#[verifier::external_type_specification]
#[verifier::external_body]
pub struct ExZipError(ZipError);

/// What reading the archive's members yields, entry by entry in archive
/// order: each member's declared name, and its bytes when the member can be
/// read back, or nothing when it cannot.
pub uninterp spec fn zip_archive_entries(z: ZipArchive<Cursor<Vec<u8>>>) -> Seq<
    (Seq<char>, Option<Seq<u8>>),
>;

/// What opening a byte buffer as a zip archive yields: the entries read
/// back, or nothing when the buffer is not an archive. Archive parsing is a
/// function of the bytes alone.
pub uninterp spec fn spec_zip_parse(b: Seq<u8>) -> Option<Seq<(Seq<char>, Option<Seq<u8>>)>>;

/// Relies on `zip::ZipArchive::new` over an in-memory cursor: it reads the
/// archive's central directory from the bytes alone, and succeeds exactly
/// when they form an archive.
#[verifier::external_body]
fn zip_open(bytes: Vec<u8>) -> (r: Result<ZipArchive<Cursor<Vec<u8>>>, ZipError>)
    ensures
        r is Ok <==> spec_zip_parse(bytes@) is Some,
        r is Ok ==> zip_archive_entries(r->Ok_0) == spec_zip_parse(bytes@)->Some_0,
{
    ZipArchive::new(Cursor::new(bytes))
}

/// Relies on `zip::ZipArchive::len`: the number of members in the archive.
#[verifier::external_body]
fn zip_len(z: &ZipArchive<Cursor<Vec<u8>>>) -> (r: usize)
    ensures
        r == zip_archive_entries(*z).len(),
{
    z.len()
}

/// Relies on `zip::ZipArchive::by_index` and `Read::read_to_end`: member
/// `i`'s declared name and, when it can be decompressed, its bytes. A
/// member whose metadata cannot even be opened reads back as an empty name
/// with no bytes.
#[verifier::external_body]
fn zip_entry(z: &mut ZipArchive<Cursor<Vec<u8>>>, i: usize) -> (r: (String, Option<Vec<u8>>))
    requires
        i < zip_archive_entries(*old(z)).len(),
    ensures
        zip_archive_entries(*final(z)) == zip_archive_entries(*old(z)),
        r.0@ == zip_archive_entries(*old(z))[i as int].0,
        r.1.deep_view() == zip_archive_entries(*old(z))[i as int].1,
{
    match z.by_index(i) {
        Ok(mut f) => {
            let name = f.name().to_string();
            let mut buf: Vec<u8> = Vec::new();
            match std::io::Read::read_to_end(&mut f, &mut buf) {
                Ok(_) => (name, Some(buf)),
                Err(_) => (name, None),
            }
        },
        Err(_) => (String::new(), None),
    }
}

/// One file an extraction will create: a safe path relative to the
/// extraction root, and the bytes to write there.
#[derive(Debug, Clone, PartialEq, Eq)]
pub struct PlannedFile {
    /// The member's path, relative to the extraction root, with `/`
    /// separators.
    pub path: String,
    /// The member's bytes.
    pub data: Vec<u8>,
}

/// The mathematical value of a [`PlannedFile`].
pub struct PlannedFileView {
    pub path: Seq<char>,
    pub data: Seq<u8>,
}

impl DeepView for PlannedFile {
    type V = PlannedFileView;

    open spec fn deep_view(&self) -> PlannedFileView {
        PlannedFileView { path: self.path@, data: self.data@ }
    }
}

/// A member name naming a directory rather than a file: it ends in `/`.
pub open spec fn spec_is_dir_name(name: Seq<char>) -> bool {
    name.len() > 0 && name.last() == '/'
}

/// The plan for a sequence of archive members, processed in order:
/// directory members are skipped, a member whose path is unsafe aborts with
/// the zip-security error, a member whose bytes cannot be read back aborts
/// with the archive error, and every other member becomes one file.
pub open spec fn spec_plan_entries(entries: Seq<(Seq<char>, Option<Seq<u8>>)>) -> Result<
    Seq<PlannedFileView>,
    Error,
>
    decreases entries.len(),
{
    if entries.len() == 0 {
        Ok(Seq::empty())
    } else {
        match spec_plan_entries(entries.drop_last()) {
            Err(e) => Err(e),
            Ok(files) => {
                let (name, data) = entries.last();
                if spec_is_dir_name(name) {
                    Ok(files)
                } else if !spec_safe_member(name) {
                    Err(Error::ZipSecurity)
                } else {
                    match data {
                        None => Err(Error::Zip),
                        Some(bytes) => Ok(files.push(PlannedFileView { path: name, data: bytes })),
                    }
                }
            },
        }
    }
}

/// The extraction plan of a byte buffer: the files a successful extraction
/// creates, in member order, or the error that aborts it.
pub open spec fn spec_extract_plan(b: Seq<u8>) -> Result<Seq<PlannedFileView>, Error> {
    match spec_zip_parse(b) {
        None => Err(Error::Zip),
        Some(entries) => spec_plan_entries(entries),
    }
}

/// An error in a prefix of the members decides the whole plan.
proof fn lemma_plan_error_persists(entries: Seq<(Seq<char>, Option<Seq<u8>>)>, j: int)
    requires
        0 <= j <= entries.len(),
        spec_plan_entries(entries.subrange(0, j)) is Err,
    ensures
        spec_plan_entries(entries) == spec_plan_entries(entries.subrange(0, j)),
    decreases entries.len() - j,
{
    if j == entries.len() {
        assert(entries.subrange(0, j) =~= entries);
    } else {
        assert(entries.subrange(0, j + 1).drop_last() =~= entries.subrange(0, j));
        lemma_plan_error_persists(entries, j + 1);
    }
}

/// Open `bytes` as a zip archive and plan its extraction: every member in
/// archive order, directories skipped, paths checked for safety, bytes
/// fully buffered. No file is planned when any member aborts the plan.
pub fn plan_zip_extraction(bytes: Vec<u8>) -> (r: Result<Vec<PlannedFile>, Error>)
    ensures
        match r {
            Ok(files) => spec_extract_plan(bytes@) == Ok::<Seq<PlannedFileView>, Error>(
                files.deep_view(),
            ),
            Err(e) => spec_extract_plan(bytes@) == Err::<Seq<PlannedFileView>, Error>(e),
        },
{
    let ghost b = bytes@;
    let mut z = match zip_open(bytes) {
        Ok(z) => z,
        Err(_) => {
            return Err(Error::Zip);
        },
    };
    let ghost entries = spec_zip_parse(b)->Some_0;
    let n = zip_len(&z);
    let mut files: Vec<PlannedFile> = Vec::new();
    let mut i: usize = 0;
    proof {
        assert(entries.subrange(0, 0) =~= Seq::<(Seq<char>, Option<Seq<u8>>)>::empty());
        assert(files.deep_view() =~= Seq::<PlannedFileView>::empty());
    }
    while i < n
        invariant
            i <= n,
            n == entries.len(),
            zip_archive_entries(z) == entries,
            b == bytes@,
            spec_zip_parse(b) == Some(entries),
            spec_plan_entries(entries.subrange(0, i as int)) == Ok::<Seq<PlannedFileView>, Error>(
                files.deep_view(),
            ),
        decreases n - i,
    {
        proof {
            assert(entries.subrange(0, i + 1).drop_last() =~= entries.subrange(0, i as int));
            assert(entries.subrange(0, i + 1).last() == entries[i as int]);
        }
        let (name, data) = zip_entry(&mut z, i);
        let name_chars = chars_of(name.as_str());
        let is_dir = name_chars.len() > 0 && name_chars[name_chars.len() - 1] == '/';
        proof {
            assert(is_dir == spec_is_dir_name(entries[i as int].0));
        }
        if is_dir {
            proof {
                assert(spec_plan_entries(entries.subrange(0, i + 1)) == Ok::<
                    Seq<PlannedFileView>,
                    Error,
                >(files.deep_view()));
            }
            i = i + 1;
            continue;
        }
        if !check_member_path(name.as_str()) {
            proof {
                assert(spec_plan_entries(entries.subrange(0, i + 1)) == Err::<
                    Seq<PlannedFileView>,
                    Error,
                >(Error::ZipSecurity));
                lemma_plan_error_persists(entries, i + 1);
            }
            return Err(Error::ZipSecurity);
        }
        let data = match data {
            Some(d) => d,
            None => {
                proof {
                    assert(spec_plan_entries(entries.subrange(0, i + 1)) == Err::<
                        Seq<PlannedFileView>,
                        Error,
                    >(Error::Zip));
                    lemma_plan_error_persists(entries, i + 1);
                }
                return Err(Error::Zip);
            },
        };
        proof {
            assert(data.deep_view() =~= data@);
        }
        let ghost prev = files.deep_view();
        let ghost fv = PlannedFileView { path: name@, data: data@ };
        files.push(PlannedFile { path: name, data });
        proof {
            assert(files.deep_view() =~= prev.push(fv));
            assert(spec_plan_entries(entries.subrange(0, i + 1)) == Ok::<
                Seq<PlannedFileView>,
                Error,
            >(files.deep_view()));
        }
        i = i + 1;
    }
    proof {
        assert(entries.subrange(0, n as int) =~= entries);
    }
    Ok(files)
}

/// Path safety: whatever bytes are opened, a successful extraction plan
/// holds only safe member paths, so every created file stays under the
/// extraction root.
pub proof fn lemma_extract_plan_safety(b: Seq<u8>)
    ensures
        spec_extract_plan(b) matches Ok(files) ==> forall|k: int|
            0 <= k < files.len() ==> spec_safe_member(#[trigger] files[k].path),
{
    match spec_zip_parse(b) {
        Some(entries) => lemma_extraction_path_safety(entries),
        None => {},
    }
}

/// Path safety over an archive's members: a plan that succeeds holds only
/// safe member paths; an archive with an unsafe non-directory member never
/// yields a plan; and when every member reads back, the only failure left
/// is the zip-security error.
pub proof fn lemma_extraction_path_safety(entries: Seq<(Seq<char>, Option<Seq<u8>>)>)
    ensures
        spec_plan_entries(entries) matches Ok(files) ==> forall|k: int|
            0 <= k < files.len() ==> spec_safe_member(#[trigger] files[k].path),
        (exists|k: int|
            0 <= k < entries.len() && !spec_is_dir_name(#[trigger] entries[k].0)
                && !spec_safe_member(entries[k].0)) ==> spec_plan_entries(entries) is Err,
        (forall|k: int| 0 <= k < entries.len() ==> #[trigger] entries[k].1 is Some)
            && spec_plan_entries(entries) is Err ==> spec_plan_entries(entries) == Err::<
            Seq<PlannedFileView>,
            Error,
        >(Error::ZipSecurity),
        (exists|k: int|
            0 <= k < entries.len() && !spec_is_dir_name(#[trigger] entries[k].0)
                && !spec_safe_member(entries[k].0)) && (forall|k: int|
            0 <= k < entries.len() ==> #[trigger] entries[k].1 is Some) ==> spec_plan_entries(
            entries,
        ) == Err::<Seq<PlannedFileView>, Error>(Error::ZipSecurity),
    decreases entries.len(),
{
    if entries.len() > 0 {
        lemma_extraction_path_safety(entries.drop_last());
        assert(forall|k: int|
            0 <= k < entries.len() - 1 ==> #[trigger] entries.drop_last()[k] == entries[k]);
        if exists|k: int|
            0 <= k < entries.len() && !spec_is_dir_name(#[trigger] entries[k].0)
                && !spec_safe_member(entries[k].0) {
            let k = choose|k: int|
                0 <= k < entries.len() && !spec_is_dir_name(#[trigger] entries[k].0)
                    && !spec_safe_member(entries[k].0);
            if k < entries.len() - 1 {
                assert(entries.drop_last()[k] == entries[k]);
                assert(exists|j: int|
                    0 <= j < entries.drop_last().len() && !spec_is_dir_name(
                        #[trigger] entries.drop_last()[j].0,
                    ) && !spec_safe_member(entries.drop_last()[j].0));
            }
        }
    }
}

} // verus!
