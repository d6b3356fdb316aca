//! The built-in archive backend: reads a ZIP archive held in memory and keeps
//! only its executable entries, each under its bare file name.
//!
//! An entry's bare file name is what follows its last `/` or `\`.
use vstd::prelude::*;
use crate::text::{base_name, base_name_spec, is_executable_name, is_executable_spec};

verus! {

#[verifier::external_type_specification]
#[verifier::external_body]
#[verifier::reject_recursive_types(T)]
pub struct ExCursor<T>(std::io::Cursor<T>);

#[verifier::external_type_specification]
#[verifier::external_body]
#[verifier::reject_recursive_types(R)]
pub struct ExZipArchive<R>(zip::ZipArchive<R>);

#[verifier::external_type_specification]
#[verifier::external_body]
pub struct ExZipError(zip::result::ZipError);

/// An archive read from bytes in memory. Every such archive in this module
/// comes from `open_archive`, that is from `zip::ZipArchive::new` with its
/// default configuration; the names below describe the bytes as read that way.
pub type MemArchive = zip::ZipArchive<std::io::Cursor<Vec<u8>>>;

/// The bytes an opened archive reads from.
pub uninterp spec fn archive_bytes(a: MemArchive) -> Seq<u8>;

/// Whether `zip::ZipArchive::new` accepts these bytes as an archive.
pub uninterp spec fn zip_opens(bytes: Seq<u8>) -> bool;

/// Whether each entry, in central-directory order, can be opened for reading,
/// the archive being read by `zip::ZipArchive::new`.
pub uninterp spec fn zip_entry_opens(bytes: Seq<u8>) -> Seq<bool>;

/// Each entry's path where it stays inside the extraction root, `None` where
/// it does not (an absolute path, one that climbs above the root, or one
/// holding a NUL), the archive being read by `zip::ZipArchive::new`. Which
/// paths count as absolute follows the path rules of the build target (on
/// Windows `\` and drive prefixes are path syntax too).
pub uninterp spec fn zip_entry_paths(bytes: Seq<u8>) -> Seq<Option<Seq<char>>>;

/// Each entry's decompressed content, `None` where reading it fails, the
/// archive being read by `zip::ZipArchive::new`.
pub uninterp spec fn zip_entry_data(bytes: Seq<u8>) -> Seq<Option<Seq<u8>>>;

/// Relies on `zip::ZipArchive::new`: reads the central directory of the
/// archive held in `bytes`, and keeps the bytes as its reader.
#[verifier::external_body]
fn open_archive(bytes: Vec<u8>) -> (r: Result<MemArchive, zip::result::ZipError>)
    ensures
        r is Ok <==> zip_opens(bytes@),
        r matches Ok(a) ==> archive_bytes(a) == bytes@,
{
    zip::ZipArchive::new(std::io::Cursor::new(bytes))
}

/// Relies on `zip::ZipArchive::len`: the number of entries.
#[verifier::external_body]
fn entry_count(a: &MemArchive) -> (r: usize)
    ensures
        r == zip_entry_paths(archive_bytes(*a)).len(),
        r == zip_entry_opens(archive_bytes(*a)).len(),
        r == zip_entry_data(archive_bytes(*a)).len(),
{
    a.len()
}

/// Relies on `zip::ZipArchive::by_index`, and on `ZipFile::enclosed_name`
/// and `ZipFile`'s `std::io::Read::read_to_end` on the entry it opens: the
/// entry's path where it stays inside the extraction root, and the outcome
/// of reading its decompressed content. The bytes read from do not change.
#[verifier::external_body]
fn read_entry(a: &mut MemArchive, i: usize) -> (r: Result<
    (Option<String>, Result<Vec<u8>, zip::result::ZipError>),
    zip::result::ZipError,
>)
    requires
        i < zip_entry_paths(archive_bytes(*old(a))).len(),
    ensures
        archive_bytes(*final(a)) == archive_bytes(*old(a)),
        r is Ok <==> zip_entry_opens(archive_bytes(*old(a)))[i as int],
        r matches Ok((p, d)) ==> (match p {
            Some(s) => zip_entry_paths(archive_bytes(*old(a)))[i as int] == Some(s@),
            None => zip_entry_paths(archive_bytes(*old(a)))[i as int] is None,
        }) && (match d {
            Ok(v) => zip_entry_data(archive_bytes(*old(a)))[i as int] == Some(v@),
            Err(_) => zip_entry_data(archive_bytes(*old(a)))[i as int] is None,
        }),
{
    a.by_index(i).map(|mut f| {
        let path = f.enclosed_name().map(|p| p.to_string_lossy().into_owned());
        let mut out: Vec<u8> = Vec::new();
        let data = std::io::Read::read_to_end(&mut f, &mut out).map(|_| out).map_err(zip::result::ZipError::Io);
        (path, data)
    })
}

/// An executable taken out of an archive.
pub struct ExtractedFile {
    /// Its bare file name, without the directories it sat in.
    pub name: String,
    /// Its content.
    pub data: Vec<u8>,
}

/// Why the built-in backend failed.
#[derive(PartialEq, Eq, Structural, Clone, Copy, Debug)]
pub enum ArchiveError {
    /// The bytes are not a readable ZIP archive.
    Invalid,
    /// An entry could not be read or decompressed.
    Unreadable,
}

pub open spec fn file_views(fs: Seq<ExtractedFile>) -> Seq<(Seq<char>, Seq<u8>)> {
    fs.map_values(|f: ExtractedFile| (f.name@, f.data@))
}

/// The bare file name an entry is placed under, if it is an executable
/// inside the extraction root. Entries naming a directory (ending in `/`)
/// have an empty file name and never qualify.
pub open spec fn entry_executable(path: Option<Seq<char>>) -> Option<Seq<char>> {
    match path {
        Some(p) => if is_executable_spec(base_name_spec(p)) {
            Some(base_name_spec(p))
        } else {
            None
        },
        None => None,
    }
}

/// The executables among the entries, in order, each under its bare file
/// name with its content; other entries are left out.
pub open spec fn executables_spec(paths: Seq<Option<Seq<char>>>, data: Seq<Option<Seq<u8>>>) -> Seq<
    (Seq<char>, Seq<u8>),
>
    decreases paths.len(),
{
    if paths.len() == 0 {
        seq![]
    } else {
        let i = paths.len() - 1;
        let prev = executables_spec(paths.drop_last(), data);
        match entry_executable(paths[i]) {
            Some(name) => prev.push((name, data[i].unwrap_or(seq![]))),
            None => prev,
        }
    }
}

/// How many of the entries are executables inside the root.
pub open spec fn executable_count(paths: Seq<Option<Seq<char>>>) -> nat
    decreases paths.len(),
{
    if paths.len() == 0 {
        0
    } else {
        let prev = executable_count(paths.drop_last());
        if entry_executable(paths[paths.len() - 1]) is Some {
            prev + 1
        } else {
            prev
        }
    }
}

/// Every entry opens, and every executable entry inside the root can be read.
pub open spec fn entries_readable(bytes: Seq<u8>) -> bool {
    prefix_readable(
        zip_entry_opens(bytes),
        zip_entry_paths(bytes),
        zip_entry_data(bytes),
        zip_entry_paths(bytes).len() as int,
    )
}

/// The first `i` entries open, and those that are executables inside the
/// root can be read.
pub open spec fn prefix_readable(
    opens: Seq<bool>,
    paths: Seq<Option<Seq<char>>>,
    data: Seq<Option<Seq<u8>>>,
    i: int,
) -> bool {
    forall|k: int| 0 <= k < i ==> #[trigger] readable_at(opens, paths, data, k)
}

/// Entry `k` opens, and can be read if it is an executable inside the root.
pub open spec fn readable_at(
    opens: Seq<bool>,
    paths: Seq<Option<Seq<char>>>,
    data: Seq<Option<Seq<u8>>>,
    k: int,
) -> bool {
    &&& opens[k]
    &&& entry_executable(paths[k]) is Some ==> data[k] is Some
}

/// Takes the executables out of an opened archive, in entry order. It fails
/// exactly when an entry cannot be opened, or an executable entry inside the
/// root cannot be read. Only archives from `open_archive` reach it.
fn executables_in(archive: &mut MemArchive) -> (r: Result<Vec<ExtractedFile>, ArchiveError>)
    ensures
        archive_bytes(*final(archive)) == archive_bytes(*old(archive)),
        r is Ok <==> entries_readable(archive_bytes(*old(archive))),
        r matches Ok(fs) ==> file_views(fs@) == executables_spec(
            zip_entry_paths(archive_bytes(*old(archive))),
            zip_entry_data(archive_bytes(*old(archive))),
        ),
        r matches Err(e) ==> e == ArchiveError::Unreadable,
{
    let ghost bytes = archive_bytes(*archive);
    let ghost paths = zip_entry_paths(bytes);
    let ghost data = zip_entry_data(bytes);
    let ghost opens = zip_entry_opens(bytes);
    let n = entry_count(archive);
    let mut out: Vec<ExtractedFile> = Vec::new();
    let mut i: usize = 0;
    while i < n
        invariant
            n == paths.len(),
            n == data.len(),
            n == opens.len(),
            i <= n,
            bytes == archive_bytes(*old(archive)),
            archive_bytes(*archive) == bytes,
            paths == zip_entry_paths(bytes),
            data == zip_entry_data(bytes),
            opens == zip_entry_opens(bytes),
            prefix_readable(opens, paths, data, i as int),
            file_views(out@) == executables_spec(paths.subrange(0, i as int), data),
        decreases n - i,
    {
        let ghost before = out@;
        assert(paths.subrange(0, i as int + 1).drop_last() =~= paths.subrange(0, i as int));
        match read_entry(archive, i) {
            Err(_) => {
                assert(!readable_at(opens, paths, data, i as int));
                return Err(ArchiveError::Unreadable);
            },
            Ok((None, _)) => {},
            Ok((Some(p), read)) => {
                let name = base_name(p.as_str());
                if is_executable_name(name.as_str()) {
                    let content = match read {
                        Ok(d) => d,
                        Err(_) => {
                            assert(entry_executable(paths[i as int]) is Some);
                            assert(!readable_at(opens, paths, data, i as int));
                            return Err(ArchiveError::Unreadable);
                        },
                    };
                    out.push(ExtractedFile { name, data: content });
                    assert(file_views(out@) =~= file_views(before).push(
                        (base_name_spec(p@), data[i as int].unwrap_or(seq![])),
                    ));
                }
            },
        }
        assert(readable_at(opens, paths, data, i as int));
        assert(prefix_readable(opens, paths, data, i as int + 1));
        i += 1;
    }
    assert(paths.subrange(0, n as int) =~= paths);
    assert(entries_readable(bytes));
    Ok(out)
}

/// The built-in backend: opens the archive held in `bytes` and takes its
/// executables out, in entry order, each under its bare file name with its
/// content. It fails with `Invalid` exactly when the bytes are not an
/// archive, and with `Unreadable` exactly when an entry cannot be opened or
/// an executable entry cannot be read.
pub fn extract_executables(bytes: Vec<u8>) -> (r: Result<Vec<ExtractedFile>, ArchiveError>)
    ensures
        r is Ok <==> zip_opens(bytes@) && entries_readable(bytes@),
        r matches Ok(fs) ==> file_views(fs@) == executables_spec(
            zip_entry_paths(bytes@),
            zip_entry_data(bytes@),
        ),
        r matches Err(e) ==> (e == ArchiveError::Invalid <==> !zip_opens(bytes@)),
{
    match open_archive(bytes) {
        Ok(mut a) => executables_in(&mut a),
        Err(_) => Err(ArchiveError::Invalid),
    }
}

/// The built-in backend keeps exactly the executables: one file per
/// executable entry inside the root, each under an executable name.
pub proof fn lemma_only_executables_kept(paths: Seq<Option<Seq<char>>>, data: Seq<Option<Seq<u8>>>)
    ensures
        executables_spec(paths, data).len() == executable_count(paths),
        forall|k: int|
            0 <= k < executables_spec(paths, data).len() ==> is_executable_spec(
                (#[trigger] executables_spec(paths, data)[k]).0,
            ),
    decreases paths.len(),
{
    if paths.len() > 0 {
        lemma_only_executables_kept(paths.drop_last(), data);
    }
}

} // verus!
