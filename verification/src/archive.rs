//! Picking files out of zip archives.

use std::io::{Cursor, Read};
use vstd::prelude::*;
use zip::result::ZipError;
use zip::ZipArchive;
use crate::text::{
    chars_of, contains, ends_with, occurs_at, one_piece_is_not_split, split, split_appended,
    split_pieces_hold_no_separator, split_pieces_occur,
};

verus! {

// ---- Outside ----------------------------------------------------------------------

/// A zip archive that is read from `R`.
#[verifier::external_type_specification]
#[verifier::external_body]
#[verifier::reject_recursive_types(R)]
pub struct ExZipArchive<R>(ZipArchive<R>);

/// The errors of the zip reader.
#[verifier::external_type_specification]
#[verifier::external_body]
pub struct ExZipError(ZipError);

/// A reader of bytes in memory.
#[verifier::external_type_specification]
#[verifier::external_body]
#[verifier::reject_recursive_types(T)]
pub struct ExCursor<T>(Cursor<T>);

/// The errors of reading.
#[verifier::external_type_specification]
#[verifier::external_body]
pub struct ExIoError(std::io::Error);

/// What reading an entry of an archive gives.
pub enum Contents {
    /// All that the entry holds.
    Whole(Seq<u8>),
    /// An error before the end is reached. How much was read until then depends on the sizes
    /// in which the reader asks for bytes: it is one of these.
    Broken(Set<Seq<u8>>),
}

/// One entry of an archive.
pub struct Entry {
    /// Its name, directories included.
    pub name: Seq<char>,
    /// What reading it gives.
    pub contents: Contents,
}

/// The entries of an opened archive, in order; `None` stands for an entry that cannot be
/// opened.
pub uninterp spec fn archive_entries(archive: ZipArchive<Cursor<Vec<u8>>>) -> Seq<Option<Entry>>;

/// The entries of the archive that `bytes` are, or `None` if they are no archive.
pub uninterp spec fn zip_entries(bytes: Seq<u8>) -> Option<Seq<Option<Entry>>>;

/// `ZipArchive::new` opens the archive that the bytes are. Whether it succeeds, and what the
/// archive then holds, depends on the bytes alone.
#[verifier::external_body]
fn open_archive(bytes: Vec<u8>) -> (r: Result<ZipArchive<Cursor<Vec<u8>>>, ZipError>)
    ensures
        r is Ok <==> zip_entries(bytes@) is Some,
        r is Ok ==> zip_entries(bytes@) == Some(archive_entries(r->Ok_0)),
{
    ZipArchive::new(Cursor::new(bytes))
}

/// `ZipArchive::len` gives the number of entries.
#[verifier::external_body]
fn archive_len(archive: &ZipArchive<Cursor<Vec<u8>>>) -> (n: usize)
    ensures
        n == archive_entries(*archive).len(),
{
    archive.len()
}

/// Whether `name` is the name of a directory in an archive.
pub open spec fn names_directory(name: Seq<char>) -> bool {
    name.len() > 0 && (name.last() == '/' || name.last() == '\\')
}

/// `ZipArchive::by_index` opens an entry, unless it is encrypted or neither stored nor
/// deflated: the crate is built without other decoders. `ZipFile::name` gives its name and
/// `ZipFile::is_dir` tells by the last character whether it is a directory. The archive holds
/// the same entries as before.
#[verifier::external_body]
fn entry_name(archive: &mut ZipArchive<Cursor<Vec<u8>>>, i: usize) -> (r: Result<
    (String, bool),
    ZipError,
>)
    requires
        i < archive_entries(*old(archive)).len(),
    ensures
        archive_entries(*final(archive)) == archive_entries(*old(archive)),
        r is Ok <==> archive_entries(*old(archive))[i as int] is Some,
        r is Ok ==> r->Ok_0.0@ == archive_entries(*old(archive))[i as int]->Some_0.name,
        r is Ok ==> r->Ok_0.1 == names_directory(r->Ok_0.0@),
{
    let entry = archive.by_index(i)?;
    Ok((entry.name().to_string(), entry.is_dir()))
}

/// `ZipArchive::by_index` opens an entry and `Read::read_to_end` reads what it holds. If the
/// reading fails, the bytes that were read until then are handed out with the error. Which
/// bytes of the set `Broken` they are is not said: a decoder drops what it has decoded within
/// the call that fails, so it depends on how much room the vector had. The archive holds the
/// same entries as before.
#[verifier::external_body]
fn entry_data(archive: &mut ZipArchive<Cursor<Vec<u8>>>, i: usize) -> (r: Result<
    (Vec<u8>, Option<std::io::Error>),
    ZipError,
>)
    requires
        i < archive_entries(*old(archive)).len(),
    ensures
        archive_entries(*final(archive)) == archive_entries(*old(archive)),
        r is Ok <==> archive_entries(*old(archive))[i as int] is Some,
        r is Ok ==> match archive_entries(*old(archive))[i as int]->Some_0.contents {
            Contents::Whole(data) => r->Ok_0.1 is None && r->Ok_0.0@ == data,
            Contents::Broken(read) => r->Ok_0.1 is Some && read.contains(r->Ok_0.0@),
        },
{
    let mut data = Vec::new();
    let mut entry = archive.by_index(i)?;
    let failure = entry.read_to_end(&mut data).err();
    Ok((data, failure))
}

/// Whether `c` separates the parts of a path on some platform.
pub open spec fn is_separator(c: char) -> bool {
    c == '/' || c == '\\'
}

/// Whether `path` starts with two separators, as the path of a network share, of a device or a
/// verbatim path does on Windows.
pub open spec fn starts_doubly(path: Seq<char>) -> bool {
    path.len() >= 2 && is_separator(path[0]) && is_separator(path[1])
}

/// `path` without the drive that it starts with on Windows: a letter and a colon.
pub open spec fn without_drive(path: Seq<char>) -> Seq<char> {
    if path.len() >= 2 && path[1] == ':' && ('a' <= path[0] <= 'z' || 'A' <= path[0] <= 'Z') {
        path.skip(2)
    } else {
        path
    }
}

/// Whether `path` means the same on every platform: it does not start with two separators
/// or a drive, and it holds no backslash.
pub open spec fn is_plain(path: Seq<char>) -> bool {
    &&& !starts_doubly(path)
    &&& without_drive(path) == path
    &&& !path.contains('\\')
}

/// `path` with a slash in place of every backslash.
pub open spec fn slashed(path: Seq<char>) -> Seq<char> {
    path.map_values(
        |c: char|
            if c == '\\' {
                '/'
            } else {
                c
            },
    )
}

/// The predicate that holds of the parts of a path that name something.
pub open spec fn significant() -> spec_fn(Seq<char>) -> bool {
    |part: Seq<char>| part.len() > 0 && part != seq!['.']
}

/// The last of the components of a path between the separators `sep`, if it is a name.
pub open spec fn last_component_at(path: Seq<char>, sep: char) -> Option<Seq<char>> {
    let parts = split(path, sep).filter(significant());
    if parts.len() == 0 || parts.last() == seq!['.', '.'] {
        None
    } else {
        Some(parts.last())
    }
}

/// The last of the components of a path between its slashes, if it is a name.
pub open spec fn last_component(path: Seq<char>) -> Option<Seq<char>> {
    last_component_at(path, '/')
}

/// Whether `name` is the file name of `path` on some platform: a part of the path that is not
/// empty, and its last component. On Windows a drive is no component, and a backslash is a
/// separator too. If the path starts with two separators, all of it may be a prefix there, so
/// that there is no file name, or the backslash may be the only separator.
pub open spec fn may_be_file_name(path: Seq<char>, name: Option<Seq<char>>) -> bool {
    &&& name matches Some(n) ==> n.len() > 0 && contains(path, n)
    &&& !starts_doubly(path) ==> {
        ||| name == last_component(path)
        ||| name == last_component(slashed(without_drive(path)))
    }
    &&& starts_doubly(path) ==> {
        ||| name is None
        ||| name == last_component(path)
        ||| name == last_component(slashed(path))
        ||| name == last_component_at(path, '\\')
    }
}

/// `Path::file_name` gives the last component of a path, if it is a name. What separates the
/// components, and what counts as a prefix and not as a component, the platform decides:
/// which of its possible file names a path has is not said where these differ.
#[verifier::external_body]
fn file_name_of(path: &str) -> (r: Option<String>)
    ensures
        may_be_file_name(path@, r.deep_view()),
{
    let name = std::path::Path::new(path).file_name();
    name.and_then(|n| n.to_str()).map(|n| n.to_string())
}

// ---- What is picked ---------------------------------------------------------------

/// A file that was picked out of an archive.
#[derive(Debug)]
pub struct OutFile {
    pub name: String,
    pub data: Vec<u8>,
}

/// Why an archive could not be read to its end.
#[derive(Debug)]
pub enum ArchiveError {
    /// It could not be opened.
    Open(ZipError),
    /// One of its entries could not be opened.
    Entry(ZipError),
    /// What an entry holds could not be read.
    Read(std::io::Error),
}

/// The files that were picked out of an archive, in order, and what went wrong in the end,
/// if anything did. If the last file could not be read to its end, it is there with what was
/// read of it.
#[derive(Debug)]
pub struct Extraction {
    pub files: Vec<OutFile>,
    pub failure: Option<ArchiveError>,
}

/// The ways in which an extraction goes wrong.
pub enum Fault {
    NotAnArchive,
    BadEntry,
    BadData,
}

/// The mathematical counterpart of an `Extraction`: the names of the files and what reading
/// them gives.
pub struct Picked {
    pub files: Seq<(Seq<char>, Contents)>,
    pub fault: Option<Fault>,
}

/// Whether `data` may be what reading `contents` gave.
pub open spec fn may_be_read(data: Seq<u8>, contents: Contents) -> bool {
    match contents {
        Contents::Whole(all) => data == all,
        Contents::Broken(read) => read.contains(data),
    }
}

/// Whether `files` have the names of `picked` and hold what reading them gave.
pub open spec fn same_files(files: Seq<OutFile>, picked: Seq<(Seq<char>, Contents)>) -> bool {
    &&& files.len() == picked.len()
    &&& forall|i: int|
        0 <= i < files.len() ==> {
            &&& (#[trigger] files[i]).name@ == picked[i].0
            &&& may_be_read(files[i].data@, picked[i].1)
        }
}

/// The fault that an error stands for.
pub open spec fn fault_of(failure: Option<ArchiveError>) -> Option<Fault> {
    match failure {
        None => None,
        Some(ArchiveError::Open(_)) => Some(Fault::NotAnArchive),
        Some(ArchiveError::Entry(_)) => Some(Fault::BadEntry),
        Some(ArchiveError::Read(_)) => Some(Fault::BadData),
    }
}

impl Extraction {
    /// Whether this extraction is the one that `picked` describes.
    pub open spec fn agrees_with(self, picked: Picked) -> bool {
        &&& same_files(self.files@, picked.files)
        &&& fault_of(self.failure) == picked.fault
    }
}

/// What has been picked after the first `n` entries, if `goals[i]` is the name under which
/// entry `i` is wanted and `limit`, if there is one, bounds the number of files. The picking
/// ends with the first fault, and once there are enough files.
pub open spec fn picked(
    entries: Seq<Option<Entry>>,
    goals: Seq<Option<Seq<char>>>,
    limit: Option<nat>,
    n: nat,
) -> Picked
    decreases n,
{
    if n == 0 {
        Picked { files: Seq::empty(), fault: None }
    } else {
        let before = picked(entries, goals, limit, (n - 1) as nat);
        if before.fault is Some || limit == Some(before.files.len()) {
            before
        } else {
            match (entries[n - 1], goals[n - 1]) {
                (None, _) => Picked { fault: Some(Fault::BadEntry), ..before },
                (Some(_), None) => before,
                (Some(entry), Some(name)) => Picked {
                    files: before.files.push((name, entry.contents)),
                    fault: if entry.contents is Whole {
                        None
                    } else {
                        Some(Fault::BadData)
                    },
                },
            }
        }
    }
}

/// Once the picking has ended, further entries make no difference.
proof fn lemma_picking_ended(
    entries: Seq<Option<Entry>>,
    goals: Seq<Option<Seq<char>>>,
    limit: Option<nat>,
    n: nat,
    m: nat,
)
    requires
        n <= m,
        ({
            let p = picked(entries, goals, limit, n);
            p.fault is Some || limit == Some(p.files.len())
        }),
    ensures
        picked(entries, goals, limit, m) == picked(entries, goals, limit, n),
    decreases m - n,
{
    if n < m {
        lemma_picking_ended(entries, goals, limit, n, (m - 1) as nat);
    }
}

/// What has been picked depends only on the goals of the entries so far, and only of those
/// that can be opened.
proof fn lemma_picked_prefix(
    entries: Seq<Option<Entry>>,
    a: Seq<Option<Seq<char>>>,
    b: Seq<Option<Seq<char>>>,
    limit: Option<nat>,
    n: nat,
)
    requires
        forall|i: int| 0 <= i < n && #[trigger] entries[i] is Some ==> a[i] == b[i],
    ensures
        picked(entries, a, limit, n) == picked(entries, b, limit, n),
    decreases n,
{
    if n > 0 {
        lemma_picked_prefix(entries, a, b, limit, (n - 1) as nat);
    }
}

/// The name under which an entry is wanted, if it is: that of a file, not a directory, which
/// is listed in `keep`; every file is wanted if nothing is listed.
pub open spec fn wanted(
    directory: bool,
    file_name: Option<Seq<char>>,
    keep: Seq<Seq<char>>,
) -> Option<Seq<char>> {
    match file_name {
        Some(name) => if !directory && name.len() > 0 && (keep.len() == 0 || keep.contains(name)) {
            Some(name)
        } else {
            None
        },
        None => None,
    }
}

/// Whether `goal` is a name under which an entry `name` may be wanted: the one that a file
/// name of the entry gives.
pub open spec fn may_be_wanted(
    name: Seq<char>,
    keep: Seq<Seq<char>>,
    goal: Option<Seq<char>>,
) -> bool {
    exists|file_name: Option<Seq<char>>|
        {
            &&& may_be_file_name(name, file_name)
            &&& goal == #[trigger] wanted(names_directory(name), file_name, keep)
        }
}

/// The name under which one of the two ffmpeg programs is wanted.
pub open spec fn ffmpeg_program(name: Seq<char>) -> Option<Seq<char>> {
    if "/bin/ffmpeg.exe"@.is_suffix_of(name) {
        Some("ffmpeg.exe"@)
    } else if "/bin/ffprobe.exe"@.is_suffix_of(name) {
        Some("ffprobe.exe"@)
    } else {
        None
    }
}

/// The goals for the two ffmpeg programs.
pub open spec fn ffmpeg_goals(entries: Seq<Option<Entry>>) -> Seq<Option<Seq<char>>> {
    entries.map_values(
        |entry: Option<Entry>|
            match entry {
                Some(e) => ffmpeg_program(e.name),
                None => None,
            },
    )
}

/// The two ffmpeg programs in the archive that `bytes` are: the first two entries that are
/// one of them.
pub open spec fn ffmpeg_files(bytes: Seq<u8>) -> Picked {
    match zip_entries(bytes) {
        Some(entries) => picked(entries, ffmpeg_goals(entries), Some(2), entries.len()),
        None => Picked { files: Seq::empty(), fault: Some(Fault::NotAnArchive) },
    }
}

/// Whether `picked` may be what is wanted of the archive that `bytes` are.
pub open spec fn may_be_extracted(bytes: Seq<u8>, keep: Seq<Seq<char>>, result: Picked) -> bool {
    match zip_entries(bytes) {
        Some(entries) => exists|goals: Seq<Option<Seq<char>>>|
            {
                &&& goals_fit(entries, keep, goals)
                &&& result == #[trigger] picked(entries, goals, None, entries.len())
            },
        None => result == (Picked { files: Seq::empty(), fault: Some(Fault::NotAnArchive) }),
    }
}

/// Whether `goals` are names under which the entries may be wanted.
pub open spec fn goals_fit(
    entries: Seq<Option<Entry>>,
    keep: Seq<Seq<char>>,
    goals: Seq<Option<Seq<char>>>,
) -> bool {
    &&& goals.len() == entries.len()
    &&& forall|i: int|
        0 <= i < entries.len() && entries[i] is Some ==> may_be_wanted(
            entries[i]->Some_0.name,
            keep,
            #[trigger] goals[i],
        )
}

/// The name under which an entry is wanted, if it is.
pub fn target(directory: bool, file_name: Option<String>, keep: &Vec<String>) -> (r: Option<String>)
    ensures
        r.deep_view() == wanted(directory, file_name.deep_view(), keep.deep_view()),
{
    let ghost shown = file_name.deep_view();
    if directory {
        return None;
    }
    match file_name {
        None => None,
        Some(name) => {
            if name.as_str().is_empty() {
                return None;
            }
            let ghost list = keep.deep_view();
            if keep.len() == 0 {
                return Some(name);
            }
            let mut i: usize = 0;
            while i < keep.len()
                invariant
                    i <= keep@.len(),
                    list == keep.deep_view(),
                    keep@.len() > 0,
                    !directory,
                    shown == Some(name@),
                    shown == file_name.deep_view(),
                    name@.len() > 0,
                    forall|j: int| 0 <= j < i ==> #[trigger] list[j] != name@,
                decreases keep@.len() - i,
            {
                assert(list[i as int] == keep@[i as int]@);
                if keep[i] == name {
                    return Some(name);
                }
                i = i + 1;
            }
            assert(!list.contains(name@));
            None
        },
    }
}

/// The name under which the entry `name` is wanted if it is one of the two ffmpeg programs.
pub fn ffmpeg_target(name: &str) -> (r: Option<String>)
    ensures
        r.deep_view() == ffmpeg_program(name@),
{
    let v = chars_of(name);
    if ends_with(v.as_slice(), chars_of("/bin/ffmpeg.exe").as_slice()) {
        Some("ffmpeg.exe".to_owned())
    } else if ends_with(v.as_slice(), chars_of("/bin/ffprobe.exe").as_slice()) {
        Some("ffprobe.exe".to_owned())
    } else {
        None
    }
}

/// Adds entry `i` to the files under the name `name`. Says what went wrong, if anything did.
fn take(
    archive: &mut ZipArchive<Cursor<Vec<u8>>>,
    i: usize,
    name: String,
    files: &mut Vec<OutFile>,
) -> (failure: Option<ArchiveError>)
    requires
        i < archive_entries(*old(archive)).len(),
        archive_entries(*old(archive))[i as int] is Some,
    ensures
        archive_entries(*final(archive)) == archive_entries(*old(archive)),
        final(files)@.len() == old(files)@.len() + 1,
        final(files)@.drop_last() == old(files)@,
        final(files)@.last().name == name,
        ({
            let contents = archive_entries(*old(archive))[i as int]->Some_0.contents;
            &&& may_be_read(final(files)@.last().data@, contents)
            &&& fault_of(failure) == (if contents is Whole {
                None
            } else {
                Some(Fault::BadData)
            })
        }),
{
    match entry_data(archive, i) {
        Ok((data, failure)) => {
            files.push(OutFile { name, data });
            assert(files@.drop_last() =~= old(files)@);
            match failure {
                Some(e) => Some(ArchiveError::Read(e)),
                None => None,
            }
        },
        Err(e) => {
            // An entry that was opened once can be opened again.
            assert(false);
            Some(ArchiveError::Entry(e))
        },
    }
}

/// Picks the files out of the zip archive `bytes` whose file name, without directories, is
/// listed in `keep`. With an empty list every file is picked.
pub fn extract(bytes: Vec<u8>, keep: &Vec<String>) -> (r: Extraction)
    ensures
        exists|p: Picked|
            may_be_extracted(bytes@, keep.deep_view(), p) && #[trigger] r.agrees_with(p),
{
    let mut files: Vec<OutFile> = Vec::new();
    let mut archive = match open_archive(bytes) {
        Ok(archive) => archive,
        Err(e) => {
            let r = Extraction { files, failure: Some(ArchiveError::Open(e)) };
            assert(r.agrees_with(Picked { files: Seq::empty(), fault: Some(Fault::NotAnArchive) }));
            return r;
        },
    };
    let ghost entries = archive_entries(archive);
    let ghost list = keep.deep_view();
    let ghost mut goals: Seq<Option<Seq<char>>> = Seq::empty();
    let n: usize = archive_len(&archive);
    let mut i: usize = 0;
    while i < n
        invariant
            i <= n,
            n == entries.len(),
            list == keep.deep_view(),
            zip_entries(bytes@) == Some(entries),
            archive_entries(archive) == entries,
            goals.len() == i,
            forall|j: int| 0 <= j < i ==> #[trigger] entries[j] is Some,
            forall|j: int|
                0 <= j < i ==> may_be_wanted(entries[j]->Some_0.name, list, #[trigger] goals[j]),
            picked(entries, goals, None, i as nat).fault is None,
            same_files(files@, picked(entries, goals, None, i as nat).files),
        decreases n - i,
    {
        match entry_name(&mut archive, i) {
            Err(e) => {
                let r = Extraction { files, failure: Some(ArchiveError::Entry(e)) };
                proof {
                    let rest = Seq::new((n - i) as nat, |j: int| any_goal(entries, i + j, list));
                    let all = goals + rest;
                    lemma_rest_fits(entries, list, goals, all);
                    lemma_picked_prefix(entries, goals, all, None, i as nat);
                    lemma_picking_ended(entries, all, None, (i + 1) as nat, n as nat);
                    assert(r.agrees_with(picked(entries, all, None, n as nat)));
                }
                return r;
            },
            Ok((name, directory)) => {
                let file_name = file_name_of(name.as_str());
                let ghost shown = file_name.deep_view();
                let goal = target(directory, file_name, keep);
                let ghost before = goals;
                proof {
                    goals = goals.push(goal.deep_view());
                    assert(goal.deep_view() == wanted(names_directory(name@), shown, list));
                    assert(may_be_wanted(name@, list, goal.deep_view()));
                    lemma_picked_prefix(entries, before, goals, None, i as nat);
                }
                if let Some(wanted_name) = goal {
                    let failure = take(&mut archive, i, wanted_name, &mut files);
                    proof {
                        let p = picked(entries, goals, None, (i + 1) as nat);
                        assert(same_files(files@, p.files)) by {
                            assert forall|j: int| 0 <= j < files@.len() implies {
                                &&& (#[trigger] files@[j]).name@ == p.files[j].0
                                &&& may_be_read(files@[j].data@, p.files[j].1)
                            } by {
                                if j < files@.len() - 1 {
                                    assert(files@.drop_last()[j] == files@[j]);
                                }
                            }
                        }
                    }
                    if failure.is_some() {
                        let r = Extraction { files, failure };
                        proof {
                            let rest = Seq::new(
                                (n - i - 1) as nat,
                                |j: int| any_goal(entries, i + 1 + j, list),
                            );
                            let all = goals + rest;
                            lemma_rest_fits(entries, list, goals, all);
                            lemma_picked_prefix(entries, goals, all, None, (i + 1) as nat);
                            lemma_picking_ended(entries, all, None, (i + 1) as nat, n as nat);
                            assert(r.agrees_with(picked(entries, all, None, n as nat)));
                        }
                        return r;
                    }
                }
            },
        }
        i = i + 1;
    }
    let r = Extraction { files, failure: None };
    assert(r.agrees_with(picked(entries, goals, None, n as nat)));
    r
}

/// The last of the pieces that are kept is one of the pieces.
proof fn lemma_last_kept(pieces: Seq<Seq<char>>)
    requires
        pieces.filter(significant()).len() > 0,
    ensures
        significant()(pieces.filter(significant()).last()),
        exists|i: int|
            0 <= i < pieces.len() && #[trigger] pieces[i] == pieces.filter(significant()).last(),
    decreases pieces.len(),
{
    reveal(Seq::filter);
    if pieces.len() > 0 {
        let front = pieces.drop_last();
        if !significant()(pieces.last()) {
            lemma_last_kept(front);
            let i = choose|i: int|
                0 <= i < front.len() && #[trigger] front[i] == front.filter(significant()).last();
            assert(pieces[i] == front[i]);
        } else {
            assert(pieces[pieces.len() - 1] == pieces.filter(significant()).last());
        }
    }
}

/// The last component of a path is a part of it, and may be its file name.
proof fn lemma_last_component_fits(path: Seq<char>)
    ensures
        may_be_file_name(path, last_component(path)),
{
    let pieces = split(path, '/');
    if last_component(path) is Some {
        lemma_last_kept(pieces);
        split_pieces_occur(path, '/');
    }
}

/// Some goal that fits entry `i`.
spec fn any_goal(entries: Seq<Option<Entry>>, i: int, keep: Seq<Seq<char>>) -> Option<Seq<char>> {
    match entries[i] {
        Some(e) => wanted(names_directory(e.name), last_component(e.name), keep),
        None => None,
    }
}

/// Fitting goals for the first entries, completed by fitting goals for the others, fit.
proof fn lemma_rest_fits(
    entries: Seq<Option<Entry>>,
    keep: Seq<Seq<char>>,
    goals: Seq<Option<Seq<char>>>,
    all: Seq<Option<Seq<char>>>,
)
    requires
        goals.len() <= entries.len(),
        all.len() == entries.len(),
        forall|j: int| 0 <= j < goals.len() ==> #[trigger] all[j] == goals[j],
        forall|j: int|
            goals.len() <= j < all.len() ==> #[trigger] all[j] == any_goal(entries, j, keep),
        forall|j: int|
            0 <= j < goals.len() ==> may_be_wanted(
                entries[j]->Some_0.name,
                keep,
                #[trigger] goals[j],
            ),
    ensures
        goals_fit(entries, keep, all),
{
    assert forall|i: int| 0 <= i < entries.len() && entries[i] is Some implies may_be_wanted(
        entries[i]->Some_0.name,
        keep,
        #[trigger] all[i],
    ) by {
        let name = entries[i]->Some_0.name;
        if i < goals.len() {
            assert(all[i] == goals[i]);
        } else {
            lemma_last_component_fits(name);
            assert(all[i] == wanted(names_directory(name), last_component(name), keep));
        }
    }
}

/// Picks the two ffmpeg programs out of the zip archive `bytes`.
pub fn extract_ffmpeg(bytes: Vec<u8>) -> (r: Extraction)
    ensures
        r.agrees_with(ffmpeg_files(bytes@)),
{
    let mut files: Vec<OutFile> = Vec::new();
    let mut archive = match open_archive(bytes) {
        Ok(archive) => archive,
        Err(e) => {
            return Extraction { files, failure: Some(ArchiveError::Open(e)) };
        },
    };
    let ghost entries = archive_entries(archive);
    let ghost goals = ffmpeg_goals(entries);
    let n: usize = archive_len(&archive);
    let mut i: usize = 0;
    while i < n && files.len() < 2
        invariant
            i <= n,
            n == entries.len(),
            zip_entries(bytes@) == Some(entries),
            archive_entries(archive) == entries,
            goals == ffmpeg_goals(entries),
            files@.len() <= 2,
            picked(entries, goals, Some(2), i as nat).fault is None,
            same_files(files@, picked(entries, goals, Some(2), i as nat).files),
        decreases n - i,
    {
        match entry_name(&mut archive, i) {
            Err(e) => {
                proof {
                    lemma_picking_ended(entries, goals, Some(2), (i + 1) as nat, n as nat);
                }
                return Extraction { files, failure: Some(ArchiveError::Entry(e)) };
            },
            Ok((name, _)) => {
                let goal = ffmpeg_target(name.as_str());
                assert(goals[i as int] == goal.deep_view());
                if let Some(wanted_name) = goal {
                    let failure = take(&mut archive, i, wanted_name, &mut files);
                    proof {
                        let p = picked(entries, goals, Some(2), (i + 1) as nat);
                        assert forall|j: int| 0 <= j < files@.len() implies {
                            &&& (#[trigger] files@[j]).name@ == p.files[j].0
                            &&& may_be_read(files@[j].data@, p.files[j].1)
                        } by {
                            if j < files@.len() - 1 {
                                assert(files@.drop_last()[j] == files@[j]);
                            }
                        }
                    }
                    if failure.is_some() {
                        proof {
                            lemma_picking_ended(entries, goals, Some(2), (i + 1) as nat, n as nat);
                        }
                        return Extraction { files, failure };
                    }
                }
            },
        }
        i = i + 1;
    }
    proof {
        if i < n {
            lemma_picking_ended(entries, goals, Some(2), i as nat, n as nat);
        }
    }
    Extraction { files, failure: None }
}

// ---- Laws -------------------------------------------------------------------------

/// The goals for an archive with plain names.
pub open spec fn plain_goals(
    entries: Seq<Option<Entry>>,
    keep: Seq<Seq<char>>,
) -> Seq<Option<Seq<char>>> {
    entries.map_values(
        |entry: Option<Entry>|
            match entry {
                Some(e) => wanted(names_directory(e.name), last_component(e.name), keep),
                None => None,
            },
    )
}

/// What is picked out of an archive with plain names is the same on every platform.
pub proof fn plain_archives_leave_no_choice(
    bytes: Seq<u8>,
    keep: Seq<Seq<char>>,
    result: Picked,
)
    requires
        zip_entries(bytes) is Some,
        forall|i: int|
            0 <= i < zip_entries(bytes)->Some_0.len()
                && #[trigger] zip_entries(bytes)->Some_0[i] is Some ==> is_plain(
                zip_entries(bytes)->Some_0[i]->Some_0.name,
            ),
        may_be_extracted(bytes, keep, result),
    ensures
        ({
            let entries = zip_entries(bytes)->Some_0;
            result == picked(entries, plain_goals(entries, keep), None, entries.len())
        }),
{
    let entries = zip_entries(bytes)->Some_0;
    let goals = choose|goals: Seq<Option<Seq<char>>>|
        {
            &&& goals_fit(entries, keep, goals)
            &&& result == #[trigger] picked(entries, goals, None, entries.len())
        };
    let plain = plain_goals(entries, keep);
    assert forall|i: int| 0 <= i < entries.len() && #[trigger] entries[i] is Some implies goals[i]
        == plain[i] by {
        let name = entries[i]->Some_0.name;
        assert(may_be_wanted(name, keep, goals[i]));
        assert(slashed(without_drive(name)) =~= name);
    }
    lemma_picked_prefix(entries, goals, plain, None, entries.len());
}

/// Every picked file is a wanted one: its name is that of the goal of some entry, and its
/// contents are those of that entry.
pub proof fn picked_files_are_wanted(
    entries: Seq<Option<Entry>>,
    goals: Seq<Option<Seq<char>>>,
    limit: Option<nat>,
    n: nat,
    k: int,
)
    requires
        n <= entries.len(),
        0 <= k < picked(entries, goals, limit, n).files.len(),
    ensures
        ({
            let file = picked(entries, goals, limit, n).files[k];
            exists|i: int|
                {
                    &&& 0 <= i < n
                    &&& #[trigger] entries[i] is Some
                    &&& goals[i] == Some(file.0)
                    &&& entries[i]->Some_0.contents == file.1
                }
        }),
    decreases n,
{
    let p = picked(entries, goals, limit, n);
    let before = picked(entries, goals, limit, (n - 1) as nat);
    if k < before.files.len() {
        picked_files_are_wanted(entries, goals, limit, (n - 1) as nat, k);
    } else {
        assert(entries[n - 1] is Some);
    }
}

/// Every wanted entry is picked, if nothing goes wrong and the number of files is not
/// bounded.
pub proof fn wanted_entries_are_picked(
    entries: Seq<Option<Entry>>,
    goals: Seq<Option<Seq<char>>>,
    n: nat,
    i: int,
)
    requires
        n <= entries.len(),
        picked(entries, goals, None, n).fault is None,
        0 <= i < n,
    ensures
        entries[i] is Some,
        goals[i] is Some ==> picked(entries, goals, None, n).files.contains(
            (goals[i]->Some_0, entries[i]->Some_0.contents),
        ),
    decreases n,
{
    let p = picked(entries, goals, None, n);
    let before = picked(entries, goals, None, (n - 1) as nat);
    if i < n - 1 {
        wanted_entries_are_picked(entries, goals, (n - 1) as nat, i);
        if goals[i] is Some {
            let file = (goals[i]->Some_0, entries[i]->Some_0.contents);
            let k = choose|k: int| 0 <= k < before.files.len() && before.files[k] == file;
            assert(p.files[k] == file);
        }
    } else if goals[i] is Some {
        assert(p.files.last() == (goals[i]->Some_0, entries[i]->Some_0.contents));
    }
}

/// Only listed files are picked, if any are listed.
pub proof fn only_listed_files_are_picked(
    bytes: Seq<u8>,
    keep: Seq<Seq<char>>,
    result: Picked,
    k: int,
)
    requires
        may_be_extracted(bytes, keep, result),
        0 <= k < result.files.len(),
    ensures
        result.files[k].0.len() > 0,
        keep.len() > 0 ==> keep.contains(result.files[k].0),
{
    let entries = zip_entries(bytes)->Some_0;
    let goals = choose|goals: Seq<Option<Seq<char>>>|
        {
            &&& goals_fit(entries, keep, goals)
            &&& result == #[trigger] picked(entries, goals, None, entries.len())
        };
    picked_files_are_wanted(entries, goals, None, entries.len(), k);
    let i = choose|i: int|
        {
            &&& 0 <= i < entries.len()
            &&& #[trigger] entries[i] is Some
            &&& goals[i] == Some(result.files[k].0)
            &&& entries[i]->Some_0.contents == result.files[k].1
        };
    assert(may_be_wanted(entries[i]->Some_0.name, keep, goals[i]));
}

/// A last component is not empty and neither `.` nor `..`, and it does not hold the separator.
proof fn lemma_last_component_is_bare(path: Seq<char>, sep: char)
    ensures
        last_component_at(path, sep) matches Some(name) ==> {
            &&& name.len() > 0
            &&& name != seq!['.']
            &&& name != seq!['.', '.']
            &&& !name.contains(sep)
        },
{
    if last_component_at(path, sep) is Some {
        lemma_last_kept(split(path, sep));
        split_pieces_hold_no_separator(path, sep);
    }
}

/// Whether no name in the archive `entries` holds the character `c`.
pub open spec fn no_name_holds(entries: Seq<Option<Entry>>, c: char) -> bool {
    forall|i: int|
        0 <= i < entries.len() && #[trigger] entries[i] is Some
            ==> !entries[i]->Some_0.name.contains(c)
}

/// The names under which files are picked are bare. They are not empty, neither `.` nor `..`,
/// and hold no character that no name in the archive holds. If no name in the archive starts
/// with two separators, they hold no slash: every file then lies directly in one directory,
/// on a platform where only the slash leads elsewhere.
pub proof fn picked_names_are_bare(
    bytes: Seq<u8>,
    keep: Seq<Seq<char>>,
    result: Picked,
    k: int,
    c: char,
)
    requires
        may_be_extracted(bytes, keep, result),
        0 <= k < result.files.len(),
    ensures
        ({
            let entries = zip_entries(bytes)->Some_0;
            let name = result.files[k].0;
            &&& zip_entries(bytes) is Some
            &&& name.len() > 0
            &&& name != seq!['.']
            &&& name != seq!['.', '.']
            &&& no_name_holds(entries, c) ==> !name.contains(c)
            &&& (forall|i: int|
                0 <= i < entries.len() && #[trigger] entries[i] is Some ==> !starts_doubly(
                    entries[i]->Some_0.name,
                )) ==> !name.contains('/')
        }),
{
    let entries = zip_entries(bytes)->Some_0;
    let goals = choose|goals: Seq<Option<Seq<char>>>|
        {
            &&& goals_fit(entries, keep, goals)
            &&& result == #[trigger] picked(entries, goals, None, entries.len())
        };
    picked_files_are_wanted(entries, goals, None, entries.len(), k);
    let name = result.files[k].0;
    let i = choose|i: int|
        {
            &&& 0 <= i < entries.len()
            &&& #[trigger] entries[i] is Some
            &&& goals[i] == Some(name)
            &&& entries[i]->Some_0.contents == result.files[k].1
        };
    let path = entries[i]->Some_0.name;
    assert(may_be_wanted(path, keep, goals[i]));
    lemma_last_component_is_bare(path, '/');
    lemma_last_component_is_bare(path, '\\');
    lemma_last_component_is_bare(slashed(path), '/');
    lemma_last_component_is_bare(slashed(without_drive(path)), '/');
    assert(name.contains(c) ==> path.contains(c)) by {
        if name.contains(c) {
            let at = choose|at: int| #[trigger] occurs_at(path, name, at);
            let j = choose|j: int| 0 <= j < name.len() && name[j] == c;
            assert(path.subrange(at, at + name.len())[j] == c);
            assert(path[at + j] == c);
        }
    }
}

proof fn lemma_limit_holds(
    entries: Seq<Option<Entry>>,
    goals: Seq<Option<Seq<char>>>,
    limit: nat,
    n: nat,
)
    ensures
        picked(entries, goals, Some(limit), n).files.len() <= limit,
    decreases n,
{
    if n > 0 {
        lemma_limit_holds(entries, goals, limit, (n - 1) as nat);
    }
}

/// At most two files are picked out of an ffmpeg archive, and they are its two programs.
pub proof fn ffmpeg_files_are_its_programs(bytes: Seq<u8>)
    ensures
        ffmpeg_files(bytes).files.len() <= 2,
        forall|k: int|
            0 <= k < ffmpeg_files(bytes).files.len() ==> (#[trigger] ffmpeg_files(bytes).files[k]).0
                == "ffmpeg.exe"@ || ffmpeg_files(bytes).files[k].0 == "ffprobe.exe"@,
{
    if zip_entries(bytes) is Some {
        let entries = zip_entries(bytes)->Some_0;
        let goals = ffmpeg_goals(entries);
        lemma_limit_holds(entries, goals, 2, entries.len());
        let files = ffmpeg_files(bytes).files;
        assert forall|k: int| 0 <= k < files.len() implies (#[trigger] files[k]).0
            == "ffmpeg.exe"@ || files[k].0 == "ffprobe.exe"@ by {
            picked_files_are_wanted(entries, goals, Some(2), entries.len(), k);
            let i = choose|i: int|
                {
                    &&& 0 <= i < entries.len()
                    &&& #[trigger] entries[i] is Some
                    &&& goals[i] == Some(files[k].0)
                    &&& entries[i]->Some_0.contents == files[k].1
                };
            assert(goals[i] == ffmpeg_program(entries[i]->Some_0.name));
        }
    }
}

/// What follows the last slash of a path is its last component, if it names something.
proof fn lemma_last_component(path: Seq<char>, name: Seq<char>)
    requires
        !name.contains('/'),
        name.len() > 0,
        name != seq!['.'],
        name != seq!['.', '.'],
    ensures
        last_component(path.push('/') + name) == Some(name),
        last_component(name) == Some(name),
{
    split_appended(path, '/', name);
    one_piece_is_not_split(name, '/');
    let parts = split(path, '/');
    assert(parts.push(name).drop_last() =~= parts);
    assert(seq![name].drop_last() =~= Seq::empty());
    reveal(Seq::filter);
    assert(significant()(name));
    assert(parts.push(name).filter(significant()).last() == name);
    assert(seq![name].filter(significant()).last() == name);
}

/// The name under which an ffmpeg program is picked is the last component of the name of
/// its entry.
pub proof fn ffmpeg_programs_keep_their_file_name(name: Seq<char>)
    ensures
        ffmpeg_program(name) is Some ==> last_component(name) == ffmpeg_program(name),
{
    reveal_strlit("/bin/ffmpeg.exe");
    reveal_strlit("/bin/ffprobe.exe");
    reveal_strlit("ffmpeg.exe");
    reveal_strlit("ffprobe.exe");
    if let Some(file) = ffmpeg_program(name) {
        let suffix = if file == "ffmpeg.exe"@ {
            "/bin/ffmpeg.exe"@
        } else {
            "/bin/ffprobe.exe"@
        };
        assert(file.len() == suffix.len() - 5);
        assert(suffix.is_suffix_of(name));
        let path = name.take(name.len() - file.len() - 1);
        assert(name =~= path.push('/') + file) by {
            let whole = path.push('/') + file;
            assert forall|i: int| 0 <= i < name.len() implies name[i] == whole[i] by {
                let from: int = name.len() - suffix.len();
                if i >= from {
                    assert(name[i] == suffix[i - from]);
                }
            }
        }
        assert(!file.contains('/') && file.len() > 2);
        lemma_last_component(path, file);
    }
}

/// An entry is wanted exactly if it is no directory, has a file name, and this is listed or
/// nothing is listed; then under its file name.
pub proof fn listed_file_names_are_wanted(
    directory: bool,
    name: Seq<char>,
    keep: Seq<Seq<char>>,
)
    ensures
        wanted(directory, None, keep) is None,
        ({
            let listed = keep.len() == 0 || exists|j: int|
                0 <= j < keep.len() && #[trigger] keep[j] == name;
            &&& !directory && name.len() > 0 && listed ==> wanted(directory, Some(name), keep)
                == Some(name)
            &&& directory || name.len() == 0 || !listed ==> wanted(directory, Some(name), keep)
                is None
        }),
{
}

/// The picking goes through the entries in order. It goes on past an entry that is not wanted,
/// and takes one that is; it ends with an entry that cannot be opened or read, and once there
/// are enough files.
pub proof fn entries_are_picked_in_order(
    entries: Seq<Option<Entry>>,
    goals: Seq<Option<Seq<char>>>,
    limit: Option<nat>,
    n: nat,
)
    ensures
        ({
            let before = picked(entries, goals, limit, n);
            let after = picked(entries, goals, limit, n + 1);
            let ended = before.fault is Some || (limit matches Some(most) && before.files.len()
                == most);
            let (entry, goal) = (entries[n as int], goals[n as int]);
            &&& picked(entries, goals, limit, 0).files.len() == 0
            &&& picked(entries, goals, limit, 0).fault is None
            &&& ended ==> after == before
            &&& !ended && entry is None ==> after.files == before.files
            &&& !ended && entry is None ==> after.fault == Some(Fault::BadEntry)
            &&& !ended && entry is Some && goal is None ==> after == before
            &&& !ended && entry is Some && goal is Some ==> {
                &&& after.files == before.files.push((goal->Some_0, entry->Some_0.contents))
                &&& entry->Some_0.contents is Whole ==> after.fault is None
                &&& entry->Some_0.contents is Broken ==> after.fault == Some(Fault::BadData)
            }
        }),
{
}

/// Bytes that are no archive give no files.
pub proof fn no_archive_no_files(bytes: Seq<u8>, keep: Seq<Seq<char>>, result: Picked)
    requires
        zip_entries(bytes) is None,
    ensures
        may_be_extracted(bytes, keep, result) <==> result.files.len() == 0 && result.fault == Some(
            Fault::NotAnArchive,
        ),
        ffmpeg_files(bytes).files.len() == 0,
        ffmpeg_files(bytes).fault == Some(Fault::NotAnArchive),
{
    if result.files.len() == 0 {
        assert(result.files =~= Seq::empty());
    }
}

/// An archive whose entries can all be opened and read is read without a fault.
pub proof fn sound_archives_have_no_fault(
    entries: Seq<Option<Entry>>,
    goals: Seq<Option<Seq<char>>>,
    limit: Option<nat>,
    n: nat,
)
    requires
        n <= entries.len(),
        forall|i: int|
            0 <= i < n ==> #[trigger] entries[i] is Some && entries[i]->Some_0.contents is Whole,
    ensures
        picked(entries, goals, limit, n).fault is None,
    decreases n,
{
    if n > 0 {
        sound_archives_have_no_fault(entries, goals, limit, (n - 1) as nat);
        assert(entries[n - 1] is Some);
    }
}

/// A file that is listed, or any file if none is listed, is picked under the name that follows
/// the last slash, with its contents, if the archive is read without a fault. Its directory
/// makes no difference.
pub proof fn listed_files_are_picked(
    bytes: Seq<u8>,
    keep: Seq<Seq<char>>,
    result: Picked,
    i: int,
    dir: Seq<char>,
    name: Seq<char>,
)
    requires
        may_be_extracted(bytes, keep, result),
        result.fault is None,
        zip_entries(bytes) is Some,
        0 <= i < zip_entries(bytes)->Some_0.len(),
        zip_entries(bytes)->Some_0[i] is Some,
        ({
            let path = zip_entries(bytes)->Some_0[i]->Some_0.name;
            is_plain(path) && (path == name || path == dir.push('/') + name)
        }),
        name.len() > 0,
        name != seq!['.'],
        name != seq!['.', '.'],
        !name.contains('/'),
        keep.len() == 0 || exists|j: int| 0 <= j < keep.len() && #[trigger] keep[j] == name,
    ensures
        result.files.contains((name, zip_entries(bytes)->Some_0[i]->Some_0.contents)),
{
    let entries = zip_entries(bytes)->Some_0;
    let path = entries[i]->Some_0.name;
    let goals = choose|goals: Seq<Option<Seq<char>>>|
        {
            &&& goals_fit(entries, keep, goals)
            &&& result == #[trigger] picked(entries, goals, None, entries.len())
        };
    assert(may_be_wanted(path, keep, goals[i]));
    assert(slashed(without_drive(path)) =~= path);
    lemma_last_component(dir, name);
    assert(path.last() == name.last());
    assert(path[path.len() - 1] != '\\');
    assert(name[name.len() - 1] != '/');
    assert(!names_directory(path));
    assert(goals[i] == Some(name));
    wanted_entries_are_picked(entries, goals, entries.len(), i);
}

/// Every picked file comes from an entry that is no directory and whose name holds the name of
/// the file, and it has the contents of that entry.
pub proof fn picked_files_come_from_files(
    bytes: Seq<u8>,
    keep: Seq<Seq<char>>,
    result: Picked,
    k: int,
)
    requires
        may_be_extracted(bytes, keep, result),
        0 <= k < result.files.len(),
    ensures
        zip_entries(bytes) is Some,
        ({
            let entries = zip_entries(bytes)->Some_0;
            exists|i: int|
                {
                    &&& 0 <= i < entries.len()
                    &&& #[trigger] entries[i] is Some
                    &&& entries[i]->Some_0.contents == result.files[k].1
                    &&& contains(entries[i]->Some_0.name, result.files[k].0)
                    &&& entries[i]->Some_0.name.last() != '/'
                    &&& entries[i]->Some_0.name.last() != '\\'
                }
        }),
{
    let entries = zip_entries(bytes)->Some_0;
    let goals = choose|goals: Seq<Option<Seq<char>>>|
        {
            &&& goals_fit(entries, keep, goals)
            &&& result == #[trigger] picked(entries, goals, None, entries.len())
        };
    picked_files_are_wanted(entries, goals, None, entries.len(), k);
    let i = choose|i: int|
        {
            &&& 0 <= i < entries.len()
            &&& #[trigger] entries[i] is Some
            &&& goals[i] == Some(result.files[k].0)
            &&& entries[i]->Some_0.contents == result.files[k].1
        };
    let path = entries[i]->Some_0.name;
    assert(may_be_wanted(path, keep, goals[i]));
    assert(!names_directory(path));
    let at = choose|at: int| #[trigger] occurs_at(path, result.files[k].0, at);
    assert(path.len() > 0);
    assert(entries[i] is Some);
}

/// The two ffmpeg programs are told by the end of their names, whatever stands before it; the
/// name of no other entry ends so.
pub proof fn ffmpeg_programs_are_told_by_their_names(dir: Seq<char>, name: Seq<char>)
    ensures
        ffmpeg_program(dir + "/bin/ffmpeg.exe"@) == Some("ffmpeg.exe"@),
        ffmpeg_program(dir + "/bin/ffprobe.exe"@) == Some("ffprobe.exe"@),
        (forall|d: Seq<char>| name != #[trigger] (d + "/bin/ffmpeg.exe"@)) && (forall|d: Seq<char>|
            name != #[trigger] (d + "/bin/ffprobe.exe"@)) ==> ffmpeg_program(name) is None,
{
    reveal_strlit("/bin/ffmpeg.exe");
    reveal_strlit("/bin/ffprobe.exe");
    let x = "/bin/ffmpeg.exe"@;
    let y = "/bin/ffprobe.exe"@;
    let s = dir + x;
    assert(s.subrange(s.len() - x.len(), s.len() as int) =~= x);
    let t = dir + y;
    assert(t.subrange(t.len() - y.len(), t.len() as int) =~= y);
    assert(!x.is_suffix_of(t)) by {
        assert(t[t.len() - 5] == 'e');
        assert(x[x.len() - 5] == 'g');
        if x.is_suffix_of(t) {
            assert(t.subrange(t.len() - x.len(), t.len() as int)[x.len() - 5] == x[x.len() - 5]);
        }
    }
    if x.is_suffix_of(name) {
        let d = name.take(name.len() - x.len());
        assert(name =~= d + x);
    }
    if y.is_suffix_of(name) {
        let d = name.take(name.len() - y.len());
        assert(name =~= d + y);
    }
}

/// Entries that are not wanted change nothing.
proof fn lemma_nothing_between(
    entries: Seq<Option<Entry>>,
    goals: Seq<Option<Seq<char>>>,
    limit: Option<nat>,
    m: nat,
    n: nat,
)
    requires
        m <= n,
        forall|k: int| m <= k < n ==> #[trigger] entries[k] is Some && goals[k] is None,
    ensures
        picked(entries, goals, limit, n) == picked(entries, goals, limit, m),
    decreases n - m,
{
    if m < n {
        lemma_nothing_between(entries, goals, limit, m, (n - 1) as nat);
        assert(entries[n - 1] is Some);
    }
}

/// Out of an archive with two ffmpeg programs the first two are picked, in their order and with
/// their contents, if the entries up to the second can be opened and the first can be read.
pub proof fn the_first_two_programs_are_picked(bytes: Seq<u8>, i: int, j: int)
    requires
        zip_entries(bytes) is Some,
        ({
            let entries = zip_entries(bytes)->Some_0;
            &&& 0 <= i < j < entries.len()
            &&& forall|k: int| 0 <= k <= j ==> #[trigger] entries[k] is Some
            &&& forall|k: int|
                0 <= k < j && k != i && #[trigger] entries[k] is Some ==> ffmpeg_program(
                    entries[k]->Some_0.name,
                ) is None
            &&& ffmpeg_program(entries[i]->Some_0.name) is Some
            &&& ffmpeg_program(entries[j]->Some_0.name) is Some
            &&& entries[i]->Some_0.contents is Whole
        }),
    ensures
        ({
            let entries = zip_entries(bytes)->Some_0;
            let (x, y) = (entries[i]->Some_0, entries[j]->Some_0);
            let p = ffmpeg_files(bytes);
            &&& p.files == seq![
                (ffmpeg_program(x.name)->Some_0, x.contents),
                (ffmpeg_program(y.name)->Some_0, y.contents),
            ]
            &&& p.fault is None <==> y.contents is Whole
        }),
{
    let entries = zip_entries(bytes)->Some_0;
    let goals = ffmpeg_goals(entries);
    let most = Some(2nat);
    lemma_nothing_between(entries, goals, most, 0, i as nat);
    assert(entries[i] is Some && entries[j] is Some);
    lemma_nothing_between(entries, goals, most, (i + 1) as nat, j as nat);
    lemma_picking_ended(entries, goals, most, (j + 1) as nat, entries.len());
    let (x, y) = (entries[i]->Some_0, entries[j]->Some_0);
    assert(ffmpeg_files(bytes).files =~= seq![
        (ffmpeg_program(x.name)->Some_0, x.contents),
        (ffmpeg_program(y.name)->Some_0, y.contents),
    ]);
}

/// Out of an archive with one ffmpeg program this is picked, and nothing out of one without, if
/// the entries can be opened.
pub proof fn fewer_programs_are_picked_too(bytes: Seq<u8>, i: int)
    requires
        zip_entries(bytes) is Some,
        ({
            let entries = zip_entries(bytes)->Some_0;
            &&& forall|k: int| 0 <= k < entries.len() ==> #[trigger] entries[k] is Some
            &&& forall|k: int|
                0 <= k < entries.len() && k != i && #[trigger] entries[k] is Some
                    ==> ffmpeg_program(entries[k]->Some_0.name) is None
        }),
    ensures
        ({
            let entries = zip_entries(bytes)->Some_0;
            let x = entries[i]->Some_0;
            let one = 0 <= i < entries.len() && ffmpeg_program(x.name) is Some;
            let p = ffmpeg_files(bytes);
            &&& one ==> p.files == seq![(ffmpeg_program(x.name)->Some_0, x.contents)]
            &&& one ==> (p.fault is None <==> x.contents is Whole)
            &&& !one ==> p.files.len() == 0 && p.fault is None
        }),
{
    let entries = zip_entries(bytes)->Some_0;
    let goals = ffmpeg_goals(entries);
    let most = Some(2nat);
    if 0 <= i < entries.len() && ffmpeg_program(entries[i]->Some_0.name) is Some {
        lemma_nothing_between(entries, goals, most, 0, i as nat);
        assert(entries[i] is Some);
        let x = entries[i]->Some_0;
        assert(picked(entries, goals, most, (i + 1) as nat).files =~= seq![
            (ffmpeg_program(x.name)->Some_0, x.contents),
        ]);
        lemma_nothing_between(entries, goals, most, (i + 1) as nat, entries.len());
    } else {
        assert forall|k: int| 0 <= k < entries.len() implies #[trigger] entries[k] is Some
            && goals[k] is None by {}
        lemma_nothing_between(entries, goals, most, 0, entries.len());
    }
}

/// The goals for plain names are what their last components give.
pub proof fn plain_goals_are_file_names(
    entries: Seq<Option<Entry>>,
    keep: Seq<Seq<char>>,
    i: int,
)
    requires
        0 <= i < entries.len(),
        entries[i] is Some,
    ensures
        plain_goals(entries, keep).len() == entries.len(),
        plain_goals(entries, keep)[i] == ({
            let name = entries[i]->Some_0.name;
            let last = last_component(name);
            if name.len() > 0 && (name.last() == '/' || name.last() == '\\') {
                None
            } else if last is Some && (keep.len() == 0 || keep.contains(last->Some_0))
                && last->Some_0.len() > 0 {
                last
            } else {
                None
            }
        }),
{
}

/// An extraction has the files of what it agrees with: as many, in the same order, with the same
/// names, with all the data of those that can be read and with what was read of the others. It
/// has failed exactly if there is a fault, and then in the same way.
pub proof fn extractions_hold_what_was_picked(r: Extraction, p: Picked, i: int)
    requires
        r.agrees_with(p),
    ensures
        r.files@.len() == p.files.len(),
        0 <= i < p.files.len() ==> {
            &&& r.files@[i].name@ == p.files[i].0
            &&& p.files[i].1 matches Contents::Whole(data) ==> r.files@[i].data@ == data
            &&& p.files[i].1 matches Contents::Broken(read) ==> read.contains(r.files@[i].data@)
        },
        r.failure is None <==> p.fault is None,
        r.failure matches Some(e) ==> match p.fault->Some_0 {
            Fault::NotAnArchive => e is Open,
            Fault::BadEntry => e is Entry,
            Fault::BadData => e is Read,
        },
{
}

/// The file names that a path without slashes may have, if a name follows its last backslash.
proof fn lemma_backslash_path(dir: Seq<char>, name: Seq<char>)
    requires
        !dir.contains('/'),
        !dir.contains(':'),
        name.len() > 0,
        name != seq!['.'],
        name != seq!['.', '.'],
        !name.contains('/'),
        !name.contains('\\'),
        !name.contains(':'),
    ensures
        ({
            let path = dir.push('\\') + name;
            &&& last_component(path) == Some(path)
            &&& last_component(slashed(without_drive(path))) == Some(name)
            &&& !names_directory(path)
        }),
{
    let path = dir.push('\\') + name;
    assert(path[dir.len() as int] == '\\');
    assert(!path.contains('/') && !path.contains(':')) by {
        assert forall|j: int| 0 <= j < path.len() implies path[j] != '/' && path[j] != ':' by {
            if j < dir.len() {
                assert(dir.contains(dir[j]) && path[j] == dir[j]);
            } else if j > dir.len() {
                let k: int = j - dir.len() - 1;
                assert(name.contains(name[k]) && path[j] == name[k]);
            }
        }
    }
    assert(path != seq!['.'] && path != seq!['.', '.']) by {
        assert(seq!['.', '.'][0] == '.' && seq!['.', '.'][1] == '.');
    }
    lemma_last_component(dir, path);
    if path.len() >= 2 && path[1] == ':' {
        assert(path.contains(path[1]));
    }
    assert(without_drive(path) == path);
    lemma_last_component(slashed(dir), name);
    assert(slashed(path) =~= slashed(dir).push('/') + name) by {
        assert forall|j: int| 0 <= j < name.len() implies name[j] != '\\' by {
            assert(name.contains(name[j]));
        }
    }
    assert(name.contains(name.last()));
    assert(path.last() == name.last());
    assert(!names_directory(path));
}

/// Where a backslash stands before the name, the file is picked too: under that name, or under
/// all of it where the backslash is a character like any other.
pub proof fn files_behind_backslashes_are_picked(
    bytes: Seq<u8>,
    result: Picked,
    i: int,
    dir: Seq<char>,
    name: Seq<char>,
)
    requires
        may_be_extracted(bytes, Seq::empty(), result),
        result.fault is None,
        zip_entries(bytes) is Some,
        0 <= i < zip_entries(bytes)->Some_0.len(),
        zip_entries(bytes)->Some_0[i] is Some,
        zip_entries(bytes)->Some_0[i]->Some_0.name == dir.push('\\') + name,
        !starts_doubly(dir.push('\\') + name),
        !dir.contains('/'),
        !dir.contains(':'),
        name.len() > 0,
        name != seq!['.'],
        name != seq!['.', '.'],
        !name.contains('/'),
        !name.contains('\\'),
        !name.contains(':'),
    ensures
        ({
            let contents = zip_entries(bytes)->Some_0[i]->Some_0.contents;
            ||| result.files.contains((name, contents))
            ||| result.files.contains((dir.push('\\') + name, contents))
        }),
{
    let entries = zip_entries(bytes)->Some_0;
    let path = dir.push('\\') + name;
    let goals = choose|goals: Seq<Option<Seq<char>>>|
        {
            &&& goals_fit(entries, Seq::empty(), goals)
            &&& result == #[trigger] picked(entries, goals, None, entries.len())
        };
    assert(may_be_wanted(path, Seq::empty(), goals[i]));
    lemma_backslash_path(dir, name);
    assert(goals[i] == Some(path) || goals[i] == Some(name));
    wanted_entries_are_picked(entries, goals, entries.len(), i);
}

/// The extraction of an archive goes wrong only if one of its entries cannot be opened or read,
/// and always if one cannot be opened.
pub proof fn extractions_go_wrong_for_a_reason(
    bytes: Seq<u8>,
    keep: Seq<Seq<char>>,
    result: Picked,
    i: int,
)
    requires
        zip_entries(bytes) is Some,
        may_be_extracted(bytes, keep, result),
    ensures
        ({
            let entries = zip_entries(bytes)->Some_0;
            &&& (forall|k: int|
                0 <= k < entries.len() ==> #[trigger] entries[k] is Some
                    && entries[k]->Some_0.contents is Whole) ==> result.fault is None
            &&& 0 <= i < entries.len() && entries[i] is None ==> result.fault is Some
            &&& result.fault != Some(Fault::NotAnArchive)
        }),
{
    let entries = zip_entries(bytes)->Some_0;
    let goals = choose|goals: Seq<Option<Seq<char>>>|
        {
            &&& goals_fit(entries, keep, goals)
            &&& result == #[trigger] picked(entries, goals, None, entries.len())
        };
    if forall|k: int|
        0 <= k < entries.len() ==> #[trigger] entries[k] is Some
            && entries[k]->Some_0.contents is Whole {
        sound_archives_have_no_fault(entries, goals, None, entries.len());
    }
    if 0 <= i < entries.len() && entries[i] is None && result.fault is None {
        wanted_entries_are_picked(entries, goals, entries.len(), i);
    }
    lemma_entries_are_at_fault(entries, goals, None, entries.len());
}

proof fn lemma_entries_are_at_fault(
    entries: Seq<Option<Entry>>,
    goals: Seq<Option<Seq<char>>>,
    limit: Option<nat>,
    n: nat,
)
    ensures
        picked(entries, goals, limit, n).fault != Some(Fault::NotAnArchive),
    decreases n,
{
    if n > 0 {
        lemma_entries_are_at_fault(entries, goals, limit, (n - 1) as nat);
    }
}

} // verus!
