use vstd::prelude::*;
use crate::bundle::entries_view;
use crate::registry::entry_view;

verus! {

/// A zip archive being written into memory, not yet finished. (Verus
/// refuses a declaration of zip's writer, whose bounds name std's I/O
/// traits, so it is held here.)
#[verifier::external_body]
pub struct ArchiveWriter {
    inner: zip::ZipWriter<std::io::Cursor<Vec<u8>>>,
}

/// A zip archive read from memory.
#[verifier::external_body]
pub struct ArchiveReader {
    inner: zip::ZipArchive<std::io::Cursor<Vec<u8>>>,
}

#[verifier::external_type_specification]
#[verifier::external_body]
pub struct ExZipError(zip::result::ZipError);

/// The entries written so far into an archive under construction, each
/// with the bytes written to it.
pub uninterp spec fn zip_written(w: ArchiveWriter) -> Seq<(Seq<char>, Seq<u8>)>;

/// The bytes of the archive that holds these entries, in this order, each
/// deflated, with zip's default permission bits 0o644 and default timestamp.
pub uninterp spec fn archive_bytes(es: Seq<(Seq<char>, Seq<u8>)>) -> Seq<u8>;

/// The entries of an opened archive, in the order of its central directory:
/// each name with the bytes it reads back as, if it reads back when opened
/// with an empty password.
pub uninterp spec fn zip_stored(a: ArchiveReader) -> Seq<(Seq<char>, Option<Seq<u8>>)>;

/// The entries that reading the archive bytes `b` finds, if they hold an archive.
pub uninterp spec fn stored_entries(b: Seq<u8>) -> Option<Seq<(Seq<char>, Option<Seq<u8>>)>>;

/// Largest entry that is written without zip's large-file extension: its
/// deflated form, a little longer at worst, stays below 4 GiB.
pub const ENTRY_LIMIT: u64 = 0xF000_0000;

/// Entries that zip writes into an archive of the ordinary (not large-file)
/// kind: each name short enough for its 16-bit length field, each content
/// at most `ENTRY_LIMIT` bytes.
pub open spec fn within_limits(es: Seq<(Seq<char>, Seq<u8>)>) -> bool {
    forall|i: int|
        0 <= i < es.len() ==> (#[trigger] es[i]).0.len() <= 16383 && es[i].1.len() <= ENTRY_LIMIT
}

pub open spec fn all_readable(s: Seq<(Seq<char>, Option<Seq<u8>>)>) -> bool {
    forall|i: int| 0 <= i < s.len() ==> (#[trigger] s[i]).1 is Some
}

/// The entries of a fully readable archive with their bytes.
pub open spec fn read_contents(s: Seq<(Seq<char>, Option<Seq<u8>>)>) -> Seq<(Seq<char>, Seq<u8>)> {
    Seq::new(s.len(), |i: int| (s[i].0, s[i].1->Some_0))
}

/// Why an archive could not be written or read.
#[derive(Clone, Copy, Debug, PartialEq, Eq, Structural)]
pub enum ArchiveError {
    /// An entry is too large for the archive, the bytes hold no archive, or
    /// an entry does not read back (checksum, encryption, compression).
    Malformed,
}

/// Relies on zip::ZipWriter::new over an empty in-memory buffer: nothing is
/// written yet.
#[verifier::external_body]
fn writer_new() -> (r: ArchiveWriter)
    ensures
        zip_written(r) == Seq::<(Seq<char>, Seq<u8>)>::empty(),
{
    ArchiveWriter { inner: zip::ZipWriter::new(std::io::Cursor::new(Vec::new())) }
}

/// Relies on zip::ZipWriter::start_file with default options: a new, empty
/// entry of that name follows the earlier ones. On a memory buffer it fails
/// only when closing the previous entry finds it over 4 GiB deflated.
#[verifier::external_body]
fn writer_start_file(w: ArchiveWriter, name: &String) -> (r: Result<ArchiveWriter, zip::result::ZipError>)
    ensures
        within_limits(zip_written(w)) ==> r is Ok,
        r matches Ok(w2) ==> zip_written(w2) == zip_written(w).push((name@, Seq::<u8>::empty())),
{
    let mut w = w;
    w.inner.start_file(name.clone(), zip::write::FileOptions::default())?;
    Ok(w)
}

/// Relies on std::io::Write::write_all of zip::ZipWriter: the bytes are
/// appended to the entry last started. Writing no bytes does nothing;
/// writing some fails when no entry was started or when the entry passes
/// 4 GiB.
#[verifier::external_body]
fn writer_write_all(w: ArchiveWriter, data: &Vec<u8>) -> (r: Result<ArchiveWriter, zip::result::ZipError>)
    ensures
        data@.len() == 0 ==> r is Ok && zip_written(r->Ok_0) == zip_written(w),
        zip_written(w).len() > 0 && zip_written(w).last().1.len() + data@.len() <= ENTRY_LIMIT ==> r is Ok,
        r is Ok && data@.len() > 0 ==> {
            &&& zip_written(w).len() > 0
            &&& zip_written(r->Ok_0) == zip_written(w).update(
                zip_written(w).len() - 1,
                (zip_written(w).last().0, zip_written(w).last().1 + data@),
            )
        },
{
    let mut w = w;
    std::io::Write::write_all(&mut w.inner, data.as_slice())?;
    Ok(w)
}

/// Relies on zip::ZipWriter::finish: it writes the central directory and
/// hands back the buffer, which then holds the archive of the entries
/// written. (Whether zip's reader opens that archive again is not claimed:
/// it can take the tail of the last directory record for a zip64 locator.)
#[verifier::external_body]
fn writer_finish(w: ArchiveWriter) -> (r: Result<Vec<u8>, zip::result::ZipError>)
    ensures
        within_limits(zip_written(w)) ==> r is Ok,
        r matches Ok(b) ==> b@ == archive_bytes(zip_written(w)),
{
    let mut w = w;
    w.inner.finish().map(|c| c.into_inner())
}

/// Relies on zip::ZipArchive::new over an in-memory buffer: it reads the
/// central directory, and fails when the bytes hold no archive.
#[verifier::external_body]
fn archive_open(b: Vec<u8>) -> (r: Result<ArchiveReader, zip::result::ZipError>)
    ensures
        match r {
            Ok(a) => stored_entries(b@) == Some(zip_stored(a)),
            Err(_) => stored_entries(b@) is None,
        },
{
    zip::ZipArchive::new(std::io::Cursor::new(b)).map(|inner| ArchiveReader { inner })
}

/// Relies on zip::ZipArchive::len: the number of entries.
#[verifier::external_body]
fn archive_len(a: &ArchiveReader) -> (r: usize)
    ensures
        r == zip_stored(*a).len(),
{
    a.inner.len()
}

/// Relies on zip::ZipArchive::by_index_decrypt with an empty password, which
/// reads an unencrypted entry as it is and reports an entry whose password
/// check fails as an error: the `i`-th entry's name and bytes, exactly when it
/// reads back. Reading changes no entry.
#[verifier::external_body]
fn archive_entry(a: &mut ArchiveReader, i: usize) -> (r: Result<(String, Vec<u8>), zip::result::ZipError>)
    requires
        i < zip_stored(*old(a)).len(),
    ensures
        zip_stored(*final(a)) == zip_stored(*old(a)),
        r is Ok <==> zip_stored(*old(a))[i as int].1 is Some,
        r matches Ok(e) ==> e.0@ == zip_stored(*old(a))[i as int].0 && Some(e.1@) == zip_stored(*old(a))[i as int].1,
{
    let mut f = match a.inner.by_index_decrypt(i, b"")? {
        Ok(f) => f,
        Err(_) => return Err(zip::result::ZipError::UnsupportedArchive(zip::result::ZipError::PASSWORD_REQUIRED)),
    };
    let mut data = Vec::new();
    std::io::Read::read_to_end(&mut f, &mut data)?;
    Ok((f.name().to_string(), data))
}

/// Writes the entries, in order, into one zip archive. Entries within the
/// limits are always written.
pub fn encode_archive(entries: &Vec<(String, Vec<u8>)>) -> (r: Result<Vec<u8>, ArchiveError>)
    ensures
        within_limits(entries_view(entries@)) ==> r is Ok,
        r matches Ok(b) ==> b@ == archive_bytes(entries_view(entries@)),
{
    let ghost es = entries_view(entries@);
    let mut w = writer_new();
    let mut i: usize = 0;
    while i < entries.len()
        invariant
            i <= entries@.len(),
            es == entries_view(entries@),
            zip_written(w) == es.take(i as int),
        decreases entries@.len() - i,
    {
        proof {
            if within_limits(es) {
                assert forall|k: int| 0 <= k < i implies (#[trigger] es.take(i as int)[k]).0.len() <= 16383
                    && es.take(i as int)[k].1.len() <= ENTRY_LIMIT by {
                    assert(es.take(i as int)[k] == es[k]);
                }
                assert(es[i as int] == entry_view(entries@[i as int]));
            }
        }
        w = match writer_start_file(w, &entries[i].0) {
            Ok(w2) => w2,
            Err(_) => return Err(ArchiveError::Malformed),
        };
        proof {
            if within_limits(es) {
                assert(zip_written(w).last() == (entries@[i as int].0@, Seq::<u8>::empty()));
                assert(es[i as int].1.len() <= ENTRY_LIMIT);
                assert(zip_written(w).last().1.len() + entries@[i as int].1@.len() <= ENTRY_LIMIT);
            }
        }
        w = match writer_write_all(w, &entries[i].1) {
            Ok(w2) => w2,
            Err(_) => return Err(ArchiveError::Malformed),
        };
        assert(Seq::<u8>::empty() + entries@[i as int].1@ =~= entries@[i as int].1@);
        assert(zip_written(w) =~= es.take(i + 1));
        i = i + 1;
    }
    assert(es.take(i as int) =~= es);
    match writer_finish(w) {
        Ok(b) => Ok(b),
        Err(_) => Err(ArchiveError::Malformed),
    }
}

/// A name that extracts to a regular file at the top of the target
/// directory: not empty, not `.` or `..`, and without a path separator or
/// a NUL character.
pub open spec fn top_level_file(n: Seq<char>) -> bool {
    &&& n.len() > 0
    &&& n != seq!['.']
    &&& n != seq!['.', '.']
    &&& !n.contains('/')
    &&& !n.contains('\\')
    &&& !n.contains('\0')
}

/// The entries of an archive that extract to top-level regular files.
pub open spec fn top_level_files(es: Seq<(Seq<char>, Seq<u8>)>) -> Seq<(Seq<char>, Seq<u8>)>
    decreases es.len(),
{
    if es.len() == 0 {
        Seq::empty()
    } else {
        let rest = top_level_files(es.drop_last());
        if top_level_file(es.last().0) {
            rest.push(es.last())
        } else {
            rest
        }
    }
}

/// Whether an archive entry name extracts to a top-level regular file.
pub fn is_top_level_file(n: &String) -> (r: bool)
    ensures
        r == top_level_file(n@),
{
    let s = n.as_str();
    let len = s.unicode_len();
    if len == 0 {
        return false;
    }
    if len <= 2 && s.get_char(0) == '.' && (len == 1 || s.get_char(1) == '.') {
        assert(n@ =~= seq!['.'] || n@ =~= seq!['.', '.']);
        return false;
    }
    let mut i: usize = 0;
    while i < len
        invariant
            i <= len,
            len == n@.len(),
            s@ == n@,
            forall|k: int| 0 <= k < i ==> n@[k] != '/' && n@[k] != '\\' && n@[k] != '\0',
        decreases len - i,
    {
        let c = s.get_char(i);
        if c == '/' || c == '\\' || c == '\0' {
            assert(n@[i as int] == c);
            return false;
        }
        i = i + 1;
    }
    assert(n@ != seq!['.']) by {
        if len == 1 {
            assert(n@[0] != '.' || n@ =~= seq!['.']);
        }
    }
    true
}

/// Reads the top-level regular files out of a zip archive, in archive
/// order. It succeeds exactly when the bytes hold an archive whose every
/// entry reads back.
pub fn decode_archive(b: Vec<u8>) -> (r: Result<Vec<(String, Vec<u8>)>, ArchiveError>)
    ensures
        r is Ok <==> (stored_entries(b@) matches Some(s) && all_readable(s)),
        r matches Ok(es) ==> stored_entries(b@) matches Some(s) && entries_view(es@) == top_level_files(
            read_contents(s),
        ),
{
    let mut a = match archive_open(b) {
        Ok(a) => a,
        Err(_) => return Err(ArchiveError::Malformed),
    };
    let ghost s = zip_stored(a);
    let ghost rs = read_contents(s);
    let n = archive_len(&a);
    let mut out: Vec<(String, Vec<u8>)> = Vec::new();
    let mut i: usize = 0;
    while i < n
        invariant
            i <= n,
            n == s.len(),
            rs == read_contents(s),
            stored_entries(b@) == Some(s),
            zip_stored(a) == s,
            forall|k: int| 0 <= k < i ==> (#[trigger] s[k]).1 is Some,
            entries_view(out@) == top_level_files(rs.take(i as int)),
        decreases n - i,
    {
        assert(rs.take(i + 1).drop_last() =~= rs.take(i as int));
        let e = match archive_entry(&mut a, i) {
            Ok(e) => e,
            Err(_) => {
                assert(!all_readable(s));
                return Err(ArchiveError::Malformed);
            },
        };
        assert(rs[i as int] == entry_view(e));
        if is_top_level_file(&e.0) {
            let ghost before = out@;
            out.push(e);
            assert(entries_view(out@) =~= entries_view(before).push(rs[i as int]));
        }
        i = i + 1;
    }
    assert(rs.take(i as int) =~= rs);
    Ok(out)
}

} // verus!
