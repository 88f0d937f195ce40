use vstd::prelude::*;
use crate::archive::{
    ArchiveError, archive_bytes, stored_entries, top_level_file, top_level_files, within_limits,
    all_readable, read_contents, encode_archive, decode_archive,
};
use crate::admission::admissible_name;
use crate::registry::{
    Registry, entry_view, is_sidecar, is_sidecar_name, content_of, listing, manifests_in,
};

verus! {

/// The files of an archive that are run through admission on import: every
/// file but the sidecars, in order.
pub open spec fn scripts_only(fs: Seq<(Seq<char>, Seq<u8>)>) -> Seq<(Seq<char>, Seq<u8>)>
    decreases fs.len(),
{
    if fs.len() == 0 {
        Seq::empty()
    } else {
        let rest = scripts_only(fs.drop_last());
        if is_sidecar(fs.last().0) {
            rest
        } else {
            rest.push(fs.last())
        }
    }
}

pub open spec fn entries_view(v: Seq<(String, Vec<u8>)>) -> Seq<(Seq<char>, Seq<u8>)> {
    v.map_values(|e: (String, Vec<u8>)| entry_view(e))
}

/// The entries written to an archive on export: every file of the directory,
/// scripts and sidecars alike, under its base name.
pub fn export_entries(reg: &Registry) -> (r: Vec<(String, Vec<u8>)>)
    ensures
        entries_view(r@) == reg.entries(),
{
    reg.files()
}

/// The entries of an archive that import hands to admission. Sidecars are
/// passed over: admission asks each script for its manifest again.
pub fn import_candidates(entries: &Vec<(String, Vec<u8>)>) -> (r: Vec<(String, Vec<u8>)>)
    ensures
        entries_view(r@) == scripts_only(entries_view(entries@)),
{
    let ghost es = entries_view(entries@);
    let mut out: Vec<(String, Vec<u8>)> = Vec::new();
    let mut i: usize = 0;
    while i < entries.len()
        invariant
            i <= entries@.len(),
            es == entries_view(entries@),
            entries_view(out@) == scripts_only(es.take(i as int)),
        decreases entries@.len() - i,
    {
        assert(es.take(i + 1).drop_last() =~= es.take(i as int));
        if !is_sidecar_name(&entries[i].0) {
            let ghost before = out@;
            let name = entries[i].0.clone();
            let bytes = entries[i].1.clone();
            assert(bytes@ =~= entries@[i as int].1@);
            out.push((name, bytes));
            assert(entries_view(out@) =~= entries_view(before).push(es[i as int]));
        }
        i = i + 1;
    }
    assert(es.take(i as int) =~= es);
    out
}

proof fn lemma_listed_has_script(fs: Seq<(Seq<char>, Seq<u8>)>, all: Seq<(Seq<char>, Seq<u8>)>)
    ensures
        forall|i: int| 0 <= i < manifests_in(fs, all).len() ==>
            content_of(all, (#[trigger] manifests_in(fs, all)[i]).name) is Some
                && manifests_in(fs, all)[i].name.len() > 0,
    decreases fs.len(),
{
    if fs.len() > 0 {
        lemma_listed_has_script(fs.drop_last(), all);
    }
}

proof fn lemma_scripts_keep_content(fs: Seq<(Seq<char>, Seq<u8>)>, n: Seq<char>)
    requires
        !is_sidecar(n),
    ensures
        content_of(scripts_only(fs), n) == content_of(fs, n),
    decreases fs.len(),
{
    if fs.len() > 0 {
        lemma_scripts_keep_content(fs.drop_last(), n);
        let rest = scripts_only(fs.drop_last());
        assert(rest.push(fs.last()).drop_last() =~= rest);
    }
}

/// The bundle of a whole registry: one zip archive holding every file of
/// the directory under its base name, in order.
pub fn export_archive(reg: &Registry) -> (r: Result<Vec<u8>, ArchiveError>)
    ensures
        within_limits(reg.entries()) ==> r is Ok,
        r matches Ok(b) ==> b@ == archive_bytes(reg.entries()),
{
    let es = export_entries(reg);
    encode_archive(&es)
}

/// The scripts of a bundle that import hands to admission, one by one: its
/// top-level regular files other than sidecars, in archive order. It
/// succeeds exactly when the bytes hold an archive whose every entry reads
/// back.
pub fn import_archive(b: Vec<u8>) -> (r: Result<Vec<(String, Vec<u8>)>, ArchiveError>)
    ensures
        r is Ok <==> (stored_entries(b@) matches Some(s) && all_readable(s)),
        r matches Ok(es) ==> stored_entries(b@) matches Some(s) && entries_view(es@) == scripts_only(
            top_level_files(read_contents(s)),
        ),
{
    let files = decode_archive(b)?;
    Ok(import_candidates(&files))
}

proof fn lemma_top_level_keep_content(fs: Seq<(Seq<char>, Seq<u8>)>, n: Seq<char>)
    requires
        top_level_file(n),
    ensures
        content_of(top_level_files(fs), n) == content_of(fs, n),
    decreases fs.len(),
{
    if fs.len() > 0 {
        lemma_top_level_keep_content(fs.drop_last(), n);
        let rest = top_level_files(fs.drop_last());
        assert(rest.push(fs.last()).drop_last() =~= rest);
    }
}

/// Export followed by import: when the archive of a directory `fs` reads
/// back as its files (`read_contents(s) == fs` for what `import_archive`
/// reads), import hands admission the script of every listed plugin whose
/// name admission accepts, under that name and with the same bytes.
/// (Admission then stores it again, see `admit_script`.)
pub proof fn lemma_bundle_round_trip(fs: Seq<(Seq<char>, Seq<u8>)>)
    ensures
        forall|i: int| 0 <= i < listing(fs).len() && admissible_name(#[trigger] listing(fs)[i].name) ==> {
            &&& content_of(fs, listing(fs)[i].name) is Some
            &&& content_of(scripts_only(top_level_files(fs)), listing(fs)[i].name) == content_of(
                fs,
                listing(fs)[i].name,
            )
        },
{
    lemma_listed_has_script(fs, fs);
    assert forall|i: int| 0 <= i < listing(fs).len() && admissible_name(#[trigger] listing(fs)[i].name) implies {
        &&& content_of(fs, listing(fs)[i].name) is Some
        &&& content_of(scripts_only(top_level_files(fs)), listing(fs)[i].name) == content_of(
            fs,
            listing(fs)[i].name,
        )
    } by {
        let n = listing(fs)[i].name;
        assert(n.len() > 0);
        assert(top_level_file(n));
        lemma_scripts_keep_content(top_level_files(fs), n);
        lemma_top_level_keep_content(fs, n);
    }
}

} // verus!
