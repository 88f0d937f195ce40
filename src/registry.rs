use vstd::prelude::*;
use vstd::string::*;
use crate::manifest::{Manifest, ManifestV, manifest_of_bytes, manifest_bytes, valid_manifest, parse, serialize};

verus! {

/// One file of the plugin directory: its base name and its bytes.
pub open spec fn entry_view(e: (String, Vec<u8>)) -> (Seq<char>, Seq<u8>) {
    (e.0@, e.1@)
}

/// Name of the metadata file that goes with a plugin's script.
pub open spec fn sidecar_of(n: Seq<char>) -> Seq<char> {
    n + ".json"@
}

pub open spec fn is_sidecar(f: Seq<char>) -> bool {
    f.len() >= 5 && f.subrange(f.len() - 5, f.len() as int) == ".json"@
}

/// The bytes of the last file named `n`, if any.
pub open spec fn content_of(fs: Seq<(Seq<char>, Seq<u8>)>, n: Seq<char>) -> Option<Seq<u8>>
    decreases fs.len(),
{
    if fs.len() == 0 {
        None
    } else if fs.last().0 == n {
        Some(fs.last().1)
    } else {
        content_of(fs.drop_last(), n)
    }
}

/// The manifest a file contributes to a listing of the directory `all`: the
/// file must be the sidecar of the manifest it holds, and that plugin's
/// script must be present too.
pub open spec fn entry_manifest(all: Seq<(Seq<char>, Seq<u8>)>, f: Seq<char>, b: Seq<u8>) -> Option<ManifestV> {
    match manifest_of_bytes(b) {
        Ok(m) => if f == sidecar_of(m.name) && content_of(all, m.name) is Some {
            Some(m)
        } else {
            None
        },
        Err(_) => None,
    }
}

/// The manifests that the files `fs` of the directory `all` contribute, in
/// file order.
pub open spec fn manifests_in(fs: Seq<(Seq<char>, Seq<u8>)>, all: Seq<(Seq<char>, Seq<u8>)>) -> Seq<ManifestV>
    decreases fs.len(),
{
    if fs.len() == 0 {
        Seq::empty()
    } else {
        let rest = manifests_in(fs.drop_last(), all);
        match entry_manifest(all, fs.last().0, fs.last().1) {
            Some(m) => rest.push(m),
            None => rest,
        }
    }
}

/// The plugins a directory lists.
pub open spec fn listing(fs: Seq<(Seq<char>, Seq<u8>)>) -> Seq<ManifestV> {
    manifests_in(fs, fs)
}

/// How many manifests in `s` carry the name `n`.
pub open spec fn count_named(s: Seq<ManifestV>, n: Seq<char>) -> nat
    decreases s.len(),
{
    if s.len() == 0 {
        0
    } else {
        count_named(s.drop_last(), n) + if s.last().name == n {
            1nat
        } else {
            0nat
        }
    }
}

/// The files of `fs` other than those named `a` or `b`, in order.
pub open spec fn without(fs: Seq<(Seq<char>, Seq<u8>)>, a: Seq<char>, b: Seq<char>) -> Seq<(Seq<char>, Seq<u8>)>
    decreases fs.len(),
{
    if fs.len() == 0 {
        Seq::empty()
    } else {
        let rest = without(fs.drop_last(), a, b);
        if fs.last().0 == a || fs.last().0 == b {
            rest
        } else {
            rest.push(fs.last())
        }
    }
}

/// The directory after storing a script and its sidecar under `n`.
pub open spec fn put_entries(fs: Seq<(Seq<char>, Seq<u8>)>, n: Seq<char>, script: Seq<u8>, meta: Seq<u8>) -> Seq<(Seq<char>, Seq<u8>)> {
    without(fs, n, sidecar_of(n)).push((n, script)).push((sidecar_of(n), meta))
}

/// The directory after removing the plugin `n`.
pub open spec fn delete_entries(fs: Seq<(Seq<char>, Seq<u8>)>, n: Seq<char>) -> Seq<(Seq<char>, Seq<u8>)> {
    without(fs, n, sidecar_of(n))
}

pub proof fn lemma_sidecar_injective(a: Seq<char>, b: Seq<char>)
    ensures
        sidecar_of(a) == sidecar_of(b) ==> a == b,
        sidecar_of(a) != a,
        sidecar_of(a).len() == a.len() + 5,
{
    reveal_strlit(".json");
    assert(".json"@.len() == 5);
    assert(sidecar_of(a).len() == a.len() + 5);
    assert(sidecar_of(b).len() == b.len() + 5);
    if sidecar_of(a) == sidecar_of(b) {
        assert(a.len() == b.len());
        assert(a =~= sidecar_of(a).subrange(0, a.len() as int));
        assert(b =~= sidecar_of(b).subrange(0, b.len() as int));
    }
    assert(sidecar_of(a).len() != a.len());
}

/// No manifest named `n` comes from a directory that holds no file named
/// `sidecar_of(n)`.
proof fn lemma_count_without(fs: Seq<(Seq<char>, Seq<u8>)>, all: Seq<(Seq<char>, Seq<u8>)>, n: Seq<char>)
    ensures
        count_named(manifests_in(without(fs, n, sidecar_of(n)), all), n) == 0,
    decreases fs.len(),
{
    if fs.len() > 0 {
        lemma_count_without(fs.drop_last(), all, n);
        let w = without(fs.drop_last(), n, sidecar_of(n));
        if !(fs.last().0 == n || fs.last().0 == sidecar_of(n)) {
            let e = fs.last();
            assert(w.push(e).drop_last() =~= w);
            match entry_manifest(all, e.0, e.1) {
                Some(m) => {
                    lemma_sidecar_injective(m.name, n);
                    let s = manifests_in(w, all);
                    assert(s.push(m).drop_last() =~= s);
                },
                None => {},
            }
        }
    }
}

/// A directory without either file of `n` is left as it is by `without`.
proof fn lemma_without_absent(fs: Seq<(Seq<char>, Seq<u8>)>, a: Seq<char>, b: Seq<char>)
    requires
        content_of(fs, a) is None,
        content_of(fs, b) is None,
    ensures
        without(fs, a, b) == fs,
    decreases fs.len(),
{
    if fs.len() > 0 {
        lemma_without_absent(fs.drop_last(), a, b);
        assert(fs.drop_last().push(fs.last()) =~= fs);
    }
}


/// Name of the metadata file of plugin `n`: `n` followed by `.json`.
pub fn sidecar_name(n: &String) -> (r: String)
    ensures
        r@ == sidecar_of(n@),
{
    n.clone().concat(".json")
}

/// Whether a file name has the sidecar extension.
pub fn is_sidecar_name(f: &String) -> (r: bool)
    ensures
        r == is_sidecar(f@),
{
    proof {
        reveal_strlit(".json");
        assert(".json"@ =~= seq!['.', 'j', 's', 'o', 'n']);
    }
    let s = f.as_str();
    let n = s.unicode_len();
    if n < 5 {
        return false;
    }
    let r = s.get_char(n - 5) == '.' && s.get_char(n - 4) == 'j' && s.get_char(n - 3) == 's'
        && s.get_char(n - 2) == 'o' && s.get_char(n - 1) == 'n';
    assert(r == (f@.subrange(n - 5, n as int) =~= ".json"@));
    r
}

fn copy_entry(e: &(String, Vec<u8>)) -> (r: (String, Vec<u8>))
    ensures
        entry_view(r) == entry_view(*e),
{
    let b = e.1.clone();
    assert(b@ =~= e.1@);
    (e.0.clone(), b)
}

/// The views of a sequence of manifests.
pub open spec fn views_of(ms: Seq<Manifest>) -> Seq<ManifestV> {
    ms.map_values(|m: Manifest| m@)
}

proof fn lemma_sidecar_is_sidecar(x: Seq<char>)
    ensures
        is_sidecar(sidecar_of(x)),
{
    reveal_strlit(".json");
    assert(".json"@.len() == 5);
    let s = sidecar_of(x);
    assert(s.subrange(s.len() - 5, s.len() as int) =~= ".json"@);
}

/// An in-memory picture of the plugin directory: each file by base name,
/// in listing order, one entry per name.
pub struct Registry {
    files: Vec<(String, Vec<u8>)>,
}

impl Registry {
    /// The directory's files as names and bytes.
    pub closed spec fn entries(&self) -> Seq<(Seq<char>, Seq<u8>)> {
        self.files@.map_values(|e: (String, Vec<u8>)| entry_view(e))
    }

    /// An empty directory.
    pub fn new() -> (r: Registry)
        ensures
            r.entries() == Seq::<(Seq<char>, Seq<u8>)>::empty(),
    {
        let r = Registry { files: Vec::new() };
        assert(r.entries() =~= Seq::<(Seq<char>, Seq<u8>)>::empty());
        r
    }

    /// Index of the last file named `n`.
    fn find(&self, n: &String) -> (r: Option<usize>)
        ensures
            match r {
                Some(i) => i < self.files@.len() && self.entries()[i as int].0 == n@
                    && content_of(self.entries(), n@) == Some(self.entries()[i as int].1),
                None => content_of(self.entries(), n@) is None,
            },
    {
        let ghost es = self.entries();
        let mut found: Option<usize> = None;
        let mut i: usize = 0;
        while i < self.files.len()
            invariant
                i <= self.files@.len(),
                es == self.entries(),
                es.len() == self.files@.len(),
                match found {
                    Some(f) => f < i && es[f as int].0 == n@ && content_of(es.take(i as int), n@) == Some(es[f as int].1),
                    None => content_of(es.take(i as int), n@) is None,
                },
            decreases self.files@.len() - i,
        {
            assert(es.take(i + 1).drop_last() =~= es.take(i as int));
            if self.files[i].0 == *n {
                found = Some(i);
            }
            i = i + 1;
        }
        assert(es.take(i as int) =~= es);
        found
    }

    /// The bytes of the file named `n`, if the directory holds one.
    pub fn file(&self, n: &String) -> (r: Option<Vec<u8>>)
        ensures
            match r {
                Some(b) => content_of(self.entries(), n@) == Some(b@),
                None => content_of(self.entries(), n@) is None,
            },
    {
        match self.find(n) {
            Some(i) => {
                let b = self.files[i].1.clone();
                assert(b@ =~= self.files@[i as int].1@);
                Some(b)
            },
            None => None,
        }
    }

    /// The manifests of the plugins in the directory, in file order: one for
    /// each sidecar that parses, whose name is the sidecar of the manifest's
    /// own name, and whose script is present. Other files are passed over.
    pub fn enumerate(&self) -> (r: Vec<Manifest>)
        ensures
            views_of(r@) == listing(self.entries()),
    {
        let ghost es = self.entries();
        let mut out: Vec<Manifest> = Vec::new();
        let mut i: usize = 0;
        while i < self.files.len()
            invariant
                i <= self.files@.len(),
                es == self.entries(),
                es.len() == self.files@.len(),
                views_of(out@) == manifests_in(es.take(i as int), es),
            decreases self.files@.len() - i,
        {
            assert(es.take(i + 1).drop_last() =~= es.take(i as int));
            assert(es.take(i + 1).last() == es[i as int]);
            let ghost before = out@;
            if is_sidecar_name(&self.files[i].0) {
                match parse(self.files[i].1.as_slice()) {
                    Ok(m) => {
                        let side = sidecar_name(&m.name);
                        if side == self.files[i].0 && self.find(&m.name).is_some() {
                            out.push(m);
                            assert(views_of(out@) =~= views_of(before).push(out@.last()@));
                        }
                    },
                    Err(_) => {},
                }
            } else {
                proof {
                    match manifest_of_bytes(es[i as int].1) {
                        Ok(m) => lemma_sidecar_is_sidecar(m.name),
                        Err(_) => {},
                    }
                }
            }
            i = i + 1;
        }
        assert(es.take(i as int) =~= es);
        out
    }

    /// A copy of every file of the directory, in order.
    pub fn files(&self) -> (r: Vec<(String, Vec<u8>)>)
        ensures
            r@.map_values(|e: (String, Vec<u8>)| entry_view(e)) == self.entries(),
    {
        let mut out: Vec<(String, Vec<u8>)> = Vec::new();
        let mut i: usize = 0;
        while i < self.files.len()
            invariant
                i <= self.files@.len(),
                out@.len() == i,
                forall|k: int| 0 <= k < i ==> #[trigger] entry_view(out@[k]) == entry_view(self.files@[k]),
            decreases self.files@.len() - i,
        {
            out.push(copy_entry(&self.files[i]));
            i = i + 1;
        }
        assert(out@.map_values(|e: (String, Vec<u8>)| entry_view(e)) =~= self.entries());
        out
    }

    /// Drops every file named `a` or `b`.
    fn drop_files(&mut self, a: &String, b: &String)
        ensures
            final(self).entries() == without(old(self).entries(), a@, b@),
    {
        let ghost es = self.entries();
        let mut out: Vec<(String, Vec<u8>)> = Vec::new();
        let mut i: usize = 0;
        while i < self.files.len()
            invariant
                i <= self.files@.len(),
                es == self.entries(),
                es.len() == self.files@.len(),
                out@.map_values(|e: (String, Vec<u8>)| entry_view(e)) == without(es.take(i as int), a@, b@),
            decreases self.files@.len() - i,
        {
            assert(es.take(i + 1).drop_last() =~= es.take(i as int));
            if !(self.files[i].0 == *a || self.files[i].0 == *b) {
                let e = copy_entry(&self.files[i]);
                let ghost before = out@;
                out.push(e);
                assert(out@.map_values(|e: (String, Vec<u8>)| entry_view(e)) =~= before.map_values(
                    |e: (String, Vec<u8>)| entry_view(e),
                ).push(es[i as int]));
            }
            i = i + 1;
        }
        assert(es.take(i as int) =~= es);
        self.files = out;
    }

    fn push_file(&mut self, n: String, b: Vec<u8>)
        ensures
            final(self).entries() == old(self).entries().push((n@, b@)),
    {
        self.files.push((n, b));
        assert(self.entries() =~= old(self).entries().push((n@, b@)));
    }

    /// Stores `bytes` as the file `n`, in place of any file of that name.
    pub fn insert_file(&mut self, n: String, bytes: Vec<u8>)
        ensures
            final(self).entries() == without(old(self).entries(), n@, n@).push((n@, bytes@)),
    {
        self.drop_files(&n, &n);
        self.push_file(n, bytes);
    }

    /// Stores a plugin: its script under `name`, then its manifest under the
    /// sidecar name, replacing an earlier plugin of that name. When `name` is
    /// the manifest's own name, the listing afterwards holds that manifest
    /// exactly once and nothing else under its name.
    pub fn put(&mut self, name: &String, script: &Vec<u8>, m: &Manifest)
        ensures
            final(self).entries() == put_entries(old(self).entries(), name@, script@, manifest_bytes(m@)),
            content_of(final(self).entries(), name@) == Some(script@),
            valid_manifest(m@) && m.name@ == name@ ==> {
                &&& count_named(listing(final(self).entries()), name@) == 1
                &&& listing(final(self).entries()).last() == m@
            },
            old(self).entries().len() == 0 && valid_manifest(m@) && m.name@ == name@ ==> listing(
                final(self).entries(),
            ) == seq![m@],
    {
        let side = sidecar_name(name);
        let meta = serialize(m);
        self.drop_files(name, &side);
        let ghost w = self.entries();
        let sc = script.clone();
        assert(sc@ =~= script@);
        self.push_file(name.clone(), sc);
        let ghost mid = self.entries();
        self.push_file(side, meta);
        proof {
            let all = self.entries();
            lemma_sidecar_injective(name@, name@);
            assert(all.drop_last() =~= mid);
            assert(mid.drop_last() =~= w);
            assert(mid.last() == (name@, script@));
            assert(content_of(mid, name@) == Some(script@));
            assert(all.last().0 != name@);
            assert(content_of(all, name@) == Some(script@));
            if valid_manifest(m@) && m.name@ == name@ {
                lemma_count_without(old(self).entries(), all, name@);
                let s0 = manifests_in(w, all);
                let s1 = manifests_in(mid, all);
                assert(count_named(s1, name@) == 0) by {
                    match entry_manifest(all, name@, script@) {
                        Some(m2) => {
                            lemma_sidecar_injective(m2.name, name@);
                            assert(s0.push(m2).drop_last() =~= s0);
                        },
                        None => {},
                    }
                }
                assert(entry_manifest(all, sidecar_of(name@), manifest_bytes(m@)) == Some(m@));
                assert(s1.push(m@).drop_last() =~= s1);
                if old(self).entries().len() == 0 {
                    assert(w =~= Seq::<(Seq<char>, Seq<u8>)>::empty());
                    assert(manifests_in(w, all) =~= Seq::<ManifestV>::empty());
                    assert(entry_manifest(all, name@, script@) is None) by {
                        match manifest_of_bytes(script@) {
                            Ok(m2) => {
                                if name@ == sidecar_of(m2.name) {
                                    lemma_sidecar_injective(m2.name, name@);
                                    lemma_sidecar_injective(name@, m2.name);
                                    assert(m2.name != name@ && m2.name != sidecar_of(name@));
                                    assert(content_of(w, m2.name) is None);
                                    assert(content_of(mid, m2.name) is None);
                                }
                            },
                            Err(_) => {},
                        }
                    }
                    assert(s1 =~= Seq::<ManifestV>::empty());
                    assert(listing(all) =~= seq![m@]);
                }
            }
        }
    }

    /// Removes a plugin's script and sidecar. Removing a plugin that is not
    /// there leaves the directory unchanged.
    pub fn delete(&mut self, name: &String)
        ensures
            final(self).entries() == delete_entries(old(self).entries(), name@),
            count_named(listing(final(self).entries()), name@) == 0,
            content_of(final(self).entries(), name@) is None,
            content_of(old(self).entries(), name@) is None && content_of(old(self).entries(), sidecar_of(name@)) is None
                ==> final(self).entries() == old(self).entries(),
    {
        let side = sidecar_name(name);
        self.drop_files(name, &side);
        proof {
            lemma_count_without(old(self).entries(), self.entries(), name@);
            lemma_content_without(old(self).entries(), name@, sidecar_of(name@));
            if content_of(old(self).entries(), name@) is None && content_of(old(self).entries(), sidecar_of(name@)) is None {
                lemma_without_absent(old(self).entries(), name@, sidecar_of(name@));
            }
        }
    }
}

proof fn lemma_content_without(fs: Seq<(Seq<char>, Seq<u8>)>, a: Seq<char>, b: Seq<char>)
    ensures
        content_of(without(fs, a, b), a) is None,
    decreases fs.len(),
{
    if fs.len() > 0 {
        lemma_content_without(fs.drop_last(), a, b);
        let w = without(fs.drop_last(), a, b);
        assert(w.push(fs.last()).drop_last() =~= w);
    }
}

} // verus!
