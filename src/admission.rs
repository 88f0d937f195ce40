use vstd::prelude::*;
use vstd::string::*;
use crate::manifest::{Manifest, ParseError, manifest_of_bytes, manifest_bytes, parse};
use crate::registry::{Registry, put_entries, listing, count_named, is_sidecar, is_sidecar_name};

verus! {

/// The host's own commands; no plugin may take one of these names.
pub open spec fn builtin_names() -> Seq<Seq<char>> {
    seq!["add"@, "remove"@, "list"@, "create"@, "export"@, "import"@, "ensure-python"@]
}

/// Names that can key a plugin: not a built-in command, not ending in the
/// sidecar extension, and usable as a single file name inside the plugin
/// directory (no `/`, `\\` or NUL, not `.` or `..`).
pub open spec fn admissible_name(n: Seq<char>) -> bool {
    &&& !builtin_names().contains(n)
    &&& !is_sidecar(n)
    &&& !n.contains('/')
    &&& !n.contains('\\')
    &&& !n.contains('\0')
    &&& n != seq!['.']
    &&& n != seq!['.', '.']
}

/// Why a candidate script was not admitted.
#[derive(Clone, Copy, Debug, PartialEq, Eq, Structural)]
pub enum AdmissionError {
    /// What the script printed is not a manifest.
    Manifest(ParseError),
    /// The manifest's name is a built-in command or not a plain file name.
    Reserved,
}

/// Whether `n` names one of the host's own commands.
pub fn is_builtin(n: &String) -> (r: bool)
    ensures
        r == builtin_names().contains(n@),
{
    let names: Vec<String> = vec![
        String::from_str("add"),
        String::from_str("remove"),
        String::from_str("list"),
        String::from_str("create"),
        String::from_str("export"),
        String::from_str("import"),
        String::from_str("ensure-python"),
    ];
    let ghost bs = builtin_names();
    assert(names@.map_values(|s: String| s@) =~= bs);
    let mut i: usize = 0;
    while i < names.len()
        invariant
            i <= names@.len(),
            bs == builtin_names(),
            names@.len() == bs.len(),
            forall|k: int| 0 <= k < names@.len() ==> #[trigger] names@[k]@ == bs[k],
            forall|k: int| 0 <= k < i ==> bs[k] != n@,
        decreases names@.len() - i,
    {
        if names[i] == *n {
            assert(bs[i as int] == n@);
            assert(builtin_names().contains(n@));
            return true;
        }
        i = i + 1;
    }
    false
}

/// Whether `n` may key a plugin.
pub fn is_admissible_name(n: &String) -> (r: bool)
    ensures
        r == admissible_name(n@),
{
    if is_builtin(n) || is_sidecar_name(n) {
        return false;
    }
    let s = n.as_str();
    let len = s.unicode_len();
    if len >= 1 && len <= 2 && s.get_char(0) == '.' && (len == 1 || s.get_char(1) == '.') {
        assert(n@ =~= seq!['.'] || n@ =~= seq!['.', '.']);
        return false;
    }
    let mut i: usize = 0;
    while i < len
        invariant
            i <= len,
            len == n@.len(),
            s@ == n@,
            forall|k: int| 0 <= k < i ==> n@[k] != '/' && n@[k] != '\\' && n@[k] != '\0',
        decreases len - i,
    {
        let c = s.get_char(i);
        if c == '/' || c == '\\' || c == '\0' {
            assert(n@[i as int] == c);
            return false;
        }
        i = i + 1;
    }
    assert(n@ != seq!['.']) by {
        if len == 1 {
            assert(n@[0] != '.' || n@ =~= seq!['.']);
        }
    }
    true
}

/// Admits a candidate script, given what it printed when asked for its
/// manifest. The exit status of that run is advisory and not consulted:
/// the printed manifest decides. On success the script and the manifest
/// are stored under the manifest's name, not the candidate's file name,
/// replacing an earlier plugin of that name; on failure the registry is
/// left as it was.
pub fn admit_script(reg: &mut Registry, script: &Vec<u8>, printed: &[u8]) -> (r: Result<Manifest, AdmissionError>)
    ensures
        match manifest_of_bytes(printed@) {
            Err(e) => r == Err::<Manifest, AdmissionError>(AdmissionError::Manifest(e))
                && final(reg).entries() == old(reg).entries(),
            Ok(m) => if admissible_name(m.name) {
                &&& r is Ok
                &&& r->Ok_0@ == m
                &&& final(reg).entries() == put_entries(old(reg).entries(), m.name, script@, manifest_bytes(m))
                &&& count_named(listing(final(reg).entries()), m.name) == 1
                &&& listing(final(reg).entries()).last() == m
            } else {
                r == Err::<Manifest, AdmissionError>(AdmissionError::Reserved)
                    && final(reg).entries() == old(reg).entries()
            },
        },
{
    match parse(printed) {
        Err(e) => Err(AdmissionError::Manifest(e)),
        Ok(m) => {
            if !is_admissible_name(&m.name) {
                return Err(AdmissionError::Reserved);
            }
            reg.put(&m.name, script, &m);
            Ok(m)
        },
    }
}

} // verus!
