use vstd::prelude::*;
use crate::registry::{Registry, content_of};
use crate::admission::{builtin_names, is_builtin};

verus! {

pub open spec fn strs_view(v: Seq<String>) -> Seq<Seq<char>> {
    v.map_values(|s: String| s@)
}

pub open spec fn opt_view(o: Option<String>) -> Option<Seq<char>> {
    match o {
        Some(s) => Some(s@),
        None => None,
    }
}

/// The argument vector a plugin receives: the chosen subcommand, if any,
/// followed by the trailing tokens exactly as given.
pub open spec fn forwarded(sub: Option<Seq<char>>, trailing: Seq<Seq<char>>) -> Seq<Seq<char>> {
    match sub {
        Some(s) => seq![s] + trailing,
        None => trailing,
    }
}

/// Builds the argument vector handed to a plugin.
pub fn forward_args(sub: Option<String>, trailing: Vec<String>) -> (r: Vec<String>)
    ensures
        strs_view(r@) == forwarded(opt_view(sub), strs_view(trailing@)),
{
    let ghost want = forwarded(opt_view(sub), strs_view(trailing@));
    let mut out: Vec<String> = Vec::new();
    let ghost k: int = 0;
    match sub {
        Some(s) => {
            out.push(s);
            proof {
                k = 1;
            }
        },
        None => {},
    }
    let mut i: usize = 0;
    while i < trailing.len()
        invariant
            i <= trailing@.len(),
            0 <= k <= 1,
            out@.len() == k + i,
            k == want.len() - trailing@.len(),
            forall|j: int| 0 <= j < k ==> #[trigger] out@[j]@ == want[j],
            forall|j: int| 0 <= j < i ==> #[trigger] out@[k + j]@ == trailing@[j]@,
            forall|j: int| 0 <= j < trailing@.len() ==> #[trigger] want[k + j] == trailing@[j]@,
        decreases trailing@.len() - i,
    {
        out.push(trailing[i].clone());
        i = i + 1;
    }
    assert forall|j: int| 0 <= j < want.len() implies #[trigger] strs_view(out@)[j] == want[j] by {
        if j >= k {
            let q = j - k;
            assert(out@[k + q]@ == trailing@[q]@);
            assert(want[k + q] == trailing@[q]@);
        }
    }
    assert(strs_view(out@) =~= want);
    out
}

/// Exit status reported for a child process: its own code, or 1 when it
/// ended without one.
pub fn exit_code_of(code: Option<i32>) -> (r: i32)
    ensures
        r == match code {
            Some(c) => c,
            None => 1i32,
        },
{
    match code {
        Some(c) => c,
        None => 1,
    }
}

/// Where a matched top-level command goes.
#[derive(Debug, PartialEq, Eq)]
pub enum Route {
    /// One of the host's own commands.
    Builtin,
    /// No stored script under that name: an unknown command or plugin.
    Missing,
    /// Run the plugin's stored script with these arguments.
    Run(Vec<String>),
}

/// Resolves a matched top-level command. The registry is consulted now, so
/// a plugin removed since the command tree was built is reported missing.
pub fn route(reg: &Registry, command: &String, sub: Option<String>, trailing: Vec<String>) -> (r: Route)
    ensures
        builtin_names().contains(command@) ==> r is Builtin,
        !builtin_names().contains(command@) && content_of(reg.entries(), command@) is None ==> r is Missing,
        !builtin_names().contains(command@) && content_of(reg.entries(), command@) is Some ==> match r {
            Route::Run(a) => strs_view(a@) == forwarded(opt_view(sub), strs_view(trailing@)),
            _ => false,
        },
{
    if is_builtin(command) {
        return Route::Builtin;
    }
    match reg.file(command) {
        None => Route::Missing,
        Some(_) => Route::Run(forward_args(sub, trailing)),
    }
}

} // verus!
