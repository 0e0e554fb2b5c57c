//! Cross-cutting statements the library keeps: the shape of every
//! personality launcher invocation, and the uniqueness of a session's
//! container under registry well-formedness.

use vstd::prelude::*;
use crate::config::WslView;
use crate::domain::{wsl_effective_args, wsl_wrapped_argv};
use crate::ids::PaneId;
use crate::registry::Registry;

verus! {

/// Every argv a personality rewrite produces begins with the fixed
/// launcher prefix naming the distribution (the declared one, or the
/// backend name), and the `--exec` marker stands right after the
/// prefix, `--cd` and `--user` segments if and only if the forwarded
/// arguments (the original argv, default-filled when empty) are
/// non-empty.
pub proof fn lemma_personality_argv_shape(
    argv: Seq<Option<Seq<char>>>,
    cwd: Option<Seq<char>>,
    wsl: WslView,
)
    ensures
        ({
            let out = wsl_wrapped_argv(argv, cwd, wsl);
            let args = wsl_effective_args(argv, wsl);
            let prefix_len = 3 + (if cwd is Some {
                2int
            } else {
                0int
            }) + (if wsl.username is Some {
                2int
            } else {
                0int
            });
            &&& out.len() >= 3
            &&& out[0] == Some("wsl.exe"@)
            &&& out[1] == Some("--distribution"@)
            &&& out[2] == Some(
                match wsl.distribution {
                    Some(d) => d,
                    None => wsl.name,
                },
            )
            &&& (args.len() > 0 <==> out.len() == prefix_len + 1 + args.len() && out[prefix_len]
                == Some("--exec"@))
            &&& (args.len() == 0 ==> out.len() == prefix_len)
            &&& (forall|k: int| 0 <= k < args.len() ==> out[prefix_len + 1 + k] == args[k])
        }),
{
    let out = wsl_wrapped_argv(argv, cwd, wsl);
    let args = wsl_effective_args(argv, wsl);
    if args.len() > 0 {
        assert(out.len() >= 3);
    } else {
        assert(out.len() >= 3);
    }
}

/// A well-formed registry holds every session in at most one container:
/// two containers that both hold a session are the same container.
pub proof fn lemma_pane_in_at_most_one_tab(reg: Registry, p: PaneId, i: int, j: int)
    requires
        reg.wf(),
        0 <= i < reg.tabs@.len(),
        0 <= j < reg.tabs@.len(),
        reg.tabs@[i].has_pane(p),
        reg.tabs@[j].has_pane(p),
    ensures
        i == j,
{
}

} // verus!
