use vstd::prelude::*;

use crate::text::text;

verus! {

/// The plain values of a list of arguments.
pub open spec fn arg_views(args: Seq<String>) -> Seq<Seq<char>> {
    args.map_values(|a: String| a@)
}

/// The arguments of `git` that show the working tree's status.
pub fn status_args() -> (r: Vec<String>)
    ensures
        arg_views(r@) == seq!["status"@],
{
    let r = vec![text("status")];
    proof {
        assert(arg_views(r@) =~= seq!["status"@]);
    }
    r
}

/// The arguments of `git` that show the last `n` commits as a graph.
pub fn log_args(n: &str) -> (r: Vec<String>)
    ensures
        arg_views(r@) == seq!["log"@, "-n"@, n@, "--oneline"@, "--graph"@, "--decorate"@],
{
    let r = vec![text("log"), text("-n"), text(n), text("--oneline"), text("--graph"), text("--decorate")];
    proof {
        assert(arg_views(r@) =~= seq!["log"@, "-n"@, n@, "--oneline"@, "--graph"@, "--decorate"@]);
    }
    r
}

/// The arguments of `git` that list all branches.
pub fn branch_args() -> (r: Vec<String>)
    ensures
        arg_views(r@) == seq!["branch"@, "-a"@],
{
    let r = vec![text("branch"), text("-a")];
    proof {
        assert(arg_views(r@) =~= seq!["branch"@, "-a"@]);
    }
    r
}

} // verus!
