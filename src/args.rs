//! The command line: input paths, then the output path.

use vstd::prelude::*;

verus! {

/// Splits the program's arguments (the program name first) into the input
/// paths and the output path. At least one input and the output are needed;
/// with fewer arguments there is nothing to do.
pub fn split_arguments(args: Vec<String>) -> (r: Option<(Vec<String>, String)>)
    ensures
        args.len() < 3 ==> r is None,
        args.len() >= 3 ==> (r matches Some((inputs, output)) && inputs@ == args@.subrange(
            1,
            args.len() - 1,
        ) && output == args@.last()),
{
    if args.len() < 3 {
        return None;
    }
    let mut rest = args;
    let output = match rest.pop() {
        Some(o) => o,
        None => {
            return None;
        },
    };
    rest.remove(0);
    proof {
        assert(rest@ =~= args@.subrange(1, args.len() - 1));
    }
    Some((rest, output))
}

} // verus!
