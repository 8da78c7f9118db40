use vstd::prelude::*;

verus! {

/// Validation of the command line: the process takes exactly two positional
/// arguments after the program name, the input bind address and the output
/// bind address, each an `ip:port` string. Any other argument count is a
/// usage error, reported here as `None`.
pub fn parse_args(args: &Vec<String>) -> (r: Option<(String, String)>)
    ensures
        r is Some <==> args@.len() == 3,
        args@.len() == 3 ==> r == Some((args@[1], args@[2])),
{
    if args.len() == 3 {
        Some((args[1].clone(), args[2].clone()))
    } else {
        None
    }
}

} // verus!
