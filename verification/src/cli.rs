//! What the command line asks for.

use vstd::prelude::*;
use crate::error::{CopyError, ErrorView};

verus! {

/// The source and the destination that the arguments of the process name,
/// as they are written there. `args` holds the arguments with the name of the
/// program first; but for that name there must be these two and no other.
pub fn parse_cli(args: &Vec<String>) -> (parsed: Result<(String, String), CopyError>)
    ensures
        parsed is Ok <==> args@.len() == 3,
        parsed is Ok ==> parsed->Ok_0.0@ == args@[1]@ && parsed->Ok_0.1@ == args@[2]@,
        parsed is Err ==> parsed->Err_0@ == ErrorView::InvalidArguments,
{
    if args.len() != 3 {
        return Err(CopyError::InvalidArguments);
    }
    Ok((args[1].clone(), args[2].clone()))
}

} // verus!
