//! The command line: `<program> <y_coordinate> <x_coordinate> <csv_url>`.

use vstd::prelude::*;

verus! {

/// The three arguments of an invocation, as given.
#[derive(Debug)]
pub struct Invocation {
    /// The user's y coordinate (latitude), not yet read as a number.
    pub y: String,
    /// The user's x coordinate (longitude), not yet read as a number.
    pub x: String,
    /// Where the shop data can be downloaded from.
    pub url: String,
}

/// The number of command-line arguments of a valid invocation, the program
/// name included.
pub const ARG_COUNT: usize = 4;

/// Splits the command-line arguments (the program name first) into an
/// invocation; `None` unless there are exactly three arguments after the
/// program name.
pub fn invocation_from_args(args: &Vec<String>) -> (res: Option<Invocation>)
    ensures
        res is Some <==> args.len() == ARG_COUNT,
        res matches Some(inv) ==> {
            &&& inv.y@ == args[1]@
            &&& inv.x@ == args[2]@
            &&& inv.url@ == args[3]@
        },
{
    if args.len() != ARG_COUNT {
        return None;
    }
    Some(Invocation { y: args[1].clone(), x: args[2].clone(), url: args[3].clone() })
}

} // verus!
