//! Where the log comes from.

use vstd::prelude::*;

verus! {

/// Where the log comes from.
#[derive(PartialEq, Eq, Debug)]
pub enum Source {
    /// A file, by its name.
    File(String),
    /// Standard input.
    Stdin,
    /// Nowhere: the user is told how the viewer is called.
    Usage,
}

/// Where the log comes from: the file named first on the command line, behind the name of the
/// program; without one, standard input, if something is piped into it.
pub fn choose_source(args: &Vec<String>, stdin_is_piped: bool) -> (r: Source)
    ensures
        args@.len() >= 2 ==> (r matches Source::File(name) && name@ == args@[1]@),
        args@.len() < 2 && stdin_is_piped ==> r is Stdin,
        args@.len() < 2 && !stdin_is_piped ==> r is Usage,
{
    if args.len() >= 2 {
        Source::File(args[1].clone())
    } else if stdin_is_piped {
        Source::Stdin
    } else {
        Source::Usage
    }
}

} // verus!
