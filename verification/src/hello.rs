use vstd::prelude::*;

verus! {

/// The greeting printed by the hello-world program.
pub fn print_main() -> (s: &'static str)
    ensures
        s@ == "Hello, world!"@,
{
    "Hello, world!"
}

} // verus!
