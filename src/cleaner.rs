use rayon::prelude::ParallelIterator;
use rayon::str::ParallelString;
use vstd::prelude::*;

verus! {

/// The eight instruction symbols of the language.
pub open spec fn instruction_symbol(c: char) -> bool {
    c == '.' || c == ',' || c == '[' || c == ']' || c == '<' || c == '>' || c == '+' || c
        == '-'
}

/// The instruction sequence of a raw source: its instruction symbols, in order.
pub open spec fn cleaned(s: Seq<char>) -> Seq<char> {
    s.filter(|c: char| instruction_symbol(c))
}

/// Whether `c` is one of the eight instruction symbols.
pub fn is_instruction(c: char) -> (r: bool)
    ensures
        r == instruction_symbol(c),
{
    c == '.' || c == ',' || c == '[' || c == ']' || c == '<' || c == '>' || c == '+' || c == '-'
}

/// Relies on rayon's `par_chars`, `filter` and `collect` into a `Vec`: the
/// characters of `code` that the predicate keeps, in the order they appear.
#[verifier::external_body]
fn par_keep_instructions(code: &str) -> (r: Vec<char>)
    ensures
        r@ == cleaned(code@),
{
    code.par_chars().filter(|&c| is_instruction(c)).collect()
}

/// Keeps exactly the instruction symbols of `code`, in the order they appear.
pub fn clean(code: String) -> (r: Vec<char>)
    ensures
        r@ == cleaned(code@),
{
    par_keep_instructions(code.as_str())
}

} // verus!
