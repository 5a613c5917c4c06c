//! The text handed to Typst for a formula, and the recolouring of the SVG it renders.

use vstd::prelude::*;
use crate::text::{chars_of, extend_chars, replace_str, replaced, string_from_chars};

verus! {

/// The Typst source of `formula` typeset as display math: `$formula$`.
pub fn math_source(formula: &str) -> (r: String)
    ensures
        r@ == seq!['$'] + formula@ + seq!['$'],
{
    let mut out: Vec<char> = Vec::new();
    out.push('$');
    let body = chars_of(formula);
    extend_chars(&mut out, &body);
    out.push('$');
    assert(out@ =~= seq!['$'] + formula@ + seq!['$']);
    string_from_chars(&out)
}

/// An SVG with its black fills made white, for display on a dark background.
pub fn whiten_svg(svg: &str) -> (r: String)
    ensures
        r@ == replaced(svg@, "fill=\"#000000\""@, "fill=\"#ffffff\""@),
{
    proof { reveal_strlit("fill=\"#000000\""); }
    replace_str(svg, "fill=\"#000000\"", "fill=\"#ffffff\"")
}

} // verus!
