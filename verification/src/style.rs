use vstd::prelude::*;
use colored::Colorize;

verus! {

/// The escape sequence that closes a styled span of terminal text.
pub open spec fn spec_style_reset() -> Seq<char> {
    "\u{1b}[0m"@
}

/// The escape sequence that opens a dimmed span of terminal text.
pub open spec fn spec_dim_prefix() -> Seq<char> {
    "\u{1b}[2m"@
}

/// The escape sequence that opens a bold, bright-white span of terminal text.
pub open spec fn spec_heading_prefix() -> Seq<char> {
    "\u{1b}[1;97m"@
}

/// True when `s` contains the reset escape sequence somewhere.
pub open spec fn spec_contains_reset(s: Seq<char>) -> bool {
    exists|i: int|
        0 <= i && i + 4 <= s.len() && #[trigger] s.subrange(i, i + 4) == spec_style_reset()
}

/// How a styled string relates to the plain text it was made from: either
/// styling was disabled and the text is unchanged, or the text stands between
/// the style's escape prefix and the reset suffix. (When the plain text itself
/// contains a reset sequence, the styling library re-opens the style after it,
/// so the middle part is then not pinned down.)
pub open spec fn spec_styled(prefix: Seq<char>, plain: Seq<char>, styled: Seq<char>) -> bool {
    styled == plain || (exists|mid: Seq<char>|
        styled == #[trigger] (prefix + mid + spec_style_reset()) && (!spec_contains_reset(plain)
            ==> mid == plain))
}

/// Relies on colored's `Colorize::dimmed` and its `Display` form: the text is
/// returned unchanged when styling is off, and otherwise wrapped in the dim
/// escape prefix and the reset suffix. Whether styling is on depends on the
/// process environment, so only the disjunction is promised.
#[verifier::external_body]
pub fn dimmed(text: &str) -> (r: String)
    ensures
        spec_styled(spec_dim_prefix(), text@, r@),
{
    format!("{}", text.dimmed())
}

/// Relies on colored's `Colorize::bold` and `Colorize::bright_white`: the text
/// is returned unchanged when styling is off, and otherwise wrapped in the
/// bold bright-white escape prefix and the reset suffix.
#[verifier::external_body]
pub fn heading(text: &str) -> (r: String)
    ensures
        spec_styled(spec_heading_prefix(), text@, r@),
{
    format!("{}", text.bold().bright_white())
}

} // verus!
