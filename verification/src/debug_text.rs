//! The texts that the standard library's `Debug` formatting gives.
//!
//! The replies of the built-in commands quote a name and show a duration the
//! way `{:?}` prints them. That formatting is the standard library's; here
//! its results only have names, and the two functions that call it are
//! believed to return what the names stand for.

use vstd::prelude::*;

verus! {

/// What `{:?}` prints for a string: the string in double quotes, with the
/// characters that need it escaped.
pub uninterp spec fn str_debug(s: Seq<char>) -> Seq<char>;

/// What `{:?}` prints for a `std::time::Duration` of `secs` seconds and
/// `nanos` nanoseconds.
pub uninterp spec fn duration_debug(secs: u64, nanos: u32) -> Seq<char>;

/// Calls the `Debug` formatting of `str` (`<str as core::fmt::Debug>::fmt`,
/// through `format!`). Believed: the text returned depends on the characters
/// of `s` alone, and is the one named [`str_debug`].
#[verifier::external_body]
pub(crate) fn debug_str(s: &str) -> (text: String)
    ensures
        text@ == str_debug(s@),
{
    format!("{:?}", s)
}

/// Calls the `Debug` formatting of `std::time::Duration`
/// (`<Duration as core::fmt::Debug>::fmt`, through `format!`) on the
/// duration that `Duration::new` makes of `secs` and `nanos`. Believed: the
/// text returned depends on the two numbers alone, and is the one named
/// [`duration_debug`]. With `nanos` below one second `Duration::new` has
/// nothing to carry and cannot fail.
#[verifier::external_body]
pub(crate) fn debug_duration(secs: u64, nanos: u32) -> (text: String)
    requires
        nanos < 1_000_000_000,
    ensures
        text@ == duration_debug(secs, nanos),
{
    format!("{:?}", std::time::Duration::new(secs, nanos))
}

} // verus!
