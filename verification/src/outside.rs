//! What the dispatcher takes on trust from `url` and from `std::time`.
//!
//! Nothing in this module is proved. Each item states a fact about code that
//! lives elsewhere; the rest of the crate is verified against these facts.

use std::time::Duration;
use url::Url;
use vstd::prelude::*;

verus! {

/// `url::Url`, carried through the dispatcher as an opaque value.
#[verifier::external_type_specification]
#[verifier::external_body]
pub struct ExUrl(url::Url);

/// The serialization of a URL: the text that `Url::as_str` returns.
///
/// `url` compares and hashes a `Url` by this text alone, so two URLs are the
/// same crawl target exactly when their texts are equal.
pub uninterp spec fn url_text(u: Url) -> Seq<char>;

/// `Url::as_str` returns the URL's serialization.
pub assume_specification[ url::Url::as_str ](u: &Url) -> (s: &str)
    ensures
        s@ == url_text(*u),
;

/// The length of a `Duration` in nanoseconds: what `Duration::as_nanos`
/// returns.
pub uninterp spec fn duration_nanos(d: Duration) -> nat;

/// `Duration::from_millis` makes a `Duration` of the given number of
/// milliseconds, each of them a million nanoseconds, and of nothing more.
pub assume_specification[ core::time::Duration::from_millis ](millis: u64) -> (d: Duration)
    ensures
        duration_nanos(d) == millis * 1_000_000,
;

} // verus!
