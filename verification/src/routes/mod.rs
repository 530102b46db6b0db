pub mod download;
pub mod devices;
pub mod metadata;

use vstd::prelude::*;

verus! {

/// The server's front page.
pub fn index() -> (page: &'static str)
    ensures
        page@ == "Hello 👋"@,
{
    "Hello 👋"
}

/// The answer to a health check: HTTP status 200 and a line of text.
pub fn healthcheck() -> (answer: (u16, String))
    ensures
        answer.0 == 200,
        answer.1@ == "A2O4 is running"@,
{
    (200, crate::text::owned("A2O4 is running"))
}

} // verus!
