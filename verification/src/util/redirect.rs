//! The page that the Wayback Machine stores for a redirect.

use crate::text::join3;
use vstd::prelude::*;

verus! {

/// What comes before the address in a redirect page.
pub const REDIRECT_PAGE_HEAD: &'static str = "<html><body>You are being <a href=\"";

/// What comes after the address in a redirect page.
pub const REDIRECT_PAGE_TAIL: &'static str = "\">redirected</a>.</body></html>";

/// The usual content of a redirect page whose `Location` is `url`.
pub open spec fn redirect_page(url: Seq<char>) -> Seq<char> {
    REDIRECT_PAGE_HEAD@ + url + REDIRECT_PAGE_TAIL@
}

/// Guesses the content of a redirect page stored by the Wayback Machine.
///
/// When an item is listed as a 302 redirect, the stored page usually, but
/// not always, has this form, where the address is the value of the
/// `Location` header.
pub fn guess_redirect_content(url: &str) -> (page: String)
    ensures
        page@ == redirect_page(url@),
{
    join3(REDIRECT_PAGE_HEAD, url, REDIRECT_PAGE_TAIL)
}

} // verus!
