//! The data behind an error page.
use vstd::prelude::*;

verus! {

/// What an error page shows: the code, a short message, and details.
#[derive(Debug, PartialEq)]
pub struct ErrorContext<'a> {
    pub page_name: &'a str,
    pub error_code: u16,
    pub error_message: &'a str,
    pub error_details: &'a str,
}

/// Assemble the context of an error page.
pub fn error_page<'a>(p_code: u16, p_message: &'a str, p_details: &'a str) -> (r: ErrorContext<
    'a,
>)
    ensures
        r.page_name@ == "Error"@,
        r.error_code == p_code,
        r.error_message@ == p_message@,
        r.error_details@ == p_details@,
{
    ErrorContext {
        page_name: "Error",
        error_code: p_code,
        error_message: p_message,
        error_details: p_details,
    }
}

} // verus!
