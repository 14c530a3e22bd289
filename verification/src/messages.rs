//! The lines that the progress display shows while the searches run.
use vstd::prelude::*;
use crate::text::{decimal, push_decimal};

verus! {

/// `prefix`, then `word` in single quotes.
fn quoted_after(prefix: &str, word: &str) -> (line: String)
    ensures
        line@ == prefix@ + "'"@ + word@ + "'"@,
{
    let mut line = String::from_str(prefix);
    line.append("'");
    line.append(word);
    line.append("'");
    line
}

/// `Waiting to search for '<word>'`: shown for each term before its search
/// starts.
pub fn waiting_to_search(word: &str) -> (line: String)
    ensures
        line@ == "Waiting to search for "@ + "'"@ + word@ + "'"@,
{
    quoted_after("Waiting to search for ", word)
}

/// `Starting search for '<word>'`: shown once the term's turn has come.
pub fn starting_search(word: &str) -> (line: String)
    ensures
        line@ == "Starting search for "@ + "'"@ + word@ + "'"@,
{
    quoted_after("Starting search for ", word)
}

/// `✓ Completed '<word>'`: shown when every page of the term was taken in.
pub fn completed_search(word: &str) -> (line: String)
    ensures
        line@ == "✓ Completed "@ + "'"@ + word@ + "'"@,
{
    quoted_after("✓ Completed ", word)
}

/// `✗ Failed '<word>'`: shown when the term's search ended in an error.
pub fn failed_search(word: &str) -> (line: String)
    ensures
        line@ == "✗ Failed "@ + "'"@ + word@ + "'"@,
{
    quoted_after("✗ Failed ", word)
}

/// `Searching <word> - page <page>`: shown while a page is asked for.
pub fn searching_page(word: &str, page: u32) -> (line: String)
    ensures
        line@ == "Searching "@ + word@ + " - page "@ + decimal(page as nat),
{
    let mut line = String::from_str("Searching ");
    line.append(word);
    line.append(" - page ");
    push_decimal(&mut line, page as u128);
    line
}

/// `Rate limit: <remaining>/<limit>`: the allowance that is left.
pub fn allowance_line(remaining: u32, limit: u32) -> (line: String)
    ensures
        line@ == "Rate limit: "@ + decimal(remaining as nat) + "/"@ + decimal(limit as nat),
{
    let mut line = String::from_str("Rate limit: ");
    push_decimal(&mut line, remaining as u128);
    line.append("/");
    push_decimal(&mut line, limit as u128);
    line
}

/// `Rate limited - waiting <n> seconds`: shown for the term whose search
/// pauses, where the pause lasts `wait_secs + 1` seconds.
pub fn pause_announcement(wait_secs: u64) -> (line: String)
    ensures
        line@ == "Rate limited - waiting "@ + decimal((wait_secs + 1) as nat) + " seconds"@,
{
    let mut line = String::from_str("Rate limited - waiting ");
    push_decimal(&mut line, wait_secs as u128 + 1);
    line.append(" seconds");
    line
}

/// `Rate limit cooldown: <n>s remaining`: the countdown on the rate-limit line.
pub fn cooldown_line(secs_remaining: u128) -> (line: String)
    ensures
        line@ == "Rate limit cooldown: "@ + decimal(secs_remaining as nat) + "s remaining"@,
{
    let mut line = String::from_str("Rate limit cooldown: ");
    push_decimal(&mut line, secs_remaining);
    line.append("s remaining");
    line
}

/// `Rate limited - waiting <n>s`: the countdown on the paused term's line.
pub fn pause_countdown(secs_remaining: u128) -> (line: String)
    ensures
        line@ == "Rate limited - waiting "@ + decimal(secs_remaining as nat) + "s"@,
{
    let mut line = String::from_str("Rate limited - waiting ");
    push_decimal(&mut line, secs_remaining);
    line.append("s");
    line
}

/// `Rate limit status: OK`: the rate-limit line before any answer came.
pub fn allowance_unknown() -> (line: String)
    ensures
        line@ == "Rate limit status: OK"@,
{
    String::from_str("Rate limit status: OK")
}

/// `Rate limit status: Ready`: the rate-limit line once a pause is over.
pub fn allowance_renewed() -> (line: String)
    ensures
        line@ == "Rate limit status: Ready"@,
{
    String::from_str("Rate limit status: Ready")
}

} // verus!
