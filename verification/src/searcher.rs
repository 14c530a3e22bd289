//! The searcher's settings, how it is set up from the command line, its
//! errors, and how the outcomes of the searches for all terms combine.
use vstd::prelude::*;
use crate::text::{decimal, is_blank, is_blank_text, push_decimal};

verus! {

/// Where results go when no output file is named.
pub const DEFAULT_OUTPUT: &'static str = "search_results.json";

/// How many searches run at once when nothing else is asked for.
pub const DEFAULT_CONCURRENCY: usize = 2;

/// The command line: the terms to search for, the file that results are
/// appended to, the most pages to fetch for each term, the API token, and how
/// many searches run at once.
#[derive(Debug, Clone)]
pub struct Args {
    pub words: Vec<String>,
    pub output: String,
    pub max_pages: Option<u32>,
    pub token: Option<String>,
    pub concurrency: usize,
}

/// Why a search did not complete.
#[derive(Debug, Clone, PartialEq)]
pub enum SearchError {
    /// No token was given, neither on the command line nor in the environment.
    TokenRequired,
    /// The API answered a page with a status other than success: the status
    /// code, its reason phrase where the code has one, the term and the page.
    Api { status: u16, reason: Option<String>, word: String, page: u32 },
    /// The body of a successful answer is not a JSON document.
    InvalidJson,
    /// The network or the output file failed, with its message.
    Outside(String),
}

/// The text that stands for the reason of a status, as a status code is shown.
pub open spec fn reason_text(reason: Option<String>) -> Seq<char> {
    match reason {
        Some(r) => r@,
        None => "<unknown status code>"@,
    }
}

/// The message of an error, as it is reported.
pub open spec fn error_message(e: SearchError) -> Seq<char> {
    match e {
        SearchError::TokenRequired => "GitHub token is required"@,
        SearchError::Api { status, reason, word, page } => "API error: "@ + decimal(status as nat)
            + " "@ + reason_text(reason) + " on word '"@ + word@ + "' page "@ + decimal(
            page as nat,
        ),
        SearchError::InvalidJson => "error decoding response body"@,
        SearchError::Outside(m) => m@,
    }
}

impl SearchError {
    /// The message of the error, as it is reported.
    pub fn message(&self) -> (m: String)
        ensures
            m@ == error_message(*self),
    {
        match self {
            SearchError::TokenRequired => String::from_str("GitHub token is required"),
            SearchError::Api { status, reason, word, page } => {
                let mut m = String::from_str("API error: ");
                push_decimal(&mut m, *status as u128);
                m.append(" ");
                match reason {
                    Some(r) => m.append(r.as_str()),
                    None => m.append("<unknown status code>"),
                }
                m.append(" on word '");
                m.append(word.as_str());
                m.append("' page ");
                push_decimal(&mut m, *page as u128);
                m
            },
            SearchError::InvalidJson => String::from_str("error decoding response body"),
            SearchError::Outside(msg) => msg.clone(),
        }
    }
}

/// The token that is used: the one given on the command line where it is not
/// blank, else the one from the environment where that is not blank.
pub open spec fn chosen_token(given: Option<String>, environment: Option<String>) -> Option<Seq<char>> {
    match given {
        Some(t) if !is_blank_text(t@) => Some(t@),
        _ => match environment {
            Some(e) if !is_blank_text(e@) => Some(e@),
            _ => None,
        },
    }
}

/// A token given on the command line that is not blank is the one used,
/// whatever the environment holds or whether it holds anything.
pub proof fn law_command_line_token_first(given: String, environment: Option<String>)
    requires
        !is_blank_text(given@),
    ensures
        chosen_token(Some(given), environment) == Some(given@),
{
}

/// The environment is turned to only where the command line gives no token
/// or a blank one: then its token is used where it is not blank, and where it
/// is missing or blank too, there is no token.
pub proof fn law_environment_token_otherwise(given: Option<String>, environment: Option<String>)
    requires
        given is None || (given matches Some(t) && is_blank_text(t@)),
    ensures
        environment is Some && !is_blank_text(environment->0@) ==> chosen_token(given, environment)
            == Some(environment->0@),
        environment is None || (environment matches Some(e) && is_blank_text(e@)) ==> chosen_token(
            given,
            environment,
        ) is None,
{
}

/// The searcher's settings: the token, the output file, the page limit for each
/// term, and how many searches run at once. The token is never blank.
pub struct GitHubSearcher {
    token: String,
    output_path: String,
    max_page_limit: Option<u32>,
    concurrency: usize,
}

impl GitHubSearcher {
    #[verifier::type_invariant]
    spec fn token_not_blank(&self) -> bool {
        !is_blank_text(self.token@)
    }

    /// The token.
    pub closed spec fn token_text(&self) -> Seq<char> {
        self.token@
    }

    /// The output file.
    pub closed spec fn output_text(&self) -> Seq<char> {
        self.output_path@
    }

    /// The page limit for each term.
    pub closed spec fn page_limit(&self) -> Option<u32> {
        self.max_page_limit
    }

    /// How many searches run at once.
    pub closed spec fn parallel(&self) -> usize {
        self.concurrency
    }

    /// Sets the searcher up from the command line and the value of the
    /// environment variable `GITHUB_TOKEN`, where it is set: the token is the
    /// one given on the command line unless that is missing or blank, then
    /// the one from the environment unless that is missing or blank; with
    /// neither, there is no searcher and the error says that a token is
    /// required.
    pub fn new(args: &Args, environment_token: Option<String>) -> (r: Result<GitHubSearcher, SearchError>)
        ensures
            match chosen_token(args.token, environment_token) {
                Some(t) => r matches Ok(s) && s.token_text() == t && s.output_text() == args.output@
                    && s.page_limit() == args.max_pages && s.parallel() == args.concurrency,
                None => r matches Err(SearchError::TokenRequired),
            },
            args.token is Some && !is_blank_text(args.token->0@) ==> (r matches Ok(s)
                && s.token_text() == args.token->0@),
            (args.token is None || (args.token matches Some(t) && is_blank_text(t@))) ==> (
            environment_token is Some && !is_blank_text(environment_token->0@) ==> (r matches Ok(
                s,
            ) && s.token_text() == environment_token->0@)),
            (args.token is None || (args.token matches Some(t) && is_blank_text(t@))) && (
            environment_token is None || (environment_token matches Some(e) && is_blank_text(
                e@,
            ))) ==> r matches Err(SearchError::TokenRequired),
    {
        let token = match &args.token {
            Some(t) if !is_blank(t.as_str()) => t.clone(),
            _ => match environment_token {
                Some(e) if !is_blank(e.as_str()) => e,
                _ => {
                    return Err(SearchError::TokenRequired);
                },
            },
        };
        Ok(
            GitHubSearcher {
                token,
                output_path: args.output.clone(),
                max_page_limit: args.max_pages,
                concurrency: args.concurrency,
            },
        )
    }

    /// The token.
    pub fn token(&self) -> (t: &String)
        ensures
            t@ == self.token_text(),
            !is_blank_text(t@),
    {
        proof {
            use_type_invariant(self);
        }
        &self.token
    }

    /// The output file.
    pub fn output_path(&self) -> (p: &String)
        ensures
            p@ == self.output_text(),
    {
        &self.output_path
    }

    /// The page limit for each term.
    pub fn max_page_limit(&self) -> (m: Option<u32>)
        ensures
            m == self.page_limit(),
    {
        self.max_page_limit
    }

    /// How many searches run at once.
    pub fn concurrency(&self) -> (c: usize)
        ensures
            c == self.parallel(),
    {
        self.concurrency
    }
}

/// How the task that searched for one term ended: with the result of the
/// search, or without one where the task itself broke down.
#[derive(Debug)]
pub enum TaskOutcome {
    Finished(Result<(), SearchError>),
    Lost,
}

/// Whether the task at `i` is the first one whose search failed.
pub open spec fn is_first_failure(outcomes: Seq<TaskOutcome>, i: int) -> bool {
    &&& 0 <= i < outcomes.len()
    &&& outcomes[i] matches TaskOutcome::Finished(Err(_))
    &&& forall|j: int| 0 <= j < i ==> !((#[trigger] outcomes[j]) matches TaskOutcome::Finished(Err(_)))
}

/// The result of a whole run, from the outcomes of its tasks in the order of
/// the terms: the error of the first search that failed, or success where none
/// failed. A task that broke down without a result counts as no failure.
pub fn run_result(outcomes: Vec<TaskOutcome>) -> (r: Result<(), SearchError>)
    ensures
        (forall|i: int| 0 <= i < outcomes@.len() ==> !((#[trigger] outcomes@[i]) matches TaskOutcome::Finished(Err(_)))) ==> r is Ok,
        forall|i: int| #[trigger] is_first_failure(outcomes@, i) ==> outcomes@[i] == TaskOutcome::Finished(r),
{
    let ghost all = outcomes@;
    assert(all.len() == outcomes.len());
    let mut rest = outcomes;
    let mut k: usize = 0;
    while rest.len() > 0
        invariant
            all == outcomes@,
            all.len() <= usize::MAX,
            k + rest@.len() == all.len(),
            rest@ == all.subrange(k as int, all.len() as int),
            forall|j: int| 0 <= j < k ==> !((#[trigger] all[j]) matches TaskOutcome::Finished(Err(_))),
        decreases rest.len(),
    {
        let outcome = rest.remove(0);
        assert(outcome == all[k as int]);
        match outcome {
            TaskOutcome::Finished(Err(e)) => {
                proof {
                    assert forall|i: int| #[trigger] is_first_failure(all, i) implies all[i] == TaskOutcome::Finished(
                        Err::<(), SearchError>(e),
                    ) by {
                        if i < k {
                        } else if i > k {
                            assert(!(all[k as int] matches TaskOutcome::Finished(Err(_))));
                        }
                    }
                }
                return Err(e);
            },
            _ => {},
        }
        k = k + 1;
        assert(rest@ =~= all.subrange(k as int, all.len() as int));
    }
    Ok(())
}

/// The line shown for a term once its search is over: completed where it
/// succeeded, failed otherwise.
pub fn outcome_line(word: &str, result: &Result<(), SearchError>) -> (line: String)
    ensures
        result is Ok ==> line@ == "✓ Completed "@ + "'"@ + word@ + "'"@,
        result is Err ==> line@ == "✗ Failed "@ + "'"@ + word@ + "'"@,
{
    match result {
        Ok(()) => crate::messages::completed_search(word),
        Err(_) => crate::messages::failed_search(word),
    }
}

} // verus!
