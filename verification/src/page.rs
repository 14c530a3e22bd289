//! One page of search results: the request for it, the verdict on the
//! answer's status, and the records kept of its items.
use vstd::prelude::*;
use crate::json::{JsonValue, json_get, json_text, parsed_json, json_array_text, parse_body, records_text, is_first_key, member, lemma_first_key_unique};
use crate::searcher::SearchError;
use crate::text::{decimal, percent_encoded, push_decimal, push_percent_encoded, percent_decoded, is_unreserved, lemma_percent_decoding_gives_back, lemma_encoded_is_url_safe};
use vstd::utf8::encode_utf8;

verus! {

/// The status with which the search API says that no further page can be had.
pub const SEARCH_LIMIT_STATUS: u16 = 422;

/// The text of a string value, or the empty text where there is none.
pub open spec fn text_or_empty(t: Option<Seq<char>>) -> Seq<char> {
    match t {
        Some(s) => s,
        None => Seq::empty(),
    }
}

/// The text of the member `key` of `item`, or the empty text.
pub open spec fn item_text(item: JsonValue, key: Seq<char>) -> Seq<char> {
    text_or_empty(json_text(json_get(item, key)))
}

/// The owner of the repository that an item was found in.
pub open spec fn item_owner(item: JsonValue) -> Option<JsonValue> {
    match json_get(item, "repository"@) {
        Some(repository) => json_get(repository, "owner"@),
        None => None,
    }
}

/// The text of the member `key` of the item's repository owner, or the empty
/// text.
pub open spec fn owner_text(item: JsonValue, key: Seq<char>) -> Seq<char> {
    match item_owner(item) {
        Some(owner) => text_or_empty(json_text(json_get(owner, key))),
        None => Seq::empty(),
    }
}

/// Whether `v` is the JSON string `s`.
pub open spec fn is_text(v: JsonValue, s: Seq<char>) -> bool {
    v matches JsonValue::Str(t) && t@ == s
}

/// Whether `v` is an array with no element.
pub open spec fn is_empty_array(v: JsonValue) -> bool {
    v matches JsonValue::Array(a) && a@.len() == 0
}

/// Whether `member` is named `key` and holds the string `s`.
pub open spec fn text_member(member: (String, JsonValue), key: Seq<char>, s: Seq<char>) -> bool {
    member.0@ == key && is_text(member.1, s)
}

/// Whether `out` is the record kept of the search result `item` found for
/// `word`: its file name, URL and hash, the term, the repository owner's login,
/// avatar and page, each the empty text where the item has no such string, and
/// the item's text matches as they stand, or an empty array where it has none.
pub open spec fn is_kept_record(out: JsonValue, item: JsonValue, word: Seq<char>) -> bool {
    &&& out matches JsonValue::Object(members)
    &&& members@.len() == 6
    &&& text_member(members@[0], "name"@, item_text(item, "name"@))
    &&& text_member(members@[1], "html_url"@, item_text(item, "html_url"@))
    &&& text_member(members@[2], "sha"@, item_text(item, "sha"@))
    &&& text_member(members@[3], "search_term"@, word)
    &&& members@[4].0@ == "repository_owner"@
    &&& members@[4].1 matches JsonValue::Object(owner)
    &&& owner@.len() == 3
    &&& text_member(owner@[0], "login"@, owner_text(item, "login"@))
    &&& text_member(owner@[1], "avatar_url"@, owner_text(item, "avatar_url"@))
    &&& text_member(owner@[2], "html_url"@, owner_text(item, "html_url"@))
    &&& members@[5].0@ == "text_matches"@
    &&& match json_get(item, "text_matches"@) {
        Some(t) => members@[5].1 == t,
        None => is_empty_array(members@[5].1),
    }
}

/// The items of an answer: the elements of its `items` member, where that is
/// an array.
pub open spec fn answer_items(answer: JsonValue) -> Option<Seq<JsonValue>> {
    match json_get(answer, "items"@) {
        Some(JsonValue::Array(items)) => Some(items@),
        _ => None,
    }
}

/// The address of page `page` of the code search for `word`, a hundred results
/// to the page; the term stands percent-encoded, so that it is searched for
/// whatever characters it holds.
pub open spec fn search_url_text(word: Seq<char>, page: u32) -> Seq<char> {
    "https://api.github.com/search/code?q="@ + percent_encoded(word) + "&page="@ + decimal(
        page as nat,
    ) + "&per_page=100"@
}

/// The address of page `page` of the code search for `word`.
pub fn search_url(word: &str, page: u32) -> (url: String)
    ensures
        url@ == search_url_text(word@, page),
{
    let mut url = String::from_str("https://api.github.com/search/code?q=");
    push_percent_encoded(&mut url, word);
    url.append("&page=");
    push_decimal(&mut url, page as u128);
    url.append("&per_page=100");
    url
}

/// The value of the `Authorization` header that carries `token`.
pub fn bearer_authorization(token: &str) -> (value: String)
    ensures
        value@ == "Bearer "@ + token@,
{
    let mut value = String::from_str("Bearer ");
    value.append(token);
    value
}

/// Whether an answer with this status says that the search has no further
/// page; it is looked at before anything else in the answer.
pub fn reached_search_limit(status: u16) -> (b: bool)
    ensures
        b == (status == SEARCH_LIMIT_STATUS),
{
    status == SEARCH_LIMIT_STATUS
}

/// The reason phrase of a status code, as `http`'s `StatusCode::canonical_reason`
/// gives it.
pub uninterp spec fn canonical_reason(status: u16) -> Option<Seq<char>>;

/// The view of an optional text.
pub open spec fn opt_text(s: Option<String>) -> Option<Seq<char>> {
    match s {
        Some(t) => Some(t@),
        None => None,
    }
}

/// `StatusCode::from_u16(status)` followed by `canonical_reason()`, through
/// the `StatusCode` that reqwest re-exports from `http`: the reason phrase of
/// the status, where it has one.
#[verifier::external_body]
fn status_reason(status: u16) -> (r: Option<String>)
    ensures
        opt_text(r) == canonical_reason(status),
{
    match reqwest::StatusCode::from_u16(status) {
        Ok(code) => match code.canonical_reason() {
            Some(reason) => Some(reason.to_string()),
            None => None,
        },
        Err(_) => None,
    }
}

/// Whether the status is one of success, `200` to `299`.
pub fn is_success(status: u16) -> (b: bool)
    ensures
        b == (200 <= status <= 299),
{
    200 <= status && status <= 299
}

/// The text of a string member of `value`, or the empty text.
fn member_text(value: &JsonValue, key: &str) -> (s: String)
    ensures
        s@ == text_or_empty(json_text(json_get(*value, key@))),
{
    match value.get(key) {
        Some(v) => match v.as_str() {
            Some(s) => s.clone(),
            None => String::new(),
        },
        None => String::new(),
    }
}

/// A member named `key` that holds the string `s`.
fn text_entry(key: &str, s: String) -> (m: (String, JsonValue))
    ensures
        text_member(m, key@, s@),
{
    (String::from_str(key), JsonValue::Str(s))
}

/// The record kept of one search result found for `word`.
pub fn keep_record(item: JsonValue, word: &str) -> (out: JsonValue)
    ensures
        is_kept_record(out, item, word@),
        json_text(json_get(out, "name"@)) == Some(text_or_empty(json_text(json_get(item, "name"@)))),
        json_text(json_get(out, "search_term"@)) == Some(word@),
        json_get(item, "text_matches"@) is Some ==> json_get(out, "text_matches"@) == json_get(
            item,
            "text_matches"@,
        ),
        json_get(item, "text_matches"@) is None ==> (json_get(out, "text_matches"@) matches Some(
            JsonValue::Array(a),
        ) && a@.len() == 0),
{
    let name = member_text(&item, "name");
    let html_url = member_text(&item, "html_url");
    let sha = member_text(&item, "sha");
    let owner: Option<&JsonValue> = match item.get("repository") {
        Some(repository) => repository.get("owner"),
        None => None,
    };
    let (login, avatar_url, owner_url) = match owner {
        Some(o) => (member_text(o, "login"), member_text(o, "avatar_url"), member_text(o, "html_url")),
        None => (String::new(), String::new(), String::new()),
    };
    let ghost original = item;
    let text_matches = match item.take("text_matches") {
        Some(t) => t,
        None => JsonValue::Array(Vec::new()),
    };
    let mut owner_members: Vec<(String, JsonValue)> = Vec::new();
    owner_members.push(text_entry("login", login));
    owner_members.push(text_entry("avatar_url", avatar_url));
    owner_members.push(text_entry("html_url", owner_url));
    let mut members: Vec<(String, JsonValue)> = Vec::new();
    members.push(text_entry("name", name));
    members.push(text_entry("html_url", html_url));
    members.push(text_entry("sha", sha));
    members.push(text_entry("search_term", String::from_str(word)));
    members.push((String::from_str("repository_owner"), JsonValue::Object(owner_members)));
    members.push((String::from_str("text_matches"), text_matches));
    let out = JsonValue::Object(members);
    assert(is_kept_record(out, original, word@));
    proof {
        law_record_reads_back(out, original, word@);
    }
    out
}

/// Reading the member at `i` of an object, where it is the first of its name.
proof fn lemma_member_at(members: Seq<(String, JsonValue)>, key: Seq<char>, i: int)
    requires
        is_first_key(members, key, i),
    ensures
        member(members, key) == Some(members[i].1),
{
    let c = choose|c: int| is_first_key(members, key, c);
    lemma_first_key_unique(members, key, i, c);
}

/// Reading a kept record by its member names gives what the search result
/// held: its file name, URL and hash (the empty text where the result has no
/// such string), the term it was found for, and its text matches as they
/// stand, every match of them (an empty array where it has none).
pub proof fn law_record_reads_back(out: JsonValue, item: JsonValue, word: Seq<char>)
    requires
        is_kept_record(out, item, word),
    ensures
        json_text(json_get(out, "name"@)) == Some(text_or_empty(json_text(json_get(item, "name"@)))),
        json_text(json_get(out, "html_url"@)) == Some(
            text_or_empty(json_text(json_get(item, "html_url"@))),
        ),
        json_text(json_get(out, "sha"@)) == Some(text_or_empty(json_text(json_get(item, "sha"@)))),
        json_text(json_get(out, "search_term"@)) == Some(word),
        json_get(item, "text_matches"@) is Some ==> json_get(out, "text_matches"@) == json_get(
            item,
            "text_matches"@,
        ),
        json_get(item, "text_matches"@) is None ==> (json_get(out, "text_matches"@) matches Some(
            JsonValue::Array(a),
        ) && a@.len() == 0),
{
    reveal_strlit("name");
    reveal_strlit("html_url");
    reveal_strlit("sha");
    reveal_strlit("search_term");
    reveal_strlit("repository_owner");
    reveal_strlit("text_matches");
    let members = match out {
        JsonValue::Object(m) => m@,
        _ => Seq::empty(),
    };
    assert forall|j: int| 0 <= j < 6 implies (#[trigger] members[j]).0@.len() == (if j == 0 {
        4int
    } else if j == 1 {
        8
    } else if j == 2 {
        3
    } else if j == 3 {
        11
    } else if j == 4 {
        16
    } else {
        12
    }) by {}
    assert(is_first_key(members, "name"@, 0));
    assert(is_first_key(members, "html_url"@, 1));
    assert(is_first_key(members, "sha"@, 2));
    assert(is_first_key(members, "search_term"@, 3));
    assert(is_first_key(members, "text_matches"@, 5));
    lemma_member_at(members, "name"@, 0);
    lemma_member_at(members, "html_url"@, 1);
    lemma_member_at(members, "sha"@, 2);
    lemma_member_at(members, "search_term"@, 3);
    lemma_member_at(members, "text_matches"@, 5);
}

/// The query parameter of a page's address is the term, percent-encoded: it
/// holds nothing that would end it early, and a server that decodes it reads
/// exactly the term's UTF-8 bytes.
pub proof fn law_query_is_the_term(word: Seq<char>, page: u32)
    ensures
        search_url_text(word, page) == "https://api.github.com/search/code?q="@ + percent_encoded(
            word,
        ) + "&page="@ + decimal(page as nat) + "&per_page=100"@,
        percent_decoded(percent_encoded(word)) == encode_utf8(word),
        forall|i: int|
            0 <= i < percent_encoded(word).len() ==> is_unreserved(#[trigger] percent_encoded(word)[i])
                || percent_encoded(word)[i] == '%',
{
    lemma_percent_decoding_gives_back(word);
    lemma_encoded_is_url_safe(word);
}

/// The records kept of one answer for `word`: nothing where the answer has no
/// `items` array or an empty one, which ends the search for the word;
/// otherwise one record for each item, in the items' order.
pub fn page_records(answer: JsonValue, word: &str) -> (r: Option<Vec<JsonValue>>)
    ensures
        match answer_items(answer) {
            Some(items) if items.len() > 0 => r matches Some(records) && records@.len()
                == items.len() && forall|i: int|
                0 <= i < items.len() ==> is_kept_record(#[trigger] records@[i], items[i], word@),
            _ => r is None,
        },
{
    match answer.take("items") {
        Some(JsonValue::Array(items)) => {
            if items.len() == 0 {
                return None;
            }
            let ghost all = items@;
            let mut rest = items;
            let mut records: Vec<JsonValue> = Vec::new();
            while rest.len() > 0
                invariant
                    records@.len() + rest@.len() == all.len(),
                    rest@ == all.subrange(records@.len() as int, all.len() as int),
                    forall|i: int|
                        0 <= i < records@.len() ==> is_kept_record(
                            #[trigger] records@[i],
                            all[i],
                            word@,
                        ),
                decreases rest.len(),
            {
                let ghost k = records@.len();
                let item = rest.remove(0);
                assert(item == all[k as int]);
                let record = keep_record(item, word);
                records.push(record);
                assert(rest@ =~= all.subrange(records@.len() as int, all.len() as int));
            }
            Some(records)
        },
        _ => None,
    }
}

/// What to do with an answer once its status and its rate-limit pause are
/// known.
#[derive(Debug, Clone, Copy, PartialEq, Eq)]
pub enum PageStep {
    /// The search has no further page.
    NoMorePages,
    /// Pause for the seconds given and one more, then ask for the same page
    /// again.
    PauseAndRetry(u64),
    /// Pause for the seconds given and one more, then take in this answer.
    PauseAndRead(u64),
    /// Take in this answer.
    Read,
}

/// The step for an answer with this status, where the rate-limit plan pauses
/// for `wait_secs` seconds, if at all. The search-limit status comes first; an
/// answer that was refused while the allowance was used up is asked for again
/// once the pause is over.
pub fn page_step(status: u16, wait_secs: Option<u64>) -> (step: PageStep)
    ensures
        status == SEARCH_LIMIT_STATUS ==> step == PageStep::NoMorePages,
        status != SEARCH_LIMIT_STATUS ==> match wait_secs {
            Some(w) => if 200 <= status <= 299 {
                step == PageStep::PauseAndRead(w)
            } else {
                step == PageStep::PauseAndRetry(w)
            },
            None => step == PageStep::Read,
        },
{
    if reached_search_limit(status) {
        return PageStep::NoMorePages;
    }
    match wait_secs {
        Some(w) => if is_success(status) {
            PageStep::PauseAndRead(w)
        } else {
            PageStep::PauseAndRetry(w)
        },
        None => PageStep::Read,
    }
}

/// Whether `line` is the JSON text of an array of the records kept of `items`
/// for `word`, one for each, in order.
pub open spec fn is_records_line(items: Seq<JsonValue>, word: Seq<char>, line: Seq<char>) -> bool {
    exists|records: Seq<JsonValue>|
        #![trigger json_array_text(records)]
        records.len() == items.len() && (forall|i: int|
            0 <= i < items.len() ==> is_kept_record(#[trigger] records[i], items[i], word))
            && line == json_array_text(records)
}

/// The outcome of the answer with status `status` and body `body` to page
/// `page` of the search for `word`: the line to append to the output file, or
/// nothing where the search has no further page, or the error that ends the
/// search. The search-limit status means no further page; any other status
/// but success is an error that names the status and its reason; a body that
/// is not JSON is an error; an answer without items or with none means no
/// further page; otherwise there always is a line, the JSON array of the
/// records kept.
pub fn page_outcome(status: u16, body: &[u8], word: &str, page: u32) -> (r: Result<Option<String>, SearchError>)
    ensures
        status == SEARCH_LIMIT_STATUS ==> r matches Ok(None),
        status != SEARCH_LIMIT_STATUS && !(200 <= status <= 299) ==> (r matches Err(
            SearchError::Api { status: s, reason, word: w, page: p },
        ) && s == status && opt_text(reason) == canonical_reason(status) && w@ == word@ && p
            == page),
        200 <= status <= 299 ==> match parsed_json(body@) {
            None => r matches Err(SearchError::InvalidJson),
            Some(answer) => match answer_items(answer) {
                Some(items) if items.len() > 0 => r matches Ok(Some(line)) && is_records_line(
                    items,
                    word@,
                    line@,
                ),
                _ => r matches Ok(None),
            },
        },
{
    if reached_search_limit(status) {
        return Ok(None);
    }
    if !is_success(status) {
        return Err(
            SearchError::Api { status, reason: status_reason(status), word: String::from_str(word), page },
        );
    }
    let answer = match parse_body(body) {
        Some(a) => a,
        None => {
            return Err(SearchError::InvalidJson);
        },
    };
    let ghost whole = answer;
    match page_records(answer, word) {
        Some(records) => {
            let ghost kept = records@;
            match records_text(records) {
                Some(line) => {
                    proof {
                        let items = answer_items(whole)->0;
                        assert(kept.len() == items.len() && (forall|i: int|
                            0 <= i < items.len() ==> is_kept_record(#[trigger] kept[i], items[i], word@))
                            && line@ == json_array_text(kept));
                    }
                    Ok(Some(line))
                },
                None => Ok(None),
            }
        },
        None => Ok(None),
    }
}

} // verus!
