//! The queries put to the registry, as plain data, and the reading of its
//! status codes. Sending a query and decoding the answer is the caller's job.

use vstd::prelude::*;
use vstd::string::*;
use crate::error::Error;
use crate::modrinth::Loaders;

verus! {

/// One `name=value` pair of a query string, not yet percent-encoded.
#[derive(Debug, PartialEq, Eq)]
pub struct QueryParameter {
    pub name: String,
    pub value: String,
}

/// A read-only query: the address and the parameters that go with it.
#[derive(Debug, PartialEq, Eq)]
pub struct Request {
    pub url: String,
    pub query: Vec<QueryParameter>,
}

/// The parameters of a query as pairs of character sequences.
pub open spec fn parameters(query: Seq<QueryParameter>) -> Seq<(Seq<char>, Seq<char>)> {
    Seq::new(query.len(), |i: int| (query[i].name@, query[i].value@))
}

/// A list of one string in the registry's notation: `["value"]`.
pub open spec fn quoted_list(value: Seq<char>) -> Seq<char> {
    "[\""@ + value + "\"]"@
}

/// The address of the releases of `item`.
pub open spec fn versions_url(item: Seq<char>) -> Seq<char> {
    "https://api.modrinth.com/v2/project/"@ + item + "/version"@
}

/// The parameters that filter the releases of a mod: the loader, if one is
/// given, then the game version, if one is given, each as an exact match.
pub open spec fn versions_parameters(loader: Option<Loaders>, game_version: Option<Seq<char>>) -> Seq<(Seq<char>, Seq<char>)> {
    let first = match loader {
        Some(l) => seq![("loaders"@, quoted_list(l.spec_name()))],
        None => Seq::empty(),
    };
    let second = match game_version {
        Some(v) => seq![("game_versions"@, quoted_list(v))],
        None => Seq::empty(),
    };
    first + second
}

/// The facets of a search for mods for one game version and one loader.
pub open spec fn search_facets(game_version: Seq<char>, loader: Loaders) -> Seq<char> {
    "[[\"project_type:mod\"], [\"versions:"@ + game_version + "\"], [\"categories:"@
        + loader.spec_name() + "\"]]"@
}

fn quote(value: &str) -> (text: String)
    ensures
        text@ == quoted_list(value@),
{
    let mut text = String::from_str("[\"");
    text.append(value);
    text.append("\"]");
    text
}

fn parameter(name: &str, value: String) -> (pair: QueryParameter)
    ensures
        pair.name@ == name@,
        pair.value == value,
{
    QueryParameter { name: String::from_str(name), value }
}

/// The query for the releases of `item`, filtered by `loader` and
/// `game_version` where they are given. The filters are passed on as they
/// are: the registry matches them exactly.
///
/// `item` is a mod's slug or id, and so not empty.
pub fn versions_request(item: &String, loader: Option<Loaders>, game_version: Option<&String>) -> (request: Request)
    requires
        item@.len() > 0,
    ensures
        request.url@ == versions_url(item@),
        parameters(request.query@) == versions_parameters(
            loader,
            match game_version {
                Some(v) => Some(v@),
                None => None,
            },
        ),
{
    let mut url = String::from_str("https://api.modrinth.com/v2/project/");
    url.append(item.as_str());
    url.append("/version");
    let mut query: Vec<QueryParameter> = Vec::new();
    if let Some(l) = loader {
        query.push(parameter("loaders", quote(l.as_str())));
    }
    if let Some(v) = game_version {
        query.push(parameter("game_versions", quote(v.as_str())));
    }
    proof {
        assert(parameters(query@) =~= versions_parameters(
            loader,
            match game_version {
                Some(v) => Some(v@),
                None => None,
            },
        ));
    }
    Request { url, query }
}

/// The query for the catalog of game versions.
pub fn game_versions_request() -> (request: Request)
    ensures
        request.url@ == "https://api.modrinth.com/v2/tag/game_version"@,
        request.query@.len() == 0,
{
    Request { url: String::from_str("https://api.modrinth.com/v2/tag/game_version"), query: Vec::new() }
}

/// The character that writes the digit `d`.
pub open spec fn digit_char(d: nat) -> char {
    (0x30 + d) as char
}

/// The number `n` written in base ten, without leading zeros.
pub open spec fn decimal_text(n: nat) -> Seq<char>
    decreases n,
{
    if n < 10 {
        seq![digit_char(n)]
    } else {
        decimal_text(n / 10).push(digit_char(n % 10))
    }
}

fn digit(d: u32) -> (text: &'static str)
    requires
        d < 10,
    ensures
        text@ == seq![digit_char(d as nat)],
{
    proof {
        reveal_strlit("0");
        reveal_strlit("1");
        reveal_strlit("2");
        reveal_strlit("3");
        reveal_strlit("4");
        reveal_strlit("5");
        reveal_strlit("6");
        reveal_strlit("7");
        reveal_strlit("8");
        reveal_strlit("9");
    }
    let text = match d {
        0 => "0",
        1 => "1",
        2 => "2",
        3 => "3",
        4 => "4",
        5 => "5",
        6 => "6",
        7 => "7",
        8 => "8",
        _ => "9",
    };
    assert(text@ =~= seq![digit_char(d as nat)]);
    text
}

fn number(n: u32) -> (text: String)
    ensures
        text@ == decimal_text(n as nat),
    decreases n,
{
    if n < 10 {
        String::from_str(digit(n))
    } else {
        let mut text = number(n / 10);
        text.append(digit(n % 10));
        assert(text@ =~= decimal_text(n as nat));
        text
    }
}

/// The query that searches for mods called `name` for one game version and
/// one loader, and asks for `limit` hits at most.
pub fn search_request(name: &String, game_version: &String, loader: Loaders, limit: u32) -> (request: Request)
    ensures
        request.url@ == "https://api.modrinth.com/v2/search"@,
        parameters(request.query@) == seq![
            ("query"@, name@),
            ("facets"@, search_facets(game_version@, loader)),
            ("limit"@, decimal_text(limit as nat)),
        ],
{
    let mut facets = String::from_str("[[\"project_type:mod\"], [\"versions:");
    facets.append(game_version.as_str());
    facets.append("\"], [\"categories:");
    facets.append(loader.as_str());
    facets.append("\"]]");
    let mut query: Vec<QueryParameter> = Vec::new();
    query.push(parameter("query", name.clone()));
    query.push(parameter("facets", facets));
    query.push(parameter("limit", number(limit)));
    proof {
        assert(parameters(query@) =~= seq![
            ("query"@, name@),
            ("facets"@, search_facets(game_version@, loader)),
            ("limit"@, decimal_text(limit as nat)),
        ]);
    }
    Request { url: String::from_str("https://api.modrinth.com/v2/search"), query }
}

/// What a status code of the registry means: nothing wrong, or a failure.
pub open spec fn status_meaning(status: u16) -> Result<(), Error> {
    if 200 <= status <= 299 {
        Ok(())
    } else if status == 404 {
        Err(Error::NotFound)
    } else if status == 400 {
        Err(Error::InvalidRequest)
    } else {
        Err(Error::RegistryUnavailable)
    }
}

/// Reads the status code of an answer. Codes from 200 to 299 are a success;
/// 404 says that there is no such mod, 400 that the request was malformed;
/// every other code counts as the registry being unavailable.
pub fn classify_status(status: u16) -> (outcome: Result<(), Error>)
    ensures
        outcome == status_meaning(status),
{
    if 200 <= status && status <= 299 {
        Ok(())
    } else if status == 404 {
        Err(Error::NotFound)
    } else if status == 400 {
        Err(Error::InvalidRequest)
    } else {
        Err(Error::RegistryUnavailable)
    }
}

/// What the reply to a query means. `status` is the status code of the
/// answer, and `None` when no answer came at all, which counts as the
/// registry being unavailable.
pub open spec fn reply_meaning(status: Option<u16>) -> Result<(), Error> {
    match status {
        Some(code) => status_meaning(code),
        None => Err(Error::RegistryUnavailable),
    }
}

/// Reads the reply to a query: the status code of the answer, or `None`
/// when the request failed before any answer came.
pub fn classify_reply(status: Option<u16>) -> (outcome: Result<(), Error>)
    ensures
        outcome == reply_meaning(status),
{
    match status {
        Some(code) => classify_status(code),
        None => Err(Error::RegistryUnavailable),
    }
}

} // verus!
