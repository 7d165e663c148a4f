//! Absolute URLs as text.
//!
//! Pages are known by the text of their absolute URL, in the form in which
//! the `url` crate writes a URL that it has parsed. Parsing and resolving
//! are left to that crate; what it answers is named here, so that the rest
//! of the library can speak of it.

use vstd::prelude::*;

verus! {

/// `url::ParseError`, the reason for which a text is no URL. Nothing is
/// known of what is inside.
#[verifier::external_type_specification]
#[verifier::external_body]
pub struct ExParseError(url::ParseError);

/// What `url::Url::parse` makes of a text: the URL written out again, or
/// `None` where the text is no absolute URL.
pub uninterp spec fn parsed_url(input: Seq<char>) -> Option<Seq<char>>;

/// What `url::Url::join` makes of a reference on a page at `base`: the
/// absolute URL written out, or `None` where `base` is no absolute URL or
/// the reference cannot be resolved against it.
pub uninterp spec fn joined_url(base: Seq<char>, reference: Seq<char>) -> Option<Seq<char>>;

/// `url::Url::parse`, the parsed URL written out as text. The result is the
/// named value `parsed_url` of the input, an error standing for `None`.
#[verifier::external_body]
pub(crate) fn parse(input: &str) -> (parsed: Result<String, url::ParseError>)
    ensures
        parsed matches Ok(text) ==> parsed_url(input@) == Some(text@),
        parsed is Err ==> parsed_url(input@) is None,
{
    url::Url::parse(input).map(String::from)
}

/// `url::Url::join` on the URL parsed from `base`, the result written out as
/// text. The result is the named value `joined_url` of the two inputs, an
/// error standing for `None`.
#[verifier::external_body]
pub(crate) fn join(base: &str, reference: &str) -> (joined: Result<String, url::ParseError>)
    ensures
        joined matches Ok(text) ==> joined_url(base@, reference@) == Some(text@),
        joined is Err ==> joined_url(base@, reference@) is None,
{
    url::Url::parse(base)?.join(reference).map(String::from)
}

/// A list of pairs of texts as the contracts see it.
pub open spec fn pair_views(pairs: Seq<(String, String)>) -> Seq<(Seq<char>, Seq<char>)> {
    Seq::new(pairs.len(), |i: int| (pairs[i].0@, pairs[i].1@))
}

/// What `url::Url::query_pairs` finds in the URL written as `url`: the names
/// and values of its query, decoded, in their order. `None` where `url` is
/// no absolute URL.
pub uninterp spec fn url_query(url: Seq<char>) -> Option<Seq<(Seq<char>, Seq<char>)>>;

/// The URL written as `url` after its query was cleared and `pairs` were
/// appended to it through `url::Url::query_pairs_mut`, written out. `None`
/// where `url` is no absolute URL.
pub uninterp spec fn url_with_query(url: Seq<char>, pairs: Seq<(Seq<char>, Seq<char>)>) -> Option<
    Seq<char>,
>;

/// The URL written as `url` after one pair was appended to its query through
/// `url::Url::query_pairs_mut`, written out. `None` where `url` is no
/// absolute URL.
pub uninterp spec fn url_with_pair(url: Seq<char>, name: Seq<char>, value: Seq<char>) -> Option<
    Seq<char>,
>;

/// `url::Url::query_pairs` on the URL parsed from `url`, each pair as owned
/// texts. The result is the named value `url_query` of the input, an error
/// standing for `None`.
#[verifier::external_body]
pub(crate) fn query_pairs(url: &str) -> (pairs: Result<Vec<(String, String)>, url::ParseError>)
    ensures
        pairs matches Ok(found) ==> url_query(url@) == Some(pair_views(found@)),
        pairs is Err ==> url_query(url@) is None,
{
    Ok(url::Url::parse(url)?.query_pairs().into_owned().collect())
}

/// `clear` and `extend_pairs` on the `url::Url::query_pairs_mut` of the URL
/// parsed from `url`, the result written out as text. The result is the
/// named value `url_with_query` of the inputs, an error standing for `None`.
#[verifier::external_body]
pub(crate) fn with_query(url: &str, pairs: &Vec<(String, String)>) -> (changed: Result<
    String,
    url::ParseError,
>)
    ensures
        changed matches Ok(text) ==> url_with_query(url@, pair_views(pairs@)) == Some(text@),
        changed is Err ==> url_with_query(url@, pair_views(pairs@)) is None,
{
    let mut parsed = url::Url::parse(url)?;
    parsed.query_pairs_mut().clear().extend_pairs(pairs);
    Ok(String::from(parsed))
}

/// `append_pair` on the `url::Url::query_pairs_mut` of the URL parsed from
/// `url`, the result written out as text. The result is the named value
/// `url_with_pair` of the inputs, an error standing for `None`.
#[verifier::external_body]
pub(crate) fn append_pair(url: &str, name: &str, value: &str) -> (changed: Result<
    String,
    url::ParseError,
>)
    ensures
        changed matches Ok(text) ==> url_with_pair(url@, name@, value@) == Some(text@),
        changed is Err ==> url_with_pair(url@, name@, value@) is None,
{
    let mut parsed = url::Url::parse(url)?;
    parsed.query_pairs_mut().append_pair(name, value);
    Ok(String::from(parsed))
}

} // verus!
