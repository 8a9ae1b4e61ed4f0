//! Requests, responses and the records that are exchanged with the program.

use vstd::prelude::*;
use vstd::string::*;

use crate::failure::{plain_failure, Failure};
use crate::text;

verus! {

/// The version of the records that are exchanged with the program.
pub const PROTOCOL_VERSION: u32 = 1;

/// One semantic query. The floating-point members are held as their bit patterns.
#[derive(Debug, Clone, PartialEq, Eq)]
pub struct SearchRequest {
    pub generation: u64,
    pub query: String,
    pub negative_query: Option<String>,
    pub negative_weight: u32,
    pub top_k: usize,
    pub score_window: Option<u32>,
    pub min_score_prominence: Option<u32>,
    pub max_results: Option<usize>,
    pub min_results: usize,
    pub embedding_only: bool,
}

/// One result. The score is held as its bit pattern.
#[derive(Debug, Clone, PartialEq, Eq)]
pub struct Match {
    pub rank: usize,
    pub key: String,
    pub score: u32,
}

/// The value of a [`Match`].
pub struct MatchView {
    pub rank: usize,
    pub key: Seq<char>,
    pub score: u32,
}

impl View for Match {
    type V = MatchView;

    open spec fn view(&self) -> MatchView {
        MatchView { rank: self.rank, key: self.key@, score: self.score }
    }
}

/// The answer to one query. Times and embedding values are held as their bit patterns.
#[derive(Debug, Clone, PartialEq, Eq)]
pub struct SearchResponse {
    pub generation: u64,
    pub query_ms: u64,
    pub search_ms: u64,
    pub matches: Vec<Match>,
    pub embedding: Option<Vec<u32>>,
    pub error: Option<String>,
}

impl SearchResponse {
    /// The answer to a search.
    #[must_use]
    pub fn from_matches(
        generation: u64,
        matches: Vec<Match>,
        query_ms: u64,
        search_ms: u64,
    ) -> (response: Self)
        ensures
            response.generation == generation,
            response.query_ms == query_ms,
            response.search_ms == search_ms,
            response.matches == matches,
            response.embedding is None,
            response.error is None,
    {
        let mut response = SearchResponse::empty(generation);
        response.query_ms = query_ms;
        response.search_ms = search_ms;
        response.matches = matches;
        response
    }

    /// The answer to a request for the query's embedding alone.
    #[must_use]
    pub fn from_embedding(generation: u64, embedding: Vec<u32>, query_ms: u64) -> (response: Self)
        ensures
            response.generation == generation,
            response.query_ms == query_ms,
            response.search_ms == 0,
            response.matches@.len() == 0,
            response.embedding == Some(embedding),
            response.error is None,
    {
        let mut response = SearchResponse::empty(generation);
        response.query_ms = query_ms;
        response.embedding = Some(embedding);
        response
    }

    /// The answer to a request that failed.
    pub fn failed(generation: u64, error: &str) -> (response: Self)
        ensures
            response.generation == generation,
            response.query_ms == 0,
            response.search_ms == 0,
            response.matches@.len() == 0,
            response.embedding is None,
            response.error matches Some(message) && message@ == error@,
    {
        let mut response = SearchResponse::empty(generation);
        response.error = Some(error.to_owned());
        response
    }

    fn empty(generation: u64) -> (response: Self)
        ensures
            response.generation == generation,
            response.query_ms == 0,
            response.search_ms == 0,
            response.matches@.len() == 0,
            response.embedding is None,
            response.error is None,
    {
        SearchResponse {
            generation,
            query_ms: 0,
            search_ms: 0,
            matches: Vec::new(),
            embedding: None,
            error: None,
        }
    }
}

/// A request to build an index over a catalog.
#[derive(Debug, Clone, PartialEq, Eq)]
pub struct BuildRequest {
    pub fingerprint: u64,
    pub entries: Vec<BuildEntry>,
}

/// One image of the catalog.
#[derive(Debug, Clone, PartialEq, Eq)]
pub struct BuildEntry {
    pub key: String,
    pub path: String,
    pub fingerprint: u64,
    pub view: ImageView,
}

/// Which part of an image is encoded.
#[derive(Debug, Clone, Copy, PartialEq, Eq, Structural)]
pub enum ImageView {
    Full,
    Center,
    LeftThird,
    RightThird,
}

impl Default for ImageView {
    fn default() -> (view: Self)
        ensures
            view == ImageView::Full,
    {
        ImageView::Full
    }
}

impl ImageView {
    /// Whether the whole image is meant, which a record need not say.
    pub fn is_full(&self) -> (full: bool)
        ensures
            full == (self == ImageView::Full),
    {
        matches!(self, ImageView::Full)
    }
}

/// How far an index build has come.
#[derive(Debug, Clone, PartialEq, Eq)]
pub struct BuildProgress {
    pub progress: usize,
    pub total: usize,
    pub detail: String,
}

/// The weight of a negative query where a request gives none: the bit pattern of one half.
pub fn default_negative_weight() -> (weight: u32)
    ensures
        weight == 0x3f00_0000,
{
    0x3f00_0000
}

/// What is done with a line that was read while serving.
#[derive(Debug)]
pub enum ServeAction {
    /// Nothing: the line says nothing.
    Skip,
    /// The line is no request, and is answered with this.
    Reject(SearchResponse),
    /// The query's embedding is asked for.
    Embed,
    /// A search is asked for.
    Search,
}

/// Decides what is done with a line, given how reading a request from it went.
pub fn serve_action(line: &str, parsed: &Result<SearchRequest, String>) -> (action: ServeAction)
    ensures
        text::is_blank(line@) ==> action is Skip,
        !text::is_blank(line@) ==> match parsed {
            Ok(request) => if request.embedding_only {
                action is Embed
            } else {
                action is Search
            },
            Err(error) => action matches ServeAction::Reject(response) && {
                &&& response.generation == 0
                &&& response.query_ms == 0
                &&& response.search_ms == 0
                &&& response.matches@.len() == 0
                &&& response.embedding is None
                &&& response.error matches Some(message) && message@ == error@
            },
        },
{
    if text::blank(line) {
        return ServeAction::Skip;
    }
    match parsed {
        Ok(request) => if request.embedding_only {
            ServeAction::Embed
        } else {
            ServeAction::Search
        },
        Err(error) => ServeAction::Reject(SearchResponse::failed(0, error.as_str())),
    }
}

/// Checks that a query says something.
pub fn check_query(query: &str) -> (result: Result<(), Failure>)
    ensures
        match result {
            Ok(_) => !text::is_blank(query@),
            Err(failure) => text::is_blank(query@) && failure@ == plain_failure(
                "query must not be empty"@,
            ),
        },
{
    if text::blank(query) {
        return Err(Failure::plain("query must not be empty"));
    }
    Ok(())
}

/// The request that a query on the command line makes.
pub fn command_line_request(query: String, top_k: usize) -> (request: SearchRequest)
    ensures
        request.generation == 0,
        request.query == query,
        request.negative_query is None,
        request.negative_weight == 0x3f00_0000,
        request.top_k == top_k,
        request.score_window is None,
        request.min_score_prominence is None,
        request.max_results is None,
        request.min_results == 0,
        !request.embedding_only,
{
    SearchRequest {
        generation: 0,
        query,
        negative_query: None,
        negative_weight: default_negative_weight(),
        top_k,
        score_window: None,
        min_score_prominence: None,
        max_results: None,
        min_results: 0,
        embedding_only: false,
    }
}

} // verus!
