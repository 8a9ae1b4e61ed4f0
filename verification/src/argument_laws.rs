//! What the arguments of the program ask for, and how requests are answered.

use vstd::prelude::*;
use vstd::string::*;

use crate::cli::{
    argument_after, argument_position, has_flag, law_argument_position, number_after, required_path,
    runtime_path_with, select_runtime, value_after, version_requested, Arguments, ManifestSource,
    Mode, RuntimeEnvironment,
};
use crate::failure::Failure;
use crate::names::text_views;
use crate::ranking_laws::says_something;
use crate::search::{
    check_query, command_line_request, default_negative_weight, serve_action, Match, SearchRequest,
    SearchResponse, ServeAction,
};
use crate::text::{parse_number, NumberError};

verus! {

/// Whether a flag stands at a position, and nowhere before it.
pub open spec fn stands_first(arguments: Seq<String>, flag: Seq<char>, at: int) -> bool {
    &&& 0 <= at < arguments.len()
    &&& arguments[at]@ == flag
    &&& forall|i: int| 0 <= i < at ==> (#[trigger] arguments[i])@ != flag
}

/// Whether a flag is given somewhere.
pub open spec fn is_given(arguments: Seq<String>, flag: Seq<char>) -> bool {
    exists|i: int| 0 <= i < arguments.len() && (#[trigger] arguments[i])@ == flag
}

/// Whether a flag is given a value: the argument behind its first occurrence.
pub open spec fn is_given_value(arguments: Seq<String>, flag: Seq<char>, value: Seq<char>) -> bool {
    exists|at: int|
        stands_first(arguments, flag, at) && at + 1 < arguments.len() && arguments[at + 1]@ == value
}

/// Whether a flag is given no value.
pub open spec fn lacks_value(arguments: Seq<String>, flag: Seq<char>) -> bool {
    forall|value: Seq<char>| !is_given_value(arguments, flag, value)
}

/// What the value of a flag is, in terms of the arguments.
pub proof fn lemma_given_value(arguments: Seq<String>, flag: Seq<char>)
    ensures
        argument_after(text_views(arguments), flag) matches Some(value) ==> is_given_value(
            arguments,
            flag,
            value,
        ),
        argument_after(text_views(arguments), flag) is None ==> lacks_value(arguments, flag),
        forall|value: Seq<char>| #[trigger]
            is_given_value(arguments, flag, value) ==> argument_after(text_views(arguments), flag)
                == Some(value),
{
    let views = text_views(arguments);
    law_argument_position(views, flag, 0);
    let position = argument_position(views, flag, 0);
    if position < arguments.len() {
        assert(views[position] == arguments[position]@);
        assert forall|i: int| 0 <= i < position implies (#[trigger] arguments[i])@ != flag by {
            assert(views[i] == arguments[i]@);
        }
        assert(stands_first(arguments, flag, position));
        if position + 1 < arguments.len() {
            assert(views[position + 1] == arguments[position + 1]@);
        }
    }
    assert forall|value: Seq<char>| #[trigger] is_given_value(
        arguments,
        flag,
        value,
    ) implies argument_after(views, flag) == Some(value) by {
        let at = choose|at: int|
            stands_first(arguments, flag, at) && at + 1 < arguments.len() && arguments[at + 1]@
                == value;
        assert(views[at] == flag);
        if position < at {
            assert(views[position] == arguments[position]@);
        }
        assert(position == at);
        assert(views[at + 1] == value);
    }
}

/// What it means that a flag is given, in terms of the arguments.
pub proof fn lemma_given(arguments: Seq<String>, flag: Seq<char>)
    ensures
        text_views(arguments).contains(flag) <==> is_given(arguments, flag),
{
    let views = text_views(arguments);
    if views.contains(flag) {
        let i = choose|i: int| 0 <= i < views.len() && views[i] == flag;
        assert(arguments[i]@ == flag);
    }
    if is_given(arguments, flag) {
        let i = choose|i: int| 0 <= i < arguments.len() && (#[trigger] arguments[i])@ == flag;
        assert(views[i] == flag);
    }
}

/// The value of a flag is the argument behind its first occurrence; a flag that stands last has none.
pub proof fn law_values_follow_their_flags(arguments: &[String], flag: &str, value: Option<&String>)
    requires
        call_ensures(value_after, (arguments, flag), value),
    ensures
        value matches Some(value) ==> is_given_value(arguments@, flag@, value@),
        value is None ==> lacks_value(arguments@, flag@),
{
    lemma_given_value(arguments@, flag@);
}

/// A flag is found if and only if it is given.
pub proof fn law_flags_are_found(arguments: &[String], flag: &str, found: bool)
    requires
        call_ensures(has_flag, (arguments, flag), found),
    ensures
        found <==> is_given(arguments@, flag@),
{
    lemma_given(arguments@, flag@);
}

/// The number of a flag is the one that its value spells; a value that spells none is refused, and a
/// flag without a value has none.
pub proof fn law_numbers_follow_their_flags(
    arguments: &[String],
    flag: &str,
    number: Result<Option<usize>, Failure>,
    value: Option<&String>,
    text: &str,
    parsed: Result<usize, NumberError>,
)
    requires
        call_ensures(number_after, (arguments, flag), number),
        call_ensures(value_after, (arguments, flag), value),
        value matches Some(value) ==> text@ == value@,
        call_ensures(parse_number, (text,), parsed),
    ensures
        value is None ==> number == Ok::<Option<usize>, Failure>(None),
        value is Some && parsed is Ok ==> number == Ok::<Option<usize>, Failure>(
            Some(parsed->Ok_0),
        ),
        value is Some && parsed is Err ==> number is Err,
{
    lemma_given_value(arguments@, flag@);
}

/// A path that has to be given is the value of its flag, and refused where there is none.
pub proof fn law_required_paths_follow_their_flags(
    arguments: &[String],
    flag: &str,
    path: Result<String, Failure>,
)
    requires
        call_ensures(required_path, (arguments, flag), path),
    ensures
        path matches Ok(path) ==> is_given_value(arguments@, flag@, path@),
        path is Err ==> lacks_value(arguments@, flag@),
{
    lemma_given_value(arguments@, flag@);
}

/// Whether a runtime is the one to use: that of the arguments, or else that of the newer variable, or
/// else that of the older one.
pub open spec fn is_chosen_runtime(
    arguments: Seq<String>,
    environment: RuntimeEnvironment,
    path: Seq<char>,
) -> bool {
    ||| is_given_value(arguments, "--runtime"@, path)
    ||| lacks_value(arguments, "--runtime"@) && (environment.lens matches Some(lens) && lens@
        == path)
    ||| lacks_value(arguments, "--runtime"@) && environment.lens is None && (
    environment.semantic matches Some(semantic) && semantic@ == path)
}

/// Whether no runtime is given at all.
pub open spec fn lacks_runtime(arguments: Seq<String>, environment: RuntimeEnvironment) -> bool {
    lacks_value(arguments, "--runtime"@) && environment.lens is None && environment.semantic is None
}

/// The runtime of the arguments goes before those of the environment, and a search without any is
/// refused.
pub proof fn law_runtimes_are_chosen(
    arguments: &[String],
    environment: &RuntimeEnvironment,
    runtime: Option<String>,
    path: Result<String, Failure>,
)
    requires
        call_ensures(select_runtime, (arguments, environment), runtime),
        call_ensures(runtime_path_with, (arguments, environment), path),
    ensures
        runtime matches Some(runtime) ==> is_chosen_runtime(
            arguments@,
            *environment,
            runtime@,
        ),
        runtime is None ==> lacks_runtime(arguments@, *environment),
        path matches Ok(path) ==> is_chosen_runtime(arguments@, *environment, path@),
        path is Err ==> lacks_runtime(arguments@, *environment),
{
    lemma_given_value(arguments@, "--runtime"@);
}

/// The version is told if and only if `--version` or `-V` is the only argument behind the program; beside
/// others they are refused.
pub proof fn law_versions_are_asked_for_alone(
    arguments: &[String],
    requested: Result<bool, Failure>,
    at: int,
)
    requires
        call_ensures(version_requested, (arguments,), requested),
    ensures
        requested == Ok::<bool, Failure>(true) ==> arguments@.len() == 2 && (arguments@[1]@
            == "--version"@ || arguments@[1]@ == "-V"@),
        1 <= at < arguments@.len() && (arguments@[at]@ == "--version"@ || arguments@[at]@ == "-V"@)
            ==> requested == Ok::<bool, Failure>(true) || requested is Err,
        1 <= at < arguments@.len() && (arguments@[at]@ == "--version"@ || arguments@[at]@ == "-V"@)
            ==> (requested is Err <==> arguments@.len() != 2),
        requested is Err ==> arguments@.len() != 2,
{
    let views = text_views(arguments@);
    if 1 <= at < arguments@.len() {
        assert(views[at] == arguments@[at]@);
    }
    if requested == Ok::<bool, Failure>(true) {
        let i = choose|i: int|
            1 <= i < views.len() && (#[trigger] views[i] == "--version"@ || views[i] == "-V"@);
        assert(views[i] == arguments@[i]@);
    }
}

/// A manifest that is named goes before the active pack of a model directory; where neither is given,
/// nothing is searched.
pub proof fn law_manifests_are_chosen(
    arguments: &[String],
    source: Result<ManifestSource, Failure>,
)
    requires
        call_ensures(Arguments::manifest_source, (arguments,), source),
    ensures
        source matches Ok(ManifestSource::Explicit(path)) ==> is_given_value(
            arguments@,
            "--manifest"@,
            path@,
        ),
        source matches Ok(ManifestSource::Active { models_dir, pack_id }) ==> {
            &&& lacks_value(arguments@, "--manifest"@)
            &&& is_given_value(arguments@, "--models-dir"@, models_dir@)
            &&& pack_id matches Some(id) ==> is_given_value(arguments@, "--pack-id"@, id@)
            &&& pack_id is None ==> lacks_value(arguments@, "--pack-id"@)
        },
        source is Err ==> lacks_value(arguments@, "--manifest"@) && lacks_value(
            arguments@,
            "--models-dir"@,
        ),
{
    lemma_given_value(arguments@, "--manifest"@);
    lemma_given_value(arguments@, "--models-dir"@);
    lemma_given_value(arguments@, "--pack-id"@);
}

/// Accepted arguments are what was given: the index and the runtime, the query where one is searched for,
/// and the numbers, eight results and four threads where none is said. Exactly one of serving, building
/// and searching is asked for, and it runs.
pub proof fn law_arguments_are_what_was_given(
    arguments: &[String],
    environment: &RuntimeEnvironment,
    manifest: String,
    parsed: Result<Arguments, Failure>,
    top_k: Result<Option<usize>, Failure>,
    threads: Result<Option<usize>, Failure>,
    top_k_flag: &str,
    threads_flag: &str,
)
    requires
        call_ensures(Arguments::parse, (arguments, environment, manifest), parsed),
        top_k_flag@ == "--top-k"@,
        threads_flag@ == "--threads"@,
        call_ensures(number_after, (arguments, top_k_flag), top_k),
        call_ensures(number_after, (arguments, threads_flag), threads),
    ensures
        parsed matches Ok(accepted) ==> {
            &&& accepted.manifest@ == manifest@
            &&& is_given_value(arguments@, "--index"@, accepted.index@)
            &&& is_chosen_runtime(arguments@, *environment, accepted.runtime@)
            &&& accepted.serve <==> is_given(arguments@, "--serve"@)
            &&& accepted.build_index <==> is_given(arguments@, "--build-index"@)
            &&& accepted.progress_json <==> is_given(arguments@, "--progress-json"@)
            &&& accepted.query matches Some(query) ==> is_given_value(
                arguments@,
                "--query"@,
                query@,
            ) && says_something(query@)
            &&& accepted.query is None ==> lacks_value(arguments@, "--query"@)
            &&& !(accepted.serve && accepted.build_index)
            &&& accepted.query is Some <==> !accepted.serve && !accepted.build_index
            &&& top_k matches Ok(number) && accepted.top_k == (match number {
                Some(number) => number,
                None => 8,
            })
            &&& threads matches Ok(number) && accepted.threads == (match number {
                Some(number) => number,
                None => 4,
            })
            &&& accepted.top_k > 0
            &&& accepted.threads > 0
        },
{
    lemma_given_value(arguments@, "--index"@);
    lemma_given_value(arguments@, "--runtime"@);
    lemma_given_value(arguments@, "--query"@);
    lemma_given_value(arguments@, "--top-k"@);
    lemma_given_value(arguments@, "--threads"@);
    lemma_given(arguments@, "--serve"@);
    lemma_given(arguments@, "--build-index"@);
    lemma_given(arguments@, "--progress-json"@);
}

/// Arguments are refused only where something is wrong with them: no index, no runtime, not exactly one
/// mode, a query that says nothing, or a number that is none or zero.
pub proof fn law_refused_arguments(
    arguments: &[String],
    environment: &RuntimeEnvironment,
    manifest: String,
    parsed: Result<Arguments, Failure>,
    top_k: Result<Option<usize>, Failure>,
    threads: Result<Option<usize>, Failure>,
    top_k_flag: &str,
    threads_flag: &str,
    index: Seq<char>,
    runtime: Seq<char>,
)
    requires
        call_ensures(Arguments::parse, (arguments, environment, manifest), parsed),
        top_k_flag@ == "--top-k"@,
        threads_flag@ == "--threads"@,
        call_ensures(number_after, (arguments, top_k_flag), top_k),
        call_ensures(number_after, (arguments, threads_flag), threads),
        is_given_value(arguments@, "--index"@, index),
        is_chosen_runtime(arguments@, *environment, runtime),
        top_k matches Ok(number) && number != Some(0usize),
        threads matches Ok(number) && number != Some(0usize),
    ensures
        is_given(arguments@, "--serve"@) && !is_given(arguments@, "--build-index"@) && lacks_value(
            arguments@,
            "--query"@,
        ) ==> parsed is Ok,
        is_given(arguments@, "--build-index"@) && !is_given(arguments@, "--serve"@) && lacks_value(
            arguments@,
            "--query"@,
        ) ==> parsed is Ok,
        !is_given(arguments@, "--build-index"@) && !is_given(arguments@, "--serve"@) && (exists|
            query: Seq<char>,
        | #[trigger] is_given_value(arguments@, "--query"@, query) && says_something(query))
            ==> parsed is Ok,
{
    lemma_given_value(arguments@, "--index"@);
    lemma_given_value(arguments@, "--runtime"@);
    lemma_given_value(arguments@, "--query"@);
    lemma_given_value(arguments@, "--top-k"@);
    lemma_given_value(arguments@, "--threads"@);
    lemma_given(arguments@, "--serve"@);
    lemma_given(arguments@, "--build-index"@);
    if let Some(value) = argument_after(text_views(arguments@), "--query"@) {
        assert(is_given_value(arguments@, "--query"@, value));
    }
}

/// The mode that runs is the one that was asked for.
pub proof fn law_modes_are_those_asked_for(arguments: &Arguments, mode: Mode)
    requires
        call_ensures(Arguments::mode, (arguments,), mode),
        !(arguments.serve && arguments.build_index),
    ensures
        arguments.build_index <==> mode is BuildIndex,
        arguments.serve <==> mode is Serve,
        !arguments.build_index && !arguments.serve <==> mode is Search,
{
}

/// A line that says nothing is passed over. A request is answered with what it asks for: its embedding
/// alone, or a search. A line that is no request is answered with why not, under no generation.
pub proof fn law_lines_are_answered(
    line: &str,
    parsed: &Result<SearchRequest, String>,
    action: ServeAction,
)
    requires
        call_ensures(serve_action, (line, parsed), action),
    ensures
        action is Skip <==> !says_something(line@),
        says_something(line@) && parsed is Ok ==> (action is Embed
            <==> parsed->Ok_0.embedding_only) && (action is Search
            <==> !parsed->Ok_0.embedding_only),
        says_something(line@) ==> (parsed matches Err(error) ==> (
        action matches ServeAction::Reject(response) && (response.error matches Some(message)
            && message@ == error@) && response.generation == 0 && response.matches@.len() == 0
            && response.embedding is None)),
{
}

/// An answer goes to the request that it answers, and says either what was found or what went wrong.
pub proof fn law_answers_belong_to_their_requests(
    generation: u64,
    matches: Vec<Match>,
    embedding: Vec<u32>,
    query_ms: u64,
    search_ms: u64,
    error: &str,
    found: SearchResponse,
    embedded: SearchResponse,
    failed: SearchResponse,
)
    requires
        call_ensures(
            SearchResponse::from_matches,
            (generation, matches, query_ms, search_ms),
            found,
        ),
        call_ensures(SearchResponse::from_embedding, (generation, embedding, query_ms), embedded),
        call_ensures(SearchResponse::failed, (generation, error), failed),
    ensures
        found.generation == generation && embedded.generation == generation && failed.generation
            == generation,
        found.matches == matches && found.embedding is None && found.error is None,
        found.query_ms == query_ms && found.search_ms == search_ms,
        embedded.embedding == Some(embedding) && embedded.matches@.len() == 0
            && embedded.error is None && embedded.query_ms == query_ms,
        failed.error matches Some(message) && message@ == error@,
        failed.matches@.len() == 0 && failed.embedding is None,
{
}

/// A query is searched for if and only if it says something.
pub proof fn law_queries_say_something(query: &str, result: Result<(), Failure>)
    requires
        call_ensures(check_query, (query,), result),
    ensures
        result is Ok <==> says_something(query@),
{
}

/// A query of the command line asks for its results alone: no other query counts against them, and none
/// is cut off.
pub proof fn law_command_line_queries(
    query: String,
    top_k: usize,
    request: SearchRequest,
    weight: u32,
)
    requires
        call_ensures(command_line_request, (query, top_k), request),
        call_ensures(default_negative_weight, (), weight),
    ensures
        request.query@ == query@,
        request.top_k == top_k,
        request.negative_query is None,
        request.negative_weight == weight,
        weight == 0x3f00_0000,
        request.score_window is None && request.min_score_prominence is None
            && request.max_results is None,
        request.min_results == 0 && !request.embedding_only,
{
}

} // verus!
