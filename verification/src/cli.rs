//! Command-line options.

use vstd::prelude::*;
use vstd::string::*;

use crate::failure::{caused_failure, plain_failure, Failure, FailureView};
use crate::names::text_views;
use crate::text;
use crate::text::number_value;

verus! {

/// Where an argument first stands at `from` or later: the number of arguments where it does not.
pub open spec fn argument_position(arguments: Seq<Seq<char>>, wanted: Seq<char>, from: int) -> int
    decreases arguments.len() - from,
{
    if from >= arguments.len() {
        arguments.len() as int
    } else if arguments[from] == wanted {
        from
    } else {
        argument_position(arguments, wanted, from + 1)
    }
}

/// The argument after the first occurrence of a flag.
pub open spec fn argument_after(arguments: Seq<Seq<char>>, flag: Seq<char>) -> Option<Seq<char>> {
    let position = argument_position(arguments, flag, 0);
    if position + 1 < arguments.len() {
        Some(arguments[position + 1])
    } else {
        None
    }
}

/// The position of an argument is one of its occurrences, if it has one, and comes after none.
pub proof fn law_argument_position(arguments: Seq<Seq<char>>, wanted: Seq<char>, from: int)
    requires
        0 <= from <= arguments.len(),
    ensures
        from <= argument_position(arguments, wanted, from) <= arguments.len(),
        argument_position(arguments, wanted, from) < arguments.len() ==> arguments[argument_position(
            arguments,
            wanted,
            from,
        )] == wanted,
        forall|i: int|
            from <= i < argument_position(arguments, wanted, from) ==> arguments[i] != wanted,
    decreases arguments.len() - from,
{
    if from < arguments.len() && arguments[from] != wanted {
        law_argument_position(arguments, wanted, from + 1);
    }
}

/// The argument after the first occurrence of a flag.
pub fn value_after<'a>(arguments: &'a [String], flag: &str) -> (value: Option<&'a String>)
    ensures
        match (value, argument_after(text_views(arguments@), flag@)) {
            (Some(value), Some(expected)) => value@ == expected,
            (None, None) => true,
            _ => false,
        },
{
    let ghost views = text_views(arguments@);
    let mut position: usize = 0;
    while position < arguments.len()
        invariant
            views == text_views(arguments@),
            position <= arguments@.len(),
            argument_position(views, flag@, 0) == argument_position(views, flag@, position as int),
        decreases arguments@.len() - position,
    {
        assert(views[position as int] == arguments@[position as int]@);
        if text::same(arguments[position].as_str(), flag) {
            if position < arguments.len() - 1 {
                assert(views[position + 1] == arguments@[position + 1]@);
                return Some(&arguments[position + 1]);
            }
            return None;
        }
        position = position + 1;
    }
    None
}

/// Whether a flag is among the arguments.
pub fn has_flag(arguments: &[String], flag: &str) -> (found: bool)
    ensures
        found == text_views(arguments@).contains(flag@),
{
    let ghost views = text_views(arguments@);
    let mut position: usize = 0;
    while position < arguments.len()
        invariant
            views == text_views(arguments@),
            position <= arguments@.len(),
            forall|i: int| 0 <= i < position ==> views[i] != flag@,
        decreases arguments@.len() - position,
    {
        assert(views[position as int] == arguments@[position as int]@);
        if text::same(arguments[position].as_str(), flag) {
            return true;
        }
        position = position + 1;
    }
    false
}

/// The number after a flag, or the failure of a value that is none.
pub open spec fn argument_number(arguments: Seq<Seq<char>>, flag: Seq<char>) -> Result<
    Option<nat>,
    FailureView,
> {
    match argument_after(arguments, flag) {
        None => Ok(None),
        Some(value) => match number_value(value, usize::MAX as nat) {
            Ok(number) => Ok(Some(number)),
            Err(error) => Err(
                caused_failure("invalid "@ + flag + " value: "@ + value, error.spec_text()),
            ),
        },
    }
}

/// The number after a flag, if the flag is there.
pub fn number_after(arguments: &[String], flag: &str) -> (number: Result<Option<usize>, Failure>)
    ensures
        match (number, argument_number(text_views(arguments@), flag@)) {
            (Ok(Some(number)), Ok(Some(expected))) => number == expected,
            (Ok(None), Ok(None)) => true,
            (Err(failure), Err(expected)) => failure@ == expected,
            _ => false,
        },
{
    match value_after(arguments, flag) {
        None => Ok(None),
        Some(value) => match text::parse_number(value.as_str()) {
            Ok(number) => Ok(Some(number)),
            Err(error) => {
                let named = text::join(text::join("invalid ", flag).as_str(), " value: ");
                let message = text::join(named.as_str(), value.as_str());
                Err(Failure::caused(message.as_str(), error.text()))
            },
        },
    }
}

/// The failure of a path that was not given.
pub open spec fn missing_path(flag: Seq<char>) -> FailureView {
    plain_failure("use "@ + flag + " <path>"@)
}

/// The path after a flag that has to be there.
pub fn required_path(arguments: &[String], flag: &str) -> (path: Result<String, Failure>)
    ensures
        match (path, argument_after(text_views(arguments@), flag@)) {
            (Ok(path), Some(expected)) => path@ == expected,
            (Err(failure), None) => failure@ == missing_path(flag@),
            _ => false,
        },
{
    match value_after(arguments, flag) {
        Some(path) => Ok(path.clone()),
        None => {
            let message = text::join(text::join("use ", flag).as_str(), " <path>");
            Err(Failure::plain(message.as_str()))
        },
    }
}

/// The two environment variables that can name the ONNX runtime.
#[derive(Debug, Clone)]
pub struct RuntimeEnvironment {
    /// The value of `SKWD_LENS_ORT_DYLIB`.
    pub lens: Option<String>,
    /// The value of `SKWD_SEMANTIC_ORT_DYLIB`.
    pub semantic: Option<String>,
}

/// The runtime that is used: the one after `--runtime`, or else that of the environment.
pub open spec fn chosen_runtime(
    arguments: Seq<Seq<char>>,
    environment: RuntimeEnvironment,
) -> Option<Seq<char>> {
    match argument_after(arguments, "--runtime"@) {
        Some(path) => Some(path),
        None => match environment.lens {
            Some(path) => Some(path@),
            None => match environment.semantic {
                Some(path) => Some(path@),
                None => None,
            },
        },
    }
}

/// Chooses the runtime.
pub fn select_runtime(arguments: &[String], environment: &RuntimeEnvironment) -> (runtime: Option<
    String,
>)
    ensures
        text::optional(runtime) == chosen_runtime(text_views(arguments@), *environment),
{
    if let Some(path) = value_after(arguments, "--runtime") {
        return Some(path.clone());
    }
    match &environment.lens {
        Some(path) => Some(path.clone()),
        None => match &environment.semantic {
            Some(path) => Some(path.clone()),
            None => None,
        },
    }
}

/// The runtime of a search or an index build.
pub fn runtime_path_with(arguments: &[String], environment: &RuntimeEnvironment) -> (path: Result<
    String,
    Failure,
>)
    ensures
        match (path, chosen_runtime(text_views(arguments@), *environment)) {
            (Ok(path), Some(expected)) => path@ == expected,
            (Err(failure), None) => failure@ == plain_failure(
                "use --runtime <libonnxruntime.so> or SKWD_LENS_ORT_DYLIB"@,
            ),
            _ => false,
        },
{
    match select_runtime(arguments, environment) {
        Some(path) => Ok(path),
        None => Err(
            Failure::plain("use --runtime <libonnxruntime.so> or SKWD_LENS_ORT_DYLIB"),
        ),
    }
}

/// Whether the version is asked for, which nothing else may be beside.
pub open spec fn version_request(arguments: Seq<Seq<char>>) -> Result<bool, FailureView> {
    let asked = exists|i: int|
        1 <= i < arguments.len() && (#[trigger] arguments[i] == "--version"@ || arguments[i]
            == "-V"@);
    if !asked {
        Ok(false)
    } else if arguments.len() != 2 {
        Err(plain_failure("--version cannot be combined with other arguments"@))
    } else {
        Ok(true)
    }
}

/// Tells whether the version is asked for.
pub fn version_requested(arguments: &[String]) -> (requested: Result<bool, Failure>)
    ensures
        match (requested, version_request(text_views(arguments@))) {
            (Ok(requested), Ok(expected)) => requested == expected,
            (Err(failure), Err(expected)) => failure@ == expected,
            _ => false,
        },
{
    let ghost views = text_views(arguments@);
    let mut position: usize = 1;
    while position < arguments.len()
        invariant
            views == text_views(arguments@),
            1 <= position,
            forall|i: int|
                1 <= i < position && i < views.len() ==> #[trigger] views[i] != "--version"@
                    && views[i] != "-V"@,
        decreases arguments@.len() - position,
    {
        assert(views[position as int] == arguments@[position as int]@);
        let argument = arguments[position].as_str();
        if text::same(argument, "--version") || text::same(argument, "-V") {
            if arguments.len() != 2 {
                return Err(
                    Failure::plain("--version cannot be combined with other arguments"),
                );
            }
            return Ok(true);
        }
        position = position + 1;
    }
    Ok(false)
}

/// Where the manifest of a search or an index build comes from.
#[derive(Debug, Clone)]
pub enum ManifestSource {
    /// The path of a manifest.
    Explicit(String),
    /// The active pack of a model directory.
    Active { models_dir: String, pack_id: Option<String> },
}

/// The value of a [`ManifestSource`].
pub enum ManifestSourceView {
    Explicit(Seq<char>),
    Active { models_dir: Seq<char>, pack_id: Option<Seq<char>> },
}

impl View for ManifestSource {
    type V = ManifestSourceView;

    open spec fn view(&self) -> ManifestSourceView {
        match self {
            ManifestSource::Explicit(path) => ManifestSourceView::Explicit(path@),
            ManifestSource::Active { models_dir, pack_id } => ManifestSourceView::Active {
                models_dir: models_dir@,
                pack_id: text::optional(*pack_id),
            },
        }
    }
}

/// Where the manifest comes from, or the failure where nothing says so.
pub open spec fn requested_manifest(arguments: Seq<Seq<char>>) -> Result<
    ManifestSourceView,
    FailureView,
> {
    match argument_after(arguments, "--manifest"@) {
        Some(path) => Ok(ManifestSourceView::Explicit(path)),
        None => match argument_after(arguments, "--models-dir"@) {
            Some(models_dir) => Ok(
                ManifestSourceView::Active {
                    models_dir,
                    pack_id: argument_after(arguments, "--pack-id"@),
                },
            ),
            None => Err(missing_path("--models-dir"@)),
        },
    }
}

/// What a search or an index build was asked to do.
#[derive(Debug, Clone)]
pub struct Arguments {
    pub manifest: String,
    pub index: String,
    pub runtime: String,
    pub query: Option<String>,
    pub serve: bool,
    pub build_index: bool,
    pub progress_json: bool,
    pub top_k: usize,
    pub threads: usize,
}

/// The value of [`Arguments`].
pub struct ArgumentsView {
    pub manifest: Seq<char>,
    pub index: Seq<char>,
    pub runtime: Seq<char>,
    pub query: Option<Seq<char>>,
    pub serve: bool,
    pub build_index: bool,
    pub progress_json: bool,
    pub top_k: nat,
    pub threads: nat,
}

impl View for Arguments {
    type V = ArgumentsView;

    open spec fn view(&self) -> ArgumentsView {
        ArgumentsView {
            manifest: self.manifest@,
            index: self.index@,
            runtime: self.runtime@,
            query: text::optional(self.query),
            serve: self.serve,
            build_index: self.build_index,
            progress_json: self.progress_json,
            top_k: self.top_k as nat,
            threads: self.threads as nat,
        }
    }
}

/// Why the requested modes do not go together.
pub open spec fn mode_fault(serve: bool, build_index: bool, query: Option<Seq<char>>) -> Option<
    FailureView,
> {
    if !(serve || build_index || query is Some) {
        Some(plain_failure("use --serve, --build-index, or --query <natural language>"@))
    } else if serve && query is Some {
        Some(plain_failure("--serve and --query are mutually exclusive"@))
    } else if build_index && (serve || query is Some) {
        Some(plain_failure("--build-index cannot be combined with search modes"@))
    } else if query matches Some(value) && text::is_blank(value) {
        Some(plain_failure("query must not be empty"@))
    } else {
        None
    }
}

/// A number that is not given counts as its default.
pub open spec fn number_or(number: Option<nat>, default: nat) -> nat {
    match number {
        Some(number) => number,
        None => default,
    }
}

/// What was asked for, once the manifest is known; the first thing that is wrong decides the
/// failure.
pub open spec fn requested_arguments(
    arguments: Seq<Seq<char>>,
    environment: RuntimeEnvironment,
    manifest: Seq<char>,
) -> Result<ArgumentsView, FailureView> {
    let query = argument_after(arguments, "--query"@);
    let serve = arguments.contains("--serve"@);
    let build_index = arguments.contains("--build-index"@);
    match argument_after(arguments, "--index"@) {
        None => Err(missing_path("--index"@)),
        Some(index) => match chosen_runtime(arguments, environment) {
            None => Err(
                plain_failure("use --runtime <libonnxruntime.so> or SKWD_LENS_ORT_DYLIB"@),
            ),
            Some(runtime) => match mode_fault(serve, build_index, query) {
                Some(fault) => Err(fault),
                None => match argument_number(arguments, "--top-k"@) {
                    Err(failure) => Err(failure),
                    Ok(top_k) => match argument_number(arguments, "--threads"@) {
                        Err(failure) => Err(failure),
                        Ok(threads) => if number_or(top_k, 8) == 0 {
                            Err(plain_failure("--top-k must be positive"@))
                        } else if number_or(threads, 4) == 0 {
                            Err(plain_failure("--threads must be positive"@))
                        } else {
                            Ok(
                                ArgumentsView {
                                    manifest,
                                    index,
                                    runtime,
                                    query,
                                    serve,
                                    build_index,
                                    progress_json: arguments.contains("--progress-json"@),
                                    top_k: number_or(top_k, 8),
                                    threads: number_or(threads, 4),
                                },
                            )
                        },
                    },
                },
            },
        },
    }
}

fn check_modes(serve: bool, build_index: bool, query: &Option<String>) -> (result: Result<
    (),
    Failure,
>)
    ensures
        match (result, mode_fault(serve, build_index, text::optional(*query))) {
            (Ok(_), None) => true,
            (Err(failure), Some(fault)) => failure@ == fault,
            _ => false,
        },
{
    if !(serve || build_index || query.is_some()) {
        return Err(
            Failure::plain("use --serve, --build-index, or --query <natural language>"),
        );
    }
    if serve && query.is_some() {
        return Err(Failure::plain("--serve and --query are mutually exclusive"));
    }
    if build_index && (serve || query.is_some()) {
        return Err(Failure::plain("--build-index cannot be combined with search modes"));
    }
    if let Some(value) = query {
        if text::blank(value.as_str()) {
            return Err(Failure::plain("query must not be empty"));
        }
    }
    Ok(())
}

/// The mode that a command runs in.
#[derive(Debug, Clone, Copy, PartialEq, Eq, Structural)]
pub enum Mode {
    BuildIndex,
    Serve,
    Search,
}

impl Arguments {
    /// Tells where the manifest comes from.
    pub fn manifest_source(arguments: &[String]) -> (source: Result<ManifestSource, Failure>)
        ensures
            match (source, requested_manifest(text_views(arguments@))) {
                (Ok(source), Ok(expected)) => source@ == expected,
                (Err(failure), Err(expected)) => failure@ == expected,
                _ => false,
            },
    {
        if let Some(path) = value_after(arguments, "--manifest") {
            return Ok(ManifestSource::Explicit(path.clone()));
        }
        match required_path(arguments, "--models-dir") {
            Ok(models_dir) => {
                let pack_id = match value_after(arguments, "--pack-id") {
                    Some(id) => Some(id.clone()),
                    None => None,
                };
                Ok(ManifestSource::Active { models_dir, pack_id })
            },
            Err(failure) => Err(failure),
        }
    }

    /// Reads the arguments of a search or an index build whose manifest is known.
    pub fn parse(
        arguments: &[String],
        environment: &RuntimeEnvironment,
        manifest: String,
    ) -> (parsed: Result<Arguments, Failure>)
        ensures
            match (
                parsed,
                requested_arguments(text_views(arguments@), *environment, manifest@),
            ) {
                (Ok(parsed), Ok(expected)) => parsed@ == expected,
                (Err(failure), Err(expected)) => failure@ == expected,
                _ => false,
            },
    {
        let index = match required_path(arguments, "--index") {
            Ok(index) => index,
            Err(failure) => return Err(failure),
        };
        let runtime = match runtime_path_with(arguments, environment) {
            Ok(runtime) => runtime,
            Err(failure) => return Err(failure),
        };
        let query = match value_after(arguments, "--query") {
            Some(query) => Some(query.clone()),
            None => None,
        };
        let serve = has_flag(arguments, "--serve");
        let build_index = has_flag(arguments, "--build-index");
        let progress_json = has_flag(arguments, "--progress-json");
        if let Err(failure) = check_modes(serve, build_index, &query) {
            return Err(failure);
        }
        let top_k: usize = match number_after(arguments, "--top-k") {
            Ok(Some(top_k)) => top_k,
            Ok(None) => 8,
            Err(failure) => return Err(failure),
        };
        let threads: usize = match number_after(arguments, "--threads") {
            Ok(Some(threads)) => threads,
            Ok(None) => 4,
            Err(failure) => return Err(failure),
        };
        if top_k == 0 {
            return Err(Failure::plain("--top-k must be positive"));
        }
        if threads == 0 {
            return Err(Failure::plain("--threads must be positive"));
        }
        Ok(
            Arguments {
                manifest,
                index,
                runtime,
                query,
                serve,
                build_index,
                progress_json,
                top_k,
                threads,
            },
        )
    }

    /// The mode that the command runs in.
    pub fn mode(&self) -> (mode: Mode)
        ensures
            mode == (if self.build_index {
                Mode::BuildIndex
            } else if self.serve {
                Mode::Serve
            } else {
                Mode::Search
            }),
    {
        if self.build_index {
            Mode::BuildIndex
        } else if self.serve {
            Mode::Serve
        } else {
            Mode::Search
        }
    }
}

/// Accepted arguments ask for exactly one mode, a search among them has a query that is not blank,
/// and the number of results and of threads is positive.
pub proof fn law_accepted_arguments(
    arguments: Seq<Seq<char>>,
    environment: RuntimeEnvironment,
    manifest: Seq<char>,
)
    ensures
        requested_arguments(arguments, environment, manifest) matches Ok(accepted) ==> {
            &&& !(accepted.serve && accepted.build_index)
            &&& accepted.query is Some == (!accepted.serve && !accepted.build_index)
            &&& accepted.query matches Some(query) ==> !text::is_blank(query)
            &&& accepted.top_k > 0
            &&& accepted.threads > 0
        },
{
}

} // verus!
