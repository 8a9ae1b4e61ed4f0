use skwd_lens::cli::{
    has_flag, number_after, required_path, runtime_path_with, value_after, version_requested,
    Arguments, ManifestSource, Mode, RuntimeEnvironment,
};
use skwd_lens::pack::command::{
    parse_command, requested_operation, validate_lifecycle_syntax, ImportMode, LifecycleCommand,
    Operation,
};
use skwd_lens::pack::error::PackError;
use skwd_lens::pack::report::failure_report;

fn arguments(values: &[&str]) -> Vec<String> {
    values.iter().map(|value| (*value).to_owned()).collect()
}

fn nothing() -> RuntimeEnvironment {
    RuntimeEnvironment { lens: None, semantic: None }
}

fn code(result: Result<Option<LifecycleCommand>, PackError>) -> String {
    failure_report(Operation::Status, &result.unwrap_err()).code
}

#[test]
fn remove_manifest_is_exclusive_and_needs_no_runtime() {
    let args = arguments(&["skwd-lens", "--remove-manifest", "/model/semantic-pack.json"]);
    assert!(matches!(
        parse_command(&args, &nothing()).unwrap(),
        Some(LifecycleCommand::RemoveManifest { .. })
    ));
    let mut conflicting = args.to_vec();
    conflicting.extend(["--remove-pack", "test"].map(String::from));
    assert!(parse_command(&conflicting, &nothing()).is_err());
    let extended =
        arguments(&["skwd-lens", "--remove-manifest", "/model.json", "--models-dir", "/models"]);
    assert_eq!(
        parse_command(&extended, &nothing()).unwrap_err().chain(),
        "--remove-manifest accepts only the model manifest path"
    );
}

#[test]
fn lifecycle_parser_is_explicit_and_failures_have_codes() {
    let list = arguments(&["skwd-lens", "--list-packs", "--models-dir", "/tmp/models"]);
    assert!(parse_command(&list, &nothing()).unwrap().is_some());

    let conflict = arguments(&[
        "skwd-lens",
        "--list-packs",
        "--rollback-pack",
        "model",
        "--models-dir",
        "/tmp/models",
    ]);
    let error = parse_command(&conflict, &nothing()).unwrap_err();
    let report = failure_report(Operation::List, &error);
    assert_eq!(report.code, "conflicting_operations");
    assert!(!report.hint.is_empty());

    let remove =
        arguments(&["skwd-lens", "--remove-pack", "model", "--models-dir", "/tmp/models"]);
    assert!(parse_command(&remove, &nothing()).unwrap_err().chain().contains("exactly one"));

    for invalid in [
        arguments(&["skwd-lens", "--list-packs", "--models-dir", "--threads", "2"]),
        arguments(&[
            "skwd-lens",
            "--list-packs",
            "--models-dir",
            "/tmp/one",
            "--models-dir",
            "/tmp/two",
        ]),
        arguments(&["skwd-lens", "--list-packs", "--models-dir", "/tmp/models", "--typo"]),
    ] {
        assert!(parse_command(&invalid, &nothing()).is_err());
    }
}

#[test]
fn lifecycle_cli_rejects_missing_duplicate_unknown_and_flag_valued_options() {
    let models = "/tmp/models";

    let missing = arguments(&["skwd-lens", "--pack-status", "--models-dir", models]);
    assert_eq!(code(parse_command(&missing, &nothing())), "missing_argument");

    let duplicate = arguments(&[
        "skwd-lens",
        "--pack-status",
        "cli/model",
        "--models-dir",
        models,
        "--models-dir",
        models,
    ]);
    assert_eq!(code(parse_command(&duplicate, &nothing())), "duplicate_argument");

    let unknown = arguments(&[
        "skwd-lens",
        "--pack-status",
        "cli/model",
        "--models-dir",
        models,
        "--surprise",
    ]);
    assert_eq!(code(parse_command(&unknown, &nothing())), "unknown_argument");

    let flag_valued = arguments(&[
        "skwd-lens",
        "--remove-pack",
        "cli/model",
        "--models-dir",
        models,
        "--pack-component",
        "--pack-version",
        "1",
    ]);
    assert_eq!(code(parse_command(&flag_valued, &nothing())), "missing_argument");
}

#[test]
fn every_operation_is_parsed() {
    let environment =
        RuntimeEnvironment { lens: Some(String::from("/lib/ort.so")), semantic: None };
    let parse = |values: &[&str]| {
        let mut all = vec!["skwd-lens"];
        all.extend_from_slice(values);
        all.extend_from_slice(&["--models-dir", "/models"]);
        parse_command(&arguments(&all), &environment).unwrap().unwrap()
    };
    match parse(&["--update-pack", "/pack.tar"]) {
        LifecycleCommand::Import { mode, source, models_dir, runtime, threads } => {
            assert_eq!(mode, ImportMode::Update);
            assert_eq!(mode.operation(), Operation::Update);
            assert_eq!((source.as_str(), models_dir.as_str()), ("/pack.tar", "/models"));
            assert_eq!((runtime.as_str(), threads), ("/lib/ort.so", 4));
        }
        _ => panic!("an update is an import"),
    }
    assert!(matches!(
        parse(&["--replace-pack", "/pack.tar"]),
        LifecycleCommand::Import { mode: ImportMode::Replace, .. }
    ));
    assert!(matches!(
        parse(&["--install-pack", "/pack.tar", "--threads", "2"]),
        LifecycleCommand::Import { mode: ImportMode::Install, threads: 2, .. }
    ));
    match parse(&["--doctor-pack", "id", "--runtime", "/ort.so", "--index", "/a.sidx"]) {
        LifecycleCommand::Doctor { id, runtime, index, threads, .. } => {
            assert_eq!((id.as_str(), runtime.as_str(), index.as_str()), ("id", "/ort.so", "/a.sidx"));
            assert_eq!(threads, 4);
        }
        _ => panic!("a diagnosis was asked for"),
    }
    match parse(&["--remove-pack", "id", "--pack-version", "1", "--allow-active"]) {
        LifecycleCommand::Remove { id, version, component, allow_active, .. } => {
            assert_eq!((id.as_str(), version.as_deref(), component), ("id", Some("1"), None));
            assert!(allow_active);
        }
        _ => panic!("a removal was asked for"),
    }
    assert!(matches!(parse(&["--pack-status", "id"]), LifecycleCommand::Status { .. }));
    assert!(matches!(parse(&["--rollback-pack", "id"]), LifecycleCommand::Rollback { .. }));
    match parse(&["--repair-pack-state", "--pack-component", "one"]) {
        LifecycleCommand::Repair { component, .. } => assert_eq!(component.as_deref(), Some("one")),
        _ => panic!("a repair was asked for"),
    }
}

#[test]
fn lifecycle_failures_name_their_reason() {
    let parse = |values: &[&str]| {
        let mut all = vec!["skwd-lens"];
        all.extend_from_slice(values);
        parse_command(&arguments(&all), &nothing())
    };
    assert_eq!(code(parse(&["--install-pack", "a", "--models-dir", "m"])), "runtime_required");
    assert_eq!(code(parse(&["--list-packs"])), "missing_argument");
    assert_eq!(
        code(parse(&["--list-packs", "--models-dir", "m", "--runtime", "r"])),
        "unexpected_argument"
    );
    let threads =
        parse(&["--install-pack", "a", "--models-dir", "m", "--threads", "x"]).unwrap_err();
    assert_eq!(threads.chain(), "invalid --threads value: x: invalid digit found in string");
    let report = failure_report(Operation::Install, &threads);
    assert_eq!(report.code, "operation_failed");
    assert!(!report.ok);
    assert_eq!(
        parse(&["--install-pack", "a", "--models-dir", "m", "--threads", "0"]).unwrap_err().chain(),
        "--threads must be positive"
    );
    assert!(parse(&["--serve"]).unwrap().is_none());
    assert_eq!(requested_operation(&arguments(&["skwd-lens", "--serve"])), None);
    assert_eq!(
        requested_operation(&arguments(&["skwd-lens", "--remove-pack", "a", "--list-packs"])),
        Some(Operation::List)
    );
    assert_eq!(Operation::Rollback.name(), "rollback");
    let unexpected =
        validate_lifecycle_syntax(&arguments(&["lens", "--index", "a"]), Operation::List);
    assert_eq!(unexpected.unwrap_err().chain(), "--index is not valid for list");
}

#[test]
fn options_are_found_by_their_first_occurrence() {
    let values = arguments(&["lens", "--a", "1", "--a", "2", "--b"]);
    assert_eq!(value_after(&values, "--a").map(String::as_str), Some("1"));
    assert_eq!(value_after(&values, "--b"), None);
    assert!(has_flag(&values, "--b") && !has_flag(&values, "--c"));
    assert_eq!(number_after(&values, "--a").unwrap(), Some(1));
    assert_eq!(number_after(&values, "--c").unwrap(), None);
    assert_eq!(required_path(&values, "--c").unwrap_err().chain(), "use --c <path>");
}

#[test]
fn runtime_comes_from_the_option_then_the_environment() {
    let both = RuntimeEnvironment {
        lens: Some(String::from("/lens.so")),
        semantic: Some(String::from("/semantic.so")),
    };
    let option = arguments(&["lens", "--runtime", "/option.so"]);
    let none = arguments(&["lens"]);
    assert_eq!(runtime_path_with(&option, &both).unwrap(), "/option.so");
    assert_eq!(runtime_path_with(&none, &both).unwrap(), "/lens.so");
    let semantic = RuntimeEnvironment { lens: None, ..both };
    assert_eq!(runtime_path_with(&none, &semantic).unwrap(), "/semantic.so");
    assert_eq!(
        runtime_path_with(&none, &nothing()).unwrap_err().chain(),
        "use --runtime <libonnxruntime.so> or SKWD_LENS_ORT_DYLIB"
    );
}

#[test]
fn versions_are_asked_for_alone() {
    assert!(!version_requested(&arguments(&["--version"])).unwrap());
    assert!(version_requested(&arguments(&["lens", "--version"])).unwrap());
    assert!(version_requested(&arguments(&["lens", "-V"])).unwrap());
    assert_eq!(
        version_requested(&arguments(&["lens", "-V", "--serve"])).unwrap_err().chain(),
        "--version cannot be combined with other arguments"
    );
}

#[test]
fn searches_and_builds_are_parsed() {
    let parse = |values: &[&str]| {
        let mut all = vec!["lens", "--runtime", "/ort.so", "--index", "/a.sidx"];
        all.extend_from_slice(values);
        Arguments::parse(&arguments(&all), &nothing(), String::from("/m.json"))
    };
    let search = parse(&["--query", "forest", "--top-k", "3"]).unwrap();
    assert_eq!((search.mode(), search.top_k, search.threads), (Mode::Search, 3, 4));
    assert_eq!(search.query.as_deref(), Some("forest"));
    assert_eq!(parse(&["--serve"]).unwrap().mode(), Mode::Serve);
    let build = parse(&["--build-index", "--progress-json"]).unwrap();
    assert_eq!((build.mode(), build.progress_json), (Mode::BuildIndex, true));

    for (values, expected) in [
        (vec![], "use --serve, --build-index, or --query <natural language>"),
        (vec!["--serve", "--query", "a"], "--serve and --query are mutually exclusive"),
        (vec!["--serve", "--build-index"], "--build-index cannot be combined with search modes"),
        (vec!["--query", " "], "query must not be empty"),
        (vec!["--serve", "--top-k", "0"], "--top-k must be positive"),
        (vec!["--serve", "--threads", "0"], "--threads must be positive"),
        (
            vec!["--serve", "--top-k", ""],
            "invalid --top-k value: : cannot parse integer from empty string",
        ),
    ] {
        assert_eq!(parse(&values).unwrap_err().chain(), expected);
    }
}

#[test]
fn manifests_are_given_or_active() {
    let explicit = arguments(&["lens", "--manifest", "/m.json", "--models-dir", "/models"]);
    assert!(matches!(
        Arguments::manifest_source(&explicit).unwrap(),
        ManifestSource::Explicit(path) if path == "/m.json"
    ));
    let active = arguments(&["lens", "--models-dir", "/models", "--pack-id", "id"]);
    assert!(matches!(
        Arguments::manifest_source(&active).unwrap(),
        ManifestSource::Active { pack_id: Some(id), .. } if id == "id"
    ));
    assert_eq!(
        Arguments::manifest_source(&arguments(&["lens"])).unwrap_err().chain(),
        "use --models-dir <path>"
    );
}
