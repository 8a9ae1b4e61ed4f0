use skwd_lens::index::IndexHeader;
use skwd_lens::names::{available_component, install_component};
use skwd_lens::pack::activation::{
    activate, check_import, publish_failure, retire, rollback, select_removal,
};
use skwd_lens::pack::change::{is_published, Change, ChangeStep};
use skwd_lens::pack::command::{ImportMode, Operation};
use skwd_lens::pack::contents::{
    check_copy, check_image_session, check_listing, check_pack_file, check_pack_path, check_source,
    check_text_session, command_failure, is_manifest_path, manifest_root, named_files,
    pack_metadata, EntryKind, TreeAudit, MAX_PACK_BYTES, MAX_PACK_ENTRIES,
};
use skwd_lens::pack::doctor::detected_runtime_version;
use skwd_lens::pack::error::PackError;
use skwd_lens::pack::records::{
    BuildInfo, PackFileDigest, PackMetadata, PackReference, PackTrack,
};
use skwd_lens::pack::repair::{
    check_selected, migrate_digest_state, reconstruct_state, repair_not_needed, repair_plan,
    state_needs_digest_migration, RepairPlan,
};
use skwd_lens::pack::report::{
    active_manifest, diagnosed, doctor, doctor_state, failure_report, install_report, list, remove_report,
    repair_report, rollback_report, status, DoctorFindings, DoctorReport, InstallReport,
    LifecycleReport,
};
use skwd_lens::pack::scan::{
    is_component_entry, scan_installed, FoundComponent, InstalledPack, PackRole,
};
use skwd_lens::pack::state::{PackState, TrackEntry};
use skwd_lens::pack::transaction::{
    check_removed_component, cleanup_action, corrupt_backup_name, recover_removal,
    recover_removal_for_repair, stale_names, state_temp_name, work_directory_name, work_named,
    CleanupAction, RemovalTraces,
};
use skwd_lens::pack::validation::{stamped, validate_state};
use skwd_lens::manifest::{
    ImageModel, Manifest, ResizeFilter, ResizeMode, TextModel, TokenEmbeddingModel,
};

fn build() -> BuildInfo {
    BuildInfo { version: String::from("0.1.0"), runtime_api_minor: 27 }
}

fn manifest(id: &str, version: &str) -> Manifest {
    Manifest {
        format: 1,
        id: id.to_owned(),
        version: version.to_owned(),
        dimensions: 4,
        context_length: 4,
        image: ImageModel {
            model: String::from("image.onnx"),
            width: 1,
            height: 1,
            mean: [0; 3],
            std: [1.0_f32.to_bits(); 3],
            resize_mode: ResizeMode::Cover,
            resize_filter: ResizeFilter::CatmullRom,
            input: String::from("images"),
            output: String::from("image_embedding"),
            patch_size: None,
            max_num_patches: None,
            pixel_attention_mask: None,
            spatial_shapes: None,
            supported_shapes: Vec::new(),
        },
        text: TextModel {
            model: String::from("text.onnx"),
            tokenizer: String::from("tokenizer.json"),
            input: String::from("tokens"),
            attention_mask: None,
            mask_padding: true,
            lowercase: false,
            output: String::from("text_embedding"),
            eos_token: 0,
            pad_token: 0,
            token_embeddings: None,
            projection: None,
        },
    }
}

/// What is found out about a pack whose files are marked.
fn pack(id: &str, version: &str, marker: &str) -> PackMetadata {
    let files = [
        ("text.onnx", format!("text-{marker}")),
        ("image.onnx", format!("image-{marker}")),
        ("tokenizer.json", String::from("{}")),
    ];
    let mut audit = TreeAudit::begin();
    audit.enter(EntryKind::Directory, "/pack").unwrap();
    for (path, contents) in files {
        let bytes = contents.len() as u64;
        audit.enter(EntryKind::File { bytes }, path).unwrap();
        audit.record(path.to_owned(), bytes, contents.as_bytes());
    }
    let (bytes, files) = audit.finish();
    pack_metadata(&manifest(id, version), bytes, files)
}

fn candidate(version: &str, marker: &str) -> PackMetadata {
    pack("example/model", version, marker)
}

/// A model directory in memory: its ledger, and what is installed in it.
struct Models {
    state: PackState,
    components: Vec<(String, PackMetadata)>,
}

impl Models {
    fn new() -> Self {
        Models { state: PackState::empty(&build()), components: Vec::new() }
    }

    fn found(&self) -> Vec<FoundComponent> {
        self.components
            .iter()
            .map(|(component, metadata)| FoundComponent {
                component: component.clone(),
                metadata: Ok(metadata.clone()),
            })
            .collect()
    }

    fn installed(&self) -> Vec<InstalledPack> {
        scan_installed("/models", &self.state, &self.found())
    }

    fn activate(
        &mut self,
        metadata: &PackMetadata,
        mode: ImportMode,
    ) -> Result<InstallReport, PackError> {
        let prior = check_import(&self.state, &self.installed(), metadata, mode, &build())?;
        let taken = self.components.iter().map(|(component, _)| component.clone()).collect();
        let component = available_component(&taken, &metadata.id, &metadata.version).unwrap();
        self.components.push((component.clone(), metadata.clone()));
        let track = activate(
            &mut self.state,
            component.clone(),
            metadata,
            detected_runtime_version("libonnxruntime.so.1.27.0"),
            prior,
            &build(),
        );
        validate_state(&self.state).unwrap();
        Ok(install_report(mode, metadata, &format!("/models/{component}"), track))
    }

    fn remove(
        &mut self,
        version: Option<&str>,
        component: Option<&str>,
        allow_active: bool,
    ) -> Result<(InstalledPack, bool), PackError> {
        let installed = self.installed();
        let position =
            select_removal(&installed, "example/model", version, component, allow_active)?;
        let target = installed[position].clone();
        let changed = retire(&mut self.state, "example/model", &target);
        self.components.retain(|(name, _)| *name != target.component);
        validate_state(&self.state).unwrap();
        Ok((target, changed))
    }

    fn track(&self) -> PackTrack {
        self.state.track("example/model").unwrap().copy()
    }
}

#[test]
fn install_names_versioned() {
    let first = install_component("facebook/PE-Core-L14-336", "2026-08-26");
    let second = install_component("facebook/PE-Core-L14-336", "2026-08-27");
    assert!(first.starts_with("facebook-pe-core-l14-336-2026-08-26-"));
    assert_ne!(first, second);
    assert!(first.chars().all(|character| character.is_ascii_lowercase()
        || character.is_ascii_digit()
        || character == '-'));
    assert!(first.ends_with("-7189c32ecba4038c"));
}

#[test]
fn nameless_packs_have_a_component() {
    assert_eq!(install_component("", ""), "model-0a99c907b6f64763");
    assert_eq!(install_component("///", "..."), "model-f1ddb2e44c7998ce");
    assert_eq!(install_component(&"a".repeat(100), "1").len(), 72 + 17);
}

#[test]
fn taken_components_get_revisions() {
    let base = install_component("a", "1");
    assert_eq!(available_component(&Vec::new(), "a", "1").unwrap(), base);
    let taken = vec![base.clone(), format!("{base}-r1")];
    assert_eq!(available_component(&taken, "a", "1").unwrap(), format!("{base}-r2"));
    let mut full = vec![base.clone()];
    full.extend((1..=10_000).map(|revision| format!("{base}-r{revision}")));
    assert_eq!(
        available_component(&full, "a", "1").unwrap_err().chain(),
        "cannot allocate a model-pack revision component"
    );
}

#[test]
fn update_replace_and_rollback_retain_prior_components() {
    let mut models = Models::new();
    let first = models.activate(&candidate("1", "first"), ImportMode::Install).unwrap();
    assert_eq!(first.operation.name(), "install");
    assert!(first.previous.is_none());

    let update = models.activate(&candidate("2", "second"), ImportMode::Update).unwrap();
    assert_eq!(update.operation.name(), "update");
    assert_eq!(update.active.version, "2");
    assert_eq!(update.previous.unwrap().version, "1");

    let installed = models.installed();
    let track = rollback(&mut models.state, &installed, "example/model").unwrap();
    let report = rollback_report("example/model", track);
    assert_eq!(report.active.version, "1");
    assert_eq!(report.previous.version, "2");

    let replacement = models.activate(&candidate("1", "rebuilt"), ImportMode::Replace).unwrap();
    assert_eq!(replacement.operation.name(), "replace");
    assert_eq!(replacement.active.version, "1");
    assert_ne!(replacement.active.component, replacement.previous.unwrap().component);

    let installed = models.installed();
    assert_eq!(installed.len(), 3);
    assert_eq!(installed.iter().filter(|pack| pack.role == PackRole::Active).count(), 1);
    assert_eq!(installed.iter().filter(|pack| pack.role == PackRole::Previous).count(), 1);
    assert_eq!(installed.iter().filter(|pack| pack.role == PackRole::Inactive).count(), 1);
    assert!(installed.iter().all(|pack| pack.healthy));
}

#[test]
fn rolling_back_twice_restores_the_ledger() {
    let mut models = Models::new();
    models.activate(&candidate("1", "first"), ImportMode::Install).unwrap();
    models.activate(&candidate("2", "second"), ImportMode::Update).unwrap();
    let before = models.state.copy();
    let installed = models.installed();
    rollback(&mut models.state, &installed, "example/model").unwrap();
    assert!(!models.state.same_ledger(&before));
    rollback(&mut models.state, &installed, "example/model").unwrap();
    assert!(models.state.same_ledger(&before));
}

#[test]
fn update_and_replace_modes_reject_wrong_version_relationships() {
    let mut models = Models::new();
    let error = models.activate(&candidate("1", "missing"), ImportMode::Update).unwrap_err();
    assert!(error.chain().contains("no active installation"));

    models.activate(&candidate("1", "first"), ImportMode::Install).unwrap();
    let error = models.activate(&candidate("1", "same"), ImportMode::Update).unwrap_err();
    assert!(error.chain().contains("already active"));
    let error = models.activate(&candidate("2", "different"), ImportMode::Replace).unwrap_err();
    assert!(error.chain().contains("does not match active version"));
    assert_eq!(models.components.len(), 1);
}

#[test]
fn untracked_packs_are_adopted_when_they_are_unambiguous() {
    let mut models = Models::new();
    models.components.push((String::from("manual"), candidate("1", "manual")));
    let update = models.activate(&candidate("2", "second"), ImportMode::Update).unwrap();
    let previous = update.previous.unwrap();
    assert_eq!((previous.component.as_str(), previous.installed_by.as_str()), ("manual", "pre-ledger"));

    let mut ambiguous = Models::new();
    ambiguous.components.push((String::from("one"), candidate("1", "one")));
    ambiguous.components.push((String::from("two"), candidate("2", "two")));
    let error = ambiguous.activate(&candidate("3", "third"), ImportMode::Update).unwrap_err();
    assert!(error.chain().contains("multiple untracked installations"));
    assert!(ambiguous.activate(&candidate("3", "third"), ImportMode::Install).is_ok());
}

#[test]
fn failed_state_publication_leaves_new_pack_inactive_and_prior_active() {
    let mut models = Models::new();
    models.activate(&candidate("1", "first"), ImportMode::Install).unwrap();
    let before = models.state.copy();
    models.activate(&candidate("2", "second"), ImportMode::Update).unwrap();
    models.state = before;

    let error = publish_failure("/models/new", "simulated interruption");
    assert!(error.chain().contains("retained inactive"));
    assert_eq!(models.track().active.version, "1");
    let installed = models.installed();
    let orphan = installed.iter().find(|pack| pack.version == "2").unwrap();
    assert_eq!(orphan.role, PackRole::Inactive);
    assert!(orphan.healthy);
}

#[test]
fn post_publication_error_is_committed_even_when_written_by_is_upgraded() {
    let mut models = Models::new();
    models.activate(&candidate("1", "first"), ImportMode::Install).unwrap();
    models.state.written_by = String::from("0.0.0-old");
    let report = models.activate(&candidate("2", "second"), ImportMode::Update).unwrap();

    let saved = stamped(&models.state, &build()).unwrap();

    assert!(saved.same_ledger(&models.state));
    assert_eq!(report.active.version, "2");
    assert_eq!(saved.track("example/model").unwrap().active.version, "2");
    assert_eq!(saved.written_by, "0.1.0");
}

#[test]
fn safe_remove_refuses_active_then_removes_previous_and_orphan() {
    let mut models = Models::new();
    models.activate(&candidate("1", "first"), ImportMode::Install).unwrap();
    models.activate(&candidate("2", "second"), ImportMode::Update).unwrap();
    let active = models.track().active;
    let previous = models.track().previous.unwrap();

    let error = models.remove(None, Some(&active.component), false).unwrap_err();
    assert!(error.chain().contains("refusing to remove active"));

    let (target, changed) = models.remove(None, Some(&previous.component), false).unwrap();
    assert!(changed && remove_report(&target).removed);
    assert!(models.track().previous.is_none());

    models.components.push((String::from("orphan-component"), candidate("3", "orphan")));
    let (target, changed) = models.remove(Some("3"), None, false).unwrap();
    assert_eq!(remove_report(&target).component, "orphan-component");
    assert!(!changed);

    let (_, changed) = models.remove(None, Some(&active.component), true).unwrap();
    assert!(changed);
    assert!(models.state.track("example/model").is_none());
}

#[test]
fn removals_name_one_component() {
    let mut models = Models::new();
    assert!(models.remove(Some("1"), None, false).unwrap_err().chain().contains("no installed"));
    models.components.push((String::from("one"), candidate("1", "one")));
    models.components.push((String::from("two"), candidate("1", "two")));
    let error = models.remove(Some("1"), None, false).unwrap_err();
    assert!(error.chain().contains("multiple components"));
}

#[test]
fn file_digests_make_tampered_previous_pack_unhealthy_and_unrollbackable() {
    let mut models = Models::new();
    models.activate(&candidate("1", "first"), ImportMode::Install).unwrap();
    models.activate(&candidate("2", "second"), ImportMode::Update).unwrap();
    let previous = models.track().previous.unwrap();
    assert!(!previous.files.is_empty());
    models.components[0].1 = candidate("1", "XXXXX");
    assert_eq!(models.components[0].1.bytes, previous.bytes);

    let installed = models.installed();
    let tampered = installed.iter().find(|pack| pack.component == previous.component).unwrap();
    assert!(!tampered.healthy);
    assert!(tampered.issues.iter().any(|issue| issue.code == "pack_integrity_changed"));
    let error = rollback(&mut models.state, &installed, "example/model").unwrap_err();
    assert!(error.chain().contains("invalid"));
}

#[test]
fn rollback_needs_a_previous_pack() {
    let mut models = Models::new();
    let error = rollback(&mut models.state, &Vec::new(), "example/model").unwrap_err();
    assert!(error.chain().contains("has no active installation"));
    models.activate(&candidate("1", "first"), ImportMode::Install).unwrap();
    let installed = models.installed();
    let error = rollback(&mut models.state, &installed, "example/model").unwrap_err();
    assert!(error.chain().contains("has no retained previous version"));
}

#[test]
fn missing_and_broken_components_are_listed() {
    let mut models = Models::new();
    models.activate(&candidate("1", "first"), ImportMode::Install).unwrap();
    let component = models.track().active.component;
    models.components.clear();
    let missing = &models.installed()[0];
    assert_eq!((missing.component.as_str(), missing.role), (component.as_str(), PackRole::Active));
    assert_eq!(missing.issues[0].code, "pack_missing");
    assert_eq!(missing.manifest, format!("/models/{component}/semantic-pack.json"));

    let broken = vec![FoundComponent {
        component: String::from("broken"),
        metadata: Err(String::from("unreadable")),
    }];
    let listed = scan_installed("/models", &PackState::empty(&build()), &broken);
    assert_eq!(listed[0].issues[0].message, "component broken is invalid: unreadable");
    assert!(!listed[0].healthy);

    models.components.push((component, pack("example/model", "9", "other")));
    let codes: Vec<String> =
        models.installed()[0].issues.iter().map(|issue| issue.code.clone()).collect();
    assert_eq!(codes, ["state_manifest_mismatch", "pack_integrity_changed"]);
    assert!(is_component_entry("pack", true, false, true));
    assert!(!is_component_entry(".pack", true, false, true));
    assert!(!is_component_entry("pack", true, true, true));
}

#[test]
fn interrupted_remove_restores_a_still_referenced_component() {
    let mut models = Models::new();
    models.activate(&candidate("1", "first"), ImportMode::Install).unwrap();
    let component = models.track().active.component;
    assert!(work_named(".skwd-model-import-interrupted.tmp"));
    let traces = RemovalTraces {
        original_exists: false,
        original_is_directory: false,
        staged_exists: true,
        staged_is_directory: true,
        staged_is_symlink: false,
    };

    assert!(recover_removal(&models.state, &component, traces).unwrap());
    assert!(!recover_removal(&models.state, "other", traces).unwrap());

    let manifest = active_manifest("/models", &models.state, Some("example/model")).unwrap();
    assert_eq!(manifest, format!("/models/{component}/semantic-pack.json"));
    let both = RemovalTraces { original_exists: true, original_is_directory: true, ..traces };
    assert_eq!(
        recover_removal(&models.state, &component, both).unwrap_err().chain(),
        "interrupted removal has both staged and installed copies"
    );
    let lost = RemovalTraces { staged_exists: false, staged_is_directory: false, ..traces };
    assert_eq!(
        recover_removal(&models.state, &component, lost).unwrap_err().chain(),
        "interrupted removal lost referenced component"
    );
    assert!(check_removed_component(&component).is_ok());
    assert!(check_removed_component("../outside").is_err());
}

#[test]
fn corrupt_state_repair_backs_up_and_adopts_hashed_unambiguous_packs() {
    let mut models = Models::new();
    models.activate(&candidate("1", "first"), ImportMode::Install).unwrap();
    let installed = scan_installed("/models", &PackState::empty(&build()), &models.found());

    let (state, adopted) = reconstruct_state(&installed, None, &build());
    let backup = corrupt_backup_name(10, 0);
    let report = repair_report(String::from("/models"), backup, adopted, installed);

    assert_eq!(report.operation.name(), "repair");
    assert_eq!(report.backup, ".skwd-model-packs-corrupt-10-0.json");
    assert_eq!(report.adopted.len(), 1);
    assert!(report.unresolved.is_empty());
    validate_state(&state).unwrap();
    let active = &state.track("example/model").unwrap().active;
    assert!(!active.files.is_empty());
    assert_eq!(
        active_manifest("/models", &state, None).unwrap(),
        format!("/models/{}/semantic-pack.json", active.component)
    );
}

#[test]
fn repair_leaves_ambiguous_packs_unresolved() {
    let mut models = Models::new();
    models.components.push((String::from("one"), candidate("1", "one")));
    models.components.push((String::from("two"), candidate("2", "two")));
    models.components.push((String::from("other"), pack("other", "1", "other")));
    let installed = models.installed();
    let (state, adopted) = reconstruct_state(&installed, None, &build());
    assert!(state.track("example/model").is_none());
    assert_eq!(adopted.len(), 1);
    let report =
        repair_report(String::from("/models"), String::new(), adopted, models.installed());
    assert_eq!(report.unresolved.len(), 2);
    let (state, adopted) = reconstruct_state(&installed, Some("two"), &build());
    assert_eq!(state.track("example/model").unwrap().active.component, "two");
    let order: Vec<&str> = adopted.iter().map(|reference| reference.id.as_str()).collect();
    assert_eq!(order, ["example/model", "other"]);
    assert!(check_selected(&installed, Some("two")).is_ok());
    assert!(check_selected(&installed, None).is_ok());
    assert!(check_selected(&installed, Some("none"))
        .unwrap_err()
        .chain()
        .contains("selected repair component none"));
}

#[test]
fn corrupt_state_repair_recovers_an_interrupted_retained_pack_removal() {
    let traces = RemovalTraces {
        original_exists: false,
        original_is_directory: false,
        staged_exists: true,
        staged_is_directory: true,
        staged_is_symlink: false,
    };
    assert!(work_named(".skwd-model-import-corrupt-remove.tmp"));
    assert!(recover_removal_for_repair("pack", traces).unwrap());
    let kept = RemovalTraces { original_exists: true, staged_exists: false, ..traces };
    assert!(!recover_removal_for_repair("pack", kept).unwrap());
    for (traces, expected) in [
        (
            RemovalTraces { original_exists: true, ..traces },
            "interrupted removal has both staged and installed copies of pack",
        ),
        (
            RemovalTraces { staged_exists: false, ..traces },
            "interrupted removal lost model-pack component pack",
        ),
        (
            RemovalTraces { staged_is_symlink: true, ..traces },
            "interrupted removal contains an invalid staged component",
        ),
    ] {
        assert_eq!(recover_removal_for_repair("pack", traces).unwrap_err().chain(), expected);
    }
}

#[test]
fn ledgers_without_digests_are_migrated() {
    let mut models = Models::new();
    models.activate(&candidate("1", "first"), ImportMode::Install).unwrap();
    models.activate(&candidate("2", "second"), ImportMode::Update).unwrap();
    assert!(!state_needs_digest_migration(&models.state));
    assert_eq!(repair_plan(Some(&models.state)), RepairPlan::NotNeeded);
    assert_eq!(repair_plan(None), RepairPlan::Reconstruct);
    assert!(repair_not_needed().chain().contains("already valid"));
    let mut track = models.track();
    let complete = track.copy();
    track.active.files.clear();
    models.state.insert(String::from("example/model"), track);
    assert!(state_needs_digest_migration(&models.state));
    assert_eq!(repair_plan(Some(&models.state)), RepairPlan::Migrate);

    let installed = scan_installed("/models", &PackState::empty(&build()), &models.found());
    let (migrated, adopted) = migrate_digest_state(&models.state, &installed).unwrap();
    assert!(migrated.track("example/model").unwrap().same(&complete));
    assert_eq!(adopted.len(), 2);

    let error = migrate_digest_state(&models.state, &Vec::new()).unwrap_err();
    assert!(error.chain().contains("pre-digest ledger component"));
}

#[test]
fn transaction_cleanup_is_scoped_to_known_temporary_names() {
    let action = |name: &str, directory: bool| cleanup_action(name, directory, !directory, false);
    assert_eq!(action(".skwd-model-import-10-1.tmp", true), CleanupAction::RecoverAndRemove);
    assert_eq!(action(".skwd-model-packs-state-10-2.tmp", false), CleanupAction::Remove);
    assert_eq!(action("keep.tmp", false), CleanupAction::Keep);
    assert_eq!(
        cleanup_action(".skwd-model-import-10-1.tmp", false, false, true),
        CleanupAction::Keep
    );

    let names = ["keep.tmp", &state_temp_name(10, 2), &work_directory_name(10, 1)];
    let names: Vec<String> = names.iter().map(|name| (*name).to_owned()).collect();
    assert_eq!(
        stale_names(&names),
        [".skwd-model-import-10-1.tmp", ".skwd-model-packs-state-10-2.tmp"]
    );
}

fn diagnose(models: &Models, loaded: Result<PackState, String>, runtime: &str) -> DoctorReport {
    let (state, issues) = doctor_state(loaded, &build());
    let installed = scan_installed("/models", &state, &models.found());
    let trial = diagnosed(&state, &installed, "example/model")
        .filter(|pack| pack.healthy)
        .map(|_| Err(String::from("no such file")));
    let findings = DoctorFindings {
        stale: vec![String::from("/models/.skwd-model-import-1-1.tmp")],
        runtime: runtime.to_owned(),
        runtime_version: detected_runtime_version(runtime),
        trial,
        index: Err(String::from("no such file")),
    };
    doctor(
        String::from("/models"),
        "example/model",
        &state,
        &installed,
        issues,
        &findings,
        &build(),
    )
}

#[test]
fn doctor_reports_state_runtime_and_index_failures_structurally() {
    let mut models = Models::new();
    models.activate(&candidate("1", "first"), ImportMode::Install).unwrap();
    let mut track = models.track();
    track.active.runtime_version = Some(String::from("1.26.0"));
    models.state.insert(String::from("example/model"), track);

    let report =
        diagnose(&models, Ok(models.state.copy()), "/missing/libonnxruntime.so.1.27.0");

    assert!(!report.ok);
    let codes: Vec<&str> = report.issues.iter().map(|issue| issue.code.as_str()).collect();
    assert_eq!(
        codes,
        ["stale_transaction", "runtime_version_changed", "runtime_incompatible", "index_incompatible"]
    );
    assert_eq!(report.checks[0].subject, "app");
    assert_eq!(report.checks[1].subject, "model");
    assert_eq!(report.checks[2].subject, "runtime");
    assert_eq!(report.checks[3].subject, "index");
    assert_eq!(report.checks[1].required, "example/model@1 (4 dimensions)");
    assert_eq!(
        report.checks[2].required,
        "ONNX Runtime API >= 1.27.x; installed with 1.26.0"
    );
    assert_eq!(report.checks[3].actual, "unreadable: no such file");

    let report = diagnose(&models, Err(String::from("broken")), "/missing/runtime.so");
    assert!(report.issues.iter().any(|issue| issue.code == "state_invalid"));
    assert!(report.issues.iter().any(|issue| issue.code == "active_pack_missing"));
    assert!(!LifecycleReport::Doctor(report).successful());
}

#[test]
fn doctor_is_satisfied_with_a_healthy_pack() {
    let mut models = Models::new();
    models.activate(&candidate("1", "first"), ImportMode::Install).unwrap();
    let findings = DoctorFindings {
        stale: Vec::new(),
        runtime: String::from("/lib/libonnxruntime.so.1.27.0"),
        runtime_version: Some(String::from("1.27.0")),
        trial: Some(Ok(())),
        index: Ok(IndexHeader {
            dimensions: 4,
            model: String::from("example/model@1"),
            fingerprint: 0,
            count: 1,
        }),
    };
    let report = doctor(
        String::from("/models"),
        "example/model",
        &models.state,
        &models.installed(),
        Vec::new(),
        &findings,
        &build(),
    );
    assert!(report.ok && report.issues.is_empty());
    assert_eq!(report.operation, Operation::Doctor);
    assert_eq!(
        report.checks[0].actual,
        "skwd-lens 0.1.0; installed by 0.1.0; pack format 1"
    );
    assert_eq!(report.checks[3].actual, "SKWDSEM3 example/model@1 (4 dimensions)");
    assert!(LifecycleReport::Doctor(report).successful());
}

#[test]
fn runtime_version_comes_only_from_versioned_library_name() {
    assert_eq!(
        detected_runtime_version("/opt/runtime/libonnxruntime.so.1.27.0").as_deref(),
        Some("1.27.0")
    );
    assert!(detected_runtime_version("/opt/runtime/libonnxruntime.so").is_none());
}

#[test]
fn lists_and_statuses_show_what_is_installed() {
    let mut models = Models::new();
    models.components.push((String::from("manual-component"), pack("cli/model", "1", "cli")));
    models.components.push((String::from("another"), pack("another", "1", "cli")));
    let report =
        list(String::from("/models"), &models.state, models.installed(), &build());
    assert_eq!(report.operation.name(), "list");
    assert_eq!(report.packs[1].id, "cli/model");
    assert_eq!(report.packs[1].role, PackRole::Inactive);
    let shown = status(&models.state, models.installed(), "cli/model", &build()).unwrap();
    assert!(shown.active.is_none());
    assert_eq!(shown.installed.len(), 1);
    assert_eq!(shown.installed[0].component, "manual-component");
    let error = status(&models.state, models.installed(), "none", &build()).unwrap_err();
    assert!(error.chain().contains("no installed model pack has id none"));
    assert!(active_manifest("/models", &models.state, None)
        .unwrap_err()
        .chain()
        .contains("requires --pack-id"));
    assert!(active_manifest("/models", &models.state, Some("a"))
        .unwrap_err()
        .chain()
        .contains("has no active installation"));
}

fn reference(id: &str, component: &str) -> PackReference {
    PackReference {
        component: component.to_owned(),
        id: id.to_owned(),
        version: String::from("1"),
        format: 1,
        dimensions: 4,
        bytes: 0,
        files: Vec::new(),
        installed_by: String::from("0.1.0"),
        runtime_api_minor: 27,
        runtime_version: None,
    }
}

fn ledger(entries: Vec<(&str, PackReference, Option<PackReference>)>) -> PackState {
    let entries = entries
        .into_iter()
        .map(|(id, active, previous)| TrackEntry {
            id: id.to_owned(),
            track: PackTrack { active, previous },
        })
        .collect();
    PackState::from_entries(1, String::from("0.1.0"), entries)
}

#[test]
fn missing_components_are_listed_once() {
    let state = ledger(vec![
        ("a", reference("a", "gone"), Some(reference("a", "older"))),
        ("b", reference("b", "gone"), Some(reference("b", "gone"))),
        ("c", reference("b", "gone"), None),
    ]);
    let installed = scan_installed("/models", &state, &Vec::new());
    let listed: Vec<(&str, &str, PackRole)> = installed
        .iter()
        .map(|pack| (pack.component.as_str(), pack.id.as_str(), pack.role))
        .collect();
    assert_eq!(listed, [("older", "a", PackRole::Previous), ("gone", "b", PackRole::Active)]);
}

#[test]
fn ledgers_are_kept_in_order() {
    let state = ledger(vec![
        ("b", reference("b", "one"), None),
        ("a", reference("a", "two"), None),
        ("b", reference("b", "three"), None),
    ]);
    let ids: Vec<&str> = state.packs.iter().map(|entry| entry.id.as_str()).collect();
    assert_eq!(ids, ["a", "b"]);
    assert_eq!(state.track("b").unwrap().active.component, "three");
    let mut shorter = state.copy();
    shorter.remove("a");
    assert!(shorter.track("a").is_none() && shorter.track("b").is_some());
    assert!(!shorter.same_ledger(&state));
}

#[test]
fn ledgers_are_checked() {
    let fault = |state: &PackState| validate_state(state).err().map(|failure| failure.chain());
    let sound = ledger(vec![("a", reference("a", "one"), Some(reference("a", "two")))]);
    assert_eq!(fault(&sound), None);
    let mut format = sound.copy();
    format.format = 2;
    assert_eq!(fault(&format).as_deref(), Some("unsupported model-pack state format"));
    let changed = |change: &dyn Fn(&mut PackReference)| {
        let mut active = reference("a", "one");
        change(&mut active);
        fault(&ledger(vec![("a", active, None)]))
    };
    let digest = |path: &str, sha256: &str| PackFileDigest {
        path: path.to_owned(),
        bytes: 3,
        sha256: sha256.to_owned(),
    };
    let sha256 = "ab".repeat(32);
    for (found, expected) in [
        (changed(&|value| value.id = String::from("b")), "invalid active pack identity"),
        (changed(&|value| value.component = String::from("a/b")), "invalid pack component"),
        (changed(&|value| value.version = String::from(" ")), "empty pack version in state"),
        (changed(&|value| value.format = 0), "invalid pack format in state"),
        (changed(&|value| value.dimensions = 0), "invalid pack dimensions in state"),
        (changed(&|value| value.runtime_api_minor = 0), "invalid runtime API in state"),
        (
            changed(&|value| value.files = vec![digest("../a", &sha256)]),
            "invalid model-pack file digest in state",
        ),
        (
            changed(&|value| value.files = vec![digest("a", &"AB".repeat(32))]),
            "invalid model-pack file digest in state",
        ),
        (
            changed(&|value| value.files = vec![digest("a", &sha256), digest("a", &sha256)]),
            "duplicate model-pack file digest in state",
        ),
        (
            changed(&|value| value.files = vec![digest("a", &sha256)]),
            "model-pack byte total differs from file digests",
        ),
        (
            changed(&|value| {
                let mut large = digest("b", &sha256);
                large.bytes = u64::MAX;
                value.files = vec![digest("a", &sha256), large];
            }),
            "model-pack file sizes overflow in state",
        ),
    ] {
        assert_eq!(found.as_deref(), Some(expected));
    }
    assert_eq!(
        fault(&ledger(vec![("a", reference("a", "one"), Some(reference("b", "two")))])).as_deref(),
        Some("invalid previous pack identity")
    );
    assert_eq!(
        fault(&ledger(vec![("a", reference("a", "one"), Some(reference("a", "one")))])).as_deref(),
        Some("duplicate pack component")
    );
    assert_eq!(
        fault(&ledger(vec![
            ("a", reference("a", "one"), None),
            ("b", reference("b", "one"), None)
        ]))
        .as_deref(),
        Some("duplicate pack component")
    );
    assert_eq!(
        stamped(&format, &build()).unwrap_err().chain(),
        "unsupported model-pack state format"
    );
}

#[test]
fn recorded_files_have_their_digest() {
    let mut audit = TreeAudit::begin();
    audit.enter(EntryKind::File { bytes: 3 }, "b").unwrap();
    audit.record(String::from("b"), 3, b"abc");
    audit.enter(EntryKind::File { bytes: 0 }, "a").unwrap();
    audit.record(String::from("a"), 0, b"");
    let (bytes, files) = audit.finish();
    assert_eq!(bytes, 3);
    assert_eq!(
        files[0].sha256,
        "e3b0c44298fc1c149afbf4c8996fb92427ae41e4649b934ca495991b7852b855"
    );
    assert_eq!(
        files[1].sha256,
        "ba7816bf8f01cfea414140de5dae2223b00361a396177a9cb410ff61f20015ad"
    );
    assert_eq!(files[1].path, "b");
}

#[test]
fn packs_are_limited() {
    let mut audit = TreeAudit::begin();
    assert_eq!(
        audit.enter(EntryKind::Symlink, "/a").unwrap_err().chain(),
        "model pack contains a symbolic link"
    );
    assert_eq!(
        audit.enter(EntryKind::Other, "/a").unwrap_err().chain(),
        "model pack contains an unsupported file: /a"
    );
    audit.enter(EntryKind::File { bytes: MAX_PACK_BYTES }, "/a").unwrap();
    assert_eq!(
        audit.enter(EntryKind::File { bytes: 1 }, "/a").unwrap_err().chain(),
        "model pack expands beyond 16 GiB"
    );
    assert_eq!(
        audit.enter(EntryKind::File { bytes: u64::MAX }, "/a").unwrap_err().chain(),
        "model-pack size overflow"
    );
    audit.entries = MAX_PACK_ENTRIES;
    assert_eq!(
        audit.enter(EntryKind::Directory, "/a").unwrap_err().chain(),
        "model pack has too many entries"
    );
}

#[test]
fn archives_are_checked_by_their_listing() {
    let check = |listing: &[u8]| check_listing(listing.to_vec());
    assert!(check(b"model/\r\nmodel/a.onnx\n\n./b").is_ok());
    assert_eq!(check(b"a\n../b\n").unwrap_err().chain(), "unsafe archive path: ../b");
    assert_eq!(check(b"/etc/passwd").unwrap_err().chain(), "unsafe archive path: /etc/passwd");
    assert_eq!(
        check(&[b'a', 0xff]).unwrap_err().chain(),
        "model-pack archive contains a non-UTF-8 path: invalid utf-8 sequence of 1 bytes from index 1"
    );
    let crowded = "a\n".repeat(MAX_PACK_ENTRIES + 1);
    assert_eq!(
        check(crowded.as_bytes()).unwrap_err().chain(),
        "model pack has too many entries"
    );
    assert_eq!(command_failure("read", " gone \n").chain(), "cannot read: gone");
    assert_eq!(command_failure("read", " \n").chain(), "cannot read");
}

#[test]
fn pack_files_stay_within_the_pack() {
    assert!(check_pack_path("tokenizer", "a/b").is_ok());
    assert_eq!(
        check_pack_path("tokenizer", "../b").unwrap_err().chain(),
        "tokenizer path must stay within the model pack"
    );
    assert!(check_pack_file("tokenizer", true, false, "/pack/a", "/pack").is_ok());
    assert_eq!(
        check_pack_file("tokenizer", true, true, "/pack/a", "/pack").unwrap_err().chain(),
        "tokenizer is not a file"
    );
    assert_eq!(
        check_pack_file("tokenizer", true, false, "/other/a", "/pack").unwrap_err().chain(),
        "tokenizer escapes the model pack"
    );
    assert!(is_manifest_path("/pack/semantic-pack.json") && !is_manifest_path("/pack.tar"));
    assert!(check_source("/models/work", "/pack").is_ok());
    assert!(check_source("/pack/models/work", "/pack").is_err());
    assert!(check_copy(&candidate("1", "a"), &candidate("1", "a")).is_ok());
    assert!(check_copy(&candidate("1", "a"), &candidate("1", "b")).is_err());
    assert_eq!(
        manifest_root(&vec![String::from("/work/pack/semantic-pack.json")]).unwrap(),
        "/work/pack"
    );
    assert!(manifest_root(&Vec::new()).is_err());
}

#[test]
fn sessions_have_what_the_manifest_names() {
    let names = |values: &[&str]| values.iter().map(|value| (*value).to_owned()).collect();
    let mut manifest = manifest("a", "1");
    manifest.text.token_embeddings = Some(TokenEmbeddingModel {
        table: String::from("tokens.bin"),
        input: String::from("embeddings"),
        rows: 1,
        dimensions: 1,
        scale: 0,
        zero_point: 0,
    });
    let outputs: Vec<String> = names(&["image_embedding", "text_embedding"]);
    assert!(check_image_session(&manifest, &names(&["images"]), &outputs).is_ok());
    assert_eq!(
        check_image_session(&manifest, &names(&["pixels"]), &outputs).unwrap_err().chain(),
        "semantic image model has no input named images"
    );
    assert_eq!(
        check_text_session(&manifest, &names(&["tokens"]), &outputs).unwrap_err().chain(),
        "semantic text model has no input named embeddings"
    );
    assert_eq!(
        check_text_session(&manifest, &names(&["tokens", "embeddings"]), &names(&["y"]))
            .unwrap_err()
            .chain(),
        "semantic text model has no output named text_embedding"
    );
    let labels: Vec<String> = named_files(&manifest).into_iter().map(|file| file.label).collect();
    assert_eq!(labels, ["image model", "text model", "tokenizer", "token table"]);
}

#[test]
fn failed_remove_state_publication_restores_files_and_rollback_pointer() {
    let mut models = Models::new();
    models.activate(&candidate("1", "first"), ImportMode::Install).unwrap();
    models.activate(&candidate("2", "second"), ImportMode::Update).unwrap();
    let before = models.state.copy();
    let previous = models.track().previous.unwrap();
    let installed = models.installed();
    let position =
        select_removal(&installed, "example/model", None, Some(&previous.component), false).unwrap();
    let mut next = models.state.copy();
    let publishes = retire(&mut next, "example/model", &installed[position]);

    let mut change = Change::begin(publishes);
    let mut aside = false;
    let mut saved = models.state.copy();
    while !matches!(change.step, ChangeStep::Made | ChangeStep::Undone | ChangeStep::Kept) {
        let succeeded = match change.step {
            ChangeStep::Move => {
                aside = true;
                true
            }
            ChangeStep::Publish => is_published(false, saved.same_ledger(&next)),
            _ => {
                aside = false;
                true
            }
        };
        change.proceed(succeeded);
    }
    assert_eq!(change.step, ChangeStep::Undone);
    assert!(!aside);
    assert!(models.state.same_ledger(&before));

    saved = next.copy();
    let mut change = Change::begin(publishes);
    change.proceed(true);
    change.proceed(is_published(false, saved.same_ledger(&next)));
    assert_eq!(change.step, ChangeStep::Made);
}

#[test]
fn changes_that_cannot_be_undone_keep_their_files() {
    let mut change = Change::begin(true);
    change.proceed(true);
    change.proceed(false);
    change.proceed(false);
    assert_eq!(change.step, ChangeStep::Kept);
    change.proceed(true);
    assert_eq!(change.step, ChangeStep::Kept);
    let mut unpublished = Change::begin(false);
    unpublished.proceed(true);
    assert_eq!(unpublished.step, ChangeStep::Made);
    let mut refused = Change::begin(true);
    refused.proceed(false);
    assert_eq!(refused.step, ChangeStep::Undone);
}

#[test]
fn lifecycle_cli_lists_status_doctors_rolls_back_and_removes() {
    let mut models = Models::new();
    models.components.push((String::from("manual-component"), pack("cli/model", "1", "cli")));

    let listed = list(String::from("/models"), &models.state, models.installed(), &build());
    assert_eq!(listed.operation.name(), "list");
    assert_eq!(listed.packs[0].id, "cli/model");
    assert_eq!(listed.packs[0].role, PackRole::Inactive);

    let shown = status(&models.state, models.installed(), "cli/model", &build()).unwrap();
    assert_eq!(shown.operation.name(), "status");
    assert!(shown.active.is_none());
    assert_eq!(shown.installed[0].component, "manual-component");

    let findings = DoctorFindings {
        stale: Vec::new(),
        runtime: String::from("/definitely/missing/libonnxruntime.so"),
        runtime_version: detected_runtime_version("/definitely/missing/libonnxruntime.so"),
        trial: None,
        index: Err(String::from("No such file or directory (os error 2)")),
    };
    let diagnosis = doctor(
        String::from("/models"),
        "cli/model",
        &models.state,
        &models.installed(),
        Vec::new(),
        &findings,
        &build(),
    );
    assert_eq!(diagnosis.operation.name(), "doctor");
    assert!(!diagnosis.ok);
    assert!(diagnosis
        .issues
        .iter()
        .any(|issue| issue.code == "active_pack_missing" || issue.code == "index_incompatible"));

    let installed = models.installed();
    let error = rollback(&mut models.state, &installed, "cli/model").unwrap_err();
    assert_eq!(failure_report(Operation::Rollback, &error).code, "pack_not_installed");

    let position =
        select_removal(&installed, "cli/model", None, Some("manual-component"), false).unwrap();
    let removed = remove_report(&installed[position]);
    assert_eq!(removed.operation.name(), "remove");
    assert!(removed.removed);
    assert!(!retire(&mut models.state, "cli/model", &installed[position]));
    models.components.clear();

    let error = status(&models.state, models.installed(), "cli/model", &build()).unwrap_err();
    let missing = failure_report(Operation::Status, &error);
    assert_eq!(missing.code, "pack_not_found");
    assert!(!missing.hint.is_empty());
}

#[test]
fn lifecycle_cli_repairs_a_corrupt_ledger_without_manual_edits() {
    let mut models = Models::new();
    models.components.push((String::from("manual-component"), pack("cli/model", "1", "cli")));
    let installed = models.installed();
    let (state, adopted) = reconstruct_state(&installed, None, &build());
    let repaired = repair_report(
        String::from("/models"),
        corrupt_backup_name(1, 0),
        adopted,
        installed,
    );
    assert_eq!(repaired.operation.name(), "repair");
    assert_eq!(repaired.adopted[0].component, "manual-component");
    models.state = state;
    let shown = status(&models.state, models.installed(), "cli/model", &build()).unwrap();
    let active = shown.active.unwrap();
    assert_eq!(active.component, "manual-component");
    assert!(!active.files.is_empty());
}
