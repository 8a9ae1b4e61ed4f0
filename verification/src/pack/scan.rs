//! What is installed in a model directory, held against the ledger.

use vstd::prelude::*;
use vstd::seq_lib::*;
use vstd::string::*;

use crate::names::{contains_text, text_views};
use crate::pack::records::{
    copy_files, file_views, same_files, BuildInfo, FileView, MetadataView, PackFileDigest,
    PackMetadata, PackReference, PackTrack, ReferenceView, TrackView,
};
use crate::pack::state::{entry_views, EntryView, PackState};
use crate::path::{join_path, joined_path};
use crate::sort::{is_sorted, lemma_same_images, sort, Ordered};
use crate::text;
use crate::text::{decimal_text, precedes};

verus! {

/// The part that an installed pack plays.
#[derive(Debug, Clone, Copy, PartialEq, Eq, Structural)]
pub enum PackRole {
    Active,
    Previous,
    Inactive,
}

/// How much an issue matters.
#[derive(Debug, Clone, Copy, PartialEq, Eq, Structural)]
pub enum Severity {
    Warning,
    Error,
}

/// Something that is wrong with an installation.
#[derive(Debug, Clone, PartialEq, Eq)]
pub struct PackIssue {
    pub code: String,
    pub severity: Severity,
    pub message: String,
    pub hint: String,
}

/// The value of a [`PackIssue`].
pub struct IssueView {
    pub code: Seq<char>,
    pub severity: Severity,
    pub message: Seq<char>,
    pub hint: Seq<char>,
}

impl View for PackIssue {
    type V = IssueView;

    open spec fn view(&self) -> IssueView {
        IssueView {
            code: self.code@,
            severity: self.severity,
            message: self.message@,
            hint: self.hint@,
        }
    }
}

/// The values of issues.
pub open spec fn issue_views(issues: Seq<PackIssue>) -> Seq<IssueView> {
    issues.map_values(|issue: PackIssue| issue@)
}

/// An issue that keeps a pack from being used.
pub open spec fn error_issue(code: Seq<char>, message: Seq<char>, hint: Seq<char>) -> IssueView {
    IssueView { code, severity: Severity::Error, message, hint }
}

/// An issue that does not.
pub open spec fn warning_issue(code: Seq<char>, message: Seq<char>, hint: Seq<char>) -> IssueView {
    IssueView { code, severity: Severity::Warning, message, hint }
}

impl PackIssue {
    /// An issue that keeps a pack from being used.
    pub fn error(code: &str, message: &str, hint: &str) -> (issue: PackIssue)
        ensures
            issue@ == error_issue(code@, message@, hint@),
    {
        PackIssue {
            code: code.to_owned(),
            severity: Severity::Error,
            message: message.to_owned(),
            hint: hint.to_owned(),
        }
    }

    /// An issue that does not.
    pub fn warning(code: &str, message: &str, hint: &str) -> (issue: PackIssue)
        ensures
            issue@ == warning_issue(code@, message@, hint@),
    {
        PackIssue {
            code: code.to_owned(),
            severity: Severity::Warning,
            message: message.to_owned(),
            hint: hint.to_owned(),
        }
    }

    /// Copies an issue.
    pub fn copy(&self) -> (copy: PackIssue)
        ensures
            copy@ == self@,
    {
        PackIssue {
            code: self.code.clone(),
            severity: self.severity,
            message: self.message.clone(),
            hint: self.hint.clone(),
        }
    }
}

/// Whether one of the issues keeps a pack from being used.
pub open spec fn has_error(issues: Seq<IssueView>) -> bool {
    exists|i: int| 0 <= i < issues.len() && (#[trigger] issues[i]).severity == Severity::Error
}

/// Tells whether one of the issues keeps a pack from being used.
pub fn any_error(issues: &Vec<PackIssue>) -> (found: bool)
    ensures
        found == has_error(issue_views(issues@)),
{
    let ghost views = issue_views(issues@);
    let mut position: usize = 0;
    while position < issues.len()
        invariant
            views == issue_views(issues@),
            position <= issues@.len(),
            forall|i: int|
                0 <= i < position ==> (#[trigger] views[i]).severity != Severity::Error,
        decreases issues@.len() - position,
    {
        assert(views[position as int] == issues@[position as int]@);
        if issues[position].severity == Severity::Error {
            return true;
        }
        position = position + 1;
    }
    false
}

/// A pack that is installed, or that the ledger says is.
#[derive(Debug, Clone, PartialEq, Eq)]
pub struct InstalledPack {
    pub component: String,
    pub id: String,
    pub version: String,
    pub format: u32,
    pub dimensions: usize,
    pub bytes: u64,
    pub files: Vec<PackFileDigest>,
    pub manifest: String,
    pub role: PackRole,
    pub healthy: bool,
    pub issues: Vec<PackIssue>,
}

/// The value of an [`InstalledPack`].
pub struct InstalledView {
    pub component: Seq<char>,
    pub id: Seq<char>,
    pub version: Seq<char>,
    pub format: u32,
    pub dimensions: usize,
    pub bytes: u64,
    pub files: Seq<FileView>,
    pub manifest: Seq<char>,
    pub role: PackRole,
    pub healthy: bool,
    pub issues: Seq<IssueView>,
}

impl View for InstalledPack {
    type V = InstalledView;

    open spec fn view(&self) -> InstalledView {
        InstalledView {
            component: self.component@,
            id: self.id@,
            version: self.version@,
            format: self.format,
            dimensions: self.dimensions,
            bytes: self.bytes,
            files: file_views(self.files@),
            manifest: self.manifest@,
            role: self.role,
            healthy: self.healthy,
            issues: issue_views(self.issues@),
        }
    }
}

/// The values of installed packs.
pub open spec fn installed_views(installed: Seq<InstalledPack>) -> Seq<InstalledView> {
    installed.map_values(|pack: InstalledPack| pack@)
}

/// The reference with which an installed pack enters the ledger that did not record it.
pub open spec fn adopted_reference(pack: InstalledView, build: BuildInfo) -> ReferenceView {
    ReferenceView {
        component: pack.component,
        id: pack.id,
        version: pack.version,
        format: pack.format,
        dimensions: pack.dimensions,
        bytes: pack.bytes,
        files: pack.files,
        installed_by: "pre-ledger"@,
        runtime_api_minor: build.runtime_api_minor,
        runtime_version: None,
    }
}

impl InstalledPack {
    /// The reference with which an installed pack enters the ledger that did not record it.
    pub fn reference(&self, build: &BuildInfo) -> (reference: PackReference)
        ensures
            reference@ == adopted_reference(self@, *build),
    {
        PackReference {
            component: self.component.clone(),
            id: self.id.clone(),
            version: self.version.clone(),
            format: self.format,
            dimensions: self.dimensions,
            bytes: self.bytes,
            files: copy_files(&self.files),
            installed_by: "pre-ledger".to_owned(),
            runtime_api_minor: build.runtime_api_minor,
            runtime_version: None,
        }
    }
}

/// Whether a pack is what the ledger says it is.
pub open spec fn same_identity(expected: ReferenceView, found: MetadataView) -> bool {
    &&& expected.id == found.id
    &&& expected.version == found.version
    &&& expected.format == found.format
    &&& expected.dimensions == found.dimensions
}

/// The issue of a pack that is another one than the ledger says.
pub open spec fn identity_issue(component: Seq<char>) -> IssueView {
    error_issue(
        "state_manifest_mismatch"@,
        "component "@ + component + " does not match its recorded identity"@,
        "install a verified replacement; do not edit installed manifests in place"@,
    )
}

/// The issue of a pack whose files the ledger does not know.
pub open spec fn unrecorded_issue(component: Seq<char>) -> IssueView {
    error_issue(
        "pack_integrity_unrecorded"@,
        "component "@ + component + " has no recorded file digests"@,
        "run the state repair command to adopt and hash the installed component"@,
    )
}

/// The issue of a pack whose files are not those that the ledger knows.
pub open spec fn changed_issue(component: Seq<char>, found: u64, recorded: u64) -> IssueView {
    error_issue(
        "pack_integrity_changed"@,
        "component "@ + component + " no longer matches its recorded SHA-256 file digests ("@
            + decimal_text(found as nat) + " bytes now; "@ + decimal_text(recorded as nat)
            + " recorded)"@,
        "reinstall a verified copy; installed model-pack files must never be edited in place"@,
    )
}

/// The issue of a pack that cannot be read.
pub open spec fn invalid_issue(component: Seq<char>, error: Seq<char>) -> IssueView {
    error_issue(
        "pack_invalid"@,
        "component "@ + component + " is invalid: "@ + error,
        "remove the inactive component or install a verified replacement"@,
    )
}

/// What the ledger has against a pack that can be read.
pub open spec fn found_issues(
    component: Seq<char>,
    expected: Option<ReferenceView>,
    found: MetadataView,
) -> Seq<IssueView> {
    match expected {
        None => Seq::empty(),
        Some(expected) => {
            let identity = if same_identity(expected, found) {
                Seq::empty()
            } else {
                seq![identity_issue(component)]
            };
            if expected.files.len() == 0 {
                identity.push(unrecorded_issue(component))
            } else if expected.files != found.files {
                identity.push(changed_issue(component, found.bytes, expected.bytes))
            } else {
                identity
            }
        },
    }
}

/// An installed component: what was found in it, or why nothing can be.
pub open spec fn scanned_view(
    component: Seq<char>,
    manifest: Seq<char>,
    role: PackRole,
    expected: Option<ReferenceView>,
    found: Result<MetadataView, Seq<char>>,
) -> InstalledView {
    match found {
        Ok(metadata) => InstalledView {
            component,
            id: metadata.id,
            version: metadata.version,
            format: metadata.format,
            dimensions: metadata.dimensions,
            bytes: metadata.bytes,
            files: metadata.files,
            manifest,
            role,
            healthy: !has_error(found_issues(component, expected, metadata)),
            issues: found_issues(component, expected, metadata),
        },
        Err(error) => match expected {
            Some(expected) => InstalledView {
                component,
                id: expected.id,
                version: expected.version,
                format: expected.format,
                dimensions: expected.dimensions,
                bytes: expected.bytes,
                files: expected.files,
                manifest,
                role,
                healthy: false,
                issues: seq![invalid_issue(component, error)],
            },
            None => InstalledView {
                component,
                id: Seq::empty(),
                version: Seq::empty(),
                format: 0,
                dimensions: 0,
                bytes: 0,
                files: Seq::empty(),
                manifest,
                role,
                healthy: false,
                issues: seq![invalid_issue(component, error)],
            },
        },
    }
}

/// The value of what was found in a component.
pub open spec fn found_view(found: Result<PackMetadata, String>) -> Result<MetadataView, Seq<char>> {
    match found {
        Ok(metadata) => Ok(metadata@),
        Err(error) => Err(error@),
    }
}

/// The value of a reference that may be missing.
pub open spec fn expected_view(expected: Option<&PackReference>) -> Option<ReferenceView> {
    match expected {
        Some(expected) => Some(expected@),
        None => None,
    }
}

fn collect_issues(
    component: &str,
    expected: Option<&PackReference>,
    found: &PackMetadata,
) -> (issues: Vec<PackIssue>)
    ensures
        issue_views(issues@) == found_issues(component@, expected_view(expected), found@),
{
    let mut issues: Vec<PackIssue> = Vec::new();
    assert(issue_views(issues@) =~= Seq::<IssueView>::empty());
    if let Some(expected) = expected {
        let named = text::join("component ", component);
        let identical = text::same(expected.id.as_str(), found.id.as_str()) && text::same(
            expected.version.as_str(),
            found.version.as_str(),
        ) && expected.format == found.format && expected.dimensions == found.dimensions;
        if !identical {
            let issue = PackIssue::error(
                "state_manifest_mismatch",
                text::join(named.as_str(), " does not match its recorded identity").as_str(),
                "install a verified replacement; do not edit installed manifests in place",
            );
            issues.push(issue);
            assert(issue_views(issues@) =~= seq![identity_issue(component@)]);
        }
        let ghost before = issue_views(issues@);
        assert(file_views(expected.files@).len() == expected.files@.len());
        if expected.files.len() == 0 {
            let issue = PackIssue::error(
                "pack_integrity_unrecorded",
                text::join(named.as_str(), " has no recorded file digests").as_str(),
                "run the state repair command to adopt and hash the installed component",
            );
            issues.push(issue);
            assert(issue_views(issues@) =~= before.push(issue@));
        } else if !same_files(&expected.files, &found.files) {
            let changed = text::join(
                named.as_str(),
                " no longer matches its recorded SHA-256 file digests (",
            );
            let now = text::join(
                text::join(changed.as_str(), text::decimal(found.bytes).as_str()).as_str(),
                " bytes now; ",
            );
            let message = text::join(
                text::join(now.as_str(), text::decimal(expected.bytes).as_str()).as_str(),
                " recorded)",
            );
            let issue = PackIssue::error(
                "pack_integrity_changed",
                message.as_str(),
                "reinstall a verified copy; installed model-pack files must never be edited in place",
            );
            issues.push(issue);
            assert(issue_views(issues@) =~= before.push(issue@));
        }
    }
    issues
}

/// Describes an installed component: what was found in it, or why nothing can be.
pub fn scanned_pack(
    component: String,
    manifest: String,
    role: PackRole,
    expected: Option<&PackReference>,
    found: Result<PackMetadata, String>,
) -> (pack: InstalledPack)
    ensures
        pack@ == scanned_view(
            component@,
            manifest@,
            role,
            expected_view(expected),
            found_view(found),
        ),
{
    match found {
        Ok(metadata) => {
            let issues = collect_issues(component.as_str(), expected, &metadata);
            let healthy = !any_error(&issues);
            InstalledPack {
                component,
                id: metadata.id,
                version: metadata.version,
                format: metadata.format,
                dimensions: metadata.dimensions,
                bytes: metadata.bytes,
                files: metadata.files,
                manifest,
                role,
                healthy,
                issues,
            }
        },
        Err(error) => {
            let named = text::join(
                text::join("component ", component.as_str()).as_str(),
                " is invalid: ",
            );
            let issue = PackIssue::error(
                "pack_invalid",
                text::join(named.as_str(), error.as_str()).as_str(),
                "remove the inactive component or install a verified replacement",
            );
            let mut issues: Vec<PackIssue> = Vec::new();
            issues.push(issue);
            assert(issue_views(issues@) =~= seq![invalid_issue(component@, error@)]);
            match expected {
                Some(expected) => InstalledPack {
                    component,
                    id: expected.id.clone(),
                    version: expected.version.clone(),
                    format: expected.format,
                    dimensions: expected.dimensions,
                    bytes: expected.bytes,
                    files: copy_files(&expected.files),
                    manifest,
                    role,
                    healthy: false,
                    issues,
                },
                None => {
                    let files: Vec<PackFileDigest> = Vec::new();
                    assert(file_views(files@) =~= Seq::<FileView>::empty());
                    let id = String::new();
                    let version = String::new();
                    assert(id@ =~= Seq::<char>::empty() && version@ =~= Seq::<char>::empty());
                    InstalledPack {
                        component,
                        id,
                        version,
                        format: 0,
                        dimensions: 0,
                        bytes: 0,
                        files,
                        manifest,
                        role,
                        healthy: false,
                        issues,
                    }
                },
            }
        },
    }
}

/// A pack that the ledger refers to, and as what.
pub struct SlotView {
    pub role: PackRole,
    pub reference: ReferenceView,
}

/// The packs of a track.
pub open spec fn track_slots(track: TrackView) -> Seq<SlotView> {
    match track.previous {
        Some(previous) => seq![
            SlotView { role: PackRole::Active, reference: track.active },
            SlotView { role: PackRole::Previous, reference: previous },
        ],
        None => seq![SlotView { role: PackRole::Active, reference: track.active }],
    }
}

/// The packs of a ledger, in its order.
pub open spec fn ledger_slots(packs: Seq<EntryView>) -> Seq<SlotView>
    decreases packs.len(),
{
    if packs.len() == 0 {
        Seq::empty()
    } else {
        ledger_slots(packs.drop_last()) + track_slots(packs.last().track)
    }
}

/// What the ledger says of a component: the last that it says.
pub open spec fn slot_of(slots: Seq<SlotView>, component: Seq<char>) -> Option<SlotView>
    decreases slots.len(),
{
    if slots.len() == 0 {
        None
    } else if slots.last().reference.component == component {
        Some(slots.last())
    } else {
        slot_of(slots.drop_last(), component)
    }
}

/// A borrowed [`SlotView`].
pub struct Slot<'a> {
    pub role: PackRole,
    pub reference: &'a PackReference,
}

impl<'a> View for Slot<'a> {
    type V = SlotView;

    open spec fn view(&self) -> SlotView {
        SlotView { role: self.role, reference: self.reference@ }
    }
}

/// The values of slots.
pub open spec fn slot_views<'a>(slots: Seq<Slot<'a>>) -> Seq<SlotView> {
    slots.map_values(|slot: Slot<'a>| slot@)
}

fn push_track<'a>(slots: &mut Vec<Slot<'a>>, track: &'a PackTrack)
    ensures
        slot_views(final(slots)@) == slot_views(old(slots)@) + track_slots(track@),
{
    let ghost before = slot_views(slots@);
    let active = Slot { role: PackRole::Active, reference: &track.active };
    slots.push(active);
    assert(slot_views(slots@) =~= before.push(active@));
    if let Some(previous) = &track.previous {
        let ghost first = slot_views(slots@);
        let slot = Slot { role: PackRole::Previous, reference: previous };
        slots.push(slot);
        assert(slot_views(slots@) =~= first.push(slot@));
    }
    assert(slot_views(slots@) =~= before + track_slots(track@));
}

fn collect_slots<'a>(state: &'a PackState) -> (slots: Vec<Slot<'a>>)
    ensures
        slot_views(slots@) == ledger_slots(state@.packs),
{
    let ghost views = state@.packs;
    let mut slots: Vec<Slot<'a>> = Vec::new();
    let mut position: usize = 0;
    assert(slot_views(slots@) =~= ledger_slots(views.take(0)));
    while position < state.packs.len()
        invariant
            views == entry_views(state.packs@),
            position <= state.packs@.len(),
            slot_views(slots@) == ledger_slots(views.take(position as int)),
        decreases state.packs@.len() - position,
    {
        let entry = &state.packs[position];
        proof {
            let next = views.take(position + 1);
            assert(next.drop_last() =~= views.take(position as int));
            assert(next.last() == entry@);
        }
        push_track(&mut slots, &entry.track);
        position = position + 1;
    }
    assert(views.take(position as int) =~= views);
    slots
}

fn find_slot<'a>(slots: &Vec<Slot<'a>>, component: &str) -> (found: Option<(PackRole, &'a PackReference)>)
    ensures
        match (found, slot_of(slot_views(slots@), component@)) {
            (Some((role, reference)), Some(slot)) => role == slot.role && reference@
                == slot.reference,
            (None, None) => true,
            _ => false,
        },
{
    let ghost views = slot_views(slots@);
    let mut end: usize = slots.len();
    assert(views.take(end as int) =~= views);
    while end > 0
        invariant
            views == slot_views(slots@),
            end <= slots@.len(),
            slot_of(views, component@) == slot_of(views.take(end as int), component@),
        decreases end,
    {
        let slot = &slots[end - 1];
        proof {
            assert(views.take(end as int).last() == slot@);
            assert(views.take(end as int).drop_last() =~= views.take(end - 1));
        }
        if text::same(slot.reference.component.as_str(), component) {
            return Some((slot.role, slot.reference));
        }
        end = end - 1;
    }
    None
}

/// A component that was found in the model directory, with what was found in it.
#[derive(Debug)]
pub struct FoundComponent {
    pub component: String,
    pub metadata: Result<PackMetadata, String>,
}

/// The value of a [`FoundComponent`].
pub struct FoundView {
    pub component: Seq<char>,
    pub metadata: Result<MetadataView, Seq<char>>,
}

impl View for FoundComponent {
    type V = FoundView;

    open spec fn view(&self) -> FoundView {
        FoundView { component: self.component@, metadata: found_view(self.metadata) }
    }
}

/// The values of found components.
pub open spec fn found_views(found: Seq<FoundComponent>) -> Seq<FoundView> {
    found.map_values(|component: FoundComponent| component@)
}

/// The names of found components.
pub open spec fn found_names(found: Seq<FoundView>) -> Seq<Seq<char>> {
    found.map_values(|component: FoundView| component.component)
}

/// The manifest of a component.
pub open spec fn component_manifest(models_dir: Seq<char>, component: Seq<char>) -> Seq<char> {
    joined_path(joined_path(models_dir, component), "semantic-pack.json"@)
}

/// Where the manifest of a component stands.
pub fn manifest_of(models_dir: &str, component: &str) -> (manifest: String)
    ensures
        manifest@ == component_manifest(models_dir@, component@),
{
    join_path(join_path(models_dir, component).as_str(), "semantic-pack.json")
}

/// A found component, held against the ledger.
pub open spec fn found_pack(
    models_dir: Seq<char>,
    slots: Seq<SlotView>,
    found: FoundView,
) -> InstalledView {
    let slot = slot_of(slots, found.component);
    scanned_view(
        found.component,
        component_manifest(models_dir, found.component),
        match slot {
            Some(slot) => slot.role,
            None => PackRole::Inactive,
        },
        match slot {
            Some(slot) => Some(slot.reference),
            None => None,
        },
        found.metadata,
    )
}

/// A pack that the ledger refers to and that is not there.
pub open spec fn missing_pack(models_dir: Seq<char>, slot: SlotView) -> InstalledView {
    let reference = slot.reference;
    InstalledView {
        component: reference.component,
        id: reference.id,
        version: reference.version,
        format: reference.format,
        dimensions: reference.dimensions,
        bytes: reference.bytes,
        files: reference.files,
        manifest: component_manifest(models_dir, reference.component),
        role: slot.role,
        healthy: false,
        issues: seq![
            error_issue(
                "pack_missing"@,
                reference.id + " pack component "@ + reference.component + " is missing"@,
                "restore the component or install a compatible replacement before rollback"@,
            ),
        ],
    }
}

/// Whether a slot is what the ledger says last of its component.
pub open spec fn is_last_slot(slots: Seq<SlotView>, position: int) -> bool {
    forall|later: int|
        position < later < slots.len() ==> (#[trigger] slots[later]).reference.component
            != slots[position].reference.component
}

/// The packs that the ledger refers to before `end` and that are not among the found ones; what the
/// ledger says last of a component counts.
pub open spec fn missing_packs(
    models_dir: Seq<char>,
    slots: Seq<SlotView>,
    names: Seq<Seq<char>>,
    end: nat,
) -> Seq<InstalledView>
    decreases end,
{
    if end == 0 {
        Seq::empty()
    } else {
        let earlier = missing_packs(models_dir, slots, names, (end - 1) as nat);
        let slot = slots[end - 1];
        if names.contains(slot.reference.component) || !is_last_slot(slots, end - 1) {
            earlier
        } else {
            earlier.push(missing_pack(models_dir, slot))
        }
    }
}

/// All packs that are installed or that the ledger says are.
pub open spec fn all_packs(
    models_dir: Seq<char>,
    packs: Seq<EntryView>,
    found: Seq<FoundView>,
) -> Seq<InstalledView> {
    let slots = ledger_slots(packs);
    found.map_values(|component: FoundView| found_pack(models_dir, slots, component))
        + missing_packs(models_dir, slots, found_names(found), slots.len())
}

/// The order of installed packs: by id, then by version, then by component.
pub open spec fn pack_precedes(left: InstalledView, right: InstalledView) -> bool {
    ||| precedes(left.id, right.id)
    ||| left.id == right.id && precedes(left.version, right.version)
    ||| left.id == right.id && left.version == right.version && precedes(
        left.component,
        right.component,
    )
}

proof fn lemma_text_order(first: Seq<char>, second: Seq<char>, third: Seq<char>)
    ensures
        !(precedes(first, second) && precedes(second, first)),
        precedes(first, third) ==> precedes(first, second) || precedes(second, third),
        precedes(first, second) && precedes(second, third) ==> precedes(first, third),
        !precedes(first, first),
        first == second || precedes(first, second) || precedes(second, first),
        first == third || precedes(first, third) || precedes(third, first),
        second == third || precedes(second, third) || precedes(third, second),
{
    text::law_order_irreflexive(first);
    text::law_order_total(first, second);
    text::law_order_total(first, third);
    text::law_order_total(second, third);
    if precedes(first, second) && precedes(second, first) {
        text::law_order_transitive(first, second, first);
    }
    if precedes(first, second) && precedes(second, third) {
        text::law_order_transitive(first, second, third);
    }
    if precedes(first, third) && !precedes(first, second) && first != second {
        text::law_order_transitive(second, first, third);
    }
}

impl Ordered for InstalledPack {
    open spec fn is_before(self, other: Self) -> bool {
        pack_precedes(self@, other@)
    }

    proof fn before_is_asymmetric(self, other: Self) {
        lemma_text_order(self@.id, other@.id, self@.id);
        lemma_text_order(self@.version, other@.version, self@.version);
        lemma_text_order(self@.component, other@.component, self@.component);
    }

    proof fn level_is_transitive(self, middle: Self, other: Self) {
        lemma_text_order(other@.id, middle@.id, self@.id);
        lemma_text_order(other@.version, middle@.version, self@.version);
        lemma_text_order(other@.component, middle@.component, self@.component);
    }

    fn before(&self, other: &Self) -> (before: bool) {
        if text::before(self.id.as_str(), other.id.as_str()) {
            return true;
        }
        if !text::same(self.id.as_str(), other.id.as_str()) {
            return false;
        }
        if text::before(self.version.as_str(), other.version.as_str()) {
            return true;
        }
        text::same(self.version.as_str(), other.version.as_str()) && text::before(
            self.component.as_str(),
            other.component.as_str(),
        )
    }
}

fn copy_metadata(metadata: &Result<PackMetadata, String>) -> (copy: Result<PackMetadata, String>)
    ensures
        found_view(copy) == found_view(*metadata),
{
    match metadata {
        Ok(metadata) => Ok(
            PackMetadata {
                format: metadata.format,
                id: metadata.id.clone(),
                version: metadata.version.clone(),
                dimensions: metadata.dimensions,
                bytes: metadata.bytes,
                files: copy_files(&metadata.files),
            },
        ),
        Err(error) => Err(error.clone()),
    }
}

fn describe_found<'a>(
    models_dir: &str,
    slots: &Vec<Slot<'a>>,
    found: &FoundComponent,
) -> (pack: InstalledPack)
    ensures
        pack@ == found_pack(models_dir@, slot_views(slots@), found@),
{
    let manifest = manifest_of(models_dir, found.component.as_str());
    let metadata = copy_metadata(&found.metadata);
    match find_slot(slots, found.component.as_str()) {
        Some((role, reference)) => scanned_pack(
            found.component.clone(),
            manifest,
            role,
            Some(reference),
            metadata,
        ),
        None => scanned_pack(
            found.component.clone(),
            manifest,
            PackRole::Inactive,
            None,
            metadata,
        ),
    }
}

fn describe_missing<'a>(models_dir: &str, slot: &Slot<'a>) -> (pack: InstalledPack)
    ensures
        pack@ == missing_pack(models_dir@, slot@),
{
    let reference = slot.reference;
    let named = text::join(
        text::join(reference.id.as_str(), " pack component ").as_str(),
        reference.component.as_str(),
    );
    let issue = PackIssue::error(
        "pack_missing",
        text::join(named.as_str(), " is missing").as_str(),
        "restore the component or install a compatible replacement before rollback",
    );
    let mut issues: Vec<PackIssue> = Vec::new();
    issues.push(issue);
    assert(issue_views(issues@) =~= seq![issue@]);
    InstalledPack {
        component: reference.component.clone(),
        id: reference.id.clone(),
        version: reference.version.clone(),
        format: reference.format,
        dimensions: reference.dimensions,
        bytes: reference.bytes,
        files: copy_files(&reference.files),
        manifest: manifest_of(models_dir, reference.component.as_str()),
        role: slot.role,
        healthy: false,
        issues,
    }
}

fn is_last_word<'a>(slots: &Vec<Slot<'a>>, position: usize) -> (last: bool)
    requires
        position < slots@.len(),
    ensures
        last == is_last_slot(slot_views(slots@), position as int),
{
    let ghost views = slot_views(slots@);
    let component = slots[position].reference.component.as_str();
    assert(views[position as int] == slots@[position as int]@);
    let mut later: usize = slots.len();
    while later > position + 1
        invariant
            views == slot_views(slots@),
            position < slots@.len(),
            component@ == views[position as int].reference.component,
            position < later <= slots@.len(),
            forall|i: int|
                later <= i < slots@.len() ==> (#[trigger] views[i]).reference.component
                    != component@,
        decreases later,
    {
        later = later - 1;
        assert(views[later as int] == slots@[later as int]@);
        if text::same(slots[later].reference.component.as_str(), component) {
            return false;
        }
    }
    true
}

/// Lists the packs of a model directory: those that were found in it, held against the ledger, and
/// those that the ledger refers to and that were not found.
pub fn scan_installed(models_dir: &str, state: &PackState, found: &Vec<FoundComponent>) -> (installed:
    Vec<InstalledPack>)
    ensures
        is_sorted(installed@, true),
        installed_views(installed@).to_multiset() == all_packs(
            models_dir@,
            state@.packs,
            found_views(found@),
        ).to_multiset(),
        installed@.len() == all_packs(models_dir@, state@.packs, found_views(found@)).len(),
{
    let slots = collect_slots(state);
    let ghost ledger = slot_views(slots@);
    let ghost views = found_views(found@);
    let ghost describe = |component: FoundView| found_pack(models_dir@, ledger, component);
    let mut all: Vec<InstalledPack> = Vec::new();
    let mut names: Vec<String> = Vec::new();
    let mut position: usize = 0;
    assert(installed_views(all@) =~= views.take(0).map_values(describe));
    assert(text_views(names@) =~= found_names(views.take(0)));
    while position < found.len()
        invariant
            views == found_views(found@),
            ledger == slot_views(slots@),
            describe == (|component: FoundView| found_pack(models_dir@, ledger, component)),
            position <= found@.len(),
            installed_views(all@) == views.take(position as int).map_values(describe),
            text_views(names@) == found_names(views.take(position as int)),
        decreases found@.len() - position,
    {
        let component = &found[position];
        let ghost before = all@;
        let ghost named = names@;
        all.push(describe_found(models_dir, &slots, component));
        names.push(component.component.clone());
        proof {
            assert(views[position as int] == component@);
            assert(all@.last()@ == describe(component@));
            assert(installed_views(all@) =~= installed_views(before).push(describe(component@)));
            assert(installed_views(all@) =~= views.take(position + 1).map_values(describe));
            assert(text_views(names@) =~= text_views(named).push(component@.component));
            assert(text_views(names@) =~= found_names(views.take(position + 1)));
        }
        position = position + 1;
    }
    assert(views.take(position as int) =~= views);
    let ghost scanned = installed_views(all@);
    position = 0;
    assert(installed_views(all@) =~= scanned + missing_packs(
        models_dir@,
        ledger,
        found_names(views),
        0,
    ));
    while position < slots.len()
        invariant
            ledger == slot_views(slots@),
            position <= slots@.len(),
            text_views(names@) == found_names(views),
            installed_views(all@) == scanned + missing_packs(
                models_dir@,
                ledger,
                found_names(views),
                position as nat,
            ),
        decreases slots@.len() - position,
    {
        let slot = &slots[position];
        assert(ledger[position as int] == slot@);
        let listed = contains_text(&names, slot.reference.component.as_str());
        if !listed && is_last_word(&slots, position) {
            let ghost before = all@;
            all.push(describe_missing(models_dir, slot));
            proof {
                assert(all@.last()@ == missing_pack(models_dir@, slot@));
                assert(installed_views(all@) =~= installed_views(before).push(
                    missing_pack(models_dir@, slot@),
                ));
                assert(installed_views(all@) =~= scanned + missing_packs(
                    models_dir@,
                    ledger,
                    found_names(views),
                    (position + 1) as nat,
                ));
            }
        }
        position = position + 1;
    }
    let ghost unsorted = all@;
    let installed = sort(all);
    proof {
        lemma_same_images(installed@, unsorted, |pack: InstalledPack| pack@);
        assert(installed_views(unsorted).len() == unsorted.len());
        assert(installed_views(unsorted) =~= all_packs(models_dir@, state@.packs, views));
    }
    installed
}

/// Whether an entry of the model directory is listed as a component: a directory with a manifest
/// whose name is not hidden.
pub fn is_component_entry(
    name: &str,
    is_directory: bool,
    is_symlink: bool,
    has_manifest: bool,
) -> (listed: bool)
    ensures
        listed == (!(name@.len() > 0 && name@[0] == '.') && is_directory && !is_symlink
            && has_manifest),
{
    let chars = text::characters(name);
    !(chars.len() > 0 && chars[0] == '.') && is_directory && !is_symlink && has_manifest
}

/// A recorded component is healthy exactly if it can be read, is what the ledger says it is, and has
/// the files that the ledger knows, none of them changed. One that is not recorded is healthy if it
/// can be read.
pub proof fn law_healthy_means_unchanged(
    component: Seq<char>,
    manifest: Seq<char>,
    role: PackRole,
    expected: Option<ReferenceView>,
    found: Result<MetadataView, Seq<char>>,
)
    ensures
        scanned_view(component, manifest, role, expected, found).healthy <==> match (
            found,
            expected,
        ) {
            (Ok(metadata), Some(expected)) => same_identity(expected, metadata)
                && expected.files.len() > 0 && expected.files == metadata.files,
            (Ok(_), None) => true,
            (Err(_), _) => false,
        },
{
    if let (Ok(metadata), Some(reference)) = (found, expected) {
        let issues = found_issues(component, expected, metadata);
        if !same_identity(reference, metadata) {
            assert(issues[0].severity == Severity::Error);
        }
        if reference.files.len() == 0 || reference.files != metadata.files {
            assert(issues[issues.len() - 1].severity == Severity::Error);
        }
    }
}

proof fn lemma_last_slot(slots: Seq<SlotView>, position: int) -> (last: int)
    requires
        0 <= position < slots.len(),
    ensures
        position <= last < slots.len(),
        slots[last].reference.component == slots[position].reference.component,
        is_last_slot(slots, last),
    decreases slots.len(),
{
    let component = slots[position].reference.component;
    if slots.last().reference.component == component {
        slots.len() - 1
    } else {
        let last = lemma_last_slot(slots.drop_last(), position);
        assert forall|later: int| last < later < slots.len() implies (
        #[trigger] slots[later]).reference.component != slots[last].reference.component by {
            if later < slots.len() - 1 {
                assert(slots.drop_last()[later] == slots[later]);
            }
        }
        last
    }
}

proof fn lemma_missing_listed(
    models_dir: Seq<char>,
    slots: Seq<SlotView>,
    names: Seq<Seq<char>>,
    end: nat,
    position: int,
)
    requires
        0 <= position < end <= slots.len(),
        !names.contains(slots[position].reference.component),
        is_last_slot(slots, position),
    ensures
        missing_packs(models_dir, slots, names, end).contains(
            missing_pack(models_dir, slots[position]),
        ),
    decreases end,
{
    let wanted = missing_pack(models_dir, slots[position]);
    let all = missing_packs(models_dir, slots, names, end);
    if position == end - 1 {
        assert(all.last() == wanted);
    } else {
        let earlier = missing_packs(models_dir, slots, names, (end - 1) as nat);
        lemma_missing_listed(models_dir, slots, names, (end - 1) as nat, position);
        let k = choose|k: int| 0 <= k < earlier.len() && earlier[k] == wanted;
        assert(all[k] == wanted);
    }
}

/// Every pack that the ledger refers to is listed, whether it is there or not.
pub proof fn law_recorded_packs_are_listed(
    models_dir: Seq<char>,
    packs: Seq<EntryView>,
    found: Seq<FoundView>,
    position: int,
)
    requires
        0 <= position < ledger_slots(packs).len(),
    ensures
        exists|i: int|
            0 <= i < all_packs(models_dir, packs, found).len() && (#[trigger] all_packs(
                models_dir,
                packs,
                found,
            )[i]).component == ledger_slots(packs)[position].reference.component,
{
    let slots = ledger_slots(packs);
    let component = slots[position].reference.component;
    let names = found_names(found);
    let all = all_packs(models_dir, packs, found);
    if names.contains(component) {
        let k = choose|k: int| 0 <= k < names.len() && names[k] == component;
        assert(all[k].component == component);
    } else {
        let last = lemma_last_slot(slots, position);
        lemma_missing_listed(models_dir, slots, names, slots.len(), last);
        let missing = missing_packs(models_dir, slots, names, slots.len());
        let k = choose|k: int|
            0 <= k < missing.len() && missing[k] == missing_pack(models_dir, slots[last]);
        assert(all[found.len() + k].component == component);
    }
}

proof fn lemma_missing_slot(
    models_dir: Seq<char>,
    slots: Seq<SlotView>,
    names: Seq<Seq<char>>,
    end: nat,
    at: int,
) -> (position: int)
    requires
        end <= slots.len(),
        0 <= at < missing_packs(models_dir, slots, names, end).len(),
    ensures
        0 <= position < end,
        is_last_slot(slots, position),
        missing_packs(models_dir, slots, names, end)[at].component
            == slots[position].reference.component,
    decreases end,
{
    let earlier = missing_packs(models_dir, slots, names, (end - 1) as nat);
    if at < earlier.len() {
        lemma_missing_slot(models_dir, slots, names, (end - 1) as nat, at)
    } else {
        end - 1
    }
}

/// However often the ledger refers to a component that is not there, it is listed once.
pub proof fn law_missing_packs_are_listed_once(
    models_dir: Seq<char>,
    slots: Seq<SlotView>,
    names: Seq<Seq<char>>,
    end: nat,
)
    requires
        end <= slots.len(),
    ensures
        forall|i: int, j: int|
            0 <= i < j < missing_packs(models_dir, slots, names, end).len() ==> (
            #[trigger] missing_packs(models_dir, slots, names, end)[i]).component != (
            #[trigger] missing_packs(models_dir, slots, names, end)[j]).component,
    decreases end,
{
    if end > 0 {
        let all = missing_packs(models_dir, slots, names, end);
        let earlier = missing_packs(models_dir, slots, names, (end - 1) as nat);
        law_missing_packs_are_listed_once(models_dir, slots, names, (end - 1) as nat);
        assert forall|i: int, j: int| 0 <= i < j < all.len() implies (
        #[trigger] all[i]).component != (#[trigger] all[j]).component by {
            if j < earlier.len() {
                assert(all[i] == earlier[i] && all[j] == earlier[j]);
            } else {
                assert(all[i] == earlier[i]);
                let position = lemma_missing_slot(
                    models_dir,
                    slots,
                    names,
                    (end - 1) as nat,
                    i,
                );
                assert(slots[end - 1].reference.component == all[j].component);
            }
        }
    }
}

} // verus!
