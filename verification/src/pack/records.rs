//! What is recorded of installed model packs.

use vstd::prelude::*;
use vstd::string::*;

use crate::text;

verus! {

/// A file of a model pack, with its size and its SHA-256 digest in hexadecimal.
#[derive(Debug, Clone, PartialEq, Eq)]
pub struct PackFileDigest {
    pub path: String,
    pub bytes: u64,
    pub sha256: String,
}

/// The value of a [`PackFileDigest`].
pub struct FileView {
    pub path: Seq<char>,
    pub bytes: u64,
    pub sha256: Seq<char>,
}

impl View for PackFileDigest {
    type V = FileView;

    open spec fn view(&self) -> FileView {
        FileView { path: self.path@, bytes: self.bytes, sha256: self.sha256@ }
    }
}

/// The values of files.
pub open spec fn file_views(files: Seq<PackFileDigest>) -> Seq<FileView> {
    files.map_values(|file: PackFileDigest| file@)
}

/// What was found out about a model pack.
#[derive(Debug, Clone, PartialEq, Eq)]
pub struct PackMetadata {
    pub format: u32,
    pub id: String,
    pub version: String,
    pub dimensions: usize,
    pub bytes: u64,
    pub files: Vec<PackFileDigest>,
}

/// The value of [`PackMetadata`].
pub struct MetadataView {
    pub format: u32,
    pub id: Seq<char>,
    pub version: Seq<char>,
    pub dimensions: usize,
    pub bytes: u64,
    pub files: Seq<FileView>,
}

impl View for PackMetadata {
    type V = MetadataView;

    open spec fn view(&self) -> MetadataView {
        MetadataView {
            format: self.format,
            id: self.id@,
            version: self.version@,
            dimensions: self.dimensions,
            bytes: self.bytes,
            files: file_views(self.files@),
        }
    }
}

/// An installed pack, as the ledger records it.
#[derive(Debug, Clone, PartialEq, Eq)]
pub struct PackReference {
    pub component: String,
    pub id: String,
    pub version: String,
    pub format: u32,
    pub dimensions: usize,
    pub bytes: u64,
    pub files: Vec<PackFileDigest>,
    pub installed_by: String,
    pub runtime_api_minor: u32,
    pub runtime_version: Option<String>,
}

/// The value of a [`PackReference`].
pub struct ReferenceView {
    pub component: Seq<char>,
    pub id: Seq<char>,
    pub version: Seq<char>,
    pub format: u32,
    pub dimensions: usize,
    pub bytes: u64,
    pub files: Seq<FileView>,
    pub installed_by: Seq<char>,
    pub runtime_api_minor: u32,
    pub runtime_version: Option<Seq<char>>,
}

impl View for PackReference {
    type V = ReferenceView;

    open spec fn view(&self) -> ReferenceView {
        ReferenceView {
            component: self.component@,
            id: self.id@,
            version: self.version@,
            format: self.format,
            dimensions: self.dimensions,
            bytes: self.bytes,
            files: file_views(self.files@),
            installed_by: self.installed_by@,
            runtime_api_minor: self.runtime_api_minor,
            runtime_version: text::optional(self.runtime_version),
        }
    }
}

/// The values of references.
pub open spec fn reference_views(references: Seq<PackReference>) -> Seq<ReferenceView> {
    references.map_values(|reference: PackReference| reference@)
}

/// The active pack of a model, and the one that was active before.
#[derive(Debug, Clone, PartialEq, Eq)]
pub struct PackTrack {
    pub active: PackReference,
    pub previous: Option<PackReference>,
}

/// The value of a [`PackTrack`].
pub struct TrackView {
    pub active: ReferenceView,
    pub previous: Option<ReferenceView>,
}

/// The value of a reference that may be missing.
pub open spec fn optional_reference(reference: Option<PackReference>) -> Option<ReferenceView> {
    match reference {
        Some(reference) => Some(reference@),
        None => None,
    }
}

impl View for PackTrack {
    type V = TrackView;

    open spec fn view(&self) -> TrackView {
        TrackView { active: self.active@, previous: optional_reference(self.previous) }
    }
}

/// The build of the program that keeps the ledger: its version, and the minor version of the ONNX
/// runtime API that it was made for.
#[derive(Debug, Clone)]
pub struct BuildInfo {
    pub version: String,
    pub runtime_api_minor: u32,
}

/// Copies a list of files.
pub fn copy_files(files: &Vec<PackFileDigest>) -> (copy: Vec<PackFileDigest>)
    ensures
        file_views(copy@) == file_views(files@),
{
    let mut copy: Vec<PackFileDigest> = Vec::new();
    let mut position: usize = 0;
    assert(file_views(copy@) =~= file_views(files@).take(0));
    while position < files.len()
        invariant
            position <= files@.len(),
            file_views(copy@) == file_views(files@).take(position as int),
        decreases files@.len() - position,
    {
        let file = &files[position];
        let ghost before = copy@;
        copy.push(
            PackFileDigest {
                path: file.path.clone(),
                bytes: file.bytes,
                sha256: file.sha256.clone(),
            },
        );
        proof {
            assert(copy@.last()@ == file@);
            assert(file_views(copy@) =~= file_views(before).push(file@));
            assert(file_views(copy@) =~= file_views(files@).take(position + 1));
        }
        position = position + 1;
    }
    assert(file_views(files@).take(position as int) =~= file_views(files@));
    copy
}

fn same_file(left: &PackFileDigest, right: &PackFileDigest) -> (same: bool)
    ensures
        same == (left@ == right@),
{
    text::same(left.path.as_str(), right.path.as_str()) && left.bytes == right.bytes && text::same(
        left.sha256.as_str(),
        right.sha256.as_str(),
    )
}

/// Whether two lists name the same files with the same contents, in the same order.
pub fn same_files(left: &Vec<PackFileDigest>, right: &Vec<PackFileDigest>) -> (same: bool)
    ensures
        same == (file_views(left@) == file_views(right@)),
{
    if left.len() != right.len() {
        assert(file_views(left@).len() != file_views(right@).len());
        return false;
    }
    let mut position: usize = 0;
    while position < left.len()
        invariant
            left@.len() == right@.len(),
            position <= left@.len(),
            forall|i: int| 0 <= i < position ==> left@[i]@ == right@[i]@,
        decreases left@.len() - position,
    {
        if !same_file(&left[position], &right[position]) {
            proof {
                assert(file_views(left@)[position as int] == left@[position as int]@);
                assert(file_views(right@)[position as int] == right@[position as int]@);
            }
            return false;
        }
        position = position + 1;
    }
    assert(file_views(left@) =~= file_views(right@));
    true
}

/// Whether two findings about a model pack are the same.
pub fn same_metadata(left: &PackMetadata, right: &PackMetadata) -> (same: bool)
    ensures
        same == (left@ == right@),
{
    left.format == right.format && text::same(left.id.as_str(), right.id.as_str()) && text::same(
        left.version.as_str(),
        right.version.as_str(),
    ) && left.dimensions == right.dimensions && left.bytes == right.bytes && same_files(
        &left.files,
        &right.files,
    )
}

/// Copies a text that may be missing.
pub fn copy_optional(text: &Option<String>) -> (copy: Option<String>)
    ensures
        text::optional(copy) == text::optional(*text),
{
    match text {
        Some(text) => Some(text.clone()),
        None => None,
    }
}

fn same_optional(left: &Option<String>, right: &Option<String>) -> (same: bool)
    ensures
        same == (text::optional(*left) == text::optional(*right)),
{
    match (left, right) {
        (Some(left), Some(right)) => text::same(left.as_str(), right.as_str()),
        (None, None) => true,
        _ => false,
    }
}

impl PackReference {
    /// Copies a reference.
    pub fn copy(&self) -> (copy: PackReference)
        ensures
            copy@ == self@,
    {
        PackReference {
            component: self.component.clone(),
            id: self.id.clone(),
            version: self.version.clone(),
            format: self.format,
            dimensions: self.dimensions,
            bytes: self.bytes,
            files: copy_files(&self.files),
            installed_by: self.installed_by.clone(),
            runtime_api_minor: self.runtime_api_minor,
            runtime_version: copy_optional(&self.runtime_version),
        }
    }

    /// Whether two references are the same.
    pub fn same(&self, other: &PackReference) -> (same: bool)
        ensures
            same == (self@ == other@),
    {
        text::same(self.component.as_str(), other.component.as_str()) && text::same(
            self.id.as_str(),
            other.id.as_str(),
        ) && text::same(self.version.as_str(), other.version.as_str()) && self.format
            == other.format && self.dimensions == other.dimensions && self.bytes == other.bytes
            && same_files(&self.files, &other.files) && text::same(
            self.installed_by.as_str(),
            other.installed_by.as_str(),
        ) && self.runtime_api_minor == other.runtime_api_minor && same_optional(
            &self.runtime_version,
            &other.runtime_version,
        )
    }

    /// The reference of a pack that is installed as a component.
    pub fn from_metadata(
        component: String,
        metadata: &PackMetadata,
        runtime_version: Option<String>,
        build: &BuildInfo,
    ) -> (reference: PackReference)
        ensures
            reference@ == installed_reference(
                component@,
                metadata@,
                text::optional(runtime_version),
                *build,
            ),
    {
        PackReference {
            component,
            id: metadata.id.clone(),
            version: metadata.version.clone(),
            format: metadata.format,
            dimensions: metadata.dimensions,
            bytes: metadata.bytes,
            files: copy_files(&metadata.files),
            installed_by: build.version.clone(),
            runtime_api_minor: build.runtime_api_minor,
            runtime_version,
        }
    }
}

/// The reference of a pack that is installed as a component.
pub open spec fn installed_reference(
    component: Seq<char>,
    metadata: MetadataView,
    runtime_version: Option<Seq<char>>,
    build: BuildInfo,
) -> ReferenceView {
    ReferenceView {
        component,
        id: metadata.id,
        version: metadata.version,
        format: metadata.format,
        dimensions: metadata.dimensions,
        bytes: metadata.bytes,
        files: metadata.files,
        installed_by: build.version@,
        runtime_api_minor: build.runtime_api_minor,
        runtime_version,
    }
}

impl PackTrack {
    /// Copies a track.
    pub fn copy(&self) -> (copy: PackTrack)
        ensures
            copy@ == self@,
    {
        let previous = match &self.previous {
            Some(previous) => Some(previous.copy()),
            None => None,
        };
        PackTrack { active: self.active.copy(), previous }
    }

    /// Whether two tracks are the same.
    pub fn same(&self, other: &PackTrack) -> (same: bool)
        ensures
            same == (self@ == other@),
    {
        let previous = match (&self.previous, &other.previous) {
            (Some(own), Some(others)) => own.same(others),
            (None, None) => true,
            _ => false,
        };
        previous && self.active.same(&other.active)
    }
}

} // verus!
