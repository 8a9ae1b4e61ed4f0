//! What a model pack may contain, and how its contents are recorded.

use vstd::prelude::*;
use vstd::seq_lib::*;

use vstd::string::*;
use vstd::utf8::*;

use crate::failure::{caused_failure, plain_failure, Failure, FailureView};
use crate::lines::{filled_lines, split_lines};
use crate::manifest::Manifest;
use crate::names::{contains_text, text_views};
use crate::pack::records::{
    file_views, same_metadata, FileView, MetadataView, PackFileDigest, PackMetadata,
};
use crate::pack::validation::{is_hex_digit, is_safe_file};
use crate::path::{
    file_name, is_safe_archive_path, is_safe_relative, is_within, parent, path_file_name,
    path_parent, safe_archive_path, safe_relative, within,
};
use crate::sort::{is_sorted, lemma_same_images, sort, Ordered};
use crate::text;
use crate::text::{hex_bytes_text, precedes};

verus! {

/// The most entries that a model pack may have.
pub const MAX_PACK_ENTRIES: usize = 100_000;

/// The most bytes that the files of a model pack may have together.
pub const MAX_PACK_BYTES: u64 = 17_179_869_184;

/// The SHA-256 digest of bytes.
pub uninterp spec fn sha256(contents: Seq<u8>) -> Seq<u8>;

/// `sha2::Sha256::digest`: the SHA-256 digest of bytes, which is only named; it has 32 bytes.
#[verifier::external_body]
fn digest(contents: &[u8]) -> (bytes: Vec<u8>)
    ensures
        bytes@ == sha256(contents@),
        bytes@.len() == 32,
{
    <sha2::Sha256 as sha2::Digest>::digest(contents).to_vec()
}

/// A file of a model pack, as it is recorded.
pub open spec fn recorded_file(path: Seq<char>, bytes: u64, contents: Seq<u8>) -> FileView {
    FileView { path, bytes, sha256: hex_bytes_text(sha256(contents)) }
}

/// What an entry of a model pack is.
#[derive(Debug, Clone, Copy, PartialEq, Eq, Structural)]
pub enum EntryKind {
    Directory,
    File { bytes: u64 },
    Symlink,
    Other,
}

/// A walk over the entries of a model pack.
#[derive(Debug, Clone)]
pub struct TreeAudit {
    pub entries: usize,
    pub bytes: u64,
    pub files: Vec<PackFileDigest>,
}

/// The value of a [`TreeAudit`].
pub struct AuditView {
    pub entries: nat,
    pub bytes: nat,
    pub files: Seq<FileView>,
}

impl View for TreeAudit {
    type V = AuditView;

    open spec fn view(&self) -> AuditView {
        AuditView {
            entries: self.entries as nat,
            bytes: self.bytes as nat,
            files: file_views(self.files@),
        }
    }
}

/// A walk after one more entry, or why the pack is refused.
pub open spec fn audited(audit: AuditView, kind: EntryKind, path: Seq<char>) -> Result<
    AuditView,
    FailureView,
> {
    let counted = AuditView { entries: audit.entries + 1, ..audit };
    if audit.entries + 1 > MAX_PACK_ENTRIES {
        Err(plain_failure("model pack has too many entries"@))
    } else {
        match kind {
            EntryKind::Symlink => Err(plain_failure("model pack contains a symbolic link"@)),
            EntryKind::Directory => Ok(counted),
            EntryKind::File { bytes } => if audit.bytes + bytes > u64::MAX {
                Err(plain_failure("model-pack size overflow"@))
            } else if audit.bytes + bytes > MAX_PACK_BYTES {
                Err(plain_failure("model pack expands beyond 16 GiB"@))
            } else {
                Ok(AuditView { bytes: audit.bytes + bytes as nat, ..counted })
            },
            EntryKind::Other => Err(
                plain_failure("model pack contains an unsupported file: "@ + path),
            ),
        }
    }
}

impl Ordered for PackFileDigest {
    open spec fn is_before(self, other: Self) -> bool {
        precedes(self@.path, other@.path)
    }

    proof fn before_is_asymmetric(self, other: Self) {
        text::law_order_irreflexive(self@.path);
        if precedes(self@.path, other@.path) && precedes(other@.path, self@.path) {
            text::law_order_transitive(self@.path, other@.path, self@.path);
        }
    }

    proof fn level_is_transitive(self, middle: Self, other: Self) {
        text::law_order_total(other@.path, middle@.path);
        text::law_order_total(middle@.path, self@.path);
        if precedes(other@.path, self@.path) {
            if middle@.path != other@.path {
                text::law_order_transitive(middle@.path, other@.path, self@.path);
            }
        }
    }

    fn before(&self, other: &Self) -> (before: bool) {
        text::before(self.path.as_str(), other.path.as_str())
    }
}

impl TreeAudit {
    /// Starts a walk.
    pub fn begin() -> (audit: TreeAudit)
        ensures
            audit@ == (AuditView { entries: 0, bytes: 0, files: Seq::empty() }),
    {
        let audit = TreeAudit { entries: 0, bytes: 0, files: Vec::new() };
        assert(audit@.files =~= Seq::<FileView>::empty());
        audit
    }

    /// Counts an entry. On failure the walk is as it was.
    pub fn enter(&mut self, kind: EntryKind, path: &str) -> (result: Result<(), Failure>)
        ensures
            match (result, audited(old(self)@, kind, path@)) {
                (Ok(_), Ok(expected)) => final(self)@ == expected,
                (Err(failure), Err(expected)) => failure@ == expected && final(self)@ == old(self)@,
                _ => false,
            },
    {
        if self.entries >= MAX_PACK_ENTRIES {
            return Err(Failure::plain("model pack has too many entries"));
        }
        match kind {
            EntryKind::Symlink => {
                return Err(Failure::plain("model pack contains a symbolic link"));
            },
            EntryKind::Directory => {},
            EntryKind::File { bytes } => {
                let total: u64 = match self.bytes.checked_add(bytes) {
                    Some(total) => total,
                    None => return Err(Failure::plain("model-pack size overflow")),
                };
                if total > MAX_PACK_BYTES {
                    return Err(Failure::plain("model pack expands beyond 16 GiB"));
                }
                self.bytes = total;
            },
            EntryKind::Other => {
                let message = text::join("model pack contains an unsupported file: ", path);
                return Err(Failure::plain(message.as_str()));
            },
        }
        self.entries = self.entries + 1;
        Ok(())
    }

    /// Records a file that was counted. What is recorded of a file at a safe path is what a ledger
    /// accepts.
    pub fn record(&mut self, path: String, bytes: u64, contents: &[u8])
        ensures
            final(self)@ == (AuditView {
                files: old(self)@.files.push(recorded_file(path@, bytes, contents@)),
                ..old(self)@
            }),
            is_safe_relative(path@) ==> is_safe_file(recorded_file(path@, bytes, contents@)),
    {
        let ghost before = file_views(self.files@);
        let hashed = digest(contents);
        let sha256 = text::hex_bytes(hashed.as_slice());
        proof {
            if is_safe_relative(path@) {
                lemma_recorded_file_is_safe(path@, bytes, contents@);
            }
        }
        let file = PackFileDigest { path, bytes, sha256 };
        self.files.push(file);
        assert(file_views(self.files@) =~= before.push(file@));
    }

    /// Ends a walk: the bytes of all files, and the files in the order of their paths.
    pub fn finish(self) -> (recorded: (u64, Vec<PackFileDigest>))
        ensures
            recorded.0 == self@.bytes,
            is_sorted(recorded.1@, true),
            file_views(recorded.1@).to_multiset() == self@.files.to_multiset(),
            recorded.1@.len() == self@.files.len(),
    {
        let ghost unsorted = self.files@;
        let files = sort(self.files);
        proof {
            lemma_same_images(files@, unsorted, |file: PackFileDigest| file@);
            assert(file_views(unsorted).len() == unsorted.len());
        }
        (self.bytes, files)
    }
}

proof fn lemma_hex_bytes_text(bytes: Seq<u8>)
    ensures
        hex_bytes_text(bytes).len() == 2 * bytes.len(),
        forall|i: int|
            0 <= i < hex_bytes_text(bytes).len() ==> is_hex_digit(
                #[trigger] hex_bytes_text(bytes)[i],
            ),
    decreases bytes.len(),
{
    if bytes.len() > 0 {
        lemma_hex_bytes_text(bytes.drop_last());
    }
}

proof fn lemma_recorded_file_is_safe(path: Seq<char>, bytes: u64, contents: Seq<u8>)
    requires
        is_safe_relative(path),
        sha256(contents).len() == 32,
    ensures
        is_safe_file(recorded_file(path, bytes, contents)),
{
    lemma_hex_bytes_text(sha256(contents));
}

/// A walk that is not refused stays within the limits.
pub proof fn law_audit_is_bounded(audit: AuditView, kind: EntryKind, path: Seq<char>)
    requires
        audit.bytes <= MAX_PACK_BYTES,
    ensures
        audited(audit, kind, path) matches Ok(next) ==> next.entries <= MAX_PACK_ENTRIES
            && next.bytes <= MAX_PACK_BYTES && next.files == audit.files,
{
}

/// What is wrong with the entries of an archive, after `seen` others.
pub open spec fn listing_fault(entries: Seq<Seq<char>>, seen: nat) -> Option<FailureView>
    decreases entries.len(),
{
    if entries.len() == 0 {
        None
    } else if seen + 1 > MAX_PACK_ENTRIES {
        Some(plain_failure("model pack has too many entries"@))
    } else if !is_safe_archive_path(entries[0]) {
        Some(plain_failure("unsafe archive path: "@ + entries[0]))
    } else {
        listing_fault(entries.drop_first(), seen + 1)
    }
}

/// Checks the entries of an archive from the bytes of its listing.
pub fn check_listing(listing: Vec<u8>) -> (result: Result<(), Failure>)
    ensures
        !valid_utf8(listing@) ==> (result matches Err(failure) && failure@ == caused_failure(
            "model-pack archive contains a non-UTF-8 path"@,
            text::utf8_error_text(listing@),
        )),
        valid_utf8(listing@) ==> match (
            result,
            listing_fault(filled_lines(decode_utf8(listing@)), 0),
        ) {
            (Ok(_), None) => true,
            (Err(failure), Some(fault)) => failure@ == fault,
            _ => false,
        },
{
    let text = match text::decode(listing) {
        Ok(text) => text,
        Err(error) => return Err(
            Failure::caused("model-pack archive contains a non-UTF-8 path", error.as_str()),
        ),
    };
    let lines = split_lines(text.as_str());
    let ghost views = text_views(lines@);
    let mut position: usize = 0;
    assert(views.skip(0) =~= views);
    while position < lines.len()
        invariant
            views == text_views(lines@),
            position <= lines@.len(),
            position <= MAX_PACK_ENTRIES,
            listing_fault(views, 0) == listing_fault(views.skip(position as int), position as nat),
            views == filled_lines(decode_utf8(listing@)),
            valid_utf8(listing@),
        decreases lines@.len() - position,
    {
        let line = &lines[position];
        proof {
            assert(views.skip(position as int)[0] == line@);
            assert(views.skip(position as int).drop_first() =~= views.skip(position + 1));
        }
        if position >= MAX_PACK_ENTRIES {
            return Err(Failure::plain("model pack has too many entries"));
        }
        if !safe_archive_path(line.as_str()) {
            let message = text::join("unsafe archive path: ", line.as_str());
            return Err(Failure::plain(message.as_str()));
        }
        position = position + 1;
    }
    Ok(())
}

/// The failure of a command that was run, from what it printed as its error.
pub fn command_failure(operation: &str, printed: &str) -> (failure: Failure)
    ensures
        failure@ == plain_failure(
            if text::trimmed(printed@).len() == 0 {
                "cannot "@ + operation@
            } else {
                "cannot "@ + operation@ + ": "@ + text::trimmed(printed@)
            },
        ),
{
    let detail = text::trim(printed);
    let named = text::join("cannot ", operation);
    if detail.as_str().is_empty() {
        Failure::plain(named.as_str())
    } else {
        Failure::plain(
            text::join(text::join(named.as_str(), ": ").as_str(), detail.as_str()).as_str(),
        )
    }
}

/// Finds the root of an extracted pack: the directory of its only manifest.
pub fn manifest_root(manifests: &Vec<String>) -> (root: Result<String, Failure>)
    requires
        manifests@.len() == 1 ==> path_parent(manifests@[0]@) is Some,
    ensures
        match root {
            Ok(root) => manifests@.len() == 1 && path_parent(manifests@[0]@) == Some(root@),
            Err(failure) => manifests@.len() != 1 && failure@ == plain_failure(
                "model-pack archive must contain exactly one semantic-pack.json"@,
            ),
        },
{
    if manifests.len() == 1 {
        if let Some(root) = parent(manifests[0].as_str()) {
            return Ok(root);
        }
    }
    Err(Failure::plain("model-pack archive must contain exactly one semantic-pack.json"))
}

/// The failure of a file of a model pack.
pub open spec fn file_failure(label: Seq<char>, problem: Seq<char>) -> FailureView {
    plain_failure(label + problem)
}

/// Checks the path that a manifest gives for a file.
pub fn check_pack_path(label: &str, relative: &str) -> (result: Result<(), Failure>)
    ensures
        match result {
            Ok(_) => is_safe_relative(relative@),
            Err(failure) => !is_safe_relative(relative@) && failure@ == file_failure(
                label@,
                " path must stay within the model pack"@,
            ),
        },
{
    if safe_relative(relative) {
        Ok(())
    } else {
        Err(
            Failure::plain(text::join(label, " path must stay within the model pack").as_str()),
        )
    }
}

/// Checks what stands at the path of a file, and where it leads to.
pub fn check_pack_file(
    label: &str,
    is_file: bool,
    is_symlink: bool,
    resolved: &str,
    root: &str,
) -> (result: Result<(), Failure>)
    ensures
        match result {
            Ok(_) => is_file && !is_symlink && is_within(resolved@, root@),
            Err(failure) => if !is_file || is_symlink {
                failure@ == file_failure(label@, " is not a file"@)
            } else {
                !is_within(resolved@, root@) && failure@ == file_failure(
                    label@,
                    " escapes the model pack"@,
                )
            },
        },
{
    if !is_file || is_symlink {
        return Err(Failure::plain(text::join(label, " is not a file").as_str()));
    }
    if !within(resolved, root) {
        return Err(Failure::plain(text::join(label, " escapes the model pack").as_str()));
    }
    Ok(())
}

/// Whether a pack is imported from its directory, rather than from an archive.
pub fn is_manifest_path(source: &str) -> (manifest: bool)
    ensures
        manifest == (path_file_name(source@) == Some("semantic-pack.json"@)),
{
    match file_name(source) {
        Some(name) => text::same(name.as_str(), "semantic-pack.json"),
        None => false,
    }
}

/// Checks that a pack is not copied into itself.
pub fn check_source(work: &str, root: &str) -> (result: Result<(), Failure>)
    ensures
        match result {
            Ok(_) => !is_within(work@, root@),
            Err(failure) => is_within(work@, root@) && failure@ == plain_failure(
                "model pack cannot contain the install directory"@,
            ),
        },
{
    if within(work, root) {
        Err(Failure::plain("model pack cannot contain the install directory"))
    } else {
        Ok(())
    }
}

/// Checks that a pack is what it was before it was copied.
pub fn check_copy(copied: &PackMetadata, source: &PackMetadata) -> (result: Result<(), Failure>)
    ensures
        match result {
            Ok(_) => copied@ == source@,
            Err(failure) => copied@ != source@ && failure@ == plain_failure(
                "model pack changed while it was copied; retry from an immutable source"@,
            ),
        },
{
    if same_metadata(copied, source) {
        Ok(())
    } else {
        Err(
            Failure::plain(
                "model pack changed while it was copied; retry from an immutable source",
            ),
        )
    }
}

/// A file that a manifest names.
#[derive(Debug, Clone)]
pub struct NamedFile {
    pub path: String,
    pub label: String,
}

/// The files that a manifest names, with what they are.
pub open spec fn manifest_files(manifest: Manifest) -> Seq<(Seq<char>, Seq<char>)> {
    let models = seq![
        (manifest.image.model@, "image model"@),
        (manifest.text.model@, "text model"@),
        (manifest.text.tokenizer@, "tokenizer"@),
    ];
    let tables = match manifest.text.token_embeddings {
        Some(table) => models.push((table.table@, "token table"@)),
        None => models,
    };
    match manifest.text.projection {
        Some(projection) => tables.push((projection.path@, "text projection"@)),
        None => tables,
    }
}

/// The values of named files.
pub open spec fn named_views(files: Seq<NamedFile>) -> Seq<(Seq<char>, Seq<char>)> {
    files.map_values(|file: NamedFile| (file.path@, file.label@))
}

fn push_named(files: &mut Vec<NamedFile>, path: &String, label: &str)
    ensures
        named_views(final(files)@) == named_views(old(files)@).push((path@, label@)),
{
    let ghost before = named_views(files@);
    files.push(NamedFile { path: path.clone(), label: label.to_owned() });
    assert(named_views(files@) =~= before.push((path@, label@)));
}

/// The files that a manifest names, in the order in which they are checked.
pub fn named_files(manifest: &Manifest) -> (files: Vec<NamedFile>)
    ensures
        named_views(files@) == manifest_files(*manifest),
{
    let mut files: Vec<NamedFile> = Vec::new();
    push_named(&mut files, &manifest.image.model, "image model");
    push_named(&mut files, &manifest.text.model, "text model");
    push_named(&mut files, &manifest.text.tokenizer, "tokenizer");
    assert(named_views(files@) =~= seq![
        (manifest.image.model@, "image model"@),
        (manifest.text.model@, "text model"@),
        (manifest.text.tokenizer@, "tokenizer"@),
    ]);
    if let Some(table) = &manifest.text.token_embeddings {
        push_named(&mut files, &table.table, "token table");
    }
    if let Some(projection) = &manifest.text.projection {
        push_named(&mut files, &projection.path, "text projection");
    }
    files
}

/// What was found out about a pack, once its files are recorded.
pub fn pack_metadata(manifest: &Manifest, bytes: u64, files: Vec<PackFileDigest>) -> (metadata:
    PackMetadata)
    ensures
        metadata@ == (MetadataView {
            format: manifest.format,
            id: manifest.id@,
            version: manifest.version@,
            dimensions: manifest.dimensions,
            bytes,
            files: file_views(files@),
        }),
{
    PackMetadata {
        format: manifest.format,
        id: manifest.id.clone(),
        version: manifest.version.clone(),
        dimensions: manifest.dimensions,
        bytes,
        files,
    }
}

/// The failure of a model that lacks an input or an output.
pub open spec fn lacking(model: Seq<char>, direction: Seq<char>, name: Seq<char>) -> FailureView {
    plain_failure("semantic "@ + model + " model has no "@ + direction + " named "@ + name)
}

/// The first of the wanted names that is not among the others.
pub open spec fn first_lacking(wanted: Seq<Seq<char>>, names: Seq<Seq<char>>) -> Option<Seq<char>>
    decreases wanted.len(),
{
    if wanted.len() == 0 {
        None
    } else if names.contains(wanted[0]) {
        first_lacking(wanted.drop_first(), names)
    } else {
        Some(wanted[0])
    }
}

/// What keeps a model from being used with a manifest: the first input that it lacks, or else its
/// output.
pub open spec fn session_fault(
    model: Seq<char>,
    wanted: Seq<Seq<char>>,
    output: Seq<char>,
    inputs: Seq<Seq<char>>,
    outputs: Seq<Seq<char>>,
) -> Option<FailureView> {
    match first_lacking(wanted, inputs) {
        Some(name) => Some(lacking(model, "input"@, name)),
        None => if outputs.contains(output) {
            None
        } else {
            Some(lacking(model, "output"@, output))
        },
    }
}

/// The inputs that a manifest gives to its image model.
pub open spec fn image_inputs(manifest: Manifest) -> Seq<Seq<char>> {
    let pixels = seq![manifest.image.input@];
    let masked = match manifest.image.pixel_attention_mask {
        Some(name) => pixels.push(name@),
        None => pixels,
    };
    match manifest.image.spatial_shapes {
        Some(name) => masked.push(name@),
        None => masked,
    }
}

/// The inputs that a manifest gives to its text model.
pub open spec fn text_inputs(manifest: Manifest) -> Seq<Seq<char>> {
    let tokens = seq![manifest.text.input@];
    let masked = match manifest.text.attention_mask {
        Some(name) => tokens.push(name@),
        None => tokens,
    };
    match manifest.text.token_embeddings {
        Some(table) => masked.push(table.input@),
        None => masked,
    }
}

fn push_name(names: &mut Vec<String>, name: &String)
    ensures
        text_views(final(names)@) == text_views(old(names)@).push(name@),
{
    let ghost before = text_views(names@);
    names.push(name.clone());
    assert(text_views(names@) =~= before.push(name@));
}

fn lack(model: &str, direction: &str, name: &str) -> (failure: Failure)
    ensures
        failure@ == lacking(model@, direction@, name@),
{
    let subject = text::join(text::join("semantic ", model).as_str(), " model has no ");
    let object = text::join(text::join(subject.as_str(), direction).as_str(), " named ");
    Failure::plain(text::join(object.as_str(), name).as_str())
}

fn check_session(
    model: &str,
    wanted: &Vec<String>,
    output: &str,
    inputs: &Vec<String>,
    outputs: &Vec<String>,
) -> (result: Result<(), Failure>)
    ensures
        match (
            result,
            session_fault(
                model@,
                text_views(wanted@),
                output@,
                text_views(inputs@),
                text_views(outputs@),
            ),
        ) {
            (Ok(_), None) => true,
            (Err(failure), Some(fault)) => failure@ == fault,
            _ => false,
        },
{
    let ghost views = text_views(wanted@);
    let ghost names = text_views(inputs@);
    let mut position: usize = 0;
    assert(views.skip(0) =~= views);
    while position < wanted.len()
        invariant
            views == text_views(wanted@),
            names == text_views(inputs@),
            position <= wanted@.len(),
            first_lacking(views, names) == first_lacking(views.skip(position as int), names),
        decreases wanted@.len() - position,
    {
        let name = &wanted[position];
        proof {
            assert(views.skip(position as int)[0] == name@);
            assert(views.skip(position as int).drop_first() =~= views.skip(position + 1));
        }
        if !contains_text(inputs, name.as_str()) {
            return Err(lack(model, "input", name.as_str()));
        }
        position = position + 1;
    }
    if contains_text(outputs, output) {
        Ok(())
    } else {
        Err(lack(model, "output", output))
    }
}

/// Checks that the image model has the inputs and the output that the manifest names.
pub fn check_image_session(manifest: &Manifest, inputs: &Vec<String>, outputs: &Vec<String>) -> (result:
    Result<(), Failure>)
    ensures
        match (
            result,
            session_fault(
                "image"@,
                image_inputs(*manifest),
                manifest.image.output@,
                text_views(inputs@),
                text_views(outputs@),
            ),
        ) {
            (Ok(_), None) => true,
            (Err(failure), Some(fault)) => failure@ == fault,
            _ => false,
        },
{
    let mut wanted: Vec<String> = Vec::new();
    push_name(&mut wanted, &manifest.image.input);
    assert(text_views(wanted@) =~= seq![manifest.image.input@]);
    if let Some(name) = &manifest.image.pixel_attention_mask {
        push_name(&mut wanted, name);
    }
    if let Some(name) = &manifest.image.spatial_shapes {
        push_name(&mut wanted, name);
    }
    check_session("image", &wanted, manifest.image.output.as_str(), inputs, outputs)
}

/// Checks that the text model has the inputs and the output that the manifest names.
pub fn check_text_session(manifest: &Manifest, inputs: &Vec<String>, outputs: &Vec<String>) -> (result:
    Result<(), Failure>)
    ensures
        match (
            result,
            session_fault(
                "text"@,
                text_inputs(*manifest),
                manifest.text.output@,
                text_views(inputs@),
                text_views(outputs@),
            ),
        ) {
            (Ok(_), None) => true,
            (Err(failure), Some(fault)) => failure@ == fault,
            _ => false,
        },
{
    let mut wanted: Vec<String> = Vec::new();
    push_name(&mut wanted, &manifest.text.input);
    assert(text_views(wanted@) =~= seq![manifest.text.input@]);
    if let Some(name) = &manifest.text.attention_mask {
        push_name(&mut wanted, name);
    }
    if let Some(table) = &manifest.text.token_embeddings {
        push_name(&mut wanted, &table.input);
    }
    check_session("text", &wanted, manifest.text.output.as_str(), inputs, outputs)
}

} // verus!
