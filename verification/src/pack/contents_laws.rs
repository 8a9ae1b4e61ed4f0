//! Which contents a model pack may have.

use vstd::prelude::*;
use vstd::string::*;
use vstd::utf8::*;

use crate::failure::Failure;
use crate::lines::filled_lines;
use crate::manifest::Manifest;
use crate::names::text_views;
use crate::pack::contents::{
    audited, check_copy, check_image_session, check_listing, check_pack_file, check_pack_path,
    check_source, check_text_session, first_lacking, image_inputs, is_manifest_path, listing_fault,
    manifest_root, named_files, named_views, pack_metadata, text_inputs, AuditView, EntryKind,
    NamedFile, TreeAudit,
};
use crate::pack::records::{file_views, PackFileDigest, PackMetadata};
use crate::path::{file_name, parent, within};
use crate::path_laws::{law_safe_paths_stay_below, names_something, steps_up};

verus! {

/// An entry is taken into a pack if and only if there are not yet as many as there may be, and it is a
/// directory, or a file with which the pack has no more than sixteen gibibytes. It is counted once, and
/// a file with its bytes.
pub proof fn law_packs_hold_directories_and_files(
    audit: AuditView,
    kind: EntryKind,
    path: Seq<char>,
)
    ensures
        audited(audit, kind, path) is Ok <==> audit.entries < 100_000 && (kind is Directory || (
        kind matches EntryKind::File { bytes } && audit.bytes + bytes <= 0x4_0000_0000)),
        audited(audit, kind, path) matches Ok(next) ==> {
            &&& next.entries == audit.entries + 1
            &&& next.files == audit.files
            &&& kind is Directory ==> next.bytes == audit.bytes
            &&& kind matches EntryKind::File { bytes } ==> next.bytes == audit.bytes + bytes
        },
{
}

/// The files that were recorded are handed out in the order of their paths: wherever the paths of two
/// files part, the smaller character comes first.
pub proof fn law_recorded_files_are_in_order(
    audit: TreeAudit,
    recorded: (u64, Vec<PackFileDigest>),
    i: int,
    j: int,
    at: int,
)
    requires
        call_ensures(TreeAudit::finish, (audit,), recorded),
        0 <= i < j < recorded.1@.len(),
        0 <= at < recorded.1@[i].path@.len(),
        recorded.1@[i].path@.take(at) == recorded.1@[j].path@.take(at),
        at <= recorded.1@[j].path@.len(),
    ensures
        recorded.0 == audit.bytes,
        recorded.1@.len() == audit.files@.len(),
        at < recorded.1@[j].path@.len(),
        recorded.1@[i].path@[at] <= recorded.1@[j].path@[at],
{
    let first = recorded.1@[i];
    let second = recorded.1@[j];
    assert(crate::sort::may_lead(first, second, true));
    assert forall|k: int| 0 <= k < at implies first.path@[k] == second.path@[k] by {
        assert(first.path@.take(at)[k] == second.path@.take(at)[k]);
    }
    if at >= second.path@.len() {
        assert(crate::text::parts_at(second.path@, first.path@, at));
    } else if first.path@[at] > second.path@[at] {
        assert(crate::text::parts_at(second.path@, first.path@, at));
    }
}

/// Every file that was recorded is handed out.
pub proof fn law_recorded_files_are_kept(
    audit: TreeAudit,
    recorded: (u64, Vec<PackFileDigest>),
    i: int,
)
    requires
        call_ensures(TreeAudit::finish, (audit,), recorded),
        0 <= i < audit.files@.len(),
    ensures
        exists|j: int|
            0 <= j < recorded.1@.len() && (#[trigger] recorded.1@[j])@ == audit.files@[i]@,
{
    let given = file_views(audit.files@);
    let sorted = file_views(recorded.1@);
    given.to_multiset_ensures();
    sorted.to_multiset_ensures();
    assert(given[i] == audit.files@[i]@);
    assert(given.contains(given[i]));
    assert(given.to_multiset().contains(given[i]));
    assert(sorted.contains(given[i]));
    let j = choose|j: int| 0 <= j < sorted.len() && sorted[j] == given[i];
    assert(recorded.1@[j]@ == sorted[j]);
}

/// Whether an entry of an archive stays below the directory that it is extracted to.
pub open spec fn stays_below(path: Seq<char>) -> bool {
    !(path.len() > 0 && path[0] == '/') && !steps_up(path)
}

proof fn lemma_archive_path(path: Seq<char>)
    ensures
        crate::path::is_safe_archive_path(path) == stays_below(path),
{
    crate::path_laws::lemma_safe_archive_path(path);
}

proof fn lemma_listing(entries: Seq<Seq<char>>, seen: nat)
    ensures
        listing_fault(entries, seen) is None <==> (entries.len() == 0 || seen + entries.len()
            <= 100_000) && forall|i: int| 0 <= i < entries.len() ==> stays_below(#[trigger] entries[i]),
    decreases entries.len(),
{
    if entries.len() > 0 {
        let rest = entries.drop_first();
        lemma_listing(rest, seen + 1);
        lemma_archive_path(entries[0]);
        assert forall|i: int| 0 <= i < rest.len() implies #[trigger] rest[i] == entries[i + 1] by {
        }
        if listing_fault(entries, seen) is None {
            assert forall|i: int| 0 <= i < entries.len() implies stays_below(
                #[trigger] entries[i],
            ) by {
                if i > 0 {
                    assert(rest[i - 1] == entries[i]);
                }
            }
        }
        if forall|i: int| 0 <= i < entries.len() ==> stays_below(#[trigger] entries[i]) {
            assert(stays_below(entries[0]));
            assert forall|i: int| 0 <= i < rest.len() implies stays_below(#[trigger] rest[i]) by {
                assert(rest[i] == entries[i + 1]);
            }
        }
    }
}

/// An archive is extracted if and only if its listing is text, has no more entries than a pack may have,
/// and none that would be extracted elsewhere.
pub proof fn law_archives_are_extracted_below(listing: Vec<u8>, result: Result<(), Failure>)
    requires
        call_ensures(check_listing, (listing,), result),
    ensures
        result is Ok <==> {
            let entries = filled_lines(decode_utf8(listing@));
            &&& valid_utf8(listing@)
            &&& entries.len() <= 100_000
            &&& forall|i: int| 0 <= i < entries.len() ==> stays_below(#[trigger] entries[i])
        },
{
    lemma_listing(filled_lines(decode_utf8(listing@)), 0);
}

/// An extracted archive is a pack if and only if it has exactly one manifest; the pack is what stands
/// beside it.
pub proof fn law_packs_have_one_manifest(
    manifests: &Vec<String>,
    root: Result<String, Failure>,
    directory: Option<String>,
    manifest: &str,
)
    requires
        call_ensures(manifest_root, (manifests,), root),
        manifests@.len() == 1 ==> manifest@ == manifests@[0]@ && directory is Some,
        call_ensures(parent, (manifest,), directory),
    ensures
        root is Ok <==> manifests@.len() == 1,
        root matches Ok(root) ==> root@ == directory->Some_0@,
{
}

/// A manifest may name a file if and only if its path stays below the pack and names something.
pub proof fn law_named_paths_stay_below(
    label: &str,
    relative: &str,
    result: Result<(), Failure>,
    safe: bool,
)
    requires
        call_ensures(check_pack_path, (label, relative), result),
        call_ensures(crate::path::safe_relative, (relative,), safe),
    ensures
        result is Ok <==> !(relative@.len() > 0 && relative@[0] == '/') && !steps_up(relative@)
            && names_something(relative@),
{
    law_safe_paths_stay_below(relative, safe);
}

/// A file of a pack is accepted if and only if it is a file, no link, and leads to somewhere in the
/// pack.
pub proof fn law_pack_files_are_files_of_the_pack(
    label: &str,
    is_file: bool,
    is_symlink: bool,
    resolved: &str,
    root: &str,
    result: Result<(), Failure>,
    below: bool,
)
    requires
        call_ensures(check_pack_file, (label, is_file, is_symlink, resolved, root), result),
        call_ensures(within, (resolved, root), below),
    ensures
        result is Ok <==> is_file && !is_symlink && below,
{
}

/// A pack is imported from its directory if and only if what is given is its manifest.
pub proof fn law_manifests_are_named(source: &str, manifest: bool, name: Option<String>)
    requires
        call_ensures(is_manifest_path, (source,), manifest),
        call_ensures(file_name, (source,), name),
    ensures
        manifest <==> (name matches Some(name) && name@ == "semantic-pack.json"@),
{
}

/// A pack is copied if and only if it is not copied into itself, and a copy is taken if and only if it
/// is what the pack was before.
pub proof fn law_copies_are_faithful(
    work: &str,
    root: &str,
    apart: Result<(), Failure>,
    below: bool,
    copied: &PackMetadata,
    source: &PackMetadata,
    taken: Result<(), Failure>,
)
    requires
        call_ensures(check_source, (work, root), apart),
        call_ensures(within, (work, root), below),
        call_ensures(check_copy, (copied, source), taken),
    ensures
        apart is Ok <==> !below,
        taken is Ok <==> {
            &&& copied.format == source.format
            &&& copied.id@ == source.id@
            &&& copied.version@ == source.version@
            &&& copied.dimensions == source.dimensions
            &&& copied.bytes == source.bytes
            &&& copied.files@.len() == source.files@.len()
            &&& forall|i: int|
                0 <= i < copied.files@.len() ==> (#[trigger] copied.files@[i]).path@
                    == source.files@[i].path@ && copied.files@[i].bytes == source.files@[i].bytes
                    && copied.files@[i].sha256@ == source.files@[i].sha256@
        },
{
    let left = file_views(copied.files@);
    let right = file_views(source.files@);
    if copied@ == source@ {
        assert(left == right);
        assert forall|i: int| 0 <= i < copied.files@.len() implies (
        #[trigger] copied.files@[i]).path@ == source.files@[i].path@ && copied.files@[i].bytes
            == source.files@[i].bytes && copied.files@[i].sha256@ == source.files@[i].sha256@ by {
            assert(left[i] == copied.files@[i]@);
            assert(right[i] == source.files@[i]@);
        }
    }
    if copied.files@.len() == source.files@.len() && forall|i: int|
        0 <= i < copied.files@.len() ==> (#[trigger] copied.files@[i]).path@
            == source.files@[i].path@ && copied.files@[i].bytes == source.files@[i].bytes
            && copied.files@[i].sha256@ == source.files@[i].sha256@ {
        assert forall|i: int| 0 <= i < left.len() implies left[i] == right[i] by {
            assert(left[i] == copied.files@[i]@);
            assert(right[i] == source.files@[i]@);
        }
        assert(left =~= right);
    }
}

/// Whether one of the files has a path and is of a sort.
pub open spec fn is_named(files: Seq<NamedFile>, path: Seq<char>, label: Seq<char>) -> bool {
    exists|i: int|
        0 <= i < files.len() && (#[trigger] files[i]).path@ == path && files[i].label@ == label
}

/// The files of a pack that are checked are both its models, its tokenizer, and its token table and text
/// projection where it has them; none is left out, and nothing else is checked.
pub proof fn law_all_files_are_named(manifest: &Manifest, files: Vec<NamedFile>)
    requires
        call_ensures(named_files, (manifest,), files),
    ensures
        is_named(files@, manifest.image.model@, "image model"@),
        is_named(files@, manifest.text.model@, "text model"@),
        is_named(files@, manifest.text.tokenizer@, "tokenizer"@),
        manifest.text.token_embeddings matches Some(table) ==> is_named(
            files@,
            table.table@,
            "token table"@,
        ),
        manifest.text.projection matches Some(projection) ==> is_named(
            files@,
            projection.path@,
            "text projection"@,
        ),
        files@.len() == 3 + (if manifest.text.token_embeddings is Some {
            1int
        } else {
            0
        }) + (if manifest.text.projection is Some {
            1int
        } else {
            0
        }),
{
    let views = named_views(files@);
    assert(views.len() == files@.len());
    assert forall|i: int| 0 <= i < files@.len() implies views[i].0 == (#[trigger] files@[i]).path@
        && views[i].1 == files@[i].label@ by {
    }
    assert(files@[0].path@ == views[0].0);
    assert(files@[1].path@ == views[1].0);
    assert(files@[2].path@ == views[2].0);
    if manifest.text.token_embeddings is Some {
        assert(files@[3].path@ == views[3].0);
    }
    if manifest.text.projection is Some {
        let last = files@.len() - 1;
        assert(files@[last].path@ == views[last].0);
    }
}

/// What is found out about a pack is what its manifest says and the files that were recorded.
pub proof fn law_metadata_is_that_of_the_manifest(
    manifest: &Manifest,
    bytes: u64,
    files: Vec<PackFileDigest>,
    metadata: PackMetadata,
)
    requires
        call_ensures(pack_metadata, (manifest, bytes, files), metadata),
    ensures
        metadata.format == manifest.format,
        metadata.id@ == manifest.id@,
        metadata.version@ == manifest.version@,
        metadata.dimensions == manifest.dimensions,
        metadata.bytes == bytes,
        metadata.files@.len() == files@.len(),
        forall|i: int|
            0 <= i < files@.len() ==> (#[trigger] metadata.files@[i])@ == files@[i]@,
{
    let left = file_views(metadata.files@);
    let right = file_views(files@);
    assert(left == right);
    assert(left.len() == metadata.files@.len());
    assert forall|i: int| 0 <= i < files@.len() implies (#[trigger] metadata.files@[i])@
        == files@[i]@ by {
        assert(left[i] == metadata.files@[i]@);
        assert(right[i] == files@[i]@);
    }
}

/// Whether a name is one of the names that a model has.
pub open spec fn has_name(names: Seq<String>, name: Seq<char>) -> bool {
    exists|i: int| 0 <= i < names.len() && (#[trigger] names[i])@ == name
}

proof fn lemma_has_name(names: Seq<String>, name: Seq<char>)
    ensures
        text_views(names).contains(name) == has_name(names, name),
{
    let views = text_views(names);
    if views.contains(name) {
        let i = choose|i: int| 0 <= i < views.len() && views[i] == name;
        assert(names[i]@ == name);
    }
    if has_name(names, name) {
        let i = choose|i: int| 0 <= i < names.len() && (#[trigger] names[i])@ == name;
        assert(views[i] == name);
    }
}

/// An image model is used if and only if it has every input that the manifest gives to it, and the
/// output that it wants of it.
pub proof fn law_image_models_have_their_inputs(
    manifest: &Manifest,
    inputs: &Vec<String>,
    outputs: &Vec<String>,
    result: Result<(), Failure>,
)
    requires
        call_ensures(check_image_session, (manifest, inputs, outputs), result),
    ensures
        result is Ok <==> {
            &&& has_name(inputs@, manifest.image.input@)
            &&& manifest.image.pixel_attention_mask matches Some(name) ==> has_name(inputs@, name@)
            &&& manifest.image.spatial_shapes matches Some(name) ==> has_name(inputs@, name@)
            &&& has_name(outputs@, manifest.image.output@)
        },
{
    reveal_with_fuel(first_lacking, 4);
    let image = manifest.image;
    let wanted = image_inputs(*manifest);
    lemma_has_name(inputs@, image.input@);
    lemma_has_name(outputs@, image.output@);
    if let Some(name) = image.pixel_attention_mask {
        lemma_has_name(inputs@, name@);
    }
    if let Some(name) = image.spatial_shapes {
        lemma_has_name(inputs@, name@);
    }
    let later = wanted.drop_first();
    assert(wanted.len() > 1 ==> later[0] == wanted[1]);
    assert(wanted.len() > 2 ==> later.drop_first()[0] == wanted[2]);
}

/// A text model is used if and only if it has every input that the manifest gives to it, and the output
/// that it wants of it.
pub proof fn law_text_models_have_their_inputs(
    manifest: &Manifest,
    inputs: &Vec<String>,
    outputs: &Vec<String>,
    result: Result<(), Failure>,
)
    requires
        call_ensures(check_text_session, (manifest, inputs, outputs), result),
    ensures
        result is Ok <==> {
            &&& has_name(inputs@, manifest.text.input@)
            &&& manifest.text.attention_mask matches Some(name) ==> has_name(inputs@, name@)
            &&& manifest.text.token_embeddings matches Some(table) ==> has_name(
                inputs@,
                table.input@,
            )
            &&& has_name(outputs@, manifest.text.output@)
        },
{
    reveal_with_fuel(first_lacking, 4);
    let model = manifest.text;
    let wanted = text_inputs(*manifest);
    lemma_has_name(inputs@, model.input@);
    lemma_has_name(outputs@, model.output@);
    if let Some(name) = model.attention_mask {
        lemma_has_name(inputs@, name@);
    }
    if let Some(table) = model.token_embeddings {
        lemma_has_name(inputs@, table.input@);
    }
    let later = wanted.drop_first();
    assert(wanted.len() > 1 ==> later[0] == wanted[1]);
    assert(wanted.len() > 2 ==> later.drop_first()[0] == wanted[2]);
}

} // verus!
