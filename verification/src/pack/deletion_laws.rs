//! Which files are deleted with a model.

use vstd::prelude::*;
use vstd::string::*;

use crate::failure::Failure;
use crate::manifest::Manifest;
use crate::names::text_views;
use crate::onnx::{external_files, Message};
use crate::pack::removal::{external_paths, graph_externals, has_path, model_files, removable_files};
use crate::path::{is_same_path, join_path, parent, path_precedes};
use crate::path_laws::{names_something, steps_up};

verus! {

/// Whether one of the paths has the same components as another.
pub open spec fn is_among(paths: Seq<String>, path: Seq<char>) -> bool {
    exists|i: int| 0 <= i < paths.len() && is_same_path((#[trigger] paths[i])@, path)
}

proof fn lemma_is_among(paths: Seq<String>, path: Seq<char>)
    ensures
        has_path(text_views(paths), path) <==> is_among(paths, path),
{
    let views = text_views(paths);
    if has_path(views, path) {
        let i = choose|i: int| 0 <= i < views.len() && is_same_path(#[trigger] views[i], path);
        assert(paths[i]@ == views[i]);
    }
    if is_among(paths, path) {
        let i = choose|i: int| 0 <= i < paths.len() && is_same_path((#[trigger] paths[i])@, path);
        assert(views[i] == paths[i]@);
    }
}

/// A model is deleted with its manifest and with those of its own files that no other model shares. A file
/// that another model shares stays, and so does every file that is not the model's own. No file is deleted
/// twice.
pub proof fn law_shared_files_stay(
    own: &Vec<String>,
    shared: &Vec<String>,
    manifest: &str,
    files: Vec<String>,
    path: Seq<char>,
)
    requires
        call_ensures(removable_files, (own, shared, manifest), files),
    ensures
        is_among(files@, manifest@),
        is_among(own@, path) && !is_among(shared@, path) ==> is_among(files@, path),
        is_among(files@, path) && !is_same_path(manifest@, path) ==> is_among(own@, path)
            && !is_among(shared@, path),
        forall|i: int, j: int|
            0 <= i < j < files@.len() ==> !is_same_path(
                (#[trigger] files@[i])@,
                (#[trigger] files@[j])@,
            ),
{
    lemma_is_among(own@, path);
    lemma_is_among(shared@, path);
    lemma_is_among(files@, path);
    lemma_is_among(files@, manifest@);
    let views = text_views(files@);
    assert(has_path(views, path) <==> crate::pack::removal::is_removable(
        text_views(own@),
        text_views(shared@),
        manifest@,
        path,
    ));
    assert(has_path(views, manifest@) <==> crate::pack::removal::is_removable(
        text_views(own@),
        text_views(shared@),
        manifest@,
        manifest@,
    ));
    assert forall|i: int, j: int| 0 <= i < j < files@.len() implies !is_same_path(
        (#[trigger] files@[i])@,
        (#[trigger] files@[j])@,
    ) by {
        assert(views[i] == files@[i]@ && views[j] == files@[j]@);
        assert(path_precedes(views[i], views[j]));
        crate::path::law_path_order(views[i], views[j], views[i]);
    }
}

/// Whether a path is one of those given.
pub open spec fn is_one_of(paths: Seq<String>, path: Seq<char>) -> bool {
    exists|i: int| 0 <= i < paths.len() && (#[trigger] paths[i])@ == path
}

/// The files of a model are both its graphs, its tokenizer, and its token table and text projection where
/// it has them, and no others.
pub proof fn law_model_files_are_complete(manifest: &Manifest, paths: Vec<String>)
    requires
        call_ensures(model_files, (manifest,), paths),
    ensures
        is_one_of(paths@, manifest.image.model@),
        is_one_of(paths@, manifest.text.model@),
        is_one_of(paths@, manifest.text.tokenizer@),
        manifest.text.token_embeddings matches Some(table) ==> is_one_of(paths@, table.table@),
        manifest.text.projection matches Some(projection) ==> is_one_of(paths@, projection.path@),
        paths@.len() == 3 + (if manifest.text.token_embeddings is Some {
            1int
        } else {
            0
        }) + (if manifest.text.projection is Some {
            1int
        } else {
            0
        }),
{
    let views = text_views(paths@);
    assert(views.len() == paths@.len());
    assert(paths@[0]@ == views[0]);
    assert(paths@[1]@ == views[1]);
    assert(paths@[2]@ == views[2]);
    if manifest.text.token_embeddings is Some {
        assert(paths@[3]@ == views[3]);
    }
    if manifest.text.projection is Some {
        let last = paths@.len() - 1;
        assert(paths@[last]@ == views[last]);
    }
}

proof fn lemma_external_paths(graph: Seq<char>, files: Seq<Seq<char>>)
    ensures
        external_paths(graph, files) is Ok <==> forall|i: int|
            0 <= i < files.len() ==> crate::path::is_safe_relative(#[trigger] files[i]),
        external_paths(graph, files) matches Ok(paths) ==> paths.len() == files.len() && forall|
            i: int,
        |
            0 <= i < files.len() ==> #[trigger] paths[i] == crate::path::joined_path(
                crate::pack::removal::graph_directory(graph),
                files[i],
            ),
    decreases files.len(),
{
    if files.len() > 0 {
        let rest = files.drop_last();
        lemma_external_paths(graph, rest);
        assert forall|i: int| 0 <= i < rest.len() implies #[trigger] rest[i] == files[i] by {
        }
        assert(files.last() == files[files.len() - 1]);
        if external_paths(graph, files) is Ok {
            assert forall|i: int| 0 <= i < files.len() implies crate::path::is_safe_relative(
                #[trigger] files[i],
            ) by {
                if i < rest.len() {
                    assert(rest[i] == files[i]);
                }
            }
            let paths = external_paths(graph, files)->Ok_0;
            let earlier = external_paths(graph, rest)->Ok_0;
            assert forall|i: int| 0 <= i < files.len() implies #[trigger] paths[i]
                == crate::path::joined_path(
                crate::pack::removal::graph_directory(graph),
                files[i],
            ) by {
                if i < rest.len() {
                    assert(paths[i] == earlier[i]);
                    assert(rest[i] == files[i]);
                }
            }
        }
    }
}

/// The tensors of a graph are looked for beside the graph, each where the graph names it. They are
/// refused if and only if one of them would be outside the model, or the graph cannot be read.
pub proof fn law_tensors_stand_beside_their_graph(
    graph: &str,
    data: &[u8],
    paths: Result<Vec<String>, Failure>,
    files: Result<Vec<String>, Failure>,
    directory: Option<String>,
    beside: &str,
    file: &str,
    joined: String,
    i: int,
)
    requires
        call_ensures(graph_externals, (graph, data), paths),
        call_ensures(external_files, (data, Message::Model, 0usize), files),
        call_ensures(parent, (graph,), directory),
        beside@ == (match directory {
            Some(directory) => directory@,
            None => Seq::empty(),
        }),
        files is Ok && 0 <= i < files->Ok_0@.len() ==> file@ == files->Ok_0@[i]@,
        call_ensures(join_path, (beside, file), joined),
    ensures
        paths is Ok <==> files is Ok && forall|k: int|
            0 <= k < files->Ok_0@.len() ==> {
                let text = (#[trigger] files->Ok_0@[k])@;
                !(text.len() > 0 && text[0] == '/') && !steps_up(text) && names_something(text)
            },
        paths matches Ok(paths) ==> paths@.len() == files->Ok_0@.len() && (0 <= i < paths@.len()
            ==> paths@[i]@ == joined@),
{
    if let Ok(found) = files {
        let views = text_views(found@);
        lemma_external_paths(graph@, views);
        assert forall|k: int| 0 <= k < found@.len() implies {
            let text = (#[trigger] found@[k])@;
            (!(text.len() > 0 && text[0] == '/') && !steps_up(text) && names_something(text))
                == crate::path::is_safe_relative(views[k])
        } by {
            crate::path_laws::lemma_safe_relative(found@[k]@);
            assert(views[k] == found@[k]@);
        }
        if paths is Err {
            let k = choose|k: int|
                0 <= k < views.len() && !crate::path::is_safe_relative(#[trigger] views[k]);
            assert(views[k] == found@[k]@);
            crate::path_laws::lemma_safe_relative(found@[k]@);
        }
        if let Ok(given) = paths {
            let shown = text_views(given@);
            assert(shown.len() == given@.len());
            if 0 <= i < given@.len() {
                assert(shown[i] == given@[i]@);
                assert(views[i] == found@[i]@);
            }
        }
    }
}

} // verus!
