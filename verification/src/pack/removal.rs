//! Deleting the files of a model that is not in a ledger.

use vstd::prelude::*;
use vstd::string::*;

use crate::failure::{plain_failure, Failure, FailureView};
use crate::manifest::Manifest;
use crate::names::text_views;
use crate::onnx::{external_files, named_files, Message};
use crate::path::{
    is_safe_relative, is_same_path, join_path, joined_path, law_path_order, parent, path_order,
    path_parent, path_precedes, safe_relative, PathOrder,
};
use crate::text;

verus! {

/// The directory that a graph's external tensors stand in.
pub open spec fn graph_directory(graph: Seq<char>) -> Seq<char> {
    match path_parent(graph) {
        Some(directory) => directory,
        None => Seq::empty(),
    }
}

/// The paths of external tensors, from the files that a graph names; the first that leaves the
/// model decides the failure.
pub open spec fn external_paths(graph: Seq<char>, files: Seq<Seq<char>>) -> Result<
    Seq<Seq<char>>,
    FailureView,
>
    decreases files.len(),
{
    if files.len() == 0 {
        Ok(Seq::empty())
    } else {
        match external_paths(graph, files.drop_last()) {
            Err(failure) => Err(failure),
            Ok(earlier) => if is_safe_relative(files.last()) {
                Ok(earlier.push(joined_path(graph_directory(graph), files.last())))
            } else {
                Err(plain_failure("external tensor path escapes the model"@))
            },
        }
    }
}

proof fn lemma_external_stops(graph: Seq<char>, files: Seq<Seq<char>>, end: int)
    requires
        0 <= end <= files.len(),
        external_paths(graph, files.take(end)) is Err,
    ensures
        external_paths(graph, files) == external_paths(graph, files.take(end)),
    decreases files.len() - end,
{
    if end < files.len() {
        assert(files.take(end + 1).drop_last() =~= files.take(end));
        lemma_external_stops(graph, files, end + 1);
    } else {
        assert(files.take(end) =~= files);
    }
}

/// The paths, within a model, of the external tensors of one of its graphs.
pub fn graph_externals(graph: &str, data: &[u8]) -> (paths: Result<Vec<String>, Failure>)
    ensures
        match named_files(data@, Message::Model, 0) {
            Err(expected) => paths matches Err(failure) && failure@ == expected,
            Ok(files) => match (paths, external_paths(graph@, files)) {
                (Ok(paths), Ok(expected)) => text_views(paths@) == expected,
                (Err(failure), Err(expected)) => failure@ == expected,
                _ => false,
            },
        },
{
    let files = match external_files(data, Message::Model, 0) {
        Ok(files) => files,
        Err(failure) => return Err(failure),
    };
    let directory = match parent(graph) {
        Some(directory) => directory,
        None => String::new(),
    };
    assert(directory@ =~= graph_directory(graph@));
    let ghost views = text_views(files@);
    let mut paths: Vec<String> = Vec::new();
    let mut position: usize = 0;
    assert(views.take(0) =~= Seq::<Seq<char>>::empty());
    assert(text_views(paths@) =~= Seq::<Seq<char>>::empty());
    while position < files.len()
        invariant
            views == text_views(files@),
            directory@ == graph_directory(graph@),
            named_files(data@, Message::Model, 0) == Ok::<Seq<Seq<char>>, FailureView>(views),
            position <= files@.len(),
            external_paths(graph@, views.take(position as int)) == Ok::<
                Seq<Seq<char>>,
                FailureView,
            >(text_views(paths@)),
        decreases files@.len() - position,
    {
        let file = &files[position];
        proof {
            let next = views.take(position + 1);
            assert(next.drop_last() =~= views.take(position as int));
            assert(next.last() == file@);
        }
        if !safe_relative(file.as_str()) {
            proof {
                lemma_external_stops(graph@, views, position + 1);
            }
            return Err(Failure::plain("external tensor path escapes the model"));
        }
        let ghost before = text_views(paths@);
        let path = join_path(directory.as_str(), file.as_str());
        paths.push(path);
        assert(text_views(paths@) =~= before.push(path@));
        position = position + 1;
    }
    assert(views.take(position as int) =~= views);
    Ok(paths)
}

/// The files that a manifest names.
pub open spec fn model_paths(manifest: Manifest) -> Seq<Seq<char>> {
    let models = seq![manifest.image.model@, manifest.text.model@, manifest.text.tokenizer@];
    let tables = match manifest.text.token_embeddings {
        Some(table) => models.push(table.table@),
        None => models,
    };
    match manifest.text.projection {
        Some(projection) => tables.push(projection.path@),
        None => tables,
    }
}

fn push_path(paths: &mut Vec<String>, path: &String)
    ensures
        text_views(final(paths)@) == text_views(old(paths)@).push(path@),
{
    let ghost before = text_views(paths@);
    paths.push(path.clone());
    assert(text_views(paths@) =~= before.push(path@));
}

/// The files that a manifest names, before those that its graphs name.
pub fn model_files(manifest: &Manifest) -> (paths: Vec<String>)
    ensures
        text_views(paths@) == model_paths(*manifest),
{
    let mut paths: Vec<String> = Vec::new();
    push_path(&mut paths, &manifest.image.model);
    push_path(&mut paths, &manifest.text.model);
    push_path(&mut paths, &manifest.text.tokenizer);
    assert(text_views(paths@) =~= seq![
        manifest.image.model@,
        manifest.text.model@,
        manifest.text.tokenizer@,
    ]);
    if let Some(table) = &manifest.text.token_embeddings {
        push_path(&mut paths, &table.table);
    }
    if let Some(projection) = &manifest.text.projection {
        push_path(&mut paths, &projection.path);
    }
    paths
}

/// Whether a path is among others, by its components.
pub open spec fn has_path(paths: Seq<Seq<char>>, path: Seq<char>) -> bool {
    exists|i: int| 0 <= i < paths.len() && is_same_path(#[trigger] paths[i], path)
}

/// Whether paths stand in order, each once.
pub open spec fn is_path_set(paths: Seq<Seq<char>>) -> bool {
    forall|i: int, j: int|
        0 <= i < j < paths.len() ==> path_precedes(#[trigger] paths[i], #[trigger] paths[j])
}

fn find_path(paths: &Vec<String>, path: &str) -> (found: bool)
    ensures
        found == has_path(text_views(paths@), path@),
{
    let ghost views = text_views(paths@);
    let mut position: usize = 0;
    while position < paths.len()
        invariant
            views == text_views(paths@),
            position <= paths@.len(),
            forall|i: int| 0 <= i < position ==> !is_same_path(#[trigger] views[i], path@),
        decreases paths@.len() - position,
    {
        assert(views[position as int] == paths@[position as int]@);
        proof {
            law_path_order(views[position as int], path@, views[position as int]);
            law_path_order(path@, views[position as int], path@);
        }
        if path_order(paths[position].as_str(), path) == PathOrder::Same {
            return true;
        }
        position = position + 1;
    }
    false
}

/// Puts a path where it belongs among ordered paths, unless it is there already.
fn insert_path(paths: &mut Vec<String>, path: &str)
    requires
        is_path_set(text_views(old(paths)@)),
    ensures
        is_path_set(text_views(final(paths)@)),
        forall|other: Seq<char>| #[trigger]
            has_path(text_views(final(paths)@), other) <==> has_path(
                text_views(old(paths)@),
                other,
            ) || is_same_path(path@, other),
{
    let ghost views = text_views(paths@);
    let mut position: usize = 0;
    while position < paths.len()
        invariant
            views == text_views(paths@),
            *paths == *old(paths),
            is_path_set(views),
            position <= paths@.len(),
            forall|i: int| 0 <= i < position ==> path_precedes(#[trigger] views[i], path@),
        ensures
            position == views.len() || path_precedes(path@, views[position as int]),
        decreases paths@.len() - position,
    {
        assert(views[position as int] == paths@[position as int]@);
        match path_order(paths[position].as_str(), path) {
            PathOrder::Before => {},
            PathOrder::Same => {
                assert forall|other: Seq<char>| is_same_path(path@, other) implies has_path(
                    views,
                    other,
                ) by {
                    assert(is_same_path(views[position as int], other));
                }
                return ;
            },
            PathOrder::After => {
                break ;
            },
        }
        position = position + 1;
    }
    paths.insert(position, path.to_owned());
    proof {
        let after = text_views(paths@);
        assert(after =~= views.insert(position as int, path@));
        assert forall|i: int, j: int| 0 <= i < j < after.len() implies path_precedes(
            #[trigger] after[i],
            #[trigger] after[j],
        ) by {
            if j < position {
                assert(after[i] == views[i] && after[j] == views[j]);
            } else if j == position {
                assert(after[i] == views[i]);
            } else {
                assert(after[j] == views[j - 1]);
                if i < position {
                    assert(after[i] == views[i]);
                } else if i == position {
                    if j - 1 > position {
                        assert(path_precedes(views[position as int], views[j - 1]));
                        law_path_order(path@, views[position as int], views[j - 1]);
                    }
                } else {
                    assert(after[i] == views[i - 1]);
                }
            }
        }
        assert forall|other: Seq<char>| #[trigger]
            has_path(after, other) <==> has_path(views, other) || is_same_path(path@, other) by {
            if has_path(after, other) {
                let k = choose|k: int| 0 <= k < after.len() && is_same_path(#[trigger] after[k], other);
                if k < position {
                    assert(is_same_path(views[k], other));
                } else if k > position {
                    assert(is_same_path(views[k - 1], other));
                }
            }
            if has_path(views, other) {
                let k = choose|k: int| 0 <= k < views.len() && is_same_path(#[trigger] views[k], other);
                if k < position {
                    assert(is_same_path(after[k], other));
                } else {
                    assert(is_same_path(after[k + 1], other));
                }
            }
            if is_same_path(path@, other) {
                assert(is_same_path(after[position as int], other));
            }
        }
    }
}

/// Whether a file is deleted with a model: it is the manifest, or one of the model's own files that
/// no other model shares.
pub open spec fn is_removable(
    own: Seq<Seq<char>>,
    shared: Seq<Seq<char>>,
    manifest: Seq<char>,
    path: Seq<char>,
) -> bool {
    has_path(own, path) && !has_path(shared, path) || is_same_path(manifest, path)
}

/// The files that are deleted with a model, in order, each once.
pub fn removable_files(own: &Vec<String>, shared: &Vec<String>, manifest: &str) -> (files: Vec<
    String,
>)
    ensures
        is_path_set(text_views(files@)),
        forall|path: Seq<char>| #[trigger]
            has_path(text_views(files@), path) <==> is_removable(
                text_views(own@),
                text_views(shared@),
                manifest@,
                path,
            ),
{
    let ghost own_views = text_views(own@);
    let ghost shared_views = text_views(shared@);
    let mut files: Vec<String> = Vec::new();
    let mut position: usize = 0;
    assert(text_views(files@) =~= Seq::<Seq<char>>::empty());
    while position < own.len()
        invariant
            own_views == text_views(own@),
            shared_views == text_views(shared@),
            position <= own@.len(),
            is_path_set(text_views(files@)),
            forall|path: Seq<char>| #[trigger]
                has_path(text_views(files@), path) <==> has_path(
                    own_views.take(position as int),
                    path,
                ) && !has_path(shared_views, path),
        decreases own@.len() - position,
    {
        let path = &own[position];
        let ghost before = text_views(files@);
        let kept = !find_path(shared, path.as_str());
        if kept {
            insert_path(&mut files, path.as_str());
        }
        proof {
            let earlier = own_views.take(position as int);
            let next = own_views.take(position + 1);
            let after = text_views(files@);
            assert(own_views[position as int] == path@);
            assert forall|other: Seq<char>| #[trigger]
                has_path(after, other) <==> has_path(next, other) && !has_path(
                    shared_views,
                    other,
                ) by {
                lemma_has_path_push(earlier, path@, other);
                assert(next =~= earlier.push(path@));
                assert(has_path(before, other) <==> has_path(earlier, other) && !has_path(
                    shared_views,
                    other,
                ));
                if is_same_path(path@, other) {
                    lemma_has_path_same(shared_views, path@, other);
                }
            }
        }
        position = position + 1;
    }
    assert(own_views.take(position as int) =~= own_views);
    insert_path(&mut files, manifest);
    files
}

proof fn lemma_has_path_push(paths: Seq<Seq<char>>, added: Seq<char>, path: Seq<char>)
    ensures
        has_path(paths.push(added), path) <==> has_path(paths, path) || is_same_path(added, path),
{
    let longer = paths.push(added);
    if has_path(paths, path) {
        let k = choose|k: int| 0 <= k < paths.len() && is_same_path(#[trigger] paths[k], path);
        assert(is_same_path(longer[k], path));
    }
    if is_same_path(added, path) {
        assert(is_same_path(longer[paths.len() as int], path));
    }
    if has_path(longer, path) {
        let k = choose|k: int| 0 <= k < longer.len() && is_same_path(#[trigger] longer[k], path);
        if k < paths.len() {
            assert(is_same_path(paths[k], path));
        }
    }
}

proof fn lemma_has_path_same(paths: Seq<Seq<char>>, left: Seq<char>, right: Seq<char>)
    requires
        is_same_path(left, right),
    ensures
        has_path(paths, left) == has_path(paths, right),
{
    if has_path(paths, left) {
        let k = choose|k: int| 0 <= k < paths.len() && is_same_path(#[trigger] paths[k], left);
        assert(is_same_path(paths[k], right));
    }
    if has_path(paths, right) {
        let k = choose|k: int| 0 <= k < paths.len() && is_same_path(#[trigger] paths[k], right);
        assert(is_same_path(paths[k], left));
    }
}

/// What is done next to delete files together or not at all.
#[derive(Debug, Clone, Copy, PartialEq, Eq, Structural)]
pub enum RemovalStep {
    /// The file at a position is moved aside.
    Stage { position: usize },
    /// The file at a position is moved back.
    Restore { position: usize },
    /// All files were moved aside, and what was moved aside is deleted.
    Finish,
    /// Nothing is left aside, and the file at a position could not be moved.
    GiveUp { position: usize },
}

/// Deleting files together or not at all: they are moved aside one by one, and moved back if one
/// cannot be.
#[derive(Debug, Clone, Copy, PartialEq, Eq)]
pub struct StagedRemoval {
    /// How many files are to be deleted.
    pub total: usize,
    /// How many of them, from the first on, are aside.
    pub aside: usize,
    /// The file that could not be moved.
    pub failed: Option<usize>,
}

impl StagedRemoval {
    /// Whether no more files are aside than there are before the one that could not be moved.
    pub open spec fn is_consistent(self) -> bool {
        &&& self.aside <= self.total
        &&& self.failed matches Some(position) ==> self.aside <= position < self.total
    }

    /// The next step.
    pub open spec fn spec_next(self) -> RemovalStep {
        match self.failed {
            None => if self.aside < self.total {
                RemovalStep::Stage { position: self.aside }
            } else {
                RemovalStep::Finish
            },
            Some(position) => if self.aside > 0 {
                RemovalStep::Restore { position: (self.aside - 1) as usize }
            } else {
                RemovalStep::GiveUp { position }
            },
        }
    }

    /// Starts with all files in place.
    pub fn begin(total: usize) -> (removal: StagedRemoval)
        ensures
            removal == (StagedRemoval { total, aside: 0, failed: None }),
            removal.is_consistent(),
    {
        StagedRemoval { total, aside: 0, failed: None }
    }

    /// The next step.
    pub fn next(&self) -> (step: RemovalStep)
        ensures
            step == self.spec_next(),
    {
        match self.failed {
            None => if self.aside < self.total {
                RemovalStep::Stage { position: self.aside }
            } else {
                RemovalStep::Finish
            },
            Some(position) => if self.aside > 0 {
                RemovalStep::Restore { position: self.aside - 1 }
            } else {
                RemovalStep::GiveUp { position }
            },
        }
    }

    /// Takes note of how moving a file aside went.
    pub fn staged(&mut self, moved: bool)
        requires
            old(self).is_consistent(),
            old(self).spec_next() is Stage,
        ensures
            moved ==> *final(self) == (StagedRemoval {
                aside: (old(self).aside + 1) as usize,
                ..*old(self)
            }),
            !moved ==> *final(self) == (StagedRemoval {
                failed: Some(old(self).aside),
                ..*old(self)
            }),
            final(self).is_consistent(),
    {
        if moved {
            self.aside = self.aside + 1;
        } else {
            self.failed = Some(self.aside);
        }
    }

    /// Takes note of a file that was moved back.
    pub fn restored(&mut self)
        requires
            old(self).is_consistent(),
            old(self).spec_next() is Restore,
        ensures
            *final(self) == (StagedRemoval { aside: (old(self).aside - 1) as usize, ..*old(self) }),
            final(self).is_consistent(),
    {
        self.aside = self.aside - 1;
    }
}

/// Files are deleted when all of them are aside, and given up on only when none of them is.
pub proof fn law_removal_is_all_or_nothing(removal: StagedRemoval)
    requires
        removal.is_consistent(),
    ensures
        removal.spec_next() is Finish ==> removal.aside == removal.total && removal.failed is None,
        removal.spec_next() is GiveUp ==> removal.aside == 0 && removal.failed is Some,
        removal.spec_next() matches RemovalStep::Stage { position } ==> position == removal.aside
            && position < removal.total,
        removal.spec_next() matches RemovalStep::Restore { position } ==> position + 1
            == removal.aside && removal.failed is Some,
{
}

} // verus!
