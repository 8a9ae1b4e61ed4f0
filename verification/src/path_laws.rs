//! What paths name, in terms of their characters.

use vstd::prelude::*;
use vstd::string::*;

use crate::path::{
    component_views, components, components_part_at, file_name, is_normal, is_safe_archive_path,
    is_safe_relative, join_path, last_piece_start, lemma_piece_end, parent, path_components,
    path_order, path_precedes, piece_component, piece_components, piece_end, resolve,
    safe_archive_path, safe_component, safe_relative, stripped_path, within, Component,
    ComponentView, PathOrder,
};
use crate::text;

verus! {

/// Whether a piece of a path stands from `start` to `end`: between two separators, or a separator and
/// an end of the path.
pub open spec fn is_piece(path: Seq<char>, start: int, end: int) -> bool {
    &&& 0 <= start <= end <= path.len()
    &&& start == 0 || path[start - 1] == '/'
    &&& end == path.len() || path[end] == '/'
    &&& forall|i: int| start <= i < end ==> path[i] != '/'
}

/// Whether a piece of a path is `..`.
pub open spec fn is_step_up(path: Seq<char>, start: int, end: int) -> bool {
    is_piece(path, start, end) && end == start + 2 && path[start] == '.' && path[start + 1] == '.'
}

/// Whether a piece of a path names something: it is neither empty nor `.` nor `..`.
pub open spec fn is_name(path: Seq<char>, start: int, end: int) -> bool {
    &&& is_piece(path, start, end)
    &&& start < end
    &&& !(end == start + 1 && path[start] == '.')
    &&& !is_step_up(path, start, end)
}

/// Whether a path leads upwards somewhere.
pub open spec fn steps_up(path: Seq<char>) -> bool {
    exists|start: int, end: int| is_step_up(path, start, end)
}

/// Whether a path names something.
pub open spec fn names_something(path: Seq<char>) -> bool {
    exists|start: int, end: int| is_name(path, start, end)
}

spec fn has_parent(parts: Seq<ComponentView>) -> bool {
    exists|i: int| 0 <= i < parts.len() && (#[trigger] parts[i]) is ParentDir
}

spec fn has_normal(parts: Seq<ComponentView>) -> bool {
    exists|i: int| 0 <= i < parts.len() && (#[trigger] parts[i]) is Normal
}

proof fn lemma_concatenated(left: Seq<ComponentView>, right: Seq<ComponentView>)
    ensures
        has_parent(left + right) <==> has_parent(left) || has_parent(right),
        has_normal(left + right) <==> has_normal(left) || has_normal(right),
{
    let both = left + right;
    assert forall|i: int| 0 <= i < left.len() implies #[trigger] left[i] == both[i] by {
    }
    assert forall|i: int| 0 <= i < right.len() implies #[trigger] right[i] == both[
        left.len() + i
    ] by {
    }
    if has_parent(both) {
        let i = choose|i: int| 0 <= i < both.len() && (#[trigger] both[i]) is ParentDir;
        if i < left.len() {
            assert(left[i] is ParentDir);
        } else {
            assert(right[i - left.len()] is ParentDir);
        }
    }
    if has_normal(both) {
        let i = choose|i: int| 0 <= i < both.len() && (#[trigger] both[i]) is Normal;
        if i < left.len() {
            assert(left[i] is Normal);
        } else {
            assert(right[i - left.len()] is Normal);
        }
    }
}

/// The first piece of a path, and those of the rest, are its pieces.
proof fn lemma_pieces(path: Seq<char>, start: int, end: int)
    ensures
        is_piece(path, 0, piece_end(path)),
        is_piece(path, start, end) && start <= piece_end(path) ==> start == 0 && end == piece_end(
            path,
        ),
        piece_end(path) < path.len() ==> {
            let rest = path.skip(piece_end(path) + 1);
            let offset = piece_end(path) + 1;
            &&& start >= offset ==> is_piece(path, start, end) == is_piece(
                rest,
                start - offset,
                end - offset,
            )
            &&& start >= offset ==> is_step_up(path, start, end) == is_step_up(
                rest,
                start - offset,
                end - offset,
            )
            &&& start >= offset ==> is_name(path, start, end) == is_name(
                rest,
                start - offset,
                end - offset,
            )
        },
{
    lemma_piece_end(path);
    let first = piece_end(path);
    if is_piece(path, start, end) && start <= first {
        if start > 0 {
            assert(path[start - 1] != '/');
        }
        if end < first {
            assert(path[end] != '/');
        }
        if end > first {
            assert(path[first] == '/');
        }
    }
    if first < path.len() && start >= first + 1 {
        let rest = path.skip(first + 1);
        let offset = first + 1;
        if is_piece(path, start, end) {
            assert forall|i: int| start - offset <= i < end - offset implies rest[i] != '/' by {
                assert(path[i + offset] != '/');
            }
        }
        if is_piece(rest, start - offset, end - offset) {
            assert forall|i: int| start <= i < end implies path[i] != '/' by {
                assert(rest[i - offset] != '/');
            }
        }
    }
}

proof fn lemma_first_piece(path: Seq<char>, leading: bool)
    ensures
        has_parent(piece_component(path.take(piece_end(path)), leading)) <==> is_step_up(
            path,
            0,
            piece_end(path),
        ),
        has_normal(piece_component(path.take(piece_end(path)), leading)) <==> is_name(
            path,
            0,
            piece_end(path),
        ),
        piece_component(path.take(piece_end(path)), leading).len() <= 1,
        forall|i: int|
            0 <= i < piece_component(path.take(piece_end(path)), leading).len() ==> !(
            (#[trigger] piece_component(path.take(piece_end(path)), leading)[i]) is RootDir),
{
    lemma_piece_end(path);
    lemma_pieces(path, 0, 0);
    let end = piece_end(path);
    let piece = path.take(end);
    let parts = piece_component(piece, leading);
    if piece.len() == 1 && piece[0] == '.' {
        assert(piece =~= seq!['.']);
    }
    if piece.len() == 2 && piece[0] == '.' && piece[1] == '.' {
        assert(piece =~= seq!['.', '.']);
    }
    if piece == seq!['.'] {
        assert(piece[0] == '.');
        assert(piece.len() == 1);
    }
    if piece == seq!['.', '.'] {
        assert(piece[0] == '.' && piece[1] == '.');
        assert(piece.len() == 2);
        assert(parts[0] is ParentDir);
    }
    if parts.len() > 0 && is_name(path, 0, end) {
        assert(parts[0] is Normal);
    }
}

proof fn lemma_components(path: Seq<char>, leading: bool)
    ensures
        has_parent(piece_components(path, leading)) <==> steps_up(path),
        has_normal(piece_components(path, leading)) <==> names_something(path),
        forall|i: int|
            0 <= i < piece_components(path, leading).len() ==> !((#[trigger] piece_components(
                path,
                leading,
            )[i]) is RootDir),
        !leading ==> forall|i: int|
            0 <= i < piece_components(path, leading).len() ==> !((#[trigger] piece_components(
                path,
                leading,
            )[i]) is CurDir),
    decreases path.len(),
{
    lemma_piece_end(path);
    lemma_first_piece(path, leading);
    let first = piece_end(path);
    let here = piece_component(path.take(first), leading);
    if is_step_up(path, 0, first) {
        assert(steps_up(path));
    }
    if is_name(path, 0, first) {
        assert(names_something(path));
    }
    if first == path.len() {
        if steps_up(path) {
            let (start, end) = choose|start: int, end: int| is_step_up(path, start, end);
            lemma_pieces(path, start, end);
        }
        if names_something(path) {
            let (start, end) = choose|start: int, end: int| is_name(path, start, end);
            lemma_pieces(path, start, end);
        }
    } else {
        let rest = path.skip(first + 1);
        lemma_components(rest, false);
        lemma_concatenated(here, piece_components(rest, false));
        let offset = first + 1;
        if steps_up(path) && !is_step_up(path, 0, first) {
            let (start, end) = choose|start: int, end: int| is_step_up(path, start, end);
            lemma_pieces(path, start, end);
            assert(is_step_up(rest, start - offset, end - offset));
        }
        if names_something(path) && !is_name(path, 0, first) {
            let (start, end) = choose|start: int, end: int| is_name(path, start, end);
            lemma_pieces(path, start, end);
            assert(is_name(rest, start - offset, end - offset));
        }
        if steps_up(rest) {
            let (start, end) = choose|start: int, end: int| is_step_up(rest, start, end);
            lemma_pieces(path, start + offset, end + offset);
            assert(is_step_up(path, start + offset, end + offset));
        }
        if names_something(rest) {
            let (start, end) = choose|start: int, end: int| is_name(rest, start, end);
            lemma_pieces(path, start + offset, end + offset);
            assert(is_name(path, start + offset, end + offset));
        }
    }
}

/// What a safe path is, in terms of its pieces.
pub proof fn lemma_safe_relative(path: Seq<char>)
    ensures
        is_safe_relative(path) <==> !(path.len() > 0 && path[0] == '/') && !steps_up(path)
            && names_something(path),
{
    lemma_components(path, true);
    let parts = piece_components(path, true);
    let safe = is_safe_relative(path);
    if names_something(path) {
        let (start, end) = choose|start: int, end: int| is_name(path, start, end);
        assert(path.len() > 0);
    }
    if safe && steps_up(path) {
        let i = choose|i: int| 0 <= i < parts.len() && (#[trigger] parts[i]) is ParentDir;
        assert(parts[i] is Normal || parts[i] is CurDir);
    }
    if safe {
        let i = choose|i: int| 0 <= i < parts.len() && is_normal(#[trigger] parts[i]);
        assert(parts[i] is Normal);
    }
    if !(path.len() > 0 && path[0] == '/') && !steps_up(path) && names_something(path) {
        assert forall|i: int| 0 <= i < parts.len() implies (#[trigger] parts[i]) is Normal
            || parts[i] is CurDir by {
            assert(!(parts[i] is ParentDir));
            assert(!(parts[i] is RootDir));
        }
        let i = choose|i: int| 0 <= i < parts.len() && (#[trigger] parts[i]) is Normal;
        assert(is_normal(parts[i]));
    }
}

/// A path of a model pack is safe if and only if it does not begin at the root, nowhere leads upwards,
/// and names something.
pub proof fn law_safe_paths_stay_below(path: &str, safe: bool)
    requires
        call_ensures(safe_relative, (path,), safe),
    ensures
        safe <==> !(path@.len() > 0 && path@[0] == '/') && !steps_up(path@) && names_something(path@),
{
    lemma_safe_relative(path@);
}

/// What a safe entry of an archive is, in terms of its pieces.
pub proof fn lemma_safe_archive_path(path: Seq<char>)
    ensures
        is_safe_archive_path(path) <==> !(path.len() > 0 && path[0] == '/') && !steps_up(path),
{
    lemma_components(path, true);
    let parts = piece_components(path, true);
    if is_safe_archive_path(path) && steps_up(path) {
        let i = choose|i: int| 0 <= i < parts.len() && (#[trigger] parts[i]) is ParentDir;
        assert(!(parts[i] is ParentDir));
    }
    if !(path.len() > 0 && path[0] == '/') && !steps_up(path) {
        assert forall|i: int| 0 <= i < parts.len() implies !((#[trigger] parts[i]) is ParentDir)
            && !(parts[i] is RootDir) by {
        }
    }
}

/// An entry of an archive is safe if and only if it does not begin at the root and nowhere leads
/// upwards.
pub proof fn law_safe_entries_stay_below(path: &str, safe: bool)
    requires
        call_ensures(safe_archive_path, (path,), safe),
    ensures
        safe <==> !(path@.len() > 0 && path@[0] == '/') && !steps_up(path@),
{
    lemma_safe_archive_path(path@);
}

proof fn lemma_two_names(
    path: Seq<char>,
    leading: bool,
    start: int,
    end: int,
    other_start: int,
    other_end: int,
)
    requires
        is_name(path, start, end),
        is_name(path, other_start, other_end),
        start < other_start,
    ensures
        piece_components(path, leading).len() >= 2,
    decreases path.len(),
{
    lemma_piece_end(path);
    let first = piece_end(path);
    lemma_pieces(path, start, end);
    lemma_pieces(path, other_start, other_end);
    assert(other_start > first);
    assert(first < path.len());
    let rest = path.skip(first + 1);
    let offset = first + 1;
    assert(is_name(rest, other_start - offset, other_end - offset));
    lemma_components(rest, false);
    assert(names_something(rest));
    if start == 0 {
        lemma_first_piece(path, leading);
        assert(end == first);
        let here = piece_component(path.take(first), leading);
        assert(has_normal(here));
    } else {
        if start <= first {
            assert(false);
        }
        lemma_two_names(
            rest,
            false,
            start - offset,
            end - offset,
            other_start - offset,
            other_end - offset,
        );
    }
}

/// A text that can name a directory of its own does not begin at the root, nowhere leads upwards, and
/// names exactly one thing. Every text without separators that names something is such a text.
pub proof fn law_safe_components_name_one_thing(component: &str, safe: bool)
    requires
        call_ensures(safe_component, (component,), safe),
    ensures
        safe ==> !(component@.len() > 0 && component@[0] == '/') && !steps_up(component@)
            && names_something(component@),
        safe ==> forall|start: int, end: int, other_start: int, other_end: int|
            #[trigger] is_name(component@, start, end) && #[trigger] is_name(
                component@,
                other_start,
                other_end,
            ) ==> start == other_start && end == other_end,
        is_name(component@, 0, component@.len() as int) ==> safe,
{
    let path = component@;
    lemma_components(path, true);
    lemma_components(path, false);
    let parts = path_components(path);
    if safe {
        if path.len() > 0 && path[0] == '/' {
            assert(parts[0] is RootDir);
        }
        assert(parts == piece_components(path, true));
        assert(parts[0] is Normal);
        if steps_up(path) {
            let i = choose|i: int| 0 <= i < parts.len() && (#[trigger] parts[i]) is ParentDir;
        }
        assert forall|start: int, end: int, other_start: int, other_end: int| #[trigger]
            is_name(path, start, end) && #[trigger] is_name(
            path,
            other_start,
            other_end,
        ) implies start == other_start && end == other_end by {
            if start < other_start {
                lemma_two_names(path, true, start, end, other_start, other_end);
            }
            if other_start < start {
                lemma_two_names(path, true, other_start, other_end, start, end);
            }
            if end < other_end {
                assert(path[end] == '/');
            }
            if other_end < end {
                assert(path[other_end] == '/');
            }
        }
    }
    if is_name(path, 0, path.len() as int) {
        lemma_pieces(path, 0, path.len() as int);
        lemma_first_piece(path, true);
        assert(piece_end(path) == path.len());
        assert(path[0] != '/');
    }
}

proof fn lemma_last_name(path: Seq<char>, leading: bool, start: int, end: int)
    requires
        is_name(path, start, end) || is_step_up(path, start, end),
        forall|other: int, other_end: int|
            other > end ==> !(#[trigger] is_name(path, other, other_end)) && !is_step_up(
                path,
                other,
                other_end,
            ),
    ensures
        piece_components(path, leading).len() > 0,
        is_name(path, start, end) ==> piece_components(path, leading).last()
            == ComponentView::Normal(path.subrange(start, end)),
        is_step_up(path, start, end) ==> piece_components(path, leading).last()
            == ComponentView::ParentDir,
    decreases path.len(),
{
    lemma_piece_end(path);
    lemma_first_piece(path, leading);
    lemma_pieces(path, start, end);
    let first = piece_end(path);
    let here = piece_component(path.take(first), leading);
    if start <= first {
        assert(start == 0 && end == first);
        assert(path.take(first) =~= path.subrange(start, end));
        assert(here.len() == 1);
        if first < path.len() {
            let rest = path.skip(first + 1);
            let offset = first + 1;
            lemma_components(rest, false);
            let parts = piece_components(rest, false);
            if names_something(rest) {
                let (a, b) = choose|a: int, b: int| is_name(rest, a, b);
                lemma_pieces(path, a + offset, b + offset);
                assert(is_name(path, a + offset, b + offset));
            }
            if steps_up(rest) {
                let (a, b) = choose|a: int, b: int| is_step_up(rest, a, b);
                lemma_pieces(path, a + offset, b + offset);
                assert(is_step_up(path, a + offset, b + offset));
                assert(!is_name(path, a + offset, b + offset));
            }
            if parts.len() > 0 {
                assert(!(parts[0] is RootDir) && !(parts[0] is CurDir));
                assert(false);
            }
            assert(piece_components(path, leading) =~= here);
        }
    } else {
        assert(first < path.len());
        let rest = path.skip(first + 1);
        let offset = first + 1;
        assert forall|other: int, other_end: int| other > end - offset implies !(
        #[trigger] is_name(rest, other, other_end)) && !is_step_up(rest, other, other_end) by {
            lemma_pieces(path, other + offset, other_end + offset);
            assert(!is_name(path, other + offset, other_end + offset));
        }
        lemma_last_name(rest, false, start - offset, end - offset);
        assert(rest.subrange(start - offset, end - offset) =~= path.subrange(start, end));
    }
}

/// The file name of a path is the last piece that is neither empty nor `.`, unless that leads upwards;
/// a path without such pieces has none.
pub proof fn law_file_names_come_last(path: &str, name: Option<String>, start: int, end: int)
    requires
        call_ensures(file_name, (path,), name),
    ensures
        is_name(path@, start, end) && (forall|other: int, other_end: int|
            other > end ==> !(#[trigger] is_name(path@, other, other_end)) && !is_step_up(
                path@,
                other,
                other_end,
            )) ==> (name matches Some(name) && name@ == path@.subrange(start, end)),
        is_step_up(path@, start, end) && (forall|other: int, other_end: int|
            other > end ==> !(#[trigger] is_name(path@, other, other_end)) && !is_step_up(
                path@,
                other,
                other_end,
            )) ==> name is None,
        !names_something(path@) ==> name is None,
{
    let leading = !(path@.len() > 0 && path@[0] == '/');
    let parts = piece_components(path@, leading);
    lemma_components(path@, leading);
    if (is_name(path@, start, end) || is_step_up(path@, start, end)) && (forall|
        other: int,
        other_end: int,
    |
        other > end ==> !(#[trigger] is_name(path@, other, other_end)) && !is_step_up(
            path@,
            other,
            other_end,
        )) {
        lemma_last_name(path@, leading, start, end);
        assert(path_components(path@).last() == parts.last());
    }
    if !names_something(path@) && path_components(path@).len() > 0 {
        let all = path_components(path@);
        if all.last() is Normal {
            if leading {
                assert(parts[parts.len() - 1] is Normal);
            } else {
                assert(all =~= seq![ComponentView::RootDir] + parts);
                assert(parts.len() > 0);
                assert(parts[parts.len() - 1] is Normal);
            }
        }
    }
}

proof fn lemma_joined_pieces(left: Seq<char>, right: Seq<char>, leading: bool)
    ensures
        piece_components(left + seq!['/'] + right, leading) == piece_components(left, leading)
            + piece_components(right, false),
    decreases left.len(),
{
    let whole = left + seq!['/'] + right;
    lemma_piece_end(left);
    lemma_piece_end(whole);
    let first = piece_end(left);
    let end = piece_end(whole);
    if first == left.len() {
        if end < first {
            assert(whole[end] == left[end]);
            assert(left[end] != '/');
        }
        if end > first {
            assert(whole[first] == '/');
        }
        assert(whole.take(end) =~= left.take(first));
        assert(whole.skip(end + 1) =~= right);
    } else {
        if end < first {
            assert(whole[end] == left[end]);
            assert(left[end] != '/');
        }
        if end > first {
            assert(whole[first] == left[first]);
        }
        assert(whole.take(end) =~= left.take(first));
        let rest = left.skip(first + 1);
        lemma_joined_pieces(rest, right, false);
        assert(whole.skip(end + 1) =~= rest + seq!['/'] + right);
        assert(piece_components(whole, leading) =~= piece_components(left, leading)
            + piece_components(right, false));
    }
}

/// What is joined to a root stands below it, unless it begins at the root of all paths: then it stays as
/// it is.
pub proof fn law_joined_paths_stand_below(
    root: &str,
    path: &str,
    joined: String,
    below: bool,
    joined_text: &str,
)
    requires
        call_ensures(join_path, (root, path), joined),
        joined_text@ == joined@,
        call_ensures(within, (joined_text, root), below),
    ensures
        path@.len() > 0 && path@[0] == '/' ==> joined@ == path@,
        !(path@.len() > 0 && path@[0] == '/') && root@.len() > 0 ==> below,
        !(path@.len() > 0 && path@[0] == '/') && root@.len() == 0 ==> joined@ == path@,
        !(path@.len() > 0 && path@[0] == '/') ==> {
            &&& root@.len() + path@.len() <= joined@.len() <= root@.len() + 1 + path@.len()
            &&& joined@.take(root@.len() as int) == root@
            &&& joined@.skip(joined@.len() - path@.len()) == path@
            &&& root@.len() > 0 ==> joined@[joined@.len() - path@.len() - 1] == '/'
        },
{
    reveal_strlit("/");
    assert("/"@ =~= seq!['/']);
    if !(path@.len() > 0 && path@[0] == '/') {
        assert(joined@.take(root@.len() as int) =~= root@);
        assert(joined@.skip(joined@.len() - path@.len()) =~= path@);
        if root@.len() == 0 {
            assert(joined@ =~= path@);
        } else {
            let leading = root@[0] != '/';
            let outer = path_components(root@);
            let own = path_components(joined@);
            let inner = piece_components(path@, false);
            if root@.last() == '/' {
                let base = root@.drop_last();
                assert(joined@ =~= base + seq!['/'] + path@);
                assert(root@ =~= base + seq!['/'] + Seq::<char>::empty());
                lemma_joined_pieces(base, path@, leading);
                lemma_joined_pieces(base, Seq::empty(), leading);
                assert(piece_components(Seq::<char>::empty(), false).len() == 0) by {
                    lemma_piece_end(Seq::<char>::empty());
                }
                assert(piece_components(root@, leading) =~= piece_components(base, leading));
            } else {
                lemma_joined_pieces(root@, path@, leading);
            }
            assert(joined@[0] == root@[0]);
            assert(own =~= outer + inner);
            assert(own.take(outer.len() as int) =~= outer);
        }
    }
}

/// A file of a model pack is looked for where its path leads from the pack.
pub proof fn law_resolved_paths(root: &str, path: &str, resolved: String, joined: String)
    requires
        call_ensures(resolve, (root, path), resolved),
        call_ensures(join_path, (root, path), joined),
    ensures
        resolved@ == joined@,
{
}

proof fn lemma_last_piece(path: Seq<char>, start: int)
    requires
        0 < start <= path.len(),
        path[start - 1] == '/',
        forall|i: int| start <= i < path.len() ==> path[i] != '/',
    ensures
        last_piece_start(path) == start,
    decreases path.len(),
{
    if start < path.len() {
        assert(path.last() == path[path.len() - 1]);
        lemma_last_piece(path.drop_last(), start);
    }
}

/// A name below a directory stands in that directory.
pub proof fn law_parents_hold_their_names(path: &str, directory: Option<String>, start: int)
    requires
        call_ensures(parent, (path,), directory),
        is_name(path@, start, path@.len() as int),
        start > 1,
        path@[start - 2] != '/',
        !(start > 2 && path@[start - 2] == '.' && path@[start - 3] == '/'),
    ensures
        directory matches Some(directory) && directory@ == path@.take(start - 1),
{
    let text = path@;
    assert(text.last() != '/');
    if text.last() == '.' && text[text.len() - 2] == '/' {
        assert(text.len() - 1 == start);
    }
    assert(stripped_path(text) == text);
    lemma_last_piece(text, start);
    assert(text.len() >= 2);
    let outer = text.take(start);
    assert(outer.drop_last() =~= text.take(start - 1));
    let inner = text.take(start - 1);
    assert(inner.last() == text[start - 2]);
    assert(stripped_path(inner) == inner);
    assert(stripped_path(outer) == stripped_path(inner));
}

/// What has no parent names nothing.
pub proof fn law_names_have_parents(path: &str, directory: Option<String>)
    requires
        call_ensures(parent, (path,), directory),
        directory is None,
    ensures
        path@.len() == 0 || path@[0] == '/',
{
    lemma_stripped(path@);
}

proof fn lemma_stripped(path: Seq<char>)
    ensures
        path.len() > 0 ==> stripped_path(path).len() > 0 && stripped_path(path)[0] == path[0],
    decreases path.len(),
{
    if path.len() > 1 && path.last() == '/' {
        lemma_stripped(path.drop_last());
    } else if path.len() > 1 && path.last() == '.' && path[path.len() - 2] == '/' {
        lemma_stripped(path.drop_last());
    }
}

/// Whether a component is what the piece of a path from `start` to `end` stands for.
pub open spec fn is_component_at(
    path: Seq<char>,
    leading: bool,
    part: ComponentView,
    start: int,
    end: int,
) -> bool {
    match part {
        ComponentView::Normal(name) => is_name(path, start, end) && name == path.subrange(
            start,
            end,
        ),
        ComponentView::ParentDir => is_step_up(path, start, end),
        ComponentView::CurDir => leading && start == 0 && end == 1 && is_piece(path, 0, 1)
            && path[0] == '.',
        ComponentView::RootDir => false,
    }
}

/// Whether the components of a path are its pieces at the places given, which rise: a name is itself, `..`
/// leads upwards, and `.` counts only where `leading` and at the start. Every piece that names something
/// or leads upwards is among them.
pub open spec fn are_components(
    path: Seq<char>,
    leading: bool,
    parts: Seq<ComponentView>,
    places: Seq<(int, int)>,
) -> bool {
    &&& parts.len() == places.len()
    &&& forall|i: int|
        0 <= i < places.len() ==> is_component_at(
            path,
            leading,
            parts[i],
            (#[trigger] places[i]).0,
            places[i].1,
        )
    &&& forall|i: int, j: int|
        0 <= i < j < places.len() ==> (#[trigger] places[i]).1 < (#[trigger] places[j]).0
    &&& forall|start: int, end: int|
        is_name(path, start, end) || is_step_up(path, start, end) || (leading && start == 0 && end
            == 1 && path[0] == '.' && is_piece(path, 0, 1)) ==> #[trigger] places.contains(
            (start, end),
        )
}

#[verifier::rlimit(50)]
proof fn lemma_component_places(path: Seq<char>, leading: bool) -> (places: Seq<(int, int)>)
    ensures
        are_components(path, leading, piece_components(path, leading), places),
    decreases path.len(),
{
    lemma_piece_end(path);
    lemma_first_piece(path, leading);
    lemma_pieces(path, 0, 0);
    let first = piece_end(path);
    let here = piece_component(path.take(first), leading);
    let parts = piece_components(path, leading);
    if first == 1 && path[0] == '.' {
        assert(path.take(first) =~= seq!['.']);
    }
    if path.take(first) == seq!['.'] {
        assert(path.take(first)[0] == '.');
    }
    if path.take(first) == seq!['.', '.'] {
        assert(path.take(first)[0] == '.' && path.take(first)[1] == '.');
    }
    assert(path.take(first) =~= path.subrange(0, first));
    let own: Seq<(int, int)> = if here.len() == 0 {
        Seq::empty()
    } else {
        seq![(0int, first)]
    };
    assert(here.len() == own.len());
    if here.len() == 1 {
        assert(is_component_at(path, leading, here[0], 0, first)) by {
            if here[0] is Normal {
                assert(has_normal(here));
            }
            if here[0] is ParentDir {
                assert(has_parent(here));
            }
        }
    }
    if first == path.len() {
        assert forall|start: int, end: int|
            is_name(path, start, end) || is_step_up(path, start, end) || (leading && start == 0
                && end == 1 && path[0] == '.' && is_piece(path, 0, 1)) implies #[trigger]
        own.contains((start, end)) by {
            lemma_pieces(path, start, end);
            assert(start == 0 && end == first);
            assert(own[0] == (start, end));
        }
        assert(parts == here);
        assert(are_components(path, leading, parts, own));
        own
    } else {
        let offset = first + 1;
        let rest = path.skip(offset);
        let later = lemma_component_places(rest, false);
        let rest_parts = piece_components(rest, false);
        let places = own + later.map_values(
            |place: (int, int)| (place.0 + offset, place.1 + offset),
        );
        let skipped = own.len() as int;
        assert(here.len() == 1 ==> parts[0] == here[0] && places[0] == (0int, first));
        assert forall|i: int| 0 <= i < places.len() implies is_component_at(
            path,
            leading,
            parts[i],
            (#[trigger] places[i]).0,
            places[i].1,
        ) by {
            if i >= skipped {
                let place = later[i - skipped];
                assert(places[i] == (place.0 + offset, place.1 + offset));
                assert(parts[i] == rest_parts[i - skipped]);
                lemma_pieces(path, place.0 + offset, place.1 + offset);
                assert(is_component_at(rest, false, rest_parts[i - skipped], place.0, place.1));
                match rest_parts[i - skipped] {
                    ComponentView::Normal(name) => {
                        assert(is_name(rest, place.0, place.1));
                        assert(rest.subrange(place.0, place.1) =~= path.subrange(
                            place.0 + offset,
                            place.1 + offset,
                        ));
                    },
                    ComponentView::ParentDir => {
                        assert(is_step_up(rest, place.0, place.1));
                    },
                    _ => {},
                }
            }
        }
        assert forall|i: int, j: int| 0 <= i < j < places.len() implies (#[trigger] places[i]).1 < (
        #[trigger] places[j]).0 by {
            let place = later[j - skipped];
            assert(places[j] == (place.0 + offset, place.1 + offset));
            assert(0 <= place.0) by {
                match rest_parts[j - skipped] {
                    ComponentView::Normal(name) => {
                        assert(is_name(rest, place.0, place.1));
                    },
                    ComponentView::ParentDir => {
                        assert(is_step_up(rest, place.0, place.1));
                    },
                    _ => {},
                }
            }
            if i >= skipped {
                let earlier = later[i - skipped];
                assert(places[i] == (earlier.0 + offset, earlier.1 + offset));
            }
        }
        assert forall|start: int, end: int|
            is_name(path, start, end) || is_step_up(path, start, end) || (leading && start == 0
                && end == 1 && path[0] == '.' && is_piece(path, 0, 1)) implies #[trigger]
        places.contains((start, end)) by {
            lemma_pieces(path, start, end);
            if start <= first {
                assert(places[0] == (start, end));
            } else {
                assert(later.contains((start - offset, end - offset)));
                let k = choose|k: int|
                    0 <= k < later.len() && later[k] == (start - offset, end - offset);
                assert(places[k + skipped] == (start, end));
            }
        }
        assert(are_components(path, leading, parts, places));
        places
    }
}

/// The components of a path are its pieces, in their order; a path that begins at the root has the root
/// as its first.
pub proof fn law_components_are_pieces(path: &str, parts: Vec<Component>) -> (places: Seq<(int, int)>)
    requires
        call_ensures(components, (path,), parts),
    ensures
        path@.len() > 0 && path@[0] == '/' ==> parts@.len() > 0 && parts@[0] is RootDir
            && are_components(path@, false, component_views(parts@).drop_first(), places),
        !(path@.len() > 0 && path@[0] == '/') ==> are_components(
            path@,
            true,
            component_views(parts@),
            places,
        ),
{
    let views = component_views(parts@);
    assert(views.len() == parts@.len());
    if path@.len() > 0 && path@[0] == '/' {
        assert(views[0] == parts@[0]@);
        assert(views.drop_first() =~= piece_components(path@, false));
        lemma_component_places(path@, false)
    } else {
        lemma_component_places(path@, true)
    }
}

/// A path stands within another if and only if it has all of its components in front.
pub proof fn law_inner_paths_begin_alike(
    path: &str,
    root: &str,
    inner: bool,
    own: Vec<Component>,
    outer: Vec<Component>,
)
    requires
        call_ensures(within, (path, root), inner),
        call_ensures(components, (path,), own),
        call_ensures(components, (root,), outer),
    ensures
        inner <==> outer@.len() <= own@.len() && forall|i: int|
            0 <= i < outer@.len() ==> (#[trigger] outer@[i])@ == own@[i]@,
{
    let mine = component_views(own@);
    let theirs = component_views(outer@);
    if inner {
        assert forall|i: int| 0 <= i < outer@.len() implies (#[trigger] outer@[i])@
            == own@[i]@ by {
            assert(theirs[i] == outer@[i]@);
            assert(mine.take(theirs.len() as int)[i] == mine[i]);
            assert(mine[i] == own@[i]@);
        }
    }
    if outer@.len() <= own@.len() && forall|i: int|
        0 <= i < outer@.len() ==> (#[trigger] outer@[i])@ == own@[i]@ {
        assert forall|i: int| 0 <= i < theirs.len() implies mine.take(theirs.len() as int)[i]
            == theirs[i] by {
            assert(theirs[i] == outer@[i]@);
        }
        assert(mine.take(theirs.len() as int) =~= theirs);
    }
}

/// Whether a component comes before another: the root first, then `.`, then `..`, and names last, by
/// their text.
pub open spec fn ranks_before(left: ComponentView, right: ComponentView) -> bool {
    match (left, right) {
        (ComponentView::Normal(left), ComponentView::Normal(right)) => text::precedes(left, right),
        (ComponentView::Normal(_), _) => false,
        (_, ComponentView::Normal(_)) => true,
        (ComponentView::RootDir, ComponentView::CurDir) => true,
        (ComponentView::RootDir, ComponentView::ParentDir) => true,
        (ComponentView::CurDir, ComponentView::ParentDir) => true,
        _ => false,
    }
}

/// Whether components come before others: in the first place where they differ, or by ending first.
pub open spec fn comes_before(left: Seq<ComponentView>, right: Seq<ComponentView>) -> bool {
    exists|at: int|
        {
            &&& 0 <= at < right.len()
            &&& at <= left.len()
            &&& left.take(at) == #[trigger] right.take(at)
            &&& at == left.len() || ranks_before(left[at], right[at])
        }
}

/// Paths are ordered by their components, and are the same if and only if these are.
pub proof fn law_paths_are_ordered_by_components(
    left: &str,
    right: &str,
    order: PathOrder,
    first: Vec<Component>,
    second: Vec<Component>,
)
    requires
        call_ensures(path_order, (left, right), order),
        call_ensures(components, (left,), first),
        call_ensures(components, (right,), second),
    ensures
        order is Before <==> comes_before(component_views(first@), component_views(second@)),
        order is Same <==> component_views(first@) == component_views(second@),
        order is After <==> comes_before(component_views(second@), component_views(first@)),
{
    lemma_comes_before(left@, right@);
    lemma_comes_before(right@, left@);
    crate::path::law_path_order(left@, right@, left@);
    crate::path::law_path_order(right@, left@, right@);
}

proof fn lemma_comes_before(left: Seq<char>, right: Seq<char>)
    ensures
        path_precedes(left, right) == comes_before(path_components(left), path_components(right)),
{
    let first = path_components(left);
    let second = path_components(right);
    if path_precedes(left, right) {
        let at = choose|at: int| components_part_at(first, second, at);
        assert(first.take(at) =~= second.take(at));
        assert(at == first.len() || ranks_before(first[at], second[at]));
    }
    if comes_before(first, second) {
        let at = choose|at: int|
            {
                &&& 0 <= at < second.len()
                &&& at <= first.len()
                &&& first.take(at) == #[trigger] second.take(at)
                &&& at == first.len() || ranks_before(first[at], second[at])
            };
        assert forall|i: int| 0 <= i < at implies first[i] == second[i] by {
            assert(first.take(at)[i] == second.take(at)[i]);
        }
        assert(components_part_at(first, second, at));
    }
}

} // verus!
