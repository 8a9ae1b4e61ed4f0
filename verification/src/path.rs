//! Unix paths as text: their components, joining, parents and the forms that a model pack may use.

use vstd::prelude::*;
use vstd::slice::slice_subrange;
use vstd::string::*;

use crate::text;

verus! {

/// One component of a path.
#[derive(Debug, Clone)]
pub enum Component {
    RootDir,
    CurDir,
    ParentDir,
    Normal(String),
}

/// The value of a [`Component`].
pub enum ComponentView {
    RootDir,
    CurDir,
    ParentDir,
    Normal(Seq<char>),
}

impl View for Component {
    type V = ComponentView;

    open spec fn view(&self) -> ComponentView {
        match self {
            Component::RootDir => ComponentView::RootDir,
            Component::CurDir => ComponentView::CurDir,
            Component::ParentDir => ComponentView::ParentDir,
            Component::Normal(name) => ComponentView::Normal(name@),
        }
    }
}

/// The values of components.
pub open spec fn component_views(components: Seq<Component>) -> Seq<ComponentView> {
    components.map_values(|component: Component| component@)
}

/// Whether a path starts at the root.
pub open spec fn is_absolute(path: Seq<char>) -> bool {
    path.len() > 0 && path[0] == '/'
}

/// Where the first piece of a path ends: at its first separator, or at its end.
pub open spec fn piece_end(path: Seq<char>) -> int
    decreases path.len(),
{
    if path.len() == 0 || path[0] == '/' {
        0
    } else {
        1 + piece_end(path.drop_first())
    }
}

/// What a piece between separators stands for. Nothing and `.` stand for nothing, except that `.`
/// at the start of a relative path is a component.
pub open spec fn piece_component(piece: Seq<char>, leading: bool) -> Seq<ComponentView> {
    if piece.len() == 0 {
        Seq::empty()
    } else if piece == seq!['.'] {
        if leading {
            seq![ComponentView::CurDir]
        } else {
            Seq::empty()
        }
    } else if piece == seq!['.', '.'] {
        seq![ComponentView::ParentDir]
    } else {
        seq![ComponentView::Normal(piece)]
    }
}

/// The components of the pieces of a path.
pub open spec fn piece_components(path: Seq<char>, leading: bool) -> Seq<ComponentView>
    decreases path.len(),
{
    let end = piece_end(path);
    let here = piece_component(path.take(end), leading);
    if end == path.len() {
        here
    } else {
        proof {
            lemma_piece_end(path);
        }
        here + piece_components(path.skip(end + 1), false)
    }
}

/// The end of the first piece lies within the path, and is a separator unless it is the end.
pub proof fn lemma_piece_end(path: Seq<char>)
    ensures
        0 <= piece_end(path) <= path.len(),
        piece_end(path) < path.len() ==> path[piece_end(path)] == '/',
        forall|i: int| 0 <= i < piece_end(path) ==> path[i] != '/',
    decreases path.len(),
{
    if path.len() > 0 && path[0] != '/' {
        lemma_piece_end(path.drop_first());
        assert forall|i: int| 0 <= i < piece_end(path) implies path[i] != '/' by {
            if i > 0 {
                assert(path[i] == path.drop_first()[i - 1]);
            }
        }
    }
}

/// The components of a path.
pub open spec fn path_components(path: Seq<char>) -> Seq<ComponentView> {
    if is_absolute(path) {
        seq![ComponentView::RootDir] + piece_components(path, false)
    } else {
        piece_components(path, true)
    }
}

fn push_piece(components: &mut Vec<Component>, piece: &[char], leading: bool)
    ensures
        component_views(final(components)@) == component_views(old(components)@)
            + piece_component(piece@, leading),
{
    let ghost before = components@;
    if piece.len() == 0 {
    } else if piece.len() == 1 && piece[0] == '.' {
        assert(piece@ =~= seq!['.']);
        if leading {
            components.push(Component::CurDir);
        }
    } else if piece.len() == 2 && piece[0] == '.' && piece[1] == '.' {
        assert(piece@ =~= seq!['.', '.']);
        components.push(Component::ParentDir);
    } else {
        components.push(Component::Normal(text::from_characters(piece)));
        assert(piece@ != seq!['.']);
        assert(piece@ != seq!['.', '.']);
    }
    assert(component_views(components@) =~= component_views(before) + piece_component(
        piece@,
        leading,
    ));
}

/// Splits a path into its components.
pub fn components(path: &str) -> (components: Vec<Component>)
    ensures
        component_views(components@) == path_components(path@),
{
    let chars = text::characters(path);
    let mut components: Vec<Component> = Vec::new();
    let mut leading = true;
    if chars.len() > 0 && chars[0] == '/' {
        components.push(Component::RootDir);
        leading = false;
        assert(component_views(components@) =~= seq![ComponentView::RootDir]);
    }
    let mut start: usize = 0;
    proof {
        assert(path@.skip(0) =~= path@);
        lemma_piece_end(path@);
        assert(component_views(components@) + piece_components(path@, leading)
            =~= path_components(path@));
    }
    loop
        invariant
            chars@ == path@,
            start <= chars@.len(),
            component_views(components@) + piece_components(path@.skip(start as int), leading)
                == path_components(path@),
        decreases chars@.len() - start,
    {
        let ghost rest = path@.skip(start as int);
        let mut end: usize = start;
        assert(path@.skip(end as int) =~= rest);
        while end < chars.len() && chars[end] != '/'
            invariant
                chars@ == path@,
                start <= end <= chars@.len(),
                rest == path@.skip(start as int),
                piece_end(rest) == (end - start) + piece_end(path@.skip(end as int)),
            decreases chars@.len() - end,
        {
            assert(path@.skip(end as int).drop_first() =~= path@.skip(end + 1));
            end = end + 1;
        }
        assert(piece_end(path@.skip(end as int)) == 0);
        let piece = slice_subrange(chars.as_slice(), start, end);
        assert(piece@ =~= rest.take(piece_end(rest)));
        let ghost before = component_views(components@);
        push_piece(&mut components, piece, leading);
        if end == chars.len() {
            return components;
        }
        proof {
            let tail = path@.skip(end + 1);
            lemma_piece_end(tail);
            assert(rest.skip(piece_end(rest) + 1) =~= tail);
            assert(component_views(components@) + piece_components(tail, false) =~= before + (
            piece_component(piece@, leading) + piece_components(tail, false)));
        }
        start = end + 1;
        leading = false;
    }
}

/// Whether a component is an ordinary name.
pub open spec fn is_normal(component: ComponentView) -> bool {
    component is Normal
}

/// Whether a path is relative, names something and never climbs.
pub open spec fn is_safe_relative(path: Seq<char>) -> bool {
    let parts = path_components(path);
    &&& path.len() > 0
    &&& !is_absolute(path)
    &&& forall|i: int|
        0 <= i < parts.len() ==> #[trigger] parts[i] is Normal || parts[i] is CurDir
    &&& exists|i: int| 0 <= i < parts.len() && is_normal(#[trigger] parts[i])
}

/// Whether a path of a model pack stays within the pack.
pub fn safe_relative(path: &str) -> (safe: bool)
    ensures
        safe == is_safe_relative(path@),
{
    let chars = text::characters(path);
    if chars.len() == 0 || chars[0] == '/' {
        return false;
    }
    let parts = components(path);
    let ghost views = path_components(path@);
    let mut named = false;
    let mut position: usize = 0;
    while position < parts.len()
        invariant
            views == component_views(parts@),
            views == path_components(path@),
            position <= parts@.len(),
            forall|i: int|
                0 <= i < position ==> #[trigger] views[i] is Normal || views[i] is CurDir,
            named == exists|i: int| 0 <= i < position && is_normal(#[trigger] views[i]),
        decreases parts@.len() - position,
    {
        assert(views[position as int] == parts@[position as int]@);
        match &parts[position] {
            Component::Normal(_) => {
                assert(is_normal(views[position as int]));
                named = true;
            },
            Component::CurDir => {},
            _ => {
                assert(!(views[position as int] is Normal || views[position as int] is CurDir));
                return false;
            },
        }
        position = position + 1;
    }
    named
}

/// Whether a path is relative and never climbs.
pub open spec fn is_safe_archive_path(path: Seq<char>) -> bool {
    let parts = path_components(path);
    &&& !is_absolute(path)
    &&& forall|i: int|
        0 <= i < parts.len() ==> !(#[trigger] parts[i] is ParentDir) && !(parts[i] is RootDir)
}

/// Whether an archive entry is extracted within the directory it is extracted to.
pub fn safe_archive_path(path: &str) -> (safe: bool)
    ensures
        safe == is_safe_archive_path(path@),
{
    let chars = text::characters(path);
    if chars.len() > 0 && chars[0] == '/' {
        return false;
    }
    let parts = components(path);
    let ghost views = path_components(path@);
    let mut position: usize = 0;
    while position < parts.len()
        invariant
            views == component_views(parts@),
            views == path_components(path@),
            !is_absolute(path@),
            position <= parts@.len(),
            forall|i: int|
                0 <= i < position ==> !(#[trigger] views[i] is ParentDir) && !(views[i] is RootDir),
        decreases parts@.len() - position,
    {
        assert(views[position as int] == parts@[position as int]@);
        match &parts[position] {
            Component::ParentDir | Component::RootDir => {
                assert(views[position as int] is ParentDir || views[position as int] is RootDir);
                return false;
            },
            _ => {},
        }
        position = position + 1;
    }
    true
}

/// Whether a text is one ordinary path component.
pub open spec fn is_safe_component(component: Seq<char>) -> bool {
    path_components(component).len() == 1 && path_components(component)[0] is Normal
}

/// Whether a text can name a directory of its own below the model directory.
pub fn safe_component(component: &str) -> (safe: bool)
    ensures
        safe == is_safe_component(component@),
{
    let parts = components(component);
    let ghost views = path_components(component@);
    assert(views == component_views(parts@));
    if parts.len() != 1 {
        return false;
    }
    assert(views[0] == parts@[0]@);
    matches!(&parts[0], Component::Normal(_))
}

/// The last component of a path, where it is an ordinary name.
pub open spec fn path_file_name(path: Seq<char>) -> Option<Seq<char>> {
    let parts = path_components(path);
    if parts.len() == 0 {
        None
    } else {
        match parts.last() {
            ComponentView::Normal(name) => Some(name),
            _ => None,
        }
    }
}

/// The last component of a path, where it is an ordinary name.
pub fn file_name(path: &str) -> (name: Option<String>)
    ensures
        match (name, path_file_name(path@)) {
            (Some(name), Some(expected)) => name@ == expected,
            (None, None) => true,
            _ => false,
        },
{
    let mut parts = components(path);
    let ghost views = path_components(path@);
    assert(views == component_views(parts@));
    assert(parts@.len() > 0 ==> views.last() == parts@.last()@);
    match parts.pop() {
        Some(Component::Normal(name)) => Some(name),
        _ => None,
    }
}

/// A path below a root; an absolute path replaces the root.
pub open spec fn joined_path(root: Seq<char>, path: Seq<char>) -> Seq<char> {
    if is_absolute(path) {
        path
    } else if root.len() == 0 || root.last() == '/' {
        root + path
    } else {
        root + "/"@ + path
    }
}

/// Joins a path to a root.
pub fn join_path(root: &str, path: &str) -> (joined: String)
    ensures
        joined@ == joined_path(root@, path@),
{
    let chars = text::characters(path);
    if chars.len() > 0 && chars[0] == '/' {
        return path.to_owned();
    }
    let base = text::characters(root);
    if base.len() == 0 || base[base.len() - 1] == '/' {
        return text::join(root, path);
    }
    text::join(text::join(root, "/").as_str(), path)
}

/// Where a file of a model pack stands: an absolute path as it is, any other below the pack.
pub fn resolve(root: &str, path: &str) -> (resolved: String)
    ensures
        resolved@ == joined_path(root@, path@),
{
    join_path(root, path)
}

/// A path without the separators and `.` pieces at its end.
pub open spec fn stripped_path(path: Seq<char>) -> Seq<char>
    decreases path.len(),
{
    if path.len() > 1 && path.last() == '/' {
        stripped_path(path.drop_last())
    } else if path.len() > 1 && path.last() == '.' && path[path.len() - 2] == '/' {
        stripped_path(path.drop_last())
    } else {
        path
    }
}

/// Where the last piece of a path starts: after its last separator, or at its start.
pub open spec fn last_piece_start(path: Seq<char>) -> int
    decreases path.len(),
{
    if path.len() == 0 || path.last() == '/' {
        path.len() as int
    } else {
        last_piece_start(path.drop_last())
    }
}

/// A path without its last component, where that is not the root.
pub open spec fn path_parent(path: Seq<char>) -> Option<Seq<char>> {
    let stripped = stripped_path(path);
    if stripped.len() == 0 || stripped == seq!['/'] {
        None
    } else {
        Some(stripped_path(stripped.take(last_piece_start(stripped))))
    }
}

fn strip_length(chars: &Vec<char>, length: usize) -> (kept: usize)
    requires
        length <= chars@.len(),
    ensures
        kept <= length,
        chars@.take(kept as int) == stripped_path(chars@.take(length as int)),
{
    let mut kept: usize = length;
    while kept > 1 && (chars[kept - 1] == '/' || (chars[kept - 1] == '.' && chars[kept - 2] == '/'))
        invariant
            kept <= length <= chars@.len(),
            stripped_path(chars@.take(length as int)) == stripped_path(chars@.take(kept as int)),
        decreases kept,
    {
        assert(chars@.take(kept as int).drop_last() =~= chars@.take(kept - 1));
        kept = kept - 1;
    }
    kept
}

/// The directory that a path stands in.
pub fn parent(path: &str) -> (directory: Option<String>)
    ensures
        match (directory, path_parent(path@)) {
            (Some(directory), Some(expected)) => directory@ == expected,
            (None, None) => true,
            _ => false,
        },
{
    let chars = text::characters(path);
    assert(chars@.take(chars@.len() as int) =~= path@);
    let length: usize = strip_length(&chars, chars.len());
    let ghost stripped = chars@.take(length as int);
    if length == 0 {
        return None;
    }
    if length == 1 && chars[0] == '/' {
        assert(stripped =~= seq!['/']);
        return None;
    }
    proof {
        if stripped == seq!['/'] {
            assert(stripped[0] == chars@[0]);
        }
    }
    let mut start: usize = length;
    while start > 0 && chars[start - 1] != '/'
        invariant
            start <= length <= chars@.len(),
            stripped == chars@.take(length as int),
            last_piece_start(stripped) == last_piece_start(chars@.take(start as int)),
        decreases start,
    {
        assert(chars@.take(start as int).drop_last() =~= chars@.take(start - 1));
        start = start - 1;
    }
    assert(last_piece_start(stripped) == start);
    assert(stripped.take(start as int) =~= chars@.take(start as int));
    let kept: usize = strip_length(&chars, start);
    let directory = text::from_characters(slice_subrange(chars.as_slice(), 0, kept));
    assert(directory@ =~= chars@.take(kept as int));
    Some(directory)
}

/// Whether a path begins with the components of another.
pub open spec fn is_within(path: Seq<char>, root: Seq<char>) -> bool {
    let own = path_components(path);
    let outer = path_components(root);
    outer.len() <= own.len() && own.take(outer.len() as int) == outer
}

fn same_component(left: &Component, right: &Component) -> (same: bool)
    ensures
        same == (left@ == right@),
{
    match (left, right) {
        (Component::RootDir, Component::RootDir) => true,
        (Component::CurDir, Component::CurDir) => true,
        (Component::ParentDir, Component::ParentDir) => true,
        (Component::Normal(left), Component::Normal(right)) => text::same(
            left.as_str(),
            right.as_str(),
        ),
        _ => false,
    }
}

/// Tells whether a path begins with the components of another.
pub fn within(path: &str, root: &str) -> (b: bool)
    ensures
        b == is_within(path@, root@),
{
    let own = components(path);
    let outer = components(root);
    let ghost own_views = component_views(own@);
    let ghost outer_views = component_views(outer@);
    if outer.len() > own.len() {
        assert(outer_views.len() > own_views.len());
        return false;
    }
    let mut position: usize = 0;
    while position < outer.len()
        invariant
            own_views == component_views(own@),
            outer_views == component_views(outer@),
            own_views == path_components(path@),
            outer_views == path_components(root@),
            outer@.len() <= own@.len(),
            position <= outer@.len(),
            forall|i: int| 0 <= i < position ==> own_views[i] == outer_views[i],
        decreases outer@.len() - position,
    {
        proof {
            assert(own_views[position as int] == own@[position as int]@);
            assert(outer_views[position as int] == outer@[position as int]@);
        }
        if !same_component(&own[position], &outer[position]) {
            assert(own_views.take(outer_views.len() as int)[position as int]
                != outer_views[position as int]);
            return false;
        }
        position = position + 1;
    }
    assert(own_views.take(outer_views.len() as int) =~= outer_views);
    true
}

/// The rank of a component among those of another sort.
pub open spec fn component_rank(component: ComponentView) -> int {
    match component {
        ComponentView::RootDir => 0,
        ComponentView::CurDir => 1,
        ComponentView::ParentDir => 2,
        ComponentView::Normal(_) => 3,
    }
}

/// The order of components: by their rank, names by their text.
pub open spec fn component_precedes(left: ComponentView, right: ComponentView) -> bool {
    match (left, right) {
        (ComponentView::Normal(left), ComponentView::Normal(right)) => text::precedes(left, right),
        _ => component_rank(left) < component_rank(right),
    }
}

/// Whether components agree before `at`, and the left ones come first there.
pub open spec fn components_part_at(
    left: Seq<ComponentView>,
    right: Seq<ComponentView>,
    at: int,
) -> bool {
    &&& 0 <= at <= left.len()
    &&& at < right.len()
    &&& forall|i: int| 0 <= i < at ==> left[i] == right[i]
    &&& at == left.len() || component_precedes(left[at], right[at])
}

/// The order of paths: component by component.
pub open spec fn path_precedes(left: Seq<char>, right: Seq<char>) -> bool {
    exists|at: int| components_part_at(path_components(left), path_components(right), at)
}

/// Whether two paths have the same components.
pub open spec fn is_same_path(left: Seq<char>, right: Seq<char>) -> bool {
    path_components(left) == path_components(right)
}

proof fn lemma_component_order(
    first: ComponentView,
    second: ComponentView,
    third: ComponentView,
)
    ensures
        !component_precedes(first, first),
        first == second || component_precedes(first, second) || component_precedes(second, first),
        component_precedes(first, second) && component_precedes(second, third)
            ==> component_precedes(first, third),
{
    match (first, second, third) {
        (
            ComponentView::Normal(a),
            ComponentView::Normal(b),
            ComponentView::Normal(c),
        ) => {
            text::law_order_irreflexive(a);
            text::law_order_total(a, b);
            if text::precedes(a, b) && text::precedes(b, c) {
                text::law_order_transitive(a, b, c);
            }
        },
        (ComponentView::Normal(a), ComponentView::Normal(b), _) => {
            text::law_order_irreflexive(a);
            text::law_order_total(a, b);
        },
        (ComponentView::Normal(a), _, _) => {
            text::law_order_irreflexive(a);
        },
        _ => {},
    }
}

/// The order of paths is strict and transitive, and paths that do not have the same components are
/// in it.
pub proof fn law_path_order(first: Seq<char>, second: Seq<char>, third: Seq<char>)
    ensures
        !path_precedes(first, first),
        path_precedes(first, second) && path_precedes(second, third) ==> path_precedes(
            first,
            third,
        ),
        is_same_path(first, second) || path_precedes(first, second) || path_precedes(second, first),
        is_same_path(first, second) ==> !path_precedes(first, second),
{
    let a = path_components(first);
    let b = path_components(second);
    let c = path_components(third);
    assert forall|at: int| !components_part_at(a, a, at) by {
        if components_part_at(a, a, at) {
            lemma_component_order(a[at], a[at], a[at]);
        }
    }
    if path_precedes(first, second) && path_precedes(second, third) {
        let k = choose|at: int| components_part_at(a, b, at);
        let l = choose|at: int| components_part_at(b, c, at);
        if k < l {
            assert(components_part_at(a, c, k));
        } else if l < k {
            assert(components_part_at(a, c, l));
        } else {
            if k < a.len() {
                lemma_component_order(a[k], b[k], c[k]);
            }
            assert(components_part_at(a, c, k));
        }
    }
    lemma_path_total_from(a, b, 0);
}

proof fn lemma_path_total_from(left: Seq<ComponentView>, right: Seq<ComponentView>, at: int)
    requires
        0 <= at <= left.len(),
        at <= right.len(),
        forall|i: int| 0 <= i < at ==> left[i] == right[i],
    ensures
        left == right || (exists|k: int| components_part_at(left, right, k)) || (exists|k: int|
            components_part_at(right, left, k)),
    decreases left.len() - at,
{
    if at < left.len() && at < right.len() {
        lemma_component_order(left[at], right[at], left[at]);
        if left[at] == right[at] {
            lemma_path_total_from(left, right, at + 1);
        } else if component_precedes(left[at], right[at]) {
            assert(components_part_at(left, right, at));
        } else {
            assert(components_part_at(right, left, at));
        }
    } else if at < right.len() {
        assert(components_part_at(left, right, at));
    } else if at < left.len() {
        assert(components_part_at(right, left, at));
    } else {
        assert(left =~= right);
    }
}

fn component_before(left: &Component, right: &Component) -> (b: bool)
    ensures
        b == component_precedes(left@, right@),
{
    match (left, right) {
        (Component::Normal(left), Component::Normal(right)) => text::before(
            left.as_str(),
            right.as_str(),
        ),
        _ => rank(left) < rank(right),
    }
}

fn rank(component: &Component) -> (rank: u8)
    ensures
        rank == component_rank(component@),
{
    match component {
        Component::RootDir => 0,
        Component::CurDir => 1,
        Component::ParentDir => 2,
        Component::Normal(_) => 3,
    }
}

/// How two paths stand to each other.
#[derive(Debug, Clone, Copy, PartialEq, Eq, Structural)]
pub enum PathOrder {
    Before,
    Same,
    After,
}

/// Compares two paths.
pub fn path_order(left: &str, right: &str) -> (order: PathOrder)
    ensures
        match order {
            PathOrder::Before => path_precedes(left@, right@),
            PathOrder::Same => is_same_path(left@, right@),
            PathOrder::After => path_precedes(right@, left@),
        },
{
    let first = components(left);
    let second = components(right);
    let ghost a = component_views(first@);
    let ghost b = component_views(second@);
    let mut at: usize = 0;
    while at < first.len() && at < second.len()
        invariant
            a == component_views(first@),
            b == component_views(second@),
            a == path_components(left@),
            b == path_components(right@),
            at <= first@.len(),
            at <= second@.len(),
            forall|i: int| 0 <= i < at ==> a[i] == b[i],
        decreases first@.len() - at,
    {
        proof {
            assert(a[at as int] == first@[at as int]@);
            assert(b[at as int] == second@[at as int]@);
            lemma_component_order(a[at as int], b[at as int], a[at as int]);
        }
        if component_before(&first[at], &second[at]) {
            assert(components_part_at(a, b, at as int));
            return PathOrder::Before;
        }
        if component_before(&second[at], &first[at]) {
            assert(components_part_at(b, a, at as int));
            return PathOrder::After;
        }
        at = at + 1;
    }
    if at < second.len() {
        assert(components_part_at(a, b, at as int));
        PathOrder::Before
    } else if at < first.len() {
        assert(components_part_at(b, a, at as int));
        PathOrder::After
    } else {
        assert(a =~= b);
        PathOrder::Same
    }
}

} // verus!
