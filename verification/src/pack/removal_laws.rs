//! What selecting a pack for removal comes to.

use vstd::prelude::*;
use vstd::string::*;

use crate::pack::activation::{borrowed, is_meant, meant_packs, select_removal};
use crate::pack::error::{PackError, PackErrorView};
use crate::pack::scan::{installed_views, InstalledPack, InstalledView, PackRole};
use crate::selection::lemma_only;

verus! {

proof fn lemma_meant(
    installed: Seq<InstalledView>,
    id: Seq<char>,
    version: Option<Seq<char>>,
    component: Option<Seq<char>>,
)
    ensures
        meant_packs(installed, id, version, component) == installed.filter(
            |pack: InstalledView| is_meant(pack, id, version, component),
        ),
    decreases installed.len(),
{
    reveal(Seq::filter);
    if installed.len() > 0 {
        lemma_meant(installed.drop_last(), id, version, component);
    } else {
        assert(meant_packs(installed, id, version, component) =~= installed.filter(
            |pack: InstalledView| is_meant(pack, id, version, component),
        ));
    }
}

/// Whether an installed pack has an id, and the version and the component that are asked for, where
/// they are.
pub open spec fn answers_to(
    pack: InstalledPack,
    id: &str,
    version: Option<&str>,
    component: Option<&str>,
) -> bool {
    &&& pack.id@ == id@
    &&& version matches Some(version) ==> pack.version@ == version@
    &&& component matches Some(component) ==> pack.component@ == component@
}

/// A pack is selected for removal if and only if it is the only one that answers to what was asked
/// for, and it is not active, unless that was allowed. Otherwise the code of the failure tells
/// whether none answers, more than one does, or the only one is active.
pub proof fn law_removal_spares_the_active(
    installed: &Vec<InstalledPack>,
    id: &str,
    version: Option<&str>,
    component: Option<&str>,
    allow_active: bool,
    target: Result<usize, PackError>,
)
    requires
        call_ensures(select_removal, (installed, id, version, component, allow_active), target),
    ensures
        target matches Ok(position) ==> {
            &&& position < installed@.len()
            &&& answers_to(installed@[position as int], id, version, component)
            &&& installed@[position as int].role == PackRole::Active ==> allow_active
            &&& forall|i: int|
                0 <= i < installed@.len() && answers_to(
                    #[trigger] installed@[i],
                    id,
                    version,
                    component,
                ) ==> installed@[i]@ == installed@[position as int]@
        },
        target matches Err(error) ==> (error@ matches PackErrorView::Lifecycle(error) && {
            ||| error.code == "pack_not_found"@ && forall|i: int|
                0 <= i < installed@.len() ==> !answers_to(
                    #[trigger] installed@[i],
                    id,
                    version,
                    component,
                )
            ||| error.code == "ambiguous_remove"@ && exists|i: int, j: int|
                0 <= i < j < installed@.len() && answers_to(
                    #[trigger] installed@[i],
                    id,
                    version,
                    component,
                ) && answers_to(#[trigger] installed@[j], id, version, component)
            ||| error.code == "active_pack"@ && !allow_active && exists|i: int|
                0 <= i < installed@.len() && answers_to(
                    #[trigger] installed@[i],
                    id,
                    version,
                    component,
                ) && installed@[i].role == PackRole::Active
        }),
        forall|i: int, j: int|
            0 <= i < j < installed@.len() && answers_to(
                #[trigger] installed@[i],
                id,
                version,
                component,
            ) && answers_to(#[trigger] installed@[j], id, version, component) ==> target is Err,
{
    let views = installed_views(installed@);
    let wanted = |pack: InstalledView| is_meant(pack, id@, borrowed(version), borrowed(component));
    lemma_meant(views, id@, borrowed(version), borrowed(component));
    let meant = meant_packs(views, id@, borrowed(version), borrowed(component));
    assert(meant == views.filter(wanted));
    let at = lemma_only(views, wanted);
    assert forall|i: int| 0 <= i < installed@.len() implies (wanted(#[trigger] views[i])
        <==> answers_to(installed@[i], id, version, component)) && views[i] == installed@[i]@ by {
    }
    assert forall|i: int| 0 <= i < installed@.len() && answers_to(
        #[trigger] installed@[i],
        id,
        version,
        component,
    ) implies wanted(views[i]) by {
    }
    if meant.len() > 0 {
        assert(answers_to(installed@[at], id, version, component));
        if meant.len() > 1 {
            let other = choose|i: int| 0 <= i < views.len() && wanted(#[trigger] views[i]) && i != at;
            assert(answers_to(installed@[other], id, version, component));
        }
    }
    if target is Ok {
        let position = target->Ok_0 as int;
        assert(views[position] == views[at]);
        assert(wanted(views[position]));
    }
}

} // verus!
