//! Why operations on model packs are refused.

use vstd::prelude::*;
use vstd::string::*;

use crate::cli::RuntimeEnvironment;
use crate::names::text_views;
use crate::pack::activation::rollback;
use crate::pack::command::{
    flag_takes_value, parse_command, requested_operations, syntax_fault, LifecycleCommand,
    Operation,
};
use crate::pack::command_laws::{
    is_asked_for, is_option_of, lemma_asked_for, lemma_options, stands_alone,
};
use crate::pack::error::{PackError, PackErrorView};
use crate::pack::import_laws::failure_code;
use crate::pack::records::PackTrack;
use crate::pack::scan::InstalledPack;
use crate::pack::state::{track_of, PackState};

verus! {

proof fn lemma_rollback_codes()
    ensures
        "pack_not_installed"@ != "rollback_unavailable"@,
        "pack_not_installed"@ != "pack_unhealthy"@,
        "rollback_unavailable"@ != "pack_unhealthy"@,
{
    reveal_strlit("pack_not_installed");
    reveal_strlit("rollback_unavailable");
    reveal_strlit("pack_unhealthy");
    assert("pack_not_installed"@[0] == 'p');
    assert("rollback_unavailable"@[0] == 'r');
    assert("pack_unhealthy"@[0] == 'p');
    assert("pack_not_installed"@.len() == 18);
    assert("pack_unhealthy"@.len() == 14);
}

/// A rollback is refused because no pack of the id is active, because none is kept from before, or because
/// one of the two is not healthy.
pub proof fn law_refused_rollbacks(installed: &Vec<InstalledPack>, id: &str)
    ensures
        forall|state: &mut PackState, result: Result<PackTrack, PackError>| #[trigger]
            call_ensures(rollback, (state, installed, id), result) ==> (result matches Err(error)
                ==> {
                let track = track_of((*state)@.packs, id@);
                &&& failure_code(error) == Some("pack_not_installed"@) <==> track is None
                &&& failure_code(error) == Some("rollback_unavailable"@) <==> track is Some
                    && track->Some_0.previous is None
                &&& failure_code(error) == Some("pack_unhealthy"@) <==> track is Some
                    && track->Some_0.previous is Some
            }),
{
    lemma_rollback_codes();
}

/// The code of a failure, by its value.
pub open spec fn code_of(error: PackErrorView) -> Option<Seq<char>> {
    match error {
        PackErrorView::Lifecycle(failure) => Some(failure.code),
        PackErrorView::Failed(_) => None,
    }
}

/// An argument is refused because it is no option at all, because it was given before, because it is an
/// option of another operation, or because its value is missing; which of these comes first decides.
pub proof fn law_refused_arguments_of_operations(
    arguments: Seq<String>,
    operation: Operation,
    position: int,
    seen: Seq<Seq<char>>,
)
    requires
        0 <= position < arguments.len(),
    ensures
        ({
            let flag = arguments[position]@;
            let fault = syntax_fault(text_views(arguments), operation, position, seen);
            let code = code_of(fault->Some_0);
            if forall|any: Operation| !is_option_of(flag, any) {
                fault is Some && code == Some("unknown_argument"@)
            } else if seen.contains(flag) {
                fault is Some && code == Some("duplicate_argument"@)
            } else if !is_option_of(flag, operation) {
                fault is Some && code == Some("unexpected_argument"@)
            } else if !stands_alone(flag) && (position + 1 >= arguments.len() || (
            arguments[position + 1]@.len() > 0 && arguments[position + 1]@[0] == '-')) {
                fault is Some && code == Some("missing_argument"@)
            } else {
                fault == syntax_fault(
                    text_views(arguments),
                    operation,
                    position + (if stands_alone(flag) {
                        1int
                    } else {
                        2
                    }),
                    seen.push(flag),
                )
            }
        }),
{
    let views = text_views(arguments);
    let flag = arguments[position]@;
    assert(views[position] == flag);
    if position + 1 < arguments.len() {
        assert(views[position + 1] == arguments[position + 1]@);
    }
    lemma_options(flag, operation);
    lemma_known(flag);
    if flag_takes_value(flag) is None {
        assert forall|any: Operation| !is_option_of(flag, any) by {
            lemma_options(flag, any);
        }
    }
}

/// Every known flag is an option of some operation.
proof fn lemma_known(flag: Seq<char>)
    ensures
        flag_takes_value(flag) is Some ==> exists|any: Operation| is_option_of(flag, any),
{
    if flag_takes_value(flag) is Some {
        let any = if flag == "--update-pack"@ {
            Operation::Update
        } else if flag == "--replace-pack"@ {
            Operation::Replace
        } else if flag == "--list-packs"@ {
            Operation::List
        } else if flag == "--pack-status"@ {
            Operation::Status
        } else if flag == "--doctor-pack"@ || flag == "--index"@ {
            Operation::Doctor
        } else if flag == "--rollback-pack"@ {
            Operation::Rollback
        } else if flag == "--remove-pack"@ || flag == "--remove-manifest"@ || flag
            == "--pack-version"@ || flag == "--pack-component"@ || flag == "--allow-active"@ {
            Operation::Remove
        } else if flag == "--repair-pack-state"@ {
            Operation::Repair
        } else {
            Operation::Install
        };
        assert(is_option_of(flag, any));
    }
}

/// Two operations at once are refused as conflicting.
pub proof fn law_conflicting_operations_are_told(
    arguments: &[String],
    environment: &RuntimeEnvironment,
    command: Result<Option<LifecycleCommand>, PackError>,
    operation: Operation,
    other: Operation,
)
    requires
        call_ensures(parse_command, (arguments, environment), command),
        is_asked_for(arguments@, operation),
        is_asked_for(arguments@, other),
        operation != other,
    ensures
        command matches Err(error) && failure_code(error) == Some("conflicting_operations"@),
{
    let all = requested_operations(text_views(arguments@), 0);
    lemma_asked_for(arguments@, operation);
    lemma_asked_for(arguments@, other);
    let i = choose|i: int| 0 <= i < all.len() && all[i] == operation;
    let j = choose|j: int| 0 <= j < all.len() && all[j] == other;
    assert(i != j);
}

} // verus!
