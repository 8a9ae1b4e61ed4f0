//! Which model-pack command the arguments ask for.

use vstd::prelude::*;
use vstd::string::*;

use crate::argument_laws::{
    is_chosen_runtime, is_given, is_given_value, lacks_value, lemma_given, lemma_given_value,
};
use crate::cli::{number_after, RuntimeEnvironment};
use crate::failure::Failure;
use crate::names::text_views;
use crate::pack::command::{
    flag_takes_value, law_syntax_is_strict, operation_allows, operation_flag, parse_command,
    requested_operation, requested_operations, syntax_fault, validate_lifecycle_syntax, ImportMode,
    LifecycleCommand, Operation,
};
use crate::pack::error::PackError;

verus! {

/// Whether a flag asks for an operation.
pub open spec fn asks_for(flag: Seq<char>, operation: Operation) -> bool {
    match operation {
        Operation::Install => flag == "--install-pack"@,
        Operation::Update => flag == "--update-pack"@,
        Operation::Replace => flag == "--replace-pack"@,
        Operation::List => flag == "--list-packs"@,
        Operation::Status => flag == "--pack-status"@,
        Operation::Doctor => flag == "--doctor-pack"@,
        Operation::Rollback => flag == "--rollback-pack"@,
        Operation::Remove => flag == "--remove-pack"@ || flag == "--remove-manifest"@,
        Operation::Repair => flag == "--repair-pack-state"@,
    }
}

/// Whether an operation is asked for.
pub open spec fn is_asked_for(arguments: Seq<String>, operation: Operation) -> bool {
    exists|flag: Seq<char>| #[trigger] is_given(arguments, flag) && asks_for(flag, operation)
}

proof fn lemma_operations(arguments: Seq<String>, position: int, at: int)
    requires
        0 <= position <= 10,
    ensures
        position <= at < 10 && is_given(arguments, operation_flag(at).0) ==> requested_operations(
            text_views(arguments),
            position,
        ).contains(operation_flag(at).1),
        forall|i: int|
            0 <= i < requested_operations(text_views(arguments), position).len() ==> is_asked_for(
                arguments,
                #[trigger] requested_operations(text_views(arguments), position)[i],
            ),
    decreases 10 - position,
{
    let views = text_views(arguments);
    if position < 10 {
        let (flag, operation) = operation_flag(position);
        lemma_operations(arguments, position + 1, at);
        lemma_given(arguments, flag);
        let later = requested_operations(views, position + 1);
        let all = requested_operations(views, position);
        assert(asks_for(flag, operation));
        if views.contains(flag) {
            assert(is_asked_for(arguments, operation));
            assert(all[0] == operation);
            assert forall|i: int| 0 <= i < all.len() implies is_asked_for(
                arguments,
                #[trigger] all[i],
            ) by {
                if i > 0 {
                    assert(all[i] == later[i - 1]);
                }
            }
            if position < at < 10 && is_given(arguments, operation_flag(at).0) {
                let k = choose|k: int| 0 <= k < later.len() && later[k] == operation_flag(at).1;
                assert(all[k + 1] == operation_flag(at).1);
            }
        }
    }
}

/// Which operations are asked for, in terms of the arguments.
pub proof fn lemma_asked_for(arguments: Seq<String>, operation: Operation)
    ensures
        is_asked_for(arguments, operation) <==> requested_operations(
            text_views(arguments),
            0,
        ).contains(operation),
{
    let all = requested_operations(text_views(arguments), 0);
    lemma_operations(arguments, 0, 0);
    if all.contains(operation) {
        let i = choose|i: int| 0 <= i < all.len() && all[i] == operation;
        assert(is_asked_for(arguments, all[i]));
    }
    if is_asked_for(arguments, operation) {
        let flag = choose|flag: Seq<char>| #[trigger]
            is_given(arguments, flag) && asks_for(flag, operation);
        let at: int = match operation {
            Operation::Install => 0,
            Operation::Update => 1,
            Operation::Replace => 2,
            Operation::List => 3,
            Operation::Status => 4,
            Operation::Doctor => 5,
            Operation::Rollback => 6,
            Operation::Remove => if flag == "--remove-pack"@ {
                7
            } else {
                8
            },
            Operation::Repair => 9,
        };
        lemma_operations(arguments, 0, at);
    }
}

/// The operation that is found is one that is asked for, and one is found if any is.
pub proof fn law_operations_are_found(
    arguments: &[String],
    operation: Option<Operation>,
    other: Operation,
)
    requires
        call_ensures(requested_operation, (arguments,), operation),
    ensures
        operation matches Some(operation) ==> is_asked_for(arguments@, operation),
        is_asked_for(arguments@, other) ==> operation is Some,
{
    let all = requested_operations(text_views(arguments@), 0);
    if operation is Some {
        assert(all[0] == operation->Some_0);
        assert(all.contains(operation->Some_0));
        lemma_asked_for(arguments@, operation->Some_0);
    }
    lemma_asked_for(arguments@, other);
}

/// Whether a mode of importing is asked for with a source.
pub open spec fn imports_from(arguments: Seq<String>, mode: ImportMode, source: Seq<char>) -> bool {
    match mode {
        ImportMode::Install => is_given_value(arguments, "--install-pack"@, source),
        ImportMode::Update => is_given_value(arguments, "--update-pack"@, source),
        ImportMode::Replace => is_given_value(arguments, "--replace-pack"@, source),
    }
}

/// Whether an optional value is that of a flag.
pub open spec fn is_value_of(
    arguments: Seq<String>,
    flag: Seq<char>,
    value: Option<String>,
) -> bool {
    match value {
        Some(value) => is_given_value(arguments, flag, value@),
        None => lacks_value(arguments, flag),
    }
}

/// Whether a number of threads is the one that was given, or four where none was.
pub open spec fn is_thread_count(given: Result<Option<usize>, Failure>, threads: usize) -> bool {
    &&& threads > 0
    &&& given matches Ok(number) && threads == (match number {
        Some(number) => number,
        None => 4,
    })
}

/// Whether a command does what was asked for.
pub open spec fn does_what_was_asked(
    arguments: Seq<String>,
    environment: RuntimeEnvironment,
    given: Result<Option<usize>, Failure>,
    command: LifecycleCommand,
) -> bool {
    match command {
        LifecycleCommand::Import { mode, source, models_dir, runtime, threads } => {
            &&& imports_from(arguments, mode, source@)
            &&& is_given_value(arguments, "--models-dir"@, models_dir@)
            &&& is_chosen_runtime(arguments, environment, runtime@)
            &&& is_thread_count(given, threads)
        },
        LifecycleCommand::List { models_dir } => {
            &&& is_asked_for(arguments, Operation::List)
            &&& is_given_value(arguments, "--models-dir"@, models_dir@)
        },
        LifecycleCommand::Status { models_dir, id } => {
            &&& is_given_value(arguments, "--pack-status"@, id@)
            &&& is_given_value(arguments, "--models-dir"@, models_dir@)
        },
        LifecycleCommand::Doctor { models_dir, id, runtime, index, threads } => {
            &&& is_given_value(arguments, "--doctor-pack"@, id@)
            &&& is_given_value(arguments, "--models-dir"@, models_dir@)
            &&& is_chosen_runtime(arguments, environment, runtime@)
            &&& is_given_value(arguments, "--index"@, index@)
            &&& is_thread_count(given, threads)
        },
        LifecycleCommand::Rollback { models_dir, id } => {
            &&& is_given_value(arguments, "--rollback-pack"@, id@)
            &&& is_given_value(arguments, "--models-dir"@, models_dir@)
        },
        LifecycleCommand::Remove { models_dir, id, version, component, allow_active } => {
            &&& is_given_value(arguments, "--remove-pack"@, id@)
            &&& is_given_value(arguments, "--models-dir"@, models_dir@)
            &&& is_value_of(arguments, "--pack-version"@, version)
            &&& is_value_of(arguments, "--pack-component"@, component)
            &&& version is Some <==> component is None
            &&& allow_active <==> is_given(arguments, "--allow-active"@)
        },
        LifecycleCommand::RemoveManifest { manifest } => {
            &&& is_given_value(arguments, "--remove-manifest"@, manifest@)
            &&& arguments.len() == 3
        },
        LifecycleCommand::Repair { models_dir, component } => {
            &&& is_asked_for(arguments, Operation::Repair)
            &&& is_given_value(arguments, "--models-dir"@, models_dir@)
            &&& is_value_of(arguments, "--pack-component"@, component)
        },
    }
}

/// A command does what was asked for, with the values that were given. There is none where nothing was
/// asked for, and never one where two operations were.
pub proof fn law_commands_do_what_was_asked(
    arguments: &[String],
    environment: &RuntimeEnvironment,
    command: Result<Option<LifecycleCommand>, PackError>,
    threads_flag: &str,
    given: Result<Option<usize>, Failure>,
    operation: Operation,
    other: Operation,
)
    requires
        call_ensures(parse_command, (arguments, environment), command),
        threads_flag@ == "--threads"@,
        call_ensures(number_after, (arguments, threads_flag), given),
    ensures
        command matches Ok(Some(command)) ==> does_what_was_asked(
            arguments@,
            *environment,
            given,
            command,
        ),
        command matches Ok(None) ==> !is_asked_for(arguments@, operation),
        is_asked_for(arguments@, operation) && is_asked_for(arguments@, other) && operation != other
            ==> command is Err,
{
    let views = text_views(arguments@);
    let all = requested_operations(views, 0);
    lemma_asked_for(arguments@, operation);
    lemma_asked_for(arguments@, other);
    if is_asked_for(arguments@, operation) && is_asked_for(arguments@, other) && operation != other {
        let i = choose|i: int| 0 <= i < all.len() && all[i] == operation;
        let j = choose|j: int| 0 <= j < all.len() && all[j] == other;
        assert(i != j);
        assert(all.len() != 1);
    }
    lemma_given_value(arguments@, "--install-pack"@);
    lemma_given_value(arguments@, "--update-pack"@);
    lemma_given_value(arguments@, "--replace-pack"@);
    lemma_given_value(arguments@, "--pack-status"@);
    lemma_given_value(arguments@, "--doctor-pack"@);
    lemma_given_value(arguments@, "--rollback-pack"@);
    lemma_given_value(arguments@, "--remove-pack"@);
    lemma_given_value(arguments@, "--remove-manifest"@);
    lemma_given_value(arguments@, "--models-dir"@);
    lemma_given_value(arguments@, "--runtime"@);
    lemma_given_value(arguments@, "--threads"@);
    lemma_given_value(arguments@, "--index"@);
    lemma_given_value(arguments@, "--pack-version"@);
    lemma_given_value(arguments@, "--pack-component"@);
    lemma_given(arguments@, "--allow-active"@);
    lemma_asked_for(arguments@, Operation::List);
    lemma_asked_for(arguments@, Operation::Repair);
    if command is Ok && command->Ok_0 is Some {
        assert(all.contains(all[0]));
    }
}

/// Whether an argument is an option of an operation.
pub open spec fn is_option_of(argument: Seq<char>, operation: Operation) -> bool {
    ||| asks_for(argument, operation)
    ||| argument == "--models-dir"@
    ||| argument == "--runtime"@ && (operation is Install || operation is Update
        || operation is Replace || operation is Doctor)
    ||| argument == "--threads"@ && (operation is Install || operation is Update
        || operation is Replace || operation is Doctor)
    ||| argument == "--index"@ && operation is Doctor
    ||| argument == "--pack-version"@ && operation is Remove
    ||| argument == "--pack-component"@ && (operation is Remove || operation is Repair)
    ||| argument == "--allow-active"@ && operation is Remove
}

/// Whether an option is given without a value.
pub open spec fn stands_alone(argument: Seq<char>) -> bool {
    argument == "--list-packs"@ || argument == "--allow-active"@ || argument
        == "--repair-pack-state"@
}

/// Which flags are options of an operation, and which of them stand alone.
pub proof fn lemma_options(argument: Seq<char>, operation: Operation)
    ensures
        operation_allows(operation, argument) ==> is_option_of(argument, operation),
        is_option_of(argument, operation) ==> operation_allows(operation, argument),
        flag_takes_value(argument) == Some(false) <==> stands_alone(argument),
        is_option_of(argument, operation) ==> flag_takes_value(argument) is Some,
{
}

/// Whether an argument is an option at one of the places, or the value of the option before it.
pub open spec fn is_covered(arguments: Seq<String>, places: Seq<int>, i: int) -> bool {
    places.contains(i) || (places.contains(i - 1) && !stands_alone(arguments[i - 1]@))
}

/// Where the options of a command stand: each is followed by its value, unless it stands alone.
pub open spec fn are_options(
    arguments: Seq<String>,
    operation: Operation,
    places: Seq<int>,
    from: int,
) -> bool {
    &&& forall|k: int|
        0 <= k < places.len() ==> from <= #[trigger] places[k] < arguments.len() && is_option_of(
            arguments[places[k]]@,
            operation,
        ) && (stands_alone(arguments[places[k]]@) || (places[k] + 1 < arguments.len() && !(
        arguments[places[k] + 1]@.len() > 0 && arguments[places[k] + 1]@[0] == '-')))
    &&& forall|k: int, l: int|
        0 <= k < l < places.len() ==> #[trigger] places[k] < #[trigger] places[l]
            && arguments[places[k]]@ != arguments[places[l]]@
    &&& forall|i: int| from <= i < arguments.len() ==> #[trigger] is_covered(arguments, places, i)
}

proof fn lemma_option_places(
    arguments: Seq<String>,
    operation: Operation,
    position: int,
    seen: Seq<Seq<char>>,
) -> (places: Seq<int>)
    requires
        0 <= position,
        syntax_fault(text_views(arguments), operation, position, seen) is None,
    ensures
        are_options(arguments, operation, places, position),
        forall|k: int|
            0 <= k < places.len() ==> !seen.contains(arguments[#[trigger] places[k]]@),
    decreases arguments.len() - position,
{
    let views = text_views(arguments);
    if position >= arguments.len() {
        Seq::empty()
    } else {
        let flag = arguments[position]@;
        assert(views[position] == flag);
        law_syntax_is_strict(views, operation, position, seen);
        lemma_options(flag, operation);
        let takes_value = flag_takes_value(flag)->Some_0;
        let next = position + if takes_value {
            2int
        } else {
            1int
        };
        let more = seen.push(flag);
        let later = lemma_option_places(arguments, operation, next, more);
        let places = seq![position] + later;
        if takes_value {
            assert(views[position + 1] == arguments[position + 1]@);
        }
        assert forall|k: int| 0 <= k < later.len() implies !seen.contains(
            arguments[#[trigger] later[k]]@,
        ) && arguments[later[k]]@ != flag by {
            let text = arguments[later[k]]@;
            assert(!more.contains(text));
            if seen.contains(text) {
                let m = choose|m: int| 0 <= m < seen.len() && seen[m] == text;
                assert(more[m] == text);
            }
            if text == flag {
                assert(more[seen.len() as int] == text);
            }
        }
        assert forall|k: int| 0 <= k < places.len() implies position <= #[trigger] places[k]
            < arguments.len() && is_option_of(arguments[places[k]]@, operation) && (stands_alone(
            arguments[places[k]]@,
        ) || (places[k] + 1 < arguments.len() && !(arguments[places[k] + 1]@.len() > 0
            && arguments[places[k] + 1]@[0] == '-'))) && !seen.contains(
            arguments[places[k]]@,
        ) by {
            if k > 0 {
                assert(places[k] == later[k - 1]);
            }
        }
        assert forall|k: int, l: int| 0 <= k < l < places.len() implies #[trigger] places[k]
            < #[trigger] places[l] && arguments[places[k]]@ != arguments[places[l]]@ by {
            assert(places[l] == later[l - 1]);
            if k > 0 {
                assert(places[k] == later[k - 1]);
            }
        }
        assert forall|i: int| position <= i < arguments.len() implies #[trigger] is_covered(
            arguments,
            places,
            i,
        ) by {
            if i == position {
                assert(places[0] == i);
            } else if i < next {
                assert(places[0] == i - 1);
            } else {
                assert(is_covered(arguments, later, i));
                if later.contains(i) {
                    let k = choose|k: int| 0 <= k < later.len() && later[k] == i;
                    assert(places[k + 1] == i);
                } else {
                    let k = choose|k: int| 0 <= k < later.len() && later[k] == i - 1;
                    assert(places[k + 1] == i - 1);
                }
            }
        }
        places
    }
}

/// The arguments of an operation are accepted only if each is an option of the operation or the value of
/// the option before it; no option is given twice, and no value looks like an option.
pub proof fn law_arguments_are_options(
    arguments: &[String],
    operation: Operation,
    result: Result<(), PackError>,
) -> (places: Seq<int>)
    requires
        call_ensures(validate_lifecycle_syntax, (arguments, operation), result),
        result is Ok,
    ensures
        are_options(arguments@, operation, places, 1),
{
    lemma_option_places(arguments@, operation, 1, Seq::empty())
}

/// An import carries out the operation of its mode.
pub proof fn law_imports_have_their_operation(mode: ImportMode, operation: Operation)
    requires
        call_ensures(ImportMode::operation, (mode,), operation),
    ensures
        mode is Install <==> operation is Install,
        mode is Update <==> operation is Update,
        mode is Replace <==> operation is Replace,
{
}

} // verus!
