//! What operations, prepared files and failures are called.

use vstd::prelude::*;
use vstd::string::*;

use crate::failure::Failure;
use crate::pack::activation::publish_failure;
use crate::pack::command::Operation;
use crate::pack::contents::command_failure;
use crate::pack::error::PackError;
use crate::pack::import_laws::failure_code;
use crate::pack::repair::repair_not_needed;
use crate::pack::scan::{PackIssue, Severity};
use crate::pack::transaction::{corrupt_backup_name, state_temp_name, work_directory_name};
use crate::text::{decimal, decimal_text, trim};

verus! {

/// Every operation has the name under which it is asked for.
pub proof fn law_operations_have_names(operation: Operation, name: &'static str)
    requires
        call_ensures(Operation::name, (operation,), name),
    ensures
        name@ == (match operation {
            Operation::Install => "install"@,
            Operation::Update => "update"@,
            Operation::Replace => "replace"@,
            Operation::List => "list"@,
            Operation::Status => "status"@,
            Operation::Doctor => "doctor"@,
            Operation::Rollback => "rollback"@,
            Operation::Remove => "remove"@,
            Operation::Repair => "repair"@,
        }),
{
}

/// What a change prepares is called after the process and a number of its own.
pub proof fn law_prepared_things_have_names(
    process: u64,
    sequence: u64,
    process_text: String,
    sequence_text: String,
    work: String,
    ledger: String,
    backup: String,
)
    requires
        call_ensures(decimal, (process,), process_text),
        call_ensures(decimal, (sequence,), sequence_text),
        call_ensures(work_directory_name, (process, sequence), work),
        call_ensures(state_temp_name, (process, sequence), ledger),
        call_ensures(corrupt_backup_name, (process, sequence), backup),
    ensures
        work@ == ".skwd-model-import-"@ + process_text@ + "-"@ + sequence_text@ + ".tmp"@,
        ledger@ == ".skwd-model-packs-state-"@ + process_text@ + "-"@ + sequence_text@ + ".tmp"@,
        backup@ == ".skwd-model-packs-corrupt-"@ + process_text@ + "-"@ + sequence_text@ + ".json"@,
{
}

proof fn lemma_digits_part(
    first: Seq<char>,
    second: Seq<char>,
    other_first: Seq<char>,
    other_second: Seq<char>,
)
    requires
        crate::text_laws::are_digits(first),
        crate::text_laws::are_digits(other_first),
        first + seq!['-'] + second == other_first + seq!['-'] + other_second,
    ensures
        first == other_first && second == other_second,
{
    let whole = first + seq!['-'] + second;
    let other = other_first + seq!['-'] + other_second;
    assert(whole[first.len() as int] == '-');
    assert(other[other_first.len() as int] == '-');
    if first.len() < other_first.len() {
        assert(other[first.len() as int] == other_first[first.len() as int]);
        assert('0' <= other_first[first.len() as int]);
    }
    if other_first.len() < first.len() {
        assert(whole[other_first.len() as int] == first[other_first.len() as int]);
        assert('0' <= first[other_first.len() as int]);
    }
    assert(first =~= whole.take(first.len() as int));
    assert(other_first =~= other.take(first.len() as int));
    assert(second =~= whole.skip(first.len() + 1int));
    assert(other_second =~= other.skip(first.len() + 1int));
}

/// No two changes prepare under the same name.
pub proof fn law_prepared_names_are_distinct(
    process: u64,
    sequence: u64,
    other_process: u64,
    other_sequence: u64,
    work: String,
    other_work: String,
)
    requires
        call_ensures(work_directory_name, (process, sequence), work),
        call_ensures(work_directory_name, (other_process, other_sequence), other_work),
        work@ == other_work@,
    ensures
        process == other_process && sequence == other_sequence,
{
    reveal_strlit("-");
    assert("-"@ =~= seq!['-']);
    let front = ".skwd-model-import-"@;
    let end = ".tmp"@;
    let first = decimal_text(process as nat);
    let second = decimal_text(sequence as nat);
    let other_first = decimal_text(other_process as nat);
    let other_second = decimal_text(other_sequence as nat);
    crate::text_laws::lemma_decimal(process as nat);
    crate::text_laws::lemma_decimal(sequence as nat);
    crate::text_laws::lemma_decimal(other_process as nat);
    crate::text_laws::lemma_decimal(other_sequence as nat);
    let middle = first + seq!['-'] + second;
    let other_middle = other_first + seq!['-'] + other_second;
    assert(work@ =~= front + middle + end);
    assert(other_work@ =~= front + other_middle + end);
    assert(middle =~= work@.subrange(front.len() as int, work@.len() - end.len()));
    assert(other_middle =~= other_work@.subrange(front.len() as int, work@.len() - end.len()));
    lemma_digits_part(first, second, other_first, other_second);
}

/// An issue is what it was made as: an error or a warning, with its code, message and hint.
pub proof fn law_issues_are_what_they_were_made_as(
    code: &str,
    message: &str,
    hint: &str,
    error: PackIssue,
    warning: PackIssue,
)
    requires
        call_ensures(PackIssue::error, (code, message, hint), error),
        call_ensures(PackIssue::warning, (code, message, hint), warning),
    ensures
        error.severity == Severity::Error && warning.severity == Severity::Warning,
        error.code@ == code@ && error.message@ == message@ && error.hint@ == hint@,
        warning.code@ == code@ && warning.message@ == message@ && warning.hint@ == hint@,
{
}

/// A failure is what it was made as, and is shown by its message.
pub proof fn law_coded_failures_are_shown_by_their_message(
    code: &str,
    message: &str,
    hint: &str,
    error: PackError,
    shown: String,
)
    requires
        call_ensures(PackError::coded, (code, message, hint), error),
        call_ensures(PackError::chain, (&error,), shown),
    ensures
        failure_code(error) == Some(code@),
        shown@ == message@,
        error matches PackError::Lifecycle(failure) && failure.hint@ == hint@,
{
}

/// An import whose ledger could not be written, and a repair that nothing calls for, fail with codes of
/// their own.
pub proof fn law_special_failures_have_codes(
    destination: &str,
    error: &str,
    unpublished: PackError,
    unneeded: PackError,
)
    requires
        call_ensures(publish_failure, (destination, error), unpublished),
        call_ensures(repair_not_needed, (), unneeded),
    ensures
        failure_code(unpublished) == Some("state_publish_failed"@),
        unpublished matches PackError::Lifecycle(failure) && failure.message@
            == "pack files were retained inactive at "@ + destination@
            + " but activation failed: "@ + error@,
        failure_code(unneeded) == Some("state_not_corrupt"@),
{
}

/// A command that failed is told with what it printed, if it printed anything.
pub proof fn law_failed_commands_are_told(
    operation: &str,
    printed: &str,
    failure: Failure,
    trimmed: String,
)
    requires
        call_ensures(command_failure, (operation, printed), failure),
        call_ensures(trim, (printed,), trimmed),
    ensures
        trimmed@.len() == 0 ==> failure.message@ == "cannot "@ + operation@,
        trimmed@.len() > 0 ==> failure.message@ == "cannot "@ + operation@ + ": "@ + trimmed@,
{
}

} // verus!
