//! The command line of the model-pack operations.

use vstd::prelude::*;
use vstd::string::*;

use crate::cli::{
    argument_after, argument_number, chosen_runtime, has_flag, number_after, number_or,
    select_runtime, value_after, RuntimeEnvironment,
};
use crate::names::{contains_text, text_views};
use crate::pack::error::{coded, uncoded, PackError, PackErrorView};
use crate::text;

verus! {

/// How an imported pack relates to what is installed.
#[derive(Debug, Clone, Copy, PartialEq, Eq, Structural)]
pub enum ImportMode {
    Install,
    Update,
    Replace,
}

/// A model-pack operation.
#[derive(Debug, Clone, Copy, PartialEq, Eq, Structural)]
pub enum Operation {
    Install,
    Update,
    Replace,
    List,
    Status,
    Doctor,
    Rollback,
    Remove,
    Repair,
}

impl ImportMode {
    /// The operation that an import carries out.
    pub open spec fn spec_operation(self) -> Operation {
        match self {
            ImportMode::Install => Operation::Install,
            ImportMode::Update => Operation::Update,
            ImportMode::Replace => Operation::Replace,
        }
    }

    /// The operation that an import carries out.
    pub fn operation(self) -> (operation: Operation)
        ensures
            operation == self.spec_operation(),
    {
        match self {
            ImportMode::Install => Operation::Install,
            ImportMode::Update => Operation::Update,
            ImportMode::Replace => Operation::Replace,
        }
    }
}

impl Operation {
    /// The name of an operation.
    pub open spec fn spec_name(self) -> Seq<char> {
        match self {
            Operation::Install => "install"@,
            Operation::Update => "update"@,
            Operation::Replace => "replace"@,
            Operation::List => "list"@,
            Operation::Status => "status"@,
            Operation::Doctor => "doctor"@,
            Operation::Rollback => "rollback"@,
            Operation::Remove => "remove"@,
            Operation::Repair => "repair"@,
        }
    }

    /// The name of an operation.
    pub fn name(self) -> (name: &'static str)
        ensures
            name@ == self.spec_name(),
    {
        match self {
            Operation::Install => "install",
            Operation::Update => "update",
            Operation::Replace => "replace",
            Operation::List => "list",
            Operation::Status => "status",
            Operation::Doctor => "doctor",
            Operation::Rollback => "rollback",
            Operation::Remove => "remove",
            Operation::Repair => "repair",
        }
    }
}

/// How many flags ask for an operation.
pub const OPERATION_FLAGS: usize = 10;

/// The flags that ask for an operation, in the order in which they are looked for.
pub open spec fn operation_flag(position: int) -> (Seq<char>, Operation) {
    if position == 0 {
        ("--install-pack"@, Operation::Install)
    } else if position == 1 {
        ("--update-pack"@, Operation::Update)
    } else if position == 2 {
        ("--replace-pack"@, Operation::Replace)
    } else if position == 3 {
        ("--list-packs"@, Operation::List)
    } else if position == 4 {
        ("--pack-status"@, Operation::Status)
    } else if position == 5 {
        ("--doctor-pack"@, Operation::Doctor)
    } else if position == 6 {
        ("--rollback-pack"@, Operation::Rollback)
    } else if position == 7 {
        ("--remove-pack"@, Operation::Remove)
    } else if position == 8 {
        ("--remove-manifest"@, Operation::Remove)
    } else {
        ("--repair-pack-state"@, Operation::Repair)
    }
}

fn flag_at(position: usize) -> (flag: (&'static str, Operation))
    ensures
        (flag.0@, flag.1) == operation_flag(position as int),
{
    if position == 0 {
        ("--install-pack", Operation::Install)
    } else if position == 1 {
        ("--update-pack", Operation::Update)
    } else if position == 2 {
        ("--replace-pack", Operation::Replace)
    } else if position == 3 {
        ("--list-packs", Operation::List)
    } else if position == 4 {
        ("--pack-status", Operation::Status)
    } else if position == 5 {
        ("--doctor-pack", Operation::Doctor)
    } else if position == 6 {
        ("--rollback-pack", Operation::Rollback)
    } else if position == 7 {
        ("--remove-pack", Operation::Remove)
    } else if position == 8 {
        ("--remove-manifest", Operation::Remove)
    } else {
        ("--repair-pack-state", Operation::Repair)
    }
}

/// The operations that the flags from `position` on ask for.
pub open spec fn requested_operations(arguments: Seq<Seq<char>>, position: int) -> Seq<Operation>
    decreases OPERATION_FLAGS - position,
{
    if position >= OPERATION_FLAGS {
        Seq::empty()
    } else {
        let (flag, operation) = operation_flag(position);
        let later = requested_operations(arguments, position + 1);
        if arguments.contains(flag) {
            seq![operation] + later
        } else {
            later
        }
    }
}

fn collect_operations(arguments: &[String]) -> (operations: Vec<Operation>)
    ensures
        operations@ == requested_operations(text_views(arguments@), 0),
{
    let ghost views = text_views(arguments@);
    let mut operations: Vec<Operation> = Vec::new();
    let mut position: usize = 0;
    assert(operations@ + requested_operations(views, 0) =~= requested_operations(views, 0));
    while position < OPERATION_FLAGS
        invariant
            views == text_views(arguments@),
            position <= OPERATION_FLAGS,
            operations@ + requested_operations(views, position as int) == requested_operations(
                views,
                0,
            ),
        decreases OPERATION_FLAGS - position,
    {
        let (flag, operation) = flag_at(position);
        let ghost before = operations@;
        let ghost later = requested_operations(views, position + 1);
        if has_flag(arguments, flag) {
            operations.push(operation);
            assert(before + (seq![operation] + later) =~= operations@ + later);
        }
        position = position + 1;
    }
    assert(operations@ + Seq::<Operation>::empty() =~= operations@);
    operations
}

/// The first operation that is asked for.
pub fn requested_operation(arguments: &[String]) -> (operation: Option<Operation>)
    ensures
        operation == (if requested_operations(text_views(arguments@), 0).len() == 0 {
            None::<Operation>
        } else {
            Some(requested_operations(text_views(arguments@), 0)[0])
        }),
{
    let operations = collect_operations(arguments);
    if operations.len() == 0 {
        None
    } else {
        Some(operations[0])
    }
}

/// Whether a flag is known, and whether a value follows it.
pub open spec fn flag_takes_value(flag: Seq<char>) -> Option<bool> {
    if flag == "--list-packs"@ || flag == "--allow-active"@ || flag == "--repair-pack-state"@ {
        Some(false)
    } else if flag == "--install-pack"@ || flag == "--update-pack"@ || flag == "--replace-pack"@
        || flag == "--pack-status"@ || flag == "--doctor-pack"@ || flag == "--rollback-pack"@
        || flag == "--remove-pack"@ || flag == "--remove-manifest"@ || flag == "--models-dir"@
        || flag == "--runtime"@ || flag == "--threads"@ || flag == "--index"@ || flag
        == "--pack-version"@ || flag == "--pack-component"@ {
        Some(true)
    } else {
        None
    }
}

fn takes_value(flag: &str) -> (takes: Option<bool>)
    ensures
        takes == flag_takes_value(flag@),
{
    if text::same(flag, "--list-packs") || text::same(flag, "--allow-active") || text::same(
        flag,
        "--repair-pack-state",
    ) {
        Some(false)
    } else if text::same(flag, "--install-pack") || text::same(flag, "--update-pack")
        || text::same(flag, "--replace-pack") || text::same(flag, "--pack-status") || text::same(
        flag,
        "--doctor-pack",
    ) || text::same(flag, "--rollback-pack") || text::same(flag, "--remove-pack") || text::same(
        flag,
        "--remove-manifest",
    ) || text::same(flag, "--models-dir") || text::same(flag, "--runtime") || text::same(
        flag,
        "--threads",
    ) || text::same(flag, "--index") || text::same(flag, "--pack-version") || text::same(
        flag,
        "--pack-component",
    ) {
        Some(true)
    } else {
        None
    }
}

/// Whether an operation has an option.
pub open spec fn operation_allows(operation: Operation, flag: Seq<char>) -> bool {
    ||| flag == "--models-dir"@
    ||| match operation {
        Operation::Install => flag == "--install-pack"@ || flag == "--runtime"@ || flag
            == "--threads"@,
        Operation::Update => flag == "--update-pack"@ || flag == "--runtime"@ || flag
            == "--threads"@,
        Operation::Replace => flag == "--replace-pack"@ || flag == "--runtime"@ || flag
            == "--threads"@,
        Operation::List => flag == "--list-packs"@,
        Operation::Status => flag == "--pack-status"@,
        Operation::Doctor => flag == "--doctor-pack"@ || flag == "--runtime"@ || flag
            == "--threads"@ || flag == "--index"@,
        Operation::Rollback => flag == "--rollback-pack"@,
        Operation::Remove => flag == "--remove-pack"@ || flag == "--remove-manifest"@ || flag
            == "--pack-version"@ || flag == "--pack-component"@ || flag == "--allow-active"@,
        Operation::Repair => flag == "--repair-pack-state"@ || flag == "--pack-component"@,
    }
}

fn allows(operation: Operation, flag: &str) -> (allowed: bool)
    ensures
        allowed == operation_allows(operation, flag@),
{
    if text::same(flag, "--models-dir") {
        return true;
    }
    match operation {
        Operation::Install => text::same(flag, "--install-pack") || text::same(flag, "--runtime")
            || text::same(flag, "--threads"),
        Operation::Update => text::same(flag, "--update-pack") || text::same(flag, "--runtime")
            || text::same(flag, "--threads"),
        Operation::Replace => text::same(flag, "--replace-pack") || text::same(flag, "--runtime")
            || text::same(flag, "--threads"),
        Operation::List => text::same(flag, "--list-packs"),
        Operation::Status => text::same(flag, "--pack-status"),
        Operation::Doctor => text::same(flag, "--doctor-pack") || text::same(flag, "--runtime")
            || text::same(flag, "--threads") || text::same(flag, "--index"),
        Operation::Rollback => text::same(flag, "--rollback-pack"),
        Operation::Remove => text::same(flag, "--remove-pack") || text::same(
            flag,
            "--remove-manifest",
        ) || text::same(flag, "--pack-version") || text::same(flag, "--pack-component")
            || text::same(flag, "--allow-active"),
        Operation::Repair => text::same(flag, "--repair-pack-state") || text::same(
            flag,
            "--pack-component",
        ),
    }
}

/// Whether a text can be the value of a flag, rather than another flag.
pub open spec fn is_value(argument: Seq<char>) -> bool {
    !(argument.len() > 0 && argument[0] == '-')
}

/// What is wrong with the arguments from `position` on, after the flags `seen` before them.
pub open spec fn syntax_fault(
    arguments: Seq<Seq<char>>,
    operation: Operation,
    position: int,
    seen: Seq<Seq<char>>,
) -> Option<PackErrorView>
    decreases arguments.len() - position,
{
    if position >= arguments.len() {
        None
    } else {
        let flag = arguments[position];
        match flag_takes_value(flag) {
            None => Some(
                coded(
                    "unknown_argument"@,
                    "unknown model-pack argument: "@ + flag,
                    "use only the options documented for the selected lifecycle operation"@,
                ),
            ),
            Some(takes_value) => if seen.contains(flag) {
                Some(
                    coded(
                        "duplicate_argument"@,
                        "model-pack argument was supplied more than once: "@ + flag,
                        "pass each operation and option exactly once"@,
                    ),
                )
            } else if !operation_allows(operation, flag) {
                Some(
                    coded(
                        "unexpected_argument"@,
                        flag + " is not valid for "@ + operation.spec_name(),
                        "use only the options documented for the selected lifecycle operation"@,
                    ),
                )
            } else if !takes_value {
                syntax_fault(arguments, operation, position + 1, seen.push(flag))
            } else if position + 1 >= arguments.len() || !is_value(arguments[position + 1]) {
                Some(
                    coded(
                        "missing_argument"@,
                        "use "@ + flag + " <value>"@,
                        "pass every path and identifier as a separate argument; prefix dash-leading paths with ./"@,
                    ),
                )
            } else {
                syntax_fault(arguments, operation, position + 2, seen.push(flag))
            },
        }
    }
}

fn could_be_value(argument: &str) -> (value: bool)
    ensures
        value == is_value(argument@),
{
    let chars = text::characters(argument);
    !(chars.len() > 0 && chars[0] == '-')
}

/// Checks that the arguments are the options of an operation, each once and with its value.
pub fn validate_lifecycle_syntax(arguments: &[String], operation: Operation) -> (result: Result<
    (),
    PackError,
>)
    ensures
        match (result, syntax_fault(text_views(arguments@), operation, 1, Seq::empty())) {
            (Ok(_), None) => true,
            (Err(error), Some(fault)) => error@ == fault,
            _ => false,
        },
{
    let ghost views = text_views(arguments@);
    let mut seen: Vec<String> = Vec::new();
    assert(text_views(seen@) =~= Seq::<Seq<char>>::empty());
    let mut position: usize = 1;
    while position < arguments.len()
        invariant
            views == text_views(arguments@),
            1 <= position,
            syntax_fault(views, operation, 1, Seq::empty()) == syntax_fault(
                views,
                operation,
                position as int,
                text_views(seen@),
            ),
        decreases arguments@.len() - position,
    {
        assert(views[position as int] == arguments@[position as int]@);
        let flag = arguments[position].as_str();
        let takes = match takes_value(flag) {
            Some(takes) => takes,
            None => {
                let message = text::join("unknown model-pack argument: ", flag);
                return Err(
                    PackError::coded(
                        "unknown_argument",
                        message.as_str(),
                        "use only the options documented for the selected lifecycle operation",
                    ),
                );
            },
        };
        if contains_text(&seen, flag) {
            let message = text::join("model-pack argument was supplied more than once: ", flag);
            return Err(
                PackError::coded(
                    "duplicate_argument",
                    message.as_str(),
                    "pass each operation and option exactly once",
                ),
            );
        }
        let ghost before = text_views(seen@);
        seen.push(arguments[position].clone());
        assert(text_views(seen@) =~= before.push(flag@));
        if !allows(operation, flag) {
            let message = text::join(
                text::join(flag, " is not valid for ").as_str(),
                operation.name(),
            );
            return Err(
                PackError::coded(
                    "unexpected_argument",
                    message.as_str(),
                    "use only the options documented for the selected lifecycle operation",
                ),
            );
        }
        if !takes {
            position = position + 1;
            continue ;
        }
        let left: usize = arguments.len() - position;
        let valued = left > 1 && could_be_value(arguments[position + 1].as_str());
        if !valued {
            assert(left > 1 ==> views[position + 1] == arguments@[position + 1]@);
            let message = text::join(text::join("use ", flag).as_str(), " <value>");
            return Err(
                PackError::coded(
                    "missing_argument",
                    message.as_str(),
                    "pass every path and identifier as a separate argument; prefix dash-leading paths with ./",
                ),
            );
        }
        assert(views[position + 1] == arguments@[position + 1]@);
        if left == 2 {
            assert(syntax_fault(views, operation, position + 2, text_views(seen@)) is None);
            return Ok(());
        }
        position = position + 2;
    }
    Ok(())
}

/// A model-pack command.
#[derive(Debug, Clone)]
pub enum LifecycleCommand {
    Import {
        mode: ImportMode,
        source: String,
        models_dir: String,
        runtime: String,
        threads: usize,
    },
    List { models_dir: String },
    Status { models_dir: String, id: String },
    Doctor { models_dir: String, id: String, runtime: String, index: String, threads: usize },
    Rollback { models_dir: String, id: String },
    Remove {
        models_dir: String,
        id: String,
        version: Option<String>,
        component: Option<String>,
        allow_active: bool,
    },
    RemoveManifest { manifest: String },
    Repair { models_dir: String, component: Option<String> },
}

/// The value of a [`LifecycleCommand`].
pub enum CommandView {
    Import {
        mode: ImportMode,
        source: Seq<char>,
        models_dir: Seq<char>,
        runtime: Seq<char>,
        threads: nat,
    },
    List { models_dir: Seq<char> },
    Status { models_dir: Seq<char>, id: Seq<char> },
    Doctor {
        models_dir: Seq<char>,
        id: Seq<char>,
        runtime: Seq<char>,
        index: Seq<char>,
        threads: nat,
    },
    Rollback { models_dir: Seq<char>, id: Seq<char> },
    Remove {
        models_dir: Seq<char>,
        id: Seq<char>,
        version: Option<Seq<char>>,
        component: Option<Seq<char>>,
        allow_active: bool,
    },
    RemoveManifest { manifest: Seq<char> },
    Repair { models_dir: Seq<char>, component: Option<Seq<char>> },
}

impl View for LifecycleCommand {
    type V = CommandView;

    open spec fn view(&self) -> CommandView {
        match self {
            LifecycleCommand::Import { mode, source, models_dir, runtime, threads } =>
                CommandView::Import {
                mode: *mode,
                source: source@,
                models_dir: models_dir@,
                runtime: runtime@,
                threads: *threads as nat,
            },
            LifecycleCommand::List { models_dir } => CommandView::List { models_dir: models_dir@ },
            LifecycleCommand::Status { models_dir, id } => CommandView::Status {
                models_dir: models_dir@,
                id: id@,
            },
            LifecycleCommand::Doctor { models_dir, id, runtime, index, threads } =>
                CommandView::Doctor {
                models_dir: models_dir@,
                id: id@,
                runtime: runtime@,
                index: index@,
                threads: *threads as nat,
            },
            LifecycleCommand::Rollback { models_dir, id } => CommandView::Rollback {
                models_dir: models_dir@,
                id: id@,
            },
            LifecycleCommand::Remove { models_dir, id, version, component, allow_active } =>
                CommandView::Remove {
                models_dir: models_dir@,
                id: id@,
                version: text::optional(*version),
                component: text::optional(*component),
                allow_active: *allow_active,
            },
            LifecycleCommand::RemoveManifest { manifest } => CommandView::RemoveManifest {
                manifest: manifest@,
            },
            LifecycleCommand::Repair { models_dir, component } => CommandView::Repair {
                models_dir: models_dir@,
                component: text::optional(*component),
            },
        }
    }
}

/// The failure of a flag without its value.
pub open spec fn missing_value(flag: Seq<char>) -> PackErrorView {
    coded(
        "missing_argument"@,
        "use "@ + flag + " <value>"@,
        "pass every path and identifier as a separate argument"@,
    )
}

/// The failure of a command that needs a runtime and has none.
pub open spec fn missing_runtime() -> PackErrorView {
    coded(
        "runtime_required"@,
        "use --runtime <libonnxruntime.so> or SKWD_LENS_ORT_DYLIB"@,
        "doctor and imports load both model sessions against the selected CPU runtime"@,
    )
}

/// The import that a flag asks for.
pub open spec fn import_command(
    arguments: Seq<Seq<char>>,
    environment: RuntimeEnvironment,
    mode: ImportMode,
    flag: Seq<char>,
    models_dir: Seq<char>,
    threads: nat,
) -> Result<CommandView, PackErrorView> {
    match argument_after(arguments, flag) {
        None => Err(missing_value(flag)),
        Some(source) => match chosen_runtime(arguments, environment) {
            None => Err(missing_runtime()),
            Some(runtime) => Ok(
                CommandView::Import { mode, source, models_dir, runtime, threads },
            ),
        },
    }
}

/// The command of an operation, once the model directory and the number of threads are known.
pub open spec fn operation_command(
    arguments: Seq<Seq<char>>,
    environment: RuntimeEnvironment,
    operation: Operation,
    models_dir: Seq<char>,
    threads: nat,
) -> Result<CommandView, PackErrorView> {
    match operation {
        Operation::Install => import_command(
            arguments,
            environment,
            ImportMode::Install,
            "--install-pack"@,
            models_dir,
            threads,
        ),
        Operation::Update => import_command(
            arguments,
            environment,
            ImportMode::Update,
            "--update-pack"@,
            models_dir,
            threads,
        ),
        Operation::Replace => import_command(
            arguments,
            environment,
            ImportMode::Replace,
            "--replace-pack"@,
            models_dir,
            threads,
        ),
        Operation::List => Ok(CommandView::List { models_dir }),
        Operation::Status => match argument_after(arguments, "--pack-status"@) {
            None => Err(missing_value("--pack-status"@)),
            Some(id) => Ok(CommandView::Status { models_dir, id }),
        },
        Operation::Doctor => match argument_after(arguments, "--doctor-pack"@) {
            None => Err(missing_value("--doctor-pack"@)),
            Some(id) => match chosen_runtime(arguments, environment) {
                None => Err(missing_runtime()),
                Some(runtime) => match argument_after(arguments, "--index"@) {
                    None => Err(missing_value("--index"@)),
                    Some(index) => Ok(
                        CommandView::Doctor { models_dir, id, runtime, index, threads },
                    ),
                },
            },
        },
        Operation::Rollback => match argument_after(arguments, "--rollback-pack"@) {
            None => Err(missing_value("--rollback-pack"@)),
            Some(id) => Ok(CommandView::Rollback { models_dir, id }),
        },
        Operation::Remove => {
            let version = argument_after(arguments, "--pack-version"@);
            let component = argument_after(arguments, "--pack-component"@);
            if version is Some == component is Some {
                Err(
                    coded(
                        "ambiguous_remove"@,
                        "remove requires exactly one of --pack-version or --pack-component"@,
                        "use status to copy the exact inactive component when a version has revisions"@,
                    ),
                )
            } else {
                match argument_after(arguments, "--remove-pack"@) {
                    None => Err(missing_value("--remove-pack"@)),
                    Some(id) => Ok(
                        CommandView::Remove {
                            models_dir,
                            id,
                            version,
                            component,
                            allow_active: arguments.contains("--allow-active"@),
                        },
                    ),
                }
            }
        },
        Operation::Repair => Ok(
            CommandView::Repair {
                models_dir,
                component: argument_after(arguments, "--pack-component"@),
            },
        ),
    }
}

/// The failure of more than one operation at once.
pub open spec fn conflicting_operations() -> PackErrorView {
    coded(
        "conflicting_operations"@,
        "model-pack lifecycle operations are mutually exclusive"@,
        "run one of install, update, replace, list, status, doctor, rollback, remove, or repair"@,
    )
}

/// The command of an operation.
pub open spec fn operation_arguments(
    arguments: Seq<Seq<char>>,
    environment: RuntimeEnvironment,
    operation: Operation,
) -> Result<CommandView, PackErrorView> {
    match argument_after(arguments, "--remove-manifest"@) {
        Some(manifest) => if arguments.len() != 3 {
            Err(uncoded("--remove-manifest accepts only the model manifest path"@))
        } else {
            Ok(CommandView::RemoveManifest { manifest })
        },
        None => match argument_after(arguments, "--models-dir"@) {
            None => Err(missing_value("--models-dir"@)),
            Some(models_dir) => match argument_number(arguments, "--threads"@) {
                Err(failure) => Err(PackErrorView::Failed(failure)),
                Ok(threads) => if number_or(threads, 4) == 0 {
                    Err(uncoded("--threads must be positive"@))
                } else {
                    operation_command(
                        arguments,
                        environment,
                        operation,
                        models_dir,
                        number_or(threads, 4),
                    )
                },
            },
        },
    }
}

/// The model-pack command that the arguments ask for, if they ask for one.
pub open spec fn requested_command(
    arguments: Seq<Seq<char>>,
    environment: RuntimeEnvironment,
) -> Result<Option<CommandView>, PackErrorView> {
    let operations = requested_operations(arguments, 0);
    if operations.len() == 0 {
        Ok(None)
    } else if operations.len() != 1 {
        Err(conflicting_operations())
    } else {
        match syntax_fault(arguments, operations[0], 1, Seq::empty()) {
            Some(fault) => Err(fault),
            None => match operation_arguments(arguments, environment, operations[0]) {
                Ok(command) => Ok(Some(command)),
                Err(error) => Err(error),
            },
        }
    }
}

fn required_value(arguments: &[String], flag: &str) -> (value: Result<String, PackError>)
    ensures
        match (value, argument_after(text_views(arguments@), flag@)) {
            (Ok(value), Some(expected)) => value@ == expected,
            (Err(error), None) => error@ == missing_value(flag@),
            _ => false,
        },
{
    match value_after(arguments, flag) {
        Some(value) => Ok(value.clone()),
        None => {
            let message = text::join(text::join("use ", flag).as_str(), " <value>");
            Err(
                PackError::coded(
                    "missing_argument",
                    message.as_str(),
                    "pass every path and identifier as a separate argument",
                ),
            )
        },
    }
}

fn optional_value(arguments: &[String], flag: &str) -> (value: Option<String>)
    ensures
        text::optional(value) == argument_after(text_views(arguments@), flag@),
{
    match value_after(arguments, flag) {
        Some(value) => Some(value.clone()),
        None => None,
    }
}

fn runtime_path(arguments: &[String], environment: &RuntimeEnvironment) -> (path: Result<
    String,
    PackError,
>)
    ensures
        match (path, chosen_runtime(text_views(arguments@), *environment)) {
            (Ok(path), Some(expected)) => path@ == expected,
            (Err(error), None) => error@ == missing_runtime(),
            _ => false,
        },
{
    match select_runtime(arguments, environment) {
        Some(path) => Ok(path),
        None => Err(
            PackError::coded(
                "runtime_required",
                "use --runtime <libonnxruntime.so> or SKWD_LENS_ORT_DYLIB",
                "doctor and imports load both model sessions against the selected CPU runtime",
            ),
        ),
    }
}

fn parse_import(
    arguments: &[String],
    environment: &RuntimeEnvironment,
    mode: ImportMode,
    flag: &str,
    models_dir: String,
    threads: usize,
) -> (command: Result<LifecycleCommand, PackError>)
    ensures
        match (
            command,
            import_command(
                text_views(arguments@),
                *environment,
                mode,
                flag@,
                models_dir@,
                threads as nat,
            ),
        ) {
            (Ok(command), Ok(expected)) => command@ == expected,
            (Err(error), Err(expected)) => error@ == expected,
            _ => false,
        },
{
    let source = match required_value(arguments, flag) {
        Ok(source) => source,
        Err(error) => return Err(error),
    };
    match runtime_path(arguments, environment) {
        Ok(runtime) => Ok(
            LifecycleCommand::Import { mode, source, models_dir, runtime, threads },
        ),
        Err(error) => Err(error),
    }
}

fn parse_doctor(
    arguments: &[String],
    environment: &RuntimeEnvironment,
    models_dir: String,
    threads: usize,
) -> (command: Result<LifecycleCommand, PackError>)
    ensures
        match (
            command,
            operation_command(
                text_views(arguments@),
                *environment,
                Operation::Doctor,
                models_dir@,
                threads as nat,
            ),
        ) {
            (Ok(command), Ok(expected)) => command@ == expected,
            (Err(error), Err(expected)) => error@ == expected,
            _ => false,
        },
{
    let id = match required_value(arguments, "--doctor-pack") {
        Ok(id) => id,
        Err(error) => return Err(error),
    };
    let runtime = match runtime_path(arguments, environment) {
        Ok(runtime) => runtime,
        Err(error) => return Err(error),
    };
    match required_value(arguments, "--index") {
        Ok(index) => Ok(LifecycleCommand::Doctor { models_dir, id, runtime, index, threads }),
        Err(error) => Err(error),
    }
}

fn parse_remove(arguments: &[String], models_dir: String) -> (command: Result<
    LifecycleCommand,
    PackError,
>)
    ensures
        forall|environment: RuntimeEnvironment, threads: nat|
            match (
                command,
                #[trigger] operation_command(
                    text_views(arguments@),
                    environment,
                    Operation::Remove,
                    models_dir@,
                    threads,
                ),
            ) {
                (Ok(command), Ok(expected)) => command@ == expected,
                (Err(error), Err(expected)) => error@ == expected,
                _ => false,
            },
{
    let version = optional_value(arguments, "--pack-version");
    let component = optional_value(arguments, "--pack-component");
    if version.is_some() == component.is_some() {
        return Err(
            PackError::coded(
                "ambiguous_remove",
                "remove requires exactly one of --pack-version or --pack-component",
                "use status to copy the exact inactive component when a version has revisions",
            ),
        );
    }
    match required_value(arguments, "--remove-pack") {
        Ok(id) => {
            let allow_active = has_flag(arguments, "--allow-active");
            Ok(LifecycleCommand::Remove { models_dir, id, version, component, allow_active })
        },
        Err(error) => Err(error),
    }
}

fn parse_operation(
    arguments: &[String],
    environment: &RuntimeEnvironment,
    operation: Operation,
    models_dir: String,
    threads: usize,
) -> (command: Result<LifecycleCommand, PackError>)
    ensures
        match (
            command,
            operation_command(
                text_views(arguments@),
                *environment,
                operation,
                models_dir@,
                threads as nat,
            ),
        ) {
            (Ok(command), Ok(expected)) => command@ == expected,
            (Err(error), Err(expected)) => error@ == expected,
            _ => false,
        },
{
    match operation {
        Operation::Install => parse_import(
            arguments,
            environment,
            ImportMode::Install,
            "--install-pack",
            models_dir,
            threads,
        ),
        Operation::Update => parse_import(
            arguments,
            environment,
            ImportMode::Update,
            "--update-pack",
            models_dir,
            threads,
        ),
        Operation::Replace => parse_import(
            arguments,
            environment,
            ImportMode::Replace,
            "--replace-pack",
            models_dir,
            threads,
        ),
        Operation::List => Ok(LifecycleCommand::List { models_dir }),
        Operation::Status => match required_value(arguments, "--pack-status") {
            Ok(id) => Ok(LifecycleCommand::Status { models_dir, id }),
            Err(error) => Err(error),
        },
        Operation::Doctor => parse_doctor(arguments, environment, models_dir, threads),
        Operation::Rollback => match required_value(arguments, "--rollback-pack") {
            Ok(id) => Ok(LifecycleCommand::Rollback { models_dir, id }),
            Err(error) => Err(error),
        },
        Operation::Remove => parse_remove(arguments, models_dir),
        Operation::Repair => {
            let component = optional_value(arguments, "--pack-component");
            Ok(LifecycleCommand::Repair { models_dir, component })
        },
    }
}

/// Reads a model-pack command, if the arguments ask for one.
pub fn parse_command(arguments: &[String], environment: &RuntimeEnvironment) -> (command: Result<
    Option<LifecycleCommand>,
    PackError,
>)
    ensures
        match (command, requested_command(text_views(arguments@), *environment)) {
            (Ok(Some(command)), Ok(Some(expected))) => command@ == expected,
            (Ok(None), Ok(None)) => true,
            (Err(error), Err(expected)) => error@ == expected,
            _ => false,
        },
{
    let operations = collect_operations(arguments);
    if operations.len() == 0 {
        return Ok(None);
    }
    if operations.len() != 1 {
        return Err(
            PackError::coded(
                "conflicting_operations",
                "model-pack lifecycle operations are mutually exclusive",
                "run one of install, update, replace, list, status, doctor, rollback, remove, or repair",
            ),
        );
    }
    let operation = operations[0];
    if let Err(error) = validate_lifecycle_syntax(arguments, operation) {
        return Err(error);
    }
    if let Some(manifest) = value_after(arguments, "--remove-manifest") {
        if arguments.len() != 3 {
            return Err(
                PackError::uncoded("--remove-manifest accepts only the model manifest path"),
            );
        }
        return Ok(Some(LifecycleCommand::RemoveManifest { manifest: manifest.clone() }));
    }
    let models_dir = match required_value(arguments, "--models-dir") {
        Ok(models_dir) => models_dir,
        Err(error) => return Err(error),
    };
    let threads: usize = match number_after(arguments, "--threads") {
        Ok(Some(threads)) => threads,
        Ok(None) => 4,
        Err(failure) => return Err(PackError::Failed(failure)),
    };
    if threads == 0 {
        return Err(PackError::uncoded("--threads must be positive"));
    }
    match parse_operation(arguments, environment, operation, models_dir, threads) {
        Ok(command) => Ok(Some(command)),
        Err(error) => Err(error),
    }
}

proof fn lemma_requested_operations(arguments: Seq<Seq<char>>, position: int, asked: int)
    requires
        0 <= position <= asked < OPERATION_FLAGS,
        arguments.contains(operation_flag(asked).0),
    ensures
        requested_operations(arguments, position).len() >= 1,
    decreases OPERATION_FLAGS - position,
{
    if position < asked {
        lemma_requested_operations(arguments, position + 1, asked);
    }
}

proof fn lemma_two_operations(
    arguments: Seq<Seq<char>>,
    position: int,
    first: int,
    second: int,
)
    requires
        0 <= position <= first < second < OPERATION_FLAGS,
        arguments.contains(operation_flag(first).0),
        arguments.contains(operation_flag(second).0),
    ensures
        requested_operations(arguments, position).len() >= 2,
    decreases OPERATION_FLAGS - position,
{
    if position < first {
        lemma_two_operations(arguments, position + 1, first, second);
    } else {
        lemma_requested_operations(arguments, position + 1, second);
    }
}

/// Two operations at once are refused, whatever else is given.
pub proof fn law_operations_are_exclusive(
    arguments: Seq<Seq<char>>,
    environment: RuntimeEnvironment,
    first: int,
    second: int,
)
    requires
        0 <= first < second < OPERATION_FLAGS,
        arguments.contains(operation_flag(first).0),
        arguments.contains(operation_flag(second).0),
    ensures
        requested_command(arguments, environment) == Err::<Option<CommandView>, PackErrorView>(
            conflicting_operations(),
        ),
{
    lemma_two_operations(arguments, 0, first, second);
}

/// Whether a command has positive threads where it uses any, and names exactly one of a version
/// and a component where it removes a pack.
pub open spec fn is_complete_command(command: CommandView) -> bool {
    match command {
        CommandView::Import { threads, .. } => threads > 0,
        CommandView::Doctor { threads, .. } => threads > 0,
        CommandView::Remove { version, component, .. } => version is Some != component is Some,
        _ => true,
    }
}

/// An accepted command is complete, comes only where an operation was asked for, and a removal by
/// manifest comes with nothing else.
pub proof fn law_accepted_command(arguments: Seq<Seq<char>>, environment: RuntimeEnvironment)
    ensures
        requested_command(arguments, environment) matches Ok(Some(command)) ==> {
            &&& is_complete_command(command)
            &&& requested_operations(arguments, 0).len() == 1
            &&& command is RemoveManifest ==> arguments.len() == 3
        },
        requested_operations(arguments, 0).len() == 0 ==> requested_command(arguments, environment)
            == Ok::<Option<CommandView>, PackErrorView>(None),
{
}

/// Arguments that pass as the options of an operation are made of flags that the operation has,
/// each given once from there on, with a value that is no flag where the flag takes one.
pub proof fn law_syntax_is_strict(
    arguments: Seq<Seq<char>>,
    operation: Operation,
    position: int,
    seen: Seq<Seq<char>>,
)
    requires
        0 <= position < arguments.len(),
        syntax_fault(arguments, operation, position, seen) is None,
    ensures
        operation_allows(operation, arguments[position]),
        !seen.contains(arguments[position]),
        flag_takes_value(arguments[position]) matches Some(takes_value) && {
            &&& takes_value ==> position + 1 < arguments.len() && is_value(arguments[position + 1])
            &&& syntax_fault(
                arguments,
                operation,
                position + if takes_value {
                    2int
                } else {
                    1int
                },
                seen.push(arguments[position]),
            ) is None
        },
{
}

} // verus!
