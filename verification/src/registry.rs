//! The command registry: named commands with behaviour flags, the context
//! every command receives, and the editor's error type.
use vstd::prelude::*;
use vstd::string::StringExecFns;

use crate::buffer_mgr::str_eq;

verus! {

/// Why a command failed.
#[derive(Debug)]
pub enum CommandError {
    NotFound(String),
    ReadOnly,
    NoMark,
    NoMatch,
    Cancelled,
    Io(String),
    Other(String),
}

/// The user-visible description of an error.
pub open spec fn err_view(e: CommandError) -> Seq<char> {
    match e {
        CommandError::NotFound(name) => "Command not found: "@ + name@,
        CommandError::ReadOnly => "Buffer is read-only"@,
        CommandError::NoMark => "No mark set"@,
        CommandError::NoMatch => "No match"@,
        CommandError::Cancelled => "Cancelled"@,
        CommandError::Io(cause) => "IO error: "@ + cause@,
        CommandError::Other(msg) => msg@,
    }
}

impl CommandError {
    /// The user-visible description of the error.
    pub fn message(&self) -> (r: String)
        ensures
            r@ == err_view(*self),
    {
        match self {
            CommandError::NotFound(name) => "Command not found: ".to_owned().concat(name.as_str()),
            CommandError::ReadOnly => "Buffer is read-only".to_owned(),
            CommandError::NoMark => "No mark set".to_owned(),
            CommandError::NoMatch => "No match".to_owned(),
            CommandError::Cancelled => "Cancelled".to_owned(),
            CommandError::Io(cause) => "IO error: ".to_owned().concat(cause.as_str()),
            CommandError::Other(msg) => msg.clone(),
        }
    }
}

pub type CommandResult = Result<(), CommandError>;

/// The numeric prefix argument a command runs under.
#[derive(Debug, Clone, Copy, PartialEq, Eq, Structural)]
pub enum PrefixArg {
    Unset,
    Universal(i32),
    Negative,
    Raw(i32),
}

impl PrefixArg {
    /// The signed count the argument stands for.
    pub fn count(&self) -> (r: i32)
        ensures
            r == match *self {
                PrefixArg::Unset => 1int,
                PrefixArg::Universal(n) => n as int,
                PrefixArg::Negative => -1int,
                PrefixArg::Raw(n) => n as int,
            },
    {
        match self {
            PrefixArg::Unset => 1,
            PrefixArg::Universal(n) => *n,
            PrefixArg::Negative => -1,
            PrefixArg::Raw(n) => *n,
        }
    }

    pub fn is_set(&self) -> (r: bool)
        ensures
            r == !(*self is Unset),
    {
        !matches!(self, PrefixArg::Unset)
    }
}

/// The magnitude of the count a prefix argument stands for.
pub open spec fn prefix_repeat(p: PrefixArg) -> int {
    let c: int = match p {
        PrefixArg::Unset => 1int,
        PrefixArg::Universal(n) => n as int,
        PrefixArg::Negative => -1int,
        PrefixArg::Raw(n) => n as int,
    };
    if c >= 0 {
        c
    } else {
        -c
    }
}

/// What a command receives: the prefix argument and the name of the command
/// before it, for yank-pop style guards.
#[derive(Debug, Clone)]
pub struct CommandContext {
    pub prefix_arg: PrefixArg,
    pub last_command: Option<&'static str>,
}

impl CommandContext {
    pub fn new() -> (r: CommandContext)
        ensures
            r.prefix_arg == PrefixArg::Unset,
            r.last_command is None,
    {
        CommandContext { prefix_arg: PrefixArg::Unset, last_command: None }
    }

    pub fn with_prefix(prefix: PrefixArg) -> (r: CommandContext)
        ensures
            r.prefix_arg == prefix,
            r.last_command is None,
    {
        CommandContext { prefix_arg: prefix, last_command: None }
    }

    pub fn count(&self) -> (r: i32)
        ensures
            r == match self.prefix_arg {
                PrefixArg::Unset => 1int,
                PrefixArg::Universal(n) => n as int,
                PrefixArg::Negative => -1int,
                PrefixArg::Raw(n) => n as int,
            },
    {
        self.prefix_arg.count()
    }

    /// How many times the command repeats: the count's magnitude.
    pub fn repeat_count(&self) -> (r: usize)
        ensures
            r == prefix_repeat(self.prefix_arg),
    {
        let c = self.prefix_arg.count();
        if c >= 0 {
            c as usize
        } else if c == i32::MIN {
            2147483648usize
        } else {
            (-c) as usize
        }
    }
}

/// The behaviour a registered command dispatches to.
#[derive(Debug, Clone, Copy, PartialEq, Eq, Structural)]
pub enum CommandAction {
    SelfInsertCommand,
    DeleteChar,
    DeleteBackwardChar,
    Newline,
    OpenLine,
    TransposeChars,
    SetMarkCommand,
    ExchangePointAndMark,
    MarkWholeBuffer,
    Undo,
    Redo,
    KeyboardQuit,
    SpawnCursorsAtWordMatches,
    ClearMultipleCursors,
    ForwardChar,
    BackwardChar,
    NextLine,
    PreviousLine,
    MoveBeginningOfLine,
    MoveEndOfLine,
    BeginningOfBuffer,
    EndOfBuffer,
    ForwardWord,
    BackwardWord,
    ScrollUpCommand,
    ScrollDownCommand,
    RecenterTopBottom,
    GotoLine,
    ForwardCharShift,
    BackwardCharShift,
    NextLineShift,
    PreviousLineShift,
    ForwardWordShift,
    BackwardWordShift,
    MoveBeginningOfLineShift,
    MoveEndOfLineShift,
    BeginningOfBufferShift,
    EndOfBufferShift,
    KillLine,
    KillWord,
    BackwardKillWord,
    KillRegion,
    CopyRegionAsKill,
    Yank,
    YankPop,
    SwitchToBuffer,
    KillBuffer,
    ListBuffers,
    FindFile,
    SaveBuffer,
    WriteFile,
    Exit,
    SplitWindowBelow,
    SplitWindowRight,
    DeleteWindow,
    DeleteOtherWindows,
    OtherWindow,
    ExecuteExtendedCommand,
}

/// A named command: what it does and how the post-command hook treats it.
#[derive(Debug, Clone, Copy)]
pub struct Command {
    pub name: &'static str,
    pub action: CommandAction,
    pub is_kill: bool,
    pub preserves_mark: bool,
    pub breaks_undo_coalesce: bool,
}

impl Command {
    /// An ordinary command: breaks coalescing, deactivates marks.
    pub fn new(name: &'static str, action: CommandAction) -> (r: Command)
        ensures
            r == (Command {
                name,
                action,
                is_kill: false,
                preserves_mark: false,
                breaks_undo_coalesce: true,
            }),
    {
        Command { name, action, is_kill: false, preserves_mark: false, breaks_undo_coalesce: true }
    }

    /// A kill: keeps the kill-append chain alive.
    pub fn kill(name: &'static str, action: CommandAction) -> (r: Command)
        ensures
            r == (Command {
                name,
                action,
                is_kill: true,
                preserves_mark: false,
                breaks_undo_coalesce: true,
            }),
    {
        Command { name, action, is_kill: true, preserves_mark: false, breaks_undo_coalesce: true }
    }

    /// A motion: keeps the active mark.
    pub fn motion(name: &'static str, action: CommandAction) -> (r: Command)
        ensures
            r == (Command {
                name,
                action,
                is_kill: false,
                preserves_mark: true,
                breaks_undo_coalesce: true,
            }),
    {
        Command { name, action, is_kill: false, preserves_mark: true, breaks_undo_coalesce: true }
    }

    /// A mark command: keeps the mark and the coalescing run.
    pub fn mark(name: &'static str, action: CommandAction) -> (r: Command)
        ensures
            r == (Command {
                name,
                action,
                is_kill: false,
                preserves_mark: true,
                breaks_undo_coalesce: false,
            }),
    {
        Command { name, action, is_kill: false, preserves_mark: true, breaks_undo_coalesce: false }
    }

    /// A self-insert style edit: keeps the coalescing run.
    pub fn editing(name: &'static str, action: CommandAction) -> (r: Command)
        ensures
            r == (Command {
                name,
                action,
                is_kill: false,
                preserves_mark: false,
                breaks_undo_coalesce: false,
            }),
    {
        Command { name, action, is_kill: false, preserves_mark: false, breaks_undo_coalesce: false }
    }
}

/// The first registered command called `name`.
pub open spec fn cmd_lookup(s: Seq<Command>, name: Seq<char>) -> Option<Command>
    decreases s.len(),
{
    if s.len() == 0 {
        None
    } else if s[0].name@ == name {
        Some(s[0])
    } else {
        cmd_lookup(s.drop_first(), name)
    }
}

/// The registry: commands looked up by name.
#[derive(Debug)]
pub struct CommandRegistry {
    commands: Vec<Command>,
}

impl CommandRegistry {
    pub closed spec fn commands_seq(self) -> Seq<Command> {
        self.commands@
    }

    pub fn new() -> (r: CommandRegistry)
        ensures
            r.commands_seq() == Seq::<Command>::empty(),
    {
        CommandRegistry { commands: Vec::new() }
    }

    /// Register `command`; a later registration of the same name shadows an
    /// earlier one.
    pub fn register(&mut self, command: Command)
        ensures
            final(self).commands_seq() == seq![command] + old(self).commands_seq(),
            cmd_lookup(final(self).commands_seq(), command.name@) == Some(command),
    {
        self.commands.insert(0, command);
        proof {
            assert(self.commands@ =~= seq![command] + old(self).commands@);
            assert(self.commands@[0] == command);
            assert(self.commands@.drop_first() =~= old(self).commands@);
        }
    }

    /// The command called `name`, if registered.
    pub fn get(&self, name: &str) -> (r: Option<&Command>)
        ensures
            match r {
                Some(c) => cmd_lookup(self.commands_seq(), name@) == Some(*c),
                None => cmd_lookup(self.commands_seq(), name@) is None,
            },
    {
        let n = self.commands.len();
        let mut i: usize = 0;
        proof {
            assert(self.commands@.skip(0) =~= self.commands@);
        }
        while i < n
            invariant
                i <= n,
                n == self.commands@.len(),
                cmd_lookup(self.commands@, name@) == cmd_lookup(
                    self.commands@.skip(i as int),
                    name@,
                ),
            decreases n - i,
        {
            proof {
                assert(self.commands@.skip(i as int)[0] == self.commands@[i as int]);
                assert(self.commands@.skip(i as int).drop_first() =~= self.commands@.skip(
                    i as int + 1,
                ));
            }
            if str_eq(self.commands[i].name, name) {
                return Some(&self.commands[i]);
            }
            i += 1;
        }
        proof {
            assert(self.commands@.skip(n as int) =~= Seq::<Command>::empty());
        }
        None
    }

    /// How many commands are registered.
    pub fn len(&self) -> (r: usize)
        ensures
            r == self.commands_seq().len(),
    {
        self.commands.len()
    }

    pub fn is_empty(&self) -> (r: bool)
        ensures
            r == (self.commands_seq().len() == 0),
    {
        self.commands.len() == 0
    }

    /// The registered command names.
    pub fn names(&self) -> (r: Vec<String>)
        ensures
            r@.len() == self.commands_seq().len(),
            forall|i: int|
                0 <= i < r@.len() ==> (#[trigger] r@[i])@ == self.commands_seq()[i].name@,
    {
        let mut out: Vec<String> = Vec::new();
        let n = self.commands.len();
        let mut i: usize = 0;
        while i < n
            invariant
                i <= n,
                n == self.commands@.len(),
                out@.len() == i,
                forall|j: int| 0 <= j < i ==> (#[trigger] out@[j])@ == self.commands@[j].name@,
            decreases n - i,
        {
            out.push(self.commands[i].name.to_owned());
            i += 1;
        }
        out
    }
}

} // verus!
