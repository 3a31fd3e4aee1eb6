//! What the command line asks for.

use crate::text::same_text;
use vstd::prelude::*;
use vstd::string::StringExecFns;

verus! {

/// What the program is asked to do.
#[derive(Debug, PartialEq, Eq, Clone, Copy, Structural)]
pub enum Command {
    UPDATE,
    LIST,
    SEARCH,
    SHOW,
    INSTALL,
    CLEAN,
    UNKNOWN,
}

impl Default for Command {
    fn default() -> (r: Self)
        ensures
            r == Command::UNKNOWN,
    {
        Command::UNKNOWN
    }
}

/// The command, its flags and the package that it names.
#[derive(Debug, PartialEq, Eq)]
pub struct Opts {
    pub command: Command,
    pub installed: bool,
    pub upgradabe: bool,
    pub full_description: bool,
    pub package: String,
}

impl Default for Opts {
    fn default() -> (r: Self)
        ensures
            r.command == Command::UNKNOWN,
            !r.installed,
            !r.upgradabe,
            !r.full_description,
            r.package@.len() == 0,
    {
        Opts {
            command: Command::UNKNOWN,
            installed: false,
            upgradabe: false,
            full_description: false,
            package: String::new(),
        }
    }
}

/// The command that a subcommand's name stands for.
pub open spec fn command_of(name: Seq<char>) -> Command {
    if name == "update"@ {
        Command::UPDATE
    } else if name == "list"@ {
        Command::LIST
    } else if name == "search"@ {
        Command::SEARCH
    } else if name == "show"@ {
        Command::SHOW
    } else if name == "clean"@ {
        Command::CLEAN
    } else if name == "install"@ {
        Command::INSTALL
    } else {
        Command::UNKNOWN
    }
}

/// The command that a subcommand's name stands for.
pub fn command_from(name: &str) -> (r: Command)
    ensures
        r == command_of(name@),
{
    if same_text(name, "update") {
        Command::UPDATE
    } else if same_text(name, "list") {
        Command::LIST
    } else if same_text(name, "search") {
        Command::SEARCH
    } else if same_text(name, "show") {
        Command::SHOW
    } else if same_text(name, "clean") {
        Command::CLEAN
    } else if same_text(name, "install") {
        Command::INSTALL
    } else {
        Command::UNKNOWN
    }
}

/// What the flags of a subcommand say.
pub struct Flags {
    pub installed: bool,
    pub upgradable: bool,
    pub full_text: bool,
}

/// Whether the command takes a package, a pattern or an expression.
pub open spec fn takes_package(command: Command) -> bool {
    command == Command::LIST || command == Command::SEARCH || command == Command::SHOW || command
        == Command::INSTALL
}

/// Fills `opts` from the subcommand that was given, the package named
/// after it and its flags. A flag is set where its command has it and it
/// was given, and never cleared. `list` without a package lists all; the
/// other commands that take a package leave it empty where none was given.
pub fn parse_opts(opts: &mut Opts, subcommand: &str, package: Option<&str>, flags: Flags)
    ensures
        final(opts).command == command_of(subcommand@),
        final(opts).installed == (old(opts).installed || (final(opts).command == Command::LIST
            && flags.installed)),
        final(opts).upgradabe == (old(opts).upgradabe || (final(opts).command == Command::LIST
            && flags.upgradable)),
        final(opts).full_description == (old(opts).full_description || (final(opts).command
            == Command::SEARCH && flags.full_text)),
        final(opts).package@ == (if takes_package(final(opts).command) {
            match package {
                Some(p) => p@,
                None => if final(opts).command == Command::LIST {
                    "*"@
                } else {
                    Seq::<char>::empty()
                },
            }
        } else {
            old(opts).package@
        }),
{
    let command = command_from(subcommand);
    opts.command = command;
    match command {
        Command::LIST => {
            opts.package = match package {
                Some(p) => String::from_str(p),
                None => String::from_str("*"),
            };
            if flags.installed {
                opts.installed = true;
            }
            if flags.upgradable {
                opts.upgradabe = true;
            }
        },
        Command::SEARCH => {
            opts.package = match package {
                Some(p) => String::from_str(p),
                None => String::new(),
            };
            if flags.full_text {
                opts.full_description = true;
            }
        },
        Command::SHOW | Command::INSTALL => {
            opts.package = match package {
                Some(p) => String::from_str(p),
                None => String::new(),
            };
        },
        _ => {},
    }
}

} // verus!
