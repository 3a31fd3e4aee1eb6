//! The words of a command line: which of them is the command, which
//! options that command takes, and which words are left as its arguments.

use crate::text::{chars_of, same_text, string_views};
use vstd::prelude::*;
use vstd::string::StringExecFns;

verus! {

/// The program whose command line is read.
#[derive(Debug, PartialEq, Eq, Clone, Copy, Structural)]
#[allow(non_camel_case_types)]
pub enum APT_CMD {
    APT,
    APT_GET,
}

/// A command and what handles it.
#[derive(Debug)]
pub struct Dispatch<H> {
    pub com: String,
    pub handler: H,
}

/// A command, what handles it and the help for it.
#[derive(Debug)]
pub struct AptDispatchWithHelp<H> {
    pub com: String,
    pub handler: H,
    pub help: String,
}

impl<H> AptDispatchWithHelp<H> {
    /// A command with its handler and its help.
    pub fn new(com: &str, handler: H, help: &str) -> (r: AptDispatchWithHelp<H>)
        ensures
            r.com@ == com@,
            r.handler == handler,
            r.help@ == help@,
    {
        AptDispatchWithHelp {
            com: String::from_str(com),
            handler: handler,
            help: String::from_str(help),
        }
    }
}

impl<H> Dispatch<H> {
    /// A command with its handler.
    pub fn new(com: &str, handler: H) -> (r: Dispatch<H>)
        ensures
            r.com@ == com@,
            r.handler == handler,
    {
        Dispatch { com: String::from_str(com), handler: handler }
    }
}

/// One option of a command: the name of the setting that it sets, its
/// short form, its long form and its flags.
#[derive(Debug, PartialEq, Eq, Default)]
pub struct Args {
    pub name: String,
    pub short: String,
    pub long: String,
    pub flags: u64,
}

/// An option as values.
pub struct ArgsModel {
    pub name: Seq<char>,
    pub short: Seq<char>,
    pub long: Seq<char>,
    pub flags: u64,
}

impl View for Args {
    type V = ArgsModel;

    open spec fn view(&self) -> ArgsModel {
        ArgsModel { name: self.name@, short: self.short@, long: self.long@, flags: self.flags }
    }
}

/// The options that a list stands for.
pub open spec fn args_views(v: Seq<Args>) -> Seq<ArgsModel> {
    Seq::new(v.len(), |i: int| v[i]@)
}

impl Args {
    /// An option.
    pub fn new(name: &str, short: &str, long: &str, flags: u64) -> (r: Args)
        ensures
            r@ == (ArgsModel { name: name@, short: short@, long: long@, flags: flags }),
    {
        Args {
            name: String::from_str(name),
            short: String::from_str(short),
            long: String::from_str(long),
            flags: flags,
        }
    }
}

/// The options that the command takes, and the arguments that were read.
#[derive(Debug, Default)]
#[allow(non_snake_case)]
pub struct CommandLine {
    pub ArgList: Vec<Args>,
    pub FileList: Vec<String>,
}

/// One of `options` has the short form `c`.
pub open spec fn knows_short(options: Seq<ArgsModel>, c: char) -> bool {
    exists|i: int| 0 <= i < options.len() && (#[trigger] options[i]).short == seq![c]
}

/// What a word of the command line is.
pub enum Word {
    /// Not an option: it goes to the arguments.
    Plain,
    /// A hyphen alone: it is passed over.
    Skipped,
    /// A short option that no option of the command answers to.
    Unknown,
    /// Anything that is not handled yet: an empty word, a long option, the
    /// end of the options, a short option that the command has.
    Unhandled,
}

/// What the word `word` is for a command with the options `options`.
pub open spec fn word_kind(options: Seq<ArgsModel>, word: Seq<char>) -> Word {
    if word.len() == 0 {
        Word::Unhandled
    } else if word[0] != '-' {
        Word::Plain
    } else if word.len() == 1 {
        Word::Skipped
    } else if word[1] == '-' || knows_short(options, word[1]) {
        Word::Unhandled
    } else {
        Word::Unknown
    }
}

/// The place of the first word that is an unknown option, or the number of
/// words where none is; -1 where a word before that is not handled yet.
pub open spec fn parse_end(options: Seq<ArgsModel>, words: Seq<Seq<char>>, k: int) -> int
    decreases words.len() - k,
{
    if k < 0 || k >= words.len() {
        words.len() as int
    } else {
        match word_kind(options, words[k]) {
            Word::Unhandled => -1,
            Word::Unknown => k,
            _ => parse_end(options, words, k + 1),
        }
    }
}

/// The plain words among the first `k`.
pub open spec fn plain_upto(options: Seq<ArgsModel>, words: Seq<Seq<char>>, k: int) -> Seq<Seq<char>>
    decreases k,
{
    if k <= 0 {
        Seq::empty()
    } else if word_kind(options, words[k - 1]) is Plain {
        plain_upto(options, words, k - 1).push(words[k - 1])
    } else {
        plain_upto(options, words, k - 1)
    }
}

/// What is said of the word `word` whose option `c` is not known.
pub open spec fn not_understood(c: char, word: Seq<char>) -> Seq<char> {
    "Command line option '"@ + seq![c] + "' [from "@ + word
        + "] is not understood in combination with the other options."@
}

impl CommandLine {
    /// A command line with nothing read yet.
    pub fn new() -> (r: CommandLine)
        ensures
            r.ArgList@.len() == 0,
            r.FileList@.len() == 0,
    {
        CommandLine { ArgList: Vec::new(), FileList: Vec::new() }
    }

    fn has_short(&self, c: char) -> (r: bool)
        ensures
            r == knows_short(args_views(self.ArgList@), c),
    {
        let mut wanted = String::new();
        wanted.push(c);
        assert(wanted@ =~= seq![c]);
        let mut i: usize = 0;
        while i < self.ArgList.len()
            invariant
                i <= self.ArgList.len(),
                wanted@ == seq![c],
                forall|j: int| 0 <= j < i ==> (#[trigger] args_views(self.ArgList@)[j]).short != seq![c],
            decreases self.ArgList.len() - i,
        {
            assert(args_views(self.ArgList@)[i as int] == self.ArgList[i as int]@);
            if same_text(self.ArgList[i].short.as_str(), wanted.as_str()) {
                return true;
            }
            i += 1;
        }
        false
    }

    /// Whether `doParse` can read the words `cargs`: whether each of them,
    /// up to the first short option that the command does not have, is such
    /// as is handled.
    pub fn handles(&self, cargs: &[String]) -> (r: bool)
        ensures
            r == (parse_end(args_views(self.ArgList@), string_views(cargs@), 0) >= 0),
    {
        let ghost options = args_views(self.ArgList@);
        let ghost words = string_views(cargs@);
        let mut k: usize = 0;
        while k < cargs.len()
            invariant
                k <= cargs.len(),
                options == args_views(self.ArgList@),
                words == string_views(cargs@),
                parse_end(options, words, 0) == parse_end(options, words, k as int),
            decreases cargs.len() - k,
        {
            assert(words[k as int] == cargs[k as int]@);
            let word = chars_of(cargs[k].as_str());
            if word.len() == 0 {
                return false;
            }
            if word[0] == '-' && word.len() > 1 {
                if word[1] == '-' || self.has_short(word[1]) {
                    return false;
                }
                assert(word_kind(options, words[k as int]) is Unknown);
                return true;
            }
            k += 1;
        }
        true
    }

    /// Reads the words of a command line. The plain words are added to the
    /// arguments, in their order, up to the first short option that the
    /// command does not have, which is an error. The words before that must
    /// be such as are handled.
    #[allow(non_snake_case)]
    pub fn doParse(&mut self, cargs: &[String]) -> (r: Result<(), String>)
        requires
            parse_end(args_views(old(self).ArgList@), string_views(cargs@), 0) >= 0,
        ensures
            final(self).ArgList == old(self).ArgList,
            ({
                let options = args_views(old(self).ArgList@);
                let words = string_views(cargs@);
                let end = parse_end(options, words, 0);
                &&& string_views(final(self).FileList@) == string_views(old(self).FileList@)
                    + plain_upto(options, words, end)
                &&& (end == words.len() ==> r is Ok)
                &&& (end < words.len() ==> r is Err && r->Err_0@ == not_understood(
                    words[end][1],
                    words[end],
                ))
            }),
    {
        let ghost options = args_views(self.ArgList@);
        let ghost words = string_views(cargs@);
        let ghost files = string_views(self.FileList@);
        let mut k: usize = 0;
        assert(files + plain_upto(options, words, 0) =~= files);
        while k < cargs.len()
            invariant
                k <= cargs.len(),
                self.ArgList == old(self).ArgList,
                options == args_views(self.ArgList@),
                words == string_views(cargs@),
                parse_end(options, words, 0) == parse_end(options, words, k as int),
                parse_end(options, words, 0) >= 0,
                files == string_views(old(self).FileList@),
                string_views(self.FileList@) == files + plain_upto(options, words, k as int),
            decreases cargs.len() - k,
        {
            assert(words[k as int] == cargs[k as int]@);
            let word = chars_of(cargs[k].as_str());
            if word.len() > 0 && word[0] != '-' {
                let ghost before = string_views(self.FileList@);
                self.FileList.push(cargs[k].clone());
                assert(string_views(self.FileList@) =~= before.push(words[k as int]));
            } else if word.len() > 1 {
                if word[1] != '-' && !self.has_short(word[1]) {
                    let mut message = String::from_str("Command line option '");
                    message.push(word[1]);
                    message.append("' [from ");
                    message.append(cargs[k].as_str());
                    message.append("] is not understood in combination with the other options.");
                    assert(message@ =~= not_understood(words[k as int][1], words[k as int]));
                    assert(word_kind(options, words[k as int]) is Unknown);
                    assert(parse_end(options, words, k as int) == k);
                    return Err(message);
                }
            }
            k += 1;
        }
        Ok(())
    }
}

/// The commands of the program: `list` and `help`, which `list` handles,
/// and `search`, which `search` handles. The help for each is still to come.
#[allow(non_snake_case)]
pub fn GetCommands<H: Copy>(list: H, search: H) -> (r: Vec<AptDispatchWithHelp<H>>)
    ensures
        r.len() == 3,
        r[0].com@ == "list"@ && r[0].handler == list,
        r[1].com@ == "search"@ && r[1].handler == search,
        r[2].com@ == "help"@ && r[2].handler == list,
        forall|i: int| 0 <= i < 3 ==> (#[trigger] r[i]).help@ == "<help not imp>"@,
{
    let mut r: Vec<AptDispatchWithHelp<H>> = Vec::new();
    r.push(AptDispatchWithHelp::new("list", list, "<help not imp>"));
    r.push(AptDispatchWithHelp::new("search", search, "<help not imp>"));
    r.push(AptDispatchWithHelp::new("help", list, "<help not imp>"));
    r
}

/// The command among the words from index `k` on: the first word that is
/// one of `commands`, unless `--` comes before it.
pub open spec fn command_from(commands: Seq<Seq<char>>, words: Seq<Seq<char>>, k: int) -> Option<
    Seq<char>,
>
    decreases words.len() - k,
{
    if k < 0 || k >= words.len() {
        None
    } else if words[k] == "--"@ {
        None
    } else if commands.contains(words[k]) {
        Some(words[k])
    } else {
        command_from(commands, words, k + 1)
    }
}

/// The names of the commands.
pub open spec fn command_names<H>(cmds: Seq<Dispatch<H>>) -> Seq<Seq<char>> {
    Seq::new(cmds.len(), |i: int| cmds[i].com@)
}

/// Finds the command in the words of a command line.
#[allow(non_snake_case)]
pub fn GetCommand<H>(cmds: &Vec<Dispatch<H>>, cmdline: Vec<String>) -> (r: Option<String>)
    ensures
        match command_from(command_names(cmds@), string_views(cmdline@), 0) {
            Some(name) => r is Some && r->Some_0@ == name,
            None => r is None,
        },
{
    let ghost names = command_names(cmds@);
    let ghost words = string_views(cmdline@);
    let mut k: usize = 0;
    while k < cmdline.len()
        invariant
            k <= cmdline.len(),
            names == command_names(cmds@),
            words == string_views(cmdline@),
            command_from(names, words, 0) == command_from(names, words, k as int),
        decreases cmdline.len() - k,
    {
        assert(words[k as int] == cmdline[k as int]@);
        if same_text(cmdline[k].as_str(), "--") {
            return None;
        }
        let mut i: usize = 0;
        while i < cmds.len()
            invariant
                i <= cmds.len(),
                k < cmdline.len(),
                names == command_names(cmds@),
                words == string_views(cmdline@),
                words[k as int] == cmdline[k as int]@,
                words[k as int] != "--"@,
                command_from(names, words, 0) == command_from(names, words, k as int),
                forall|j: int| 0 <= j < i ==> #[trigger] names[j] != words[k as int],
            decreases cmds.len() - i,
        {
            assert(names[i as int] == cmds[i as int].com@);
            if same_text(cmds[i].com.as_str(), cmdline[k].as_str()) {
                assert(names.contains(words[k as int]));
                return Some(cmds[i].com.clone());
            }
            i += 1;
        }
        assert(!names.contains(words[k as int]));
        k += 1;
    }
    None
}

/// An option without flags.
pub open spec fn option(name: &str, short: &str, long: &str) -> ArgsModel {
    ArgsModel { name: name@, short: short@, long: long@, flags: 0 }
}

/// The options that every command has.
pub open spec fn default_options() -> Seq<ArgsModel> {
    seq![option("help", "h", "help"), option("version", "v", "version")]
}

/// The options of the command `list`.
pub open spec fn list_options() -> Seq<ArgsModel> {
    seq![
        option("APT::Cmd::Installed", "i", "installed"),
        option("APT::Cmd::Upgradable", "", "upgradable"),
        option("APT::Cmd::Upgradable", "", "upgradeable"),
        option("APT::Cmd::Upgradable", "u", "upgradable"),
        option("APT::Cmd::ManualInstalled", "", "manual-installed"),
        option("APT::Cmd::List-Include-Summary", "v", "verbose"),
        option("APT::Cmd::AllVersions", "a", "all-versions"),
    ]
}

/// The options of the command `cmd`: those of `list` for that command,
/// and after them those that every command has.
pub open spec fn options_of(cmd: Seq<char>) -> Seq<ArgsModel> {
    if cmd != "help"@ && cmd == "list"@ {
        list_options() + default_options()
    } else {
        default_options()
    }
}

/// The options that the command `cmd` takes.
#[allow(non_snake_case)]
pub fn GetCommandArgs(program: APT_CMD, cmd: &String) -> (r: Vec<Args>)
    ensures
        args_views(r@) == options_of(cmd@),
{
    let mut args: Vec<Args> = Vec::new();
    if !same_text(cmd.as_str(), "help") {
        if same_text(cmd.as_str(), "list") {
            args.push(Args::new("APT::Cmd::Installed", "i", "installed", 0));
            args.push(Args::new("APT::Cmd::Upgradable", "", "upgradable", 0));
            args.push(Args::new("APT::Cmd::Upgradable", "", "upgradeable", 0));
            args.push(Args::new("APT::Cmd::Upgradable", "u", "upgradable", 0));
            args.push(Args::new("APT::Cmd::ManualInstalled", "", "manual-installed", 0));
            args.push(Args::new("APT::Cmd::List-Include-Summary", "v", "verbose", 0));
            args.push(Args::new("APT::Cmd::AllVersions", "a", "all-versions", 0));
            assert(args_views(args@) =~= list_options());
        }
    }
    assert(args_views(args@) =~= (if cmd@ != "help"@ && cmd@ == "list"@ {
        list_options()
    } else {
        Seq::empty()
    }));
    AddDefaultArgs(&mut args);
    args
}

/// Adds the options that every command has.
#[allow(non_snake_case)]
pub fn AddDefaultArgs(args: &mut Vec<Args>)
    ensures
        args_views(final(args)@) == args_views(old(args)@) + default_options(),
{
    args.push(Args::new("help", "h", "help", 0));
    args.push(Args::new("version", "v", "version", 0));
    assert(args_views(args@) =~= args_views(old(args)@) + default_options());
}

} // verus!
