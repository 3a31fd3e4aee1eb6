use rapt::cmdline::{
    AddDefaultArgs, AptDispatchWithHelp, Args, CommandLine, Dispatch, GetCommand, GetCommandArgs,
    GetCommands, APT_CMD,
};

fn words(list: &[&str]) -> Vec<String> {
    list.iter().map(|s| s.to_string()).collect()
}

#[test]
fn command_is_the_first_known_word() {
    let cmds = vec![Dispatch::new("list", 1u8), Dispatch::new("search", 2u8)];
    assert_eq!(GetCommand(&cmds, words(&["rapt", "-v", "search", "list"])), Some("search".to_string()));
    assert_eq!(GetCommand(&cmds, words(&["rapt", "--", "search"])), None);
    assert_eq!(GetCommand(&cmds, words(&["rapt", "show"])), None);
    assert_eq!(GetCommand(&cmds, Vec::new()), None);
    let with_help = AptDispatchWithHelp::new("list", 7u8, "lists packages");
    assert_eq!(with_help.com, "list");
    assert_eq!(with_help.help, "lists packages");
    assert_eq!(with_help.handler, 7);
}

#[test]
fn options_of_the_commands() {
    let list = GetCommandArgs(APT_CMD::APT, &"list".to_string());
    assert_eq!(list.len(), 9);
    assert_eq!(list[0], Args::new("APT::Cmd::Installed", "i", "installed", 0));
    assert_eq!(list[6], Args::new("APT::Cmd::AllVersions", "a", "all-versions", 0));
    assert_eq!(list[7], Args::new("help", "h", "help", 0));
    assert_eq!(list[8], Args::new("version", "v", "version", 0));
    let help = GetCommandArgs(APT_CMD::APT, &"help".to_string());
    assert_eq!(help.len(), 2);
    let search = GetCommandArgs(APT_CMD::APT_GET, &"search".to_string());
    assert_eq!(search, help);
    let mut args = vec![Args::new("x", "x", "x", 1)];
    AddDefaultArgs(&mut args);
    assert_eq!(args.len(), 3);
    assert_eq!(args[2].short, "v");
}

#[test]
fn plain_words_become_arguments() {
    let mut line = CommandLine::new();
    line.ArgList = GetCommandArgs(APT_CMD::APT, &"list".to_string());
    assert_eq!(line.doParse(&words(&["list", "-", "vim*"])), Ok(()));
    assert_eq!(line.FileList, words(&["list", "vim*"]));
    let r = line.doParse(&words(&["more", "-xi", "never"]));
    assert_eq!(
        r,
        Err("Command line option 'x' [from -xi] is not understood in combination with the other options."
            .to_string())
    );
    assert_eq!(line.FileList, words(&["list", "vim*", "more"]));
}

#[test]
fn words_that_are_not_handled_are_told() {
    let mut line = CommandLine::new();
    line.ArgList = GetCommandArgs(APT_CMD::APT, &"list".to_string());
    assert!(line.handles(&words(&["list", "-", "vim"])));
    assert!(line.handles(&words(&["list", "-x", "--later"])));
    assert!(line.handles(&[]));
    assert!(!line.handles(&words(&["list", ""])));
    assert!(!line.handles(&words(&["--installed"])));
    assert!(!line.handles(&words(&["--"])));
    assert!(!line.handles(&words(&["list", "-i"])));
    assert!(!line.handles(&words(&["-vx"])));
}

#[test]
fn the_table_of_commands() {
    let table = GetCommands('l', 's');
    let got: Vec<(&str, char, &str)> =
        table.iter().map(|c| (c.com.as_str(), c.handler, c.help.as_str())).collect();
    assert_eq!(
        got,
        vec![
            ("list", 'l', "<help not imp>"),
            ("search", 's', "<help not imp>"),
            ("help", 'l', "<help not imp>"),
        ]
    );
}
