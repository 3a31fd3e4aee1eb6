use rapt::dpkg::PackageState;
use rapt::install::{
    archive_path, confirmed, control_archive, control_member, decide_install, install_order,
    is_deb_file, names_in_state, plan_install, ControlArchive, InstallPlan,
};
use rapt::list::{filter_package_with_name, install_mark, is_auto_installed};
use rapt::lock::Lock;
use rapt::opts::{command_from, parse_opts, Command, Flags, Opts};
use rapt::source::{Priority, SourcePackage};
use rapt::update::{fetched_amount, transfer_rate};

fn package(name: &str, version: &str) -> SourcePackage {
    let mut p = SourcePackage::default();
    p.package = name.to_string();
    p.version = version.to_string();
    p
}

#[test]
fn package_files_are_told_by_their_name() {
    assert!(is_deb_file("vim_8.1_amd64.deb"));
    assert!(is_deb_file("./a/b.deb"));
    assert!(!is_deb_file(".deb"));
    assert!(!is_deb_file("vim"));
    assert!(!is_deb_file("vim.deb.gz"));
}

#[test]
fn what_an_install_comes_to() {
    let index = vec![package("vim", "8.1"), package("vim-tiny", "8.1"), package("tar", "1.30")];
    let installed = vec![package("tar", "1.0")];
    assert!(matches!(plan_install("x.deb", &index, &installed), InstallPlan::DebFile));
    assert!(matches!(plan_install("[", &index, &installed), InstallPlan::BadPattern));
    assert!(matches!(plan_install("emacs", &index, &installed), InstallPlan::NotInCache));
    match plan_install("vim*", &index, &installed) {
        InstallPlan::Install(p) => assert_eq!(p.package, "vim"),
        _ => panic!("vim is to be installed"),
    }
    match plan_install("tar", &index, &installed) {
        InstallPlan::AlreadyInstalled(p) => assert_eq!(p.package, "tar"),
        _ => panic!("tar is installed"),
    }
}

#[test]
fn what_was_found_is_installed_from_the_last_to_the_first() {
    let list = vec![
        ("a".to_string(), PackageState::MISSING),
        ("b".to_string(), PackageState::OLD),
        ("c".to_string(), PackageState::MISSING),
        ("d".to_string(), PackageState::OLD),
    ];
    assert_eq!(names_in_state(&list, PackageState::MISSING), vec!["a", "c"]);
    assert_eq!(names_in_state(&list, PackageState::OLD), vec!["b", "d"]);
    assert_eq!(names_in_state(&list, PackageState::UPTODATE), Vec::<String>::new());
    assert_eq!(install_order(&list), vec!["d", "b", "c", "a"]);
    assert_eq!(install_order(&Vec::new()), Vec::<String>::new());
}

#[test]
fn archive_names() {
    assert_eq!(
        archive_path("pool/main/v/vim/vim_8.1_amd64.deb"),
        Some("archive/vim_8.1_amd64.deb".to_string())
    );
    assert_eq!(archive_path("http://a/b/"), Some("archive/".to_string()));
    assert_eq!(archive_path("vim.deb"), None);
    assert_eq!(control_archive("control.tar.gz"), ControlArchive::Gz);
    assert_eq!(control_archive("control.tar.xz"), ControlArchive::Xz);
    assert_eq!(control_archive("control.tar.zst"), ControlArchive::Unknown);
    assert_eq!(control_archive("a.xz.gz"), ControlArchive::Gz);
    let members = vec![
        "debian-binary".to_string(),
        "control.tar.xz".to_string(),
        "data.tar.xz".to_string(),
    ];
    assert_eq!(control_member(&members), "control.tar.xz");
    assert_eq!(control_member(&vec!["data.tar".to_string()]), "");
}

#[test]
fn lists_and_marks() {
    let items = vec![package("vim", "1"), package("Vim", "1"), package("nvim", "1")];
    let found = filter_package_with_name("vim*", &items);
    assert_eq!(found.len(), 1);
    assert_eq!(found[0].package, "vim");
    assert_eq!(filter_package_with_name("*vim", &items).len(), 2);
    assert_eq!(filter_package_with_name("[", &items).len(), 0);
    assert_eq!(install_mark(true, true), "[installed,automatic]");
    assert_eq!(install_mark(true, false), "[installed]");
    assert_eq!(install_mark(false, true), "[this package might be broken.]");
    assert_eq!(install_mark(false, false), "");
    let extended = vec![("a".to_string(), true), ("b".to_string(), false), ("a".to_string(), false)];
    assert!(is_auto_installed(&extended, "a"));
    assert!(!is_auto_installed(&extended, "b"));
    assert!(!is_auto_installed(&extended, "c"));
}

#[test]
fn lock_files() {
    assert_eq!(Lock::ARCHIVE.path(), "archives/lock");
    assert_eq!(Lock::LIST.path(), "lists/lock");
    assert_eq!(Lock::LIST.directory(), "lists");
}

#[test]
fn options_of_the_subcommands() {
    let flags = |i, u, f| Flags { installed: i, upgradable: u, full_text: f };
    let mut opts = Opts::default();
    parse_opts(&mut opts, "list", None, flags(true, false, true));
    assert_eq!(
        opts,
        Opts {
            command: Command::LIST,
            installed: true,
            upgradabe: false,
            full_description: false,
            package: "*".to_string()
        }
    );
    let mut opts = Opts::default();
    parse_opts(&mut opts, "search", Some("vi.*"), flags(true, true, true));
    assert_eq!(
        opts,
        Opts {
            command: Command::SEARCH,
            installed: false,
            upgradabe: false,
            full_description: true,
            package: "vi.*".to_string()
        }
    );
    let mut opts = Opts::default();
    parse_opts(&mut opts, "install", Some("vim"), flags(false, false, false));
    assert_eq!(opts.command, Command::INSTALL);
    assert_eq!(opts.package, "vim");
    parse_opts(&mut opts, "update", None, flags(true, true, true));
    assert_eq!(opts.command, Command::UPDATE);
    assert_eq!(opts.package, "vim");
    assert_eq!(opts.installed, false);
    assert_eq!(command_from("show"), Command::SHOW);
    assert_eq!(command_from("clean"), Command::CLEAN);
    assert_eq!(command_from("remove"), Command::UNKNOWN);
    assert_eq!(Command::default(), Command::UNKNOWN);
}

#[test]
fn amounts_and_rates() {
    assert_eq!(fetched_amount(&vec![1, 2, 3]), Some(6));
    assert_eq!(fetched_amount(&Vec::new()), Some(0));
    assert_eq!(fetched_amount(&vec![u64::MAX, 1, 5]), None);
    assert_eq!(transfer_rate(10 * 1024, 0), (10, 10));
    assert_eq!(transfer_rate(10 * 1024 + 1023, 3), (10, 3));
    assert_eq!(transfer_rate(0, 9), (0, 0));
}

#[test]
fn priorities_compare() {
    assert!(Priority::REQUIRED > Priority::IMPORTANT);
    assert!(Priority::IMPORTANT > Priority::STANDARD);
    assert!(Priority::STANDARD > Priority::OPTIONAL);
    assert!(Priority::OPTIONAL > Priority::EXTRA);
    assert!(Priority::EXTRA > Priority::UNKNOWN);
    assert!(Priority::UNKNOWN < Priority::REQUIRED);
    assert!(!(Priority::EXTRA < Priority::EXTRA));
    assert!(Priority::EXTRA <= Priority::EXTRA);
}

#[test]
fn plans_from_what_was_found() {
    let installed = vec![package("tar", "1.0")];
    let found = || Some(vec![package("vim", "8.1"), package("tar", "1.30")]);
    assert!(matches!(decide_install(true, found(), &installed), InstallPlan::DebFile));
    assert!(matches!(decide_install(false, None, &installed), InstallPlan::BadPattern));
    assert!(matches!(decide_install(false, Some(Vec::new()), &installed), InstallPlan::NotInCache));
    match decide_install(false, found(), &installed) {
        InstallPlan::Install(p) => assert_eq!(p.package, "vim"),
        _ => panic!("vim is to be installed"),
    }
    match decide_install(false, Some(vec![package("tar", "1.30")]), &installed) {
        InstallPlan::AlreadyInstalled(p) => assert_eq!(p.version, "1.30"),
        _ => panic!("tar is installed"),
    }
}

#[test]
fn answers_that_say_yes() {
    assert!(confirmed("y\n"));
    assert!(confirmed("Y\n"));
    assert!(!confirmed("y"));
    assert!(!confirmed("yes\n"));
    assert!(!confirmed("\n"));
    assert!(!confirmed("n\n"));
}
