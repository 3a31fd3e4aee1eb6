use rapt::cache::get_info_from_filename;
use rapt::control::{parse_depends, parse_status};
use rapt::error::Error;
use rapt::extended::read_extended_information;
use rapt::merge::{choose_package, resolve_duplication};
use rapt::source::{Arch, Priority, Section, SourcePackage, StatusFlag, StatusStatus, StatusWant};

fn sample_index() -> String {
    [
        "Package: dpkg",
        "Architecture: amd64",
        "Version: 1.19.7ubuntu3",
        "Multi-Arch: foreign",
        "Priority: required",
        "Essential: yes",
        "Section: admin",
        "Origin: Ubuntu",
        "Maintainer: Ubuntu Developers <ubuntu-devel-discuss@lists.ubuntu.com>",
        "Original-Maintainer: Dpkg Developers <debian-dpkg@lists.debian.org>",
        "Bugs: https://bugs.launchpad.net/ubuntu/+filebug",
        "Installed-Size: 6740",
        "Pre-Depends: libbz2-1.0, libc6 (>= 2.15), liblzma5 (>= 5.2.2), libselinux1 (>= 2.3), libzstd1 (>= 1.3.2), zlib1g (>= 1:1.1.4)",
        "Depends: tar (>= 1.28-1)",
        "Suggests: apt, debsig-verify",
        "Breaks: acidbase (<= 1.4.5-4), amule (<< 2.3.1+git1a369e47-3)",
        "Filename: pool/main/d/dpkg/dpkg_1.19.7ubuntu3_amd64.deb",
        "Size: 1127856",
        "MD5sum: f595c79475d3c2ac808eaac389071c35",
        "Homepage: https://wiki.debian.org/Teams/Dpkg",
        "Description: Debian package management system",
        " waiwai second sentence.",
        " uouo fish life.",
        "Task: minimal",
        "",
        "Package: bash",
        "Architecture: amd64",
        "Version: 5.0-6ubuntu1",
        "Priority: required",
        "Essential: yes",
        "Section: shells",
        "Depends: base-files (>= 2.1.12), debianutils (>= 2.15)",
        "Filename: pool/main/b/bash/bash_5.0-6ubuntu1_amd64.deb",
        "Description: GNU Bourne Again SHell",
        "",
        "Package: cowsay",
        "Architecture: all",
        "Version: 3.03+dfsg2-7",
        "Priority: optional",
        "Section: universe/games",
        "Depends: libtext-charwidth-perl, perl:any | perl",
        "Suggests: filters",
        "Filename: pool/universe/c/cowsay/cowsay_3.03+dfsg2-7_all.deb",
        "Description: configurable talking cow",
        "",
    ]
    .join("\n")
}

#[test]
fn test_package_source_from_row() {
    let sample = sample_index();
    let psources = SourcePackage::from_raw(&sample, "jp.hogehoge.com_dists_focal-main").unwrap();
    let dpkg = &psources[0];
    assert_eq!(psources.len(), 3);
    assert_eq!(dpkg.package, "dpkg");
    assert_eq!(dpkg.pre_depends.get("libzstd1").unwrap().unwrap(), "1.3.2");
    assert_eq!(dpkg.arch[0], Arch::AMD64);
    assert_eq!(dpkg.version, "1.19.7ubuntu3");
    assert_eq!(dpkg.essential, true);
    assert_eq!(dpkg.section, Section::ADMIN);
    assert_eq!(dpkg.maintainer, "Ubuntu Developers <ubuntu-devel-discuss@lists.ubuntu.com>");
    assert_eq!(dpkg.original_maintainer, "Dpkg Developers <debian-dpkg@lists.debian.org>");
    assert_eq!(dpkg.suggests.contains(&"apt".to_string()), true);
    assert_eq!(dpkg.suggests.contains(&"debsig-verify".to_string()), true);
    assert_eq!(dpkg.filename, "pool/main/d/dpkg/dpkg_1.19.7ubuntu3_amd64.deb");
    assert_eq!(dpkg.chksum_md5, "f595c79475d3c2ac808eaac389071c35");
    assert_eq!(
        dpkg.description,
        "Debian package management system\nwaiwai second sentence.\nuouo fish life."
    );
    assert_eq!(dpkg.dist, "focal");
    assert_eq!(dpkg.component, "main");
}

#[test]
fn parsed_fields_of_the_sample() {
    let psources =
        SourcePackage::from_raw(&sample_index(), "jp.hogehoge.com_dists_focal-main").unwrap();
    let dpkg = &psources[0];
    assert_eq!(dpkg.priority, Priority::REQUIRED);
    assert_eq!(dpkg.installed_size, 6740);
    assert_eq!(dpkg.origin, "Ubuntu");
    assert_eq!(dpkg.bugs, "https://bugs.launchpad.net/ubuntu/+filebug");
    assert_eq!(dpkg.homepage, "https://wiki.debian.org/Teams/Dpkg");
    assert_eq!(dpkg.pre_depends.len(), 6);
    assert_eq!(dpkg.pre_depends.get("libbz2-1.0"), Some(None));
    assert_eq!(dpkg.pre_depends.get("zlib1g"), Some(Some("1:1.1.4".to_string())));
    assert_eq!(dpkg.pre_depends.get("nothing"), None);
    assert_eq!(dpkg.depends.get("tar"), Some(Some("1.28-1".to_string())));
    assert_eq!(dpkg.suggests, vec!["apt".to_string(), "debsig-verify".to_string()]);
    assert_eq!(dpkg.status.want, StatusWant::UNKNOWN);
    let cowsay = &psources[2];
    assert_eq!(cowsay.package, "cowsay");
    assert_eq!(cowsay.arch, vec![Arch::ALL]);
    assert_eq!(cowsay.section, Section::UNKNOWN);
    assert_eq!(cowsay.priority, Priority::OPTIONAL);
    // of alternatives the first is kept
    assert_eq!(cowsay.depends.len(), 2);
    assert_eq!(cowsay.depends.get("perl:any"), Some(None));
    assert_eq!(cowsay.depends.get("perl"), None);
    assert_eq!(cowsay.essential, false);
}

#[test]
fn unterminated_paragraph_is_dropped() {
    let text = "Package: a\nVersion: 1\n\nPackage: b\nVersion: 2";
    let items = SourcePackage::from_raw(text, "x_dists_focal-main").unwrap();
    assert_eq!(items.len(), 1);
    assert_eq!(items[0].package, "a");
    let text = "Package: a\nVersion: 1\n\nPackage: b\nVersion: 2\n";
    let items = SourcePackage::from_raw(text, "x_dists_focal-main").unwrap();
    assert_eq!(items.len(), 2);
    assert_eq!(items[1].version, "2");
}

#[test]
fn blank_lines_without_a_paragraph_give_no_record() {
    let text = "\n\nPackage: a\n\n\n\nVersion: 3\n\n";
    let items = SourcePackage::from_raw(text, "x_dists_focal-main").unwrap();
    assert_eq!(items.len(), 1);
    assert_eq!(items[0].package, "a");
    assert_eq!(SourcePackage::from_raw("", "x").unwrap().len(), 0);
}

#[test]
fn malformed_lines_are_named() {
    let text = "Package: a\nVersion\n\n";
    assert_eq!(
        SourcePackage::from_raw(text, "x_dists_focal-main"),
        Err(Error::MalformedInput("Version".to_string()))
    );
    let text = "Package:\n\n";
    assert_eq!(
        SourcePackage::from_raw(text, "x_dists_focal-main"),
        Err(Error::MalformedInput("Package:".to_string()))
    );
    let text = "Package: \n\n";
    assert_eq!(
        SourcePackage::from_raw(text, "x_dists_focal-main"),
        Err(Error::MalformedInput("Package: ".to_string()))
    );
    let text = "Package: a\n\nPackage: b\nDepends: c (>=\n\n";
    assert_eq!(
        SourcePackage::from_raw(text, "x_dists_focal-main"),
        Err(Error::MalformedInput("Depends: c (>=".to_string()))
    );
    let text = "Package: a\nStatus: install ok\n\n";
    assert_eq!(
        SourcePackage::from_raw(text, "x_dists_focal-main"),
        Err(Error::MalformedInput("Status: install ok".to_string()))
    );
}

#[test]
fn unknown_fields_are_ignored() {
    let text = "Package: a\nX-Whatever: 1\nSomething\n odd line\nConffiles:\n /etc/a 123\n\n";
    let items = SourcePackage::from_raw(text, "x_dists_focal-main").unwrap();
    assert_eq!(items.len(), 1);
    assert_eq!(items[0].description, "");
    assert_eq!(items[0].conffiles, vec!["".to_string()]);
}

#[test]
fn installed_size_that_is_no_number_is_zero() {
    let text = "Package: a\nInstalled-Size: many\n\nPackage: b\nInstalled-Size: +12\n\nPackage: c\nInstalled-Size: 99999999999999999999999\n\nPackage: d\nInstalled-Size: 18446744073709551615\n\n";
    let items = SourcePackage::from_raw(text, "x").unwrap();
    assert_eq!(items[0].installed_size, 0);
    assert_eq!(items[1].installed_size, 12);
    assert_eq!(items[2].installed_size, 0);
    assert_eq!(items[3].installed_size, 18446744073709551615);
    assert_eq!(items[0].dist, "");
    assert_eq!(items[0].component, "");
}

#[test]
fn origin_of_a_filename() {
    assert_eq!(
        get_info_from_filename("jp.archive.ubuntu.com_ubuntu__dists_focal-main"),
        ("focal".to_string(), "main".to_string())
    );
    assert_eq!(
        get_info_from_filename("host_dists_focal-updates-universe"),
        ("focal-updates".to_string(), "universe".to_string())
    );
    assert_eq!(get_info_from_filename("host_dists_focal"), ("focal".to_string(), "".to_string()));
    assert_eq!(get_info_from_filename("host-focal-main"), ("".to_string(), "".to_string()));
}

#[test]
fn test_package_resolve_duplication() {
    let sample = [
        "Package: dpkg",
        "Version: 1.19.7ubuntu3",
        "Priority: optional",
        "",
        "Package: dpkg",
        "Version: 1.20.7ubuntu3",
        "Priority: required",
        "",
        "Package: dpkg",
        "Version: 1.19.7ubuntu3",
        "Priority: required",
        "",
    ]
    .join("\n");
    let psources = SourcePackage::from_raw(&sample, "jp.hogehgoe.com_dists_focal-main").unwrap();
    assert_eq!(psources.len(), 3);
    let resolved = resolve_duplication(&psources).unwrap();
    assert_eq!(resolved.len(), 1);
    let dpkg = resolved.iter().nth(0).unwrap();
    assert_eq!(dpkg.package, "dpkg");
    assert_eq!(dpkg.priority, Priority::REQUIRED);
    assert_eq!(dpkg.version, "1.20.7ubuntu3");
}

fn record(name: &str, version: &str, priority: Priority, origin: &str) -> SourcePackage {
    let mut r = SourcePackage::default();
    r.package = name.to_string();
    r.version = version.to_string();
    r.priority = priority;
    r.origin = origin.to_string();
    r
}

#[test]
fn priority_beats_version_and_ties_keep_the_first() {
    let a = record("x", "9.0", Priority::OPTIONAL, "a");
    let b = record("x", "1.0", Priority::REQUIRED, "b");
    assert_eq!(choose_package(&a, &b).origin, "b");
    assert_eq!(choose_package(&b, &a).origin, "b");
    let c = record("x", "1.0", Priority::REQUIRED, "c");
    assert_eq!(choose_package(&b, &c).origin, "b");
    assert_eq!(choose_package(&c, &b).origin, "c");
    let d = record("x", "1.0-1", Priority::REQUIRED, "d");
    assert_eq!(choose_package(&b, &d).origin, "d");
    let all = vec![
        record("y", "1", Priority::EXTRA, "y1"),
        a.clone(),
        b.clone(),
        record("y", "1", Priority::EXTRA, "y2"),
        c.clone(),
        record("z", "1", Priority::UNKNOWN, "z1"),
        record("y", "2", Priority::UNKNOWN, "y3"),
    ];
    let resolved = resolve_duplication(&all).unwrap();
    let got: Vec<(String, String)> =
        resolved.iter().map(|r| (r.package.clone(), r.origin.clone())).collect();
    assert_eq!(
        got,
        vec![
            ("y".to_string(), "y1".to_string()),
            ("x".to_string(), "b".to_string()),
            ("z".to_string(), "z1".to_string()),
        ]
    );
    assert_eq!(resolve_duplication(&Vec::new()).unwrap().len(), 0);
}

#[test]
fn priorities_are_ranked() {
    assert!(Priority::REQUIRED.rank() > Priority::IMPORTANT.rank());
    assert!(Priority::IMPORTANT.rank() > Priority::STANDARD.rank());
    assert!(Priority::STANDARD.rank() > Priority::OPTIONAL.rank());
    assert!(Priority::OPTIONAL.rank() > Priority::EXTRA.rank());
    assert!(Priority::EXTRA.rank() > Priority::UNKNOWN.rank());
    assert_eq!(Priority::REQUIRED.name(), "required");
    assert_eq!(Arch::AMD64.name(), "amd64");
}

#[test]
fn test_parse_depends() {
    let dep1 = "libc6 (>= 2.15)";
    let dep2 = "libbz2-1.0";
    let pdep1 = parse_depends(dep1).unwrap();
    let pdep2 = parse_depends(dep2).unwrap();
    assert_eq!(pdep1.0, "libc6");
    assert_eq!(pdep1.1.unwrap(), "2.15");
    assert_eq!(pdep2.0, "libbz2-1.0");
    assert_eq!(pdep2.1, None);
}

#[test]
fn dependency_entries() {
    assert_eq!(parse_depends("  a | b (>= 1) ").unwrap(), ("a".to_string(), None));
    assert_eq!(
        parse_depends("a (<< 2.0~) | b").unwrap(),
        ("a".to_string(), Some("2.0~".to_string()))
    );
    assert_eq!(parse_depends("a (>=").unwrap_err(), Error::MalformedInput("a (>=".to_string()));
    assert_eq!(
        parse_depends("a (>= 1.0) extra").unwrap_err(),
        Error::MalformedInput("a (>= 1.0) extra".to_string())
    );
    assert_eq!(parse_depends("").unwrap(), ("".to_string(), None));
}

#[test]
fn test_parsing_dpkg_status() {
    let sample_stat_str = [
        "Package: vim",
        "Status: deinstall ok config-files",
        "Priority: optional",
        "Section: editors",
        "Installed-Size: 3038",
        "Maintainer: Ubuntu Developers <ubuntu-devel-discuss@lists.ubuntu.com>",
        "Architecture: amd64",
        "Version: 2:8.1.2269-1ubuntu5",
        "Description: Vi IMproved - enhanced vi editor",
        " Vim is an almost compatible version of the UNIX editor Vi.",
        "",
        "Package: cowsay",
        "Status: install ok installed",
        "Priority: optional",
        "Section: games",
        "Installed-Size: 91",
        "Architecture: all",
        "Version: 3.03+dfsg2-7",
        "Description: configurable talking cow",
        "",
    ]
    .join("\n");
    let items = match SourcePackage::from_raw(&sample_stat_str, "jp.hogehoge.com_dists_focal-main")
    {
        Ok(a) => a,
        Err(msg) => {
            println!("{:?}", msg);
            panic!();
        }
    };
    let vim = items.iter().nth(0).unwrap();
    let cowsay = items.iter().nth(1).unwrap();

    assert_eq!(vim.package, "vim");
    assert_eq!(cowsay.package, "cowsay");

    assert_eq!(vim.installed_size, 3038);
    assert_eq!(cowsay.installed_size, 91);

    assert_eq!(vim.status.want, StatusWant::DEINSTALL);
    assert_eq!(vim.status.flag, StatusFlag::OK);
    assert_eq!(vim.status.status, StatusStatus::CONFIG_FILES);
    assert_eq!(cowsay.status.want, StatusWant::INSTALL);
    assert_eq!(cowsay.status.flag, StatusFlag::OK);
    assert_eq!(cowsay.status.status, StatusStatus::INSTALLED);
}

#[test]
fn status_words() {
    let s = parse_status("purge hold-reinstreq half-configured").unwrap();
    assert_eq!(s.want, StatusWant::PURGE);
    assert_eq!(s.flag, StatusFlag::HOLD_REINSTREQ);
    assert_eq!(s.status, StatusStatus::HALF_CONFIGURED);
    let s = parse_status("whatever reinstreq post-inst-failed").unwrap();
    assert_eq!(s.want, StatusWant::UNKNOWN);
    assert_eq!(s.flag, StatusFlag::REINSTREQ);
    assert_eq!(s.status, StatusStatus::POST_INST_FAILED);
    assert_eq!(
        parse_status("install ok").unwrap_err(),
        Error::MalformedInput("install ok".to_string())
    );
    assert_eq!(
        parse_status("install fine installed").unwrap_err(),
        Error::MalformedInput("install fine installed".to_string())
    );
    assert_eq!(
        parse_status("install ok gone").unwrap_err(),
        Error::MalformedInput("install ok gone".to_string())
    );
    assert_eq!(
        parse_status("install  ok installed").unwrap_err(),
        Error::MalformedInput("install  ok installed".to_string())
    );
}

#[test]
fn test_read_extended_information() {
    let text = [
        "Package: libclass-method-modifiers-perl",
        "Architecture: amd64",
        "Auto-Installed: 1",
        "",
        "Package: libsub-name-perl",
        "Architecture: amd64",
        "Auto-Installed: 1",
        "",
        "Package: librole-tiny-perl",
        "Architecture: amd64",
        "Auto-Installed: 0",
        "",
        "Package: libimport-into-perl",
        "Architecture: amd64",
        "Auto-Installed: 1",
        "",
    ]
    .join("\n");
    let res = read_extended_information(&text);
    assert_eq!(
        res,
        vec![
            ("libclass-method-modifiers-perl".to_string(), true),
            ("libsub-name-perl".to_string(), true),
            ("librole-tiny-perl".to_string(), false),
            ("libimport-into-perl".to_string(), true),
        ]
    );
}

#[test]
fn extended_states_in_two_lines() {
    let res = read_extended_information("Package: a\nAuto-Installed: 1\n\nPackage: b\n\nnothing\nAuto-Installed: 1\n\nPackage: c\nArchitecture: all\n");
    assert_eq!(res, vec![("a".to_string(), true), ("c".to_string(), false)]);
    assert_eq!(read_extended_information(""), Vec::<(String, bool)>::new());
}

#[test]
fn dependency_maps_keep_one_entry_for_a_name() {
    let mut map = rapt::depends::DependencyMap::new();
    assert_eq!(map.len(), 0);
    assert!(!map.contains_key("a"));
    map.insert("a".to_string(), None);
    map.insert("b".to_string(), Some("1".to_string()));
    map.insert("a".to_string(), Some("2".to_string()));
    assert_eq!(map.len(), 2);
    assert!(map.contains_key("a"));
    assert_eq!(map.position("a"), Some(0));
    assert_eq!(map.position("b"), Some(1));
    assert_eq!(map.get("a"), Some(Some("2".to_string())));
    assert_eq!(map.get("b"), Some(Some("1".to_string())));
    assert_eq!(map.get("c"), None);
    assert_eq!(map.copy(), map);
}
