use rapt::dpkg::{
    check_missing_or_old, check_upgradable, get_missing_or_old_dependencies, PackageState,
};
use rapt::error::Error;
use rapt::resolver::get_missing_or_old_dependencies_recursive;
use rapt::source::SourcePackage;

fn package(name: &str, version: &str, depends: &[(&str, Option<&str>)]) -> SourcePackage {
    let mut p = SourcePackage::default();
    p.package = name.to_string();
    p.version = version.to_string();
    for (dep, constraint) in depends.iter() {
        p.depends.insert(dep.to_string(), constraint.map(|c| c.to_string()));
    }
    p
}

fn names(list: &Vec<(String, PackageState)>) -> Vec<(&str, PackageState)> {
    list.iter().map(|(n, s)| (n.as_str(), *s)).collect()
}

#[test]
fn dependency_states() {
    let installed = vec![
        package("libc6", "2.31-0ubuntu9", &[]),
        package("tar", "1.30+dfsg-7", &[]),
        package("python3", "3.8.2-0ubuntu2", &[]),
    ];
    assert_eq!(check_missing_or_old("tar", &None, &installed), PackageState::UPTODATE);
    assert_eq!(
        check_missing_or_old("tar", &Some("1.28-1".to_string()), &installed),
        PackageState::UPTODATE
    );
    assert_eq!(
        check_missing_or_old("tar", &Some("1.30+dfsg-7".to_string()), &installed),
        PackageState::UPTODATE
    );
    assert_eq!(
        check_missing_or_old("tar", &Some("1.31".to_string()), &installed),
        PackageState::OLD
    );
    assert_eq!(check_missing_or_old("xz-utils", &None, &installed), PackageState::MISSING);
    assert_eq!(check_missing_or_old("tar", &None, &Vec::new()), PackageState::MISSING);
    // names are matched up to their first digit
    assert_eq!(check_missing_or_old("libc", &None, &installed), PackageState::UPTODATE);
    assert_eq!(check_missing_or_old("libc7", &None, &installed), PackageState::UPTODATE);
    assert_eq!(check_missing_or_old("python2", &None, &installed), PackageState::UPTODATE);
    assert_eq!(check_missing_or_old("libcurl4", &None, &installed), PackageState::MISSING);
}

#[test]
fn needed_dependencies_of_one_package() {
    let installed = vec![package("a", "1.0", &[]), package("b", "1.0", &[])];
    let target = package(
        "t",
        "1",
        &[("a", None), ("b", Some("2.0")), ("c", None), ("d", Some("1")), ("a", Some("0.5"))],
    );
    let needed = get_missing_or_old_dependencies(&target, &installed);
    assert_eq!(
        names(&needed),
        vec![("b", PackageState::OLD), ("c", PackageState::MISSING), ("d", PackageState::MISSING)]
    );
}

#[test]
fn upgradable_packages() {
    let index = vec![
        package("a", "2.0", &[]),
        package("b", "1.0", &[]),
        package("a", "9.0", &[]),
        package("c", "1:0.1", &[]),
    ];
    let installed = vec![
        package("a", "1.0", &[]),
        package("b", "1.0", &[]),
        package("c", "5.0", &[]),
        package("d", "0.1", &[]),
        package("a", "2.0", &[]),
    ];
    let up = check_upgradable(&index, &installed);
    let got: Vec<(&str, &str)> =
        up.iter().map(|p| (p.package.as_str(), p.version.as_str())).collect();
    assert_eq!(got, vec![("a", "1.0"), ("c", "5.0")]);
}

#[test]
fn resolver_ends_on_a_cycle() {
    let a = package("A", "1", &[("B", None)]);
    let b = package("B", "1", &[("A", None)]);
    let index = vec![a.clone(), b.clone()];
    let installed: Vec<SourcePackage> = Vec::new();
    let list = get_missing_or_old_dependencies_recursive(&a, &index, &installed).unwrap();
    assert_eq!(names(&list), vec![("B", PackageState::MISSING)]);
    let list = get_missing_or_old_dependencies_recursive(&b, &index, &installed).unwrap();
    assert_eq!(names(&list), vec![("A", PackageState::MISSING)]);
}

#[test]
fn resolver_names_what_the_index_lacks() {
    let a = package("A", "1", &[("B", None), ("ghost", None), ("C", None), ("spirit", Some("2"))]);
    let index = vec![a.clone(), package("B", "1", &[]), package("C", "1", &[])];
    let installed: Vec<SourcePackage> = Vec::new();
    assert_eq!(
        get_missing_or_old_dependencies_recursive(&a, &index, &installed),
        Err(Error::UnresolvedDependencies(vec!["ghost".to_string(), "spirit".to_string()]))
    );
    // the failure may lie deeper
    let a = package("A", "1", &[("B", None)]);
    let index = vec![a.clone(), package("B", "1", &[("nowhere", None)])];
    assert_eq!(
        get_missing_or_old_dependencies_recursive(&a, &index, &installed),
        Err(Error::UnresolvedDependencies(vec!["nowhere".to_string()]))
    );
    // what is installed and up to date is not looked up
    let installed = vec![package("nowhere", "1", &[])];
    let list = get_missing_or_old_dependencies_recursive(&a, &index, &installed).unwrap();
    assert_eq!(names(&list), vec![("B", PackageState::MISSING)]);
}

#[test]
fn resolver_lists_each_name_once_in_discovery_order() {
    // A -> B, C ; B -> D, C ; C -> D, E(old) ; D -> A ; E -> (nothing)
    let a = package("A", "1", &[("B", None), ("C", None)]);
    let index = vec![
        a.clone(),
        package("B", "1", &[("D", None), ("C", None)]),
        package("C", "1", &[("D", None), ("E", Some("2.0"))]),
        package("D", "1", &[("A", None)]),
        package("E", "2.0", &[("F", None)]),
        package("F", "1", &[]),
    ];
    let installed = vec![package("E", "1.0", &[]), package("F", "1", &[])];
    let list = get_missing_or_old_dependencies_recursive(&a, &index, &installed).unwrap();
    assert_eq!(
        names(&list),
        vec![
            ("B", PackageState::MISSING),
            ("C", PackageState::MISSING),
            ("D", PackageState::MISSING),
            ("E", PackageState::OLD),
        ]
    );
    // nothing is needed where all is installed
    let installed = vec![package("B", "1", &[]), package("C", "1", &[])];
    let list = get_missing_or_old_dependencies_recursive(&a, &index, &installed).unwrap();
    assert_eq!(list.len(), 0);
}

#[test]
fn errors_in_words() {
    assert_eq!(Error::MalformedInput("Version".to_string()).message(), "Malformed line: Version");
    assert_eq!(
        Error::UnresolvedDependencies(vec!["a".to_string(), "b".to_string()]).message(),
        "Dependency packages not found in cache files: a b "
    );
    assert_eq!(
        Error::LockContention("lists/lock".to_string()).message(),
        "Failed to get a lock: lists/lock"
    );
    assert_eq!(Error::IOFailure("no such file".to_string()).message(), "no such file");
}
