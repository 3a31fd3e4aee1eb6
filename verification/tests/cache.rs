use rapt::cache::{
    build_index, domain_of_filename, get_cached_items, get_pool_domain,
    search_cache_with_name_description_regex, search_cache_with_name_glob,
    search_cache_with_names,
};
use rapt::error::Error;
use rapt::source::{Priority, SourcePackage};

fn package(name: &str, description: &str, provides: &[&str]) -> SourcePackage {
    let mut p = SourcePackage::default();
    p.package = name.to_string();
    p.description = description.to_string();
    p.provides = provides.iter().map(|s| s.to_string()).collect();
    p
}

fn found(items: &Option<Vec<SourcePackage>>) -> Vec<&str> {
    items.as_ref().unwrap().iter().map(|p| p.package.as_str()).collect()
}

fn items() -> Vec<SourcePackage> {
    vec![
        package("vim", "Vi IMproved - enhanced vi editor", &["editor"]),
        package("vim-tiny", "Vi IMproved - compact version", &["editor"]),
        package("Emacs", "GNU Emacs editor", &["Editor", "mail-reader"]),
        package("cowsay", "configurable talking cow", &[]),
    ]
}

#[test]
fn glob_search_by_name_and_provides() {
    let items = items();
    assert_eq!(found(&search_cache_with_name_glob("vim*", true, &items)), vec!["vim", "vim-tiny"]);
    assert_eq!(found(&search_cache_with_name_glob("vim", true, &items)), vec!["vim"]);
    assert_eq!(found(&search_cache_with_name_glob("c?wsay", true, &items)), vec!["cowsay"]);
    assert_eq!(found(&search_cache_with_name_glob("editor", true, &items)), vec!["vim", "vim-tiny"]);
    assert_eq!(
        found(&search_cache_with_name_glob("editor", false, &items)),
        vec!["vim", "vim-tiny", "Emacs"]
    );
    assert_eq!(found(&search_cache_with_name_glob("emacs", true, &items)), Vec::<&str>::new());
    assert_eq!(found(&search_cache_with_name_glob("emacs", false, &items)), vec!["Emacs"]);
    assert_eq!(found(&search_cache_with_name_glob("*", true, &items)).len(), 4);
    assert_eq!(found(&search_cache_with_name_glob("", true, &items)), Vec::<&str>::new());
}

#[test]
fn invalid_patterns_find_nothing() {
    let items = items();
    assert!(search_cache_with_name_glob("[", true, &items).is_none());
    assert!(search_cache_with_name_glob("a***", true, &Vec::new()).is_none());
    assert!(search_cache_with_name_description_regex("(", true, &items).is_none());
    assert!(search_cache_with_names(&vec!["vim".to_string(), "[".to_string()], &items).is_none());
}

#[test]
fn names_are_searched_one_after_the_other() {
    let items = items();
    let names = vec!["cowsay".to_string(), "vim*".to_string(), "none".to_string(), "vim".to_string()];
    assert_eq!(
        found(&search_cache_with_names(&names, &items)),
        vec!["cowsay", "vim", "vim-tiny", "vim"]
    );
    assert_eq!(found(&search_cache_with_names(&Vec::new(), &items)), Vec::<&str>::new());
}

#[test]
fn regex_search_by_name_and_description() {
    let items = items();
    assert_eq!(
        found(&search_cache_with_name_description_regex("editor", true, &items)),
        vec!["vim", "Emacs"]
    );
    assert_eq!(
        found(&search_cache_with_name_description_regex("^vim", true, &items)),
        vec!["vim", "vim-tiny"]
    );
    assert_eq!(
        found(&search_cache_with_name_description_regex("gnu", true, &items)),
        Vec::<&str>::new()
    );
    assert_eq!(
        found(&search_cache_with_name_description_regex("gnu", false, &items)),
        vec!["Emacs"]
    );
    assert_eq!(
        found(&search_cache_with_name_description_regex("c.w$", true, &items)),
        vec!["cowsay"]
    );
}

fn files() -> Vec<(String, String)> {
    vec![
        (
            "jp.archive.ubuntu.com_ubuntu__dists_focal-main".to_string(),
            "Package: dpkg\nVersion: 1.19.7ubuntu3\nPriority: optional\nFilename: pool/main/d/dpkg/dpkg_1.19.7ubuntu3_amd64.deb\n\nPackage: tar\nVersion: 1.30\n\n".to_string(),
        ),
        (
            "security.ubuntu.com_ubuntu__dists_focal-security".to_string(),
            "Package: dpkg\nVersion: 1.20.7ubuntu3\nPriority: required\n\nPackage: vim\nVersion: 8.1\nFilename: pool/main/v/vim/vim_8.1_amd64.deb\n\n".to_string(),
        ),
    ]
}

#[test]
fn index_of_all_files() {
    let all = get_cached_items(&files()).unwrap();
    let got: Vec<(&str, &str, &str)> =
        all.iter().map(|p| (p.package.as_str(), p.dist.as_str(), p.component.as_str())).collect();
    assert_eq!(
        got,
        vec![
            ("dpkg", "focal", "main"),
            ("tar", "focal", "main"),
            ("dpkg", "focal", "security"),
            ("vim", "focal", "security"),
        ]
    );
    let index = build_index(&files()).unwrap();
    assert_eq!(index.len(), 3);
    assert_eq!(index[0].package, "dpkg");
    assert_eq!(index[0].version, "1.20.7ubuntu3");
    assert_eq!(index[0].priority, Priority::REQUIRED);
    assert_eq!(index[0].component, "security");
    assert_eq!(index[1].package, "tar");
    assert_eq!(index[2].package, "vim");
    let mut broken = files();
    broken.push(("x_dists_a-b".to_string(), "Package: z\nVersion\n\n".to_string()));
    assert_eq!(get_cached_items(&broken), Err(Error::MalformedInput("Version".to_string())));
    assert_eq!(build_index(&broken), Err(Error::MalformedInput("Version".to_string())));
    assert_eq!(build_index(&Vec::new()).unwrap().len(), 0);
}

#[test]
fn pool_addresses() {
    assert_eq!(
        domain_of_filename("jp.archive.ubuntu.com_ubuntu__dists_focal-main"),
        "jp.archive.ubuntu.com/ubuntu/"
    );
    assert_eq!(domain_of_filename("host"), "host");
    assert_eq!(domain_of_filename("a_b"), "a/b");
    let all = get_cached_items(&files()).unwrap();
    let vim = &all[3];
    assert_eq!(get_pool_domain(vim, &files()), Ok("security.ubuntu.com/ubuntu/".to_string()));
    assert_eq!(
        vim.to_pool_uri(&files()),
        Ok("http://security.ubuntu.com/ubuntu/pool/main/v/vim/vim_8.1_amd64.deb".to_string())
    );
    let dpkg = &all[0];
    assert_eq!(
        dpkg.to_pool_uri(&files()),
        Ok("http://jp.archive.ubuntu.com/ubuntu/pool/main/d/dpkg/dpkg_1.19.7ubuntu3_amd64.deb"
            .to_string())
    );
    let mut other = SourcePackage::default();
    other.package = "emacs".to_string();
    assert_eq!(get_pool_domain(&other, &files()), Err(()));
    assert_eq!(other.to_pool_uri(&Vec::new()), Err(()));
}

#[test]
fn records_are_selected_by_their_flags() {
    let items = items();
    let picked = rapt::cache::select_packages(&items, &vec![true, false, false, true]);
    assert_eq!(found(&Some(picked)), vec!["vim", "cowsay"]);
    let picked = rapt::cache::select_packages(&items, &vec![false, true]);
    assert_eq!(found(&Some(picked)), vec!["vim-tiny"]);
    let picked = rapt::cache::select_packages(&items, &Vec::new());
    assert_eq!(found(&Some(picked)), Vec::<&str>::new());
}
