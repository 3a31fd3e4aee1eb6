use rapt::helper::{extension_of_last_component, extension_of_name, flExtension, str2bool};

#[test]
fn switches() {
    for w in ["no", "false", "without", "off", "disable"].iter() {
        assert_eq!(str2bool(w, true), false);
    }
    for w in ["yes", "true", "with", "on", "enable"].iter() {
        assert_eq!(str2bool(w, false), true);
    }
    assert_eq!(str2bool("maybe", true), true);
    assert_eq!(str2bool("maybe", false), false);
    assert_eq!(str2bool("", true), true);
}

#[test]
fn extensions() {
    assert_eq!(flExtension("/var/cache/a.tar.gz"), "gz");
    assert_eq!(flExtension("dir.d/file"), "");
    assert_eq!(flExtension("file.deb"), "deb");
    assert_eq!(flExtension("/"), "");
    assert_eq!(extension_of_name("a.b.c"), "c");
    assert_eq!(extension_of_name("abc"), "");
    assert_eq!(extension_of_name("abc."), "");
}

#[test]
fn extension_of_what_was_found() {
    assert_eq!(extension_of_last_component(&Some("a.tar.gz".to_string())), "gz");
    assert_eq!(extension_of_last_component(&Some("README".to_string())), "");
    assert_eq!(extension_of_last_component(&Some(".bashrc".to_string())), "bashrc");
    assert_eq!(extension_of_last_component(&None), "");
    assert_eq!(flExtension("x/.."), "");
    assert_eq!(flExtension("a.b/c.d/"), "d");
}
