use rapt::version::{comp_upstream_version, comp_version, comp_version_char, split_in_upstream, split_version};

#[test]
fn test_versions() {
    assert_eq!(comp_version("30:ubuntu03.a3", "30:ubuntu03.a3"), 0);
    assert_eq!(comp_version("32:ubuntu03.a3", "30:ubuntu03.a3"), 1);
    assert_eq!(comp_version("ubuntu03.a3", "ubuntu03.a3~beta"), 1);
    assert_eq!(comp_version("20200323-1build1~ubuntu20.04.1", "20200323-1"), 1);
    assert_eq!(comp_version("1:3.36.5-0ubuntu2", "1:3.36.5-0ubuntu1"), 1);
}

#[test]
fn test_split_version() {
    let v1 = split_version("12:1.27.1ubuntu2");
    let v2 = split_version("1.27.1ubuntu2");
    let v3 = split_version("12:1.27.1ubuntu2-0.30");
    let v4 = split_version("12:1.27.1ubuntu2-0.30ubuntu~beta");
    let v5 = split_version("12:1.27.1ubuntu2+4.3-0.30ubuntu~beta");
    let v6 = split_version("12:1.27.1ubuntu-2+4.3-0.30ubuntu~beta");
    assert_eq!(v1, (Some(12), "1.27.1ubuntu2".to_string(), None));
    assert_eq!(v2, (None, "1.27.1ubuntu2".to_string(), None));
    assert_eq!(v3, (Some(12), "1.27.1ubuntu2".to_string(), Some("0.30".to_string())));
    assert_eq!(
        v4,
        (Some(12), "1.27.1ubuntu2".to_string(), Some("0.30ubuntu~beta".to_string()))
    );
    assert_eq!(
        v5,
        (Some(12), "1.27.1ubuntu2+4.3".to_string(), Some("0.30ubuntu~beta".to_string()))
    );
    assert_eq!(
        v6,
        (Some(12), "1.27.1ubuntu-2+4.3".to_string(), Some("0.30ubuntu~beta".to_string()))
    );
}

#[test]
fn test_comp_version_char() {
    assert_eq!(comp_version_char(Some('5'), Some('4')), 1);
    assert_eq!(comp_version_char(Some('3'), Some('3')), 0);
    assert_eq!(comp_version_char(Some('3'), Some('~')), 1);
    assert_eq!(comp_version_char(Some('3'), None), 1);
    assert_eq!(comp_version_char(Some('~'), None), -1);
}

#[test]
fn test_split_in_upstream() {
    assert_eq!(
        split_in_upstream("34.3.2"),
        vec![
            ("34".to_string(), ".".to_string()),
            ("3".to_string(), ".".to_string()),
            ("2".to_string(), "".to_string())
        ]
    );
    assert_eq!(
        split_in_upstream("34.3build1-ubuntu3~pre"),
        vec![
            ("34".to_string(), ".".to_string()),
            ("3".to_string(), "build".to_string()),
            ("1".to_string(), "-ubuntu".to_string()),
            ("3".to_string(), "~pre".to_string())
        ]
    );
}

#[test]
fn split_in_upstream_starts_with_a_digit_run() {
    assert_eq!(
        split_in_upstream("ubuntu3"),
        vec![("".to_string(), "ubuntu".to_string()), ("3".to_string(), "".to_string())]
    );
    assert_eq!(split_in_upstream(""), Vec::<(String, String)>::new());
}

#[test]
fn char_weights_are_ordered() {
    // tilde < end of run < letters < everything else
    assert_eq!(comp_version_char(Some('~'), Some('a')), -1);
    assert_eq!(comp_version_char(None, Some('A')), -1);
    assert_eq!(comp_version_char(Some('a'), Some('b')), -1);
    assert_eq!(comp_version_char(Some('Z'), Some('a')), -1);
    assert_eq!(comp_version_char(Some('z'), Some('+')), -1);
    assert_eq!(comp_version_char(Some('z'), Some('.')), -1);
    assert_eq!(comp_version_char(Some('z'), Some('!')), -1);
    assert_eq!(comp_version_char(Some('+'), Some('.')), -1);
    assert_eq!(comp_version_char(None, None), 0);
}

#[test]
fn digit_runs_compare_as_numbers() {
    assert_eq!(comp_upstream_version("10", "9"), 1);
    assert_eq!(comp_upstream_version("010", "10"), 0);
    assert_eq!(comp_upstream_version("1.02", "1.2"), 0);
    assert_eq!(comp_upstream_version("1.2", "1.10"), -1);
    assert_eq!(
        comp_upstream_version("123456789012345678901234567890", "123456789012345678901234567891"),
        -1
    );
    assert_eq!(
        comp_upstream_version("1000000000000000000000000000000", "999999999999999999999999999999"),
        1
    );
    assert_eq!(comp_upstream_version("", ""), 0);
    assert_eq!(comp_upstream_version("1.0", "1.0~rc1"), 1);
    assert_eq!(comp_upstream_version("1.0a", "1.0"), 1);
}

#[test]
fn epochs_and_revisions() {
    assert_eq!(comp_version("1:0.1", "9.9"), 1);
    assert_eq!(comp_version("9.9", "1:0.1"), -1);
    assert_eq!(comp_version("2:1.0", "10:1.0"), -1);
    assert_eq!(comp_version("1.0-1", "1.0"), 1);
    assert_eq!(comp_version("1.0", "1.0-1"), -1);
    assert_eq!(comp_version("1.0-2", "1.0-10"), -1);
    assert_eq!(comp_version("1-2-3", "1-2-4"), -1);
    // an epoch that is no number is no epoch
    assert_eq!(split_version("a:1.0"), (None, "a:1.0".to_string(), None));
    assert_eq!(split_version(":1.0"), (None, ":1.0".to_string(), None));
    assert_eq!(split_version("4294967296:1"), (None, "4294967296:1".to_string(), None));
    assert_eq!(split_version("4294967295:1"), (Some(4294967295), "1".to_string(), None));
    assert_eq!(split_version("1:2-"), (Some(1), "2".to_string(), Some("".to_string())));
}

#[test]
fn version_order_laws_on_a_corpus() {
    let corpus = [
        "1.0", "1.0-1", "1.0-2", "1:0.9", "1:1.0~rc1", "1:1.0", "2.0~beta", "2.0", "2.0a",
        "2.0+dfsg", "2.0.1", "10.0", "1.19.7ubuntu3", "1.20.7ubuntu3", "20200323-1",
        "20200323-1build1~ubuntu20.04.1", "ubuntu03.a3", "ubuntu03.a3~beta", "30:ubuntu03.a3", "",
        "0", "00", "~", "~~", "a", "1.0-1-1",
    ];
    for a in corpus.iter() {
        assert_eq!(comp_version(a, a), 0);
        for b in corpus.iter() {
            assert_eq!(comp_version(a, b), -comp_version(b, a));
            for c in corpus.iter() {
                if comp_version(a, b) >= 0 && comp_version(b, c) >= 0 {
                    assert!(comp_version(a, c) >= 0);
                    if comp_version(a, b) > 0 || comp_version(b, c) > 0 {
                        assert!(comp_version(a, c) > 0);
                    }
                }
            }
        }
    }
}
