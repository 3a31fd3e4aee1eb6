use rapt::error::Error;
use rapt::slist::{parse_source_file, parse_source_line, Protocol, Source, SourceType};

#[test]
pub fn test_parse_source_line() {
    let line = "deb http://jp.archive.ubuntu.com/ubuntu/ focal main restricted";
    let s1 = Source {
        stype: SourceType::DEB,
        protocol: Protocol::HTTP,
        uri: "jp.archive.ubuntu.com/ubuntu/".to_string(),
        dists: "focal".to_string(),
        component: "main".to_string(),
    };
    let s2 = Source {
        stype: SourceType::DEB,
        protocol: Protocol::HTTP,
        uri: "jp.archive.ubuntu.com/ubuntu/".to_string(),
        dists: "focal".to_string(),
        component: "restricted".to_string(),
    };
    let sources = parse_source_line(line).unwrap();
    assert_eq!(sources[0], s1);
    assert_eq!(sources[1], s2);
}

#[test]
pub fn test_to_index_uri() {
    let line = "deb http://jp.archive.ubuntu.com/ubuntu/ focal main";
    let source = &parse_source_line(line).unwrap()[0];
    let uri = source.to_index_uri();
    assert_eq!(
        uri,
        "http://jp.archive.ubuntu.com/ubuntu/dists/focal/main/binary-amd64/Packages.gz"
    );
}

#[test]
fn index_uri_gets_its_slash() {
    let source = &parse_source_line("deb-src http://example.org/debian stable main").unwrap()[0];
    assert_eq!(source.stype, SourceType::DEBSRC);
    assert_eq!(
        source.to_index_uri(),
        "http://example.org/debian/dists/stable/main/binary-amd64/Packages.gz"
    );
    assert_eq!(source.to_filename(), "example.org_debian_dists_stable-main");
    assert_eq!(source.info(), "http://example.org/debian stable main");
}

#[test]
fn source_lines_that_name_nothing_or_are_malformed() {
    assert_eq!(parse_source_line("").unwrap().len(), 0);
    assert_eq!(parse_source_line("# deb http://a b c").unwrap().len(), 0);
    let bad = [
        "deb http://a focal",
        "rpm http://a focal main",
        "deb ftp://a focal main",
        "deb a focal main",
        "deb http://a://b focal main",
    ];
    for line in bad.iter() {
        assert_eq!(parse_source_line(line), Err(Error::MalformedInput(line.to_string())));
    }
}

#[test]
fn source_file_is_read_line_by_line() {
    let text = "# the list\ndeb http://a/ubuntu/ focal main universe\n\ndeb-src http://b/ focal main\n";
    let sources = parse_source_file(text).unwrap();
    assert_eq!(sources.len(), 3);
    assert_eq!(sources[1].component, "universe");
    assert_eq!(sources[2].uri, "b/");
    assert_eq!(
        parse_source_file("deb http://a focal main\noops\ndeb"),
        Err(Error::MalformedInput("oops".to_string()))
    );
}

#[test]
fn the_name_of_an_index_file_leads_back_to_its_source() {
    for line in [
        "deb http://jp.archive.ubuntu.com/ubuntu/ focal main",
        "deb http://security.ubuntu.com/ubuntu focal-security universe",
        "deb http://a/b/c/ stable/updates contrib",
    ]
    .iter()
    {
        let source = &parse_source_line(line).unwrap()[0];
        let (dist, component) = rapt::cache::get_info_from_filename(&source.to_filename());
        assert_eq!(dist, source.dists);
        assert_eq!(component, source.component);
    }
}
