//! The list of package sources: one line for each repository, with the
//! kind of its packages, its address, its distribution and its components.

use crate::error::Error;
use crate::text::{chars_of, is_text, split, split_chars, string_of, views};
use vstd::prelude::*;
use vstd::string::StringExecFns;

verus! {

/// Whether a source offers packages or their sources.
#[derive(Debug, PartialEq, Eq, Clone, Copy, Structural)]
pub enum SourceType {
    DEB,
    DEBSRC,
}

impl Default for SourceType {
    fn default() -> (r: Self)
        ensures
            r == SourceType::DEB,
    {
        SourceType::DEB
    }
}

/// How a source is reached.
#[derive(Debug, PartialEq, Eq, Clone, Copy, Structural)]
pub enum Protocol {
    HTTP,
}

impl Default for Protocol {
    fn default() -> (r: Self)
        ensures
            r == Protocol::HTTP,
    {
        Protocol::HTTP
    }
}

/// One component of one distribution of one repository.
#[derive(Debug, PartialEq, Eq)]
pub struct Source {
    pub stype: SourceType,
    pub protocol: Protocol,
    pub uri: String,
    pub dists: String,
    pub component: String,
}

/// A source as values.
pub struct SourceEntry {
    pub stype: SourceType,
    pub protocol: Protocol,
    pub uri: Seq<char>,
    pub dists: Seq<char>,
    pub component: Seq<char>,
}

impl View for Source {
    type V = SourceEntry;

    open spec fn view(&self) -> SourceEntry {
        SourceEntry {
            stype: self.stype,
            protocol: self.protocol,
            uri: self.uri@,
            dists: self.dists@,
            component: self.component@,
        }
    }
}

/// The sources that a list stands for.
pub open spec fn source_views(v: Seq<Source>) -> Seq<SourceEntry> {
    Seq::new(v.len(), |i: int| v[i]@)
}

/// `s` with an underscore in place of each slash.
pub open spec fn underscored(s: Seq<char>) -> Seq<char> {
    Seq::new(
        s.len(),
        |i: int|
            if s[i] == '/' {
                '_'
            } else {
                s[i]
            },
    )
}

impl Clone for Source {
    fn clone(&self) -> (r: Self)
        ensures
            r@ == self@,
    {
        Source {
            stype: self.stype,
            protocol: self.protocol,
            uri: self.uri.clone(),
            dists: self.dists.clone(),
            component: self.component.clone(),
        }
    }
}

impl Default for Source {
    fn default() -> (r: Self)
        ensures
            r.stype == SourceType::DEB,
            r.protocol == Protocol::HTTP,
            r.uri@.len() == 0,
            r.dists@.len() == 0,
            r.component@.len() == 0,
    {
        Source {
            stype: SourceType::DEB,
            protocol: Protocol::HTTP,
            uri: String::new(),
            dists: String::new(),
            component: String::new(),
        }
    }
}

impl SourceEntry {
    /// The name of the file that keeps the index of the source.
    pub open spec fn filename(self) -> Seq<char> {
        underscored(self.uri) + "_dists_"@ + self.dists + "-"@ + self.component
    }

    /// The source in one line.
    pub open spec fn info(self) -> Seq<char> {
        "http"@ + "://"@ + self.uri + " "@ + self.dists + " "@ + self.component
    }

    /// The address of the packed index of the source.
    pub open spec fn index_uri(self) -> Seq<char> {
        "http"@ + "://"@ + self.uri + (if self.uri.len() > 0 && self.uri.last() == '/' {
            Seq::<char>::empty()
        } else {
            "/"@
        }) + "dists/"@ + self.dists + "/"@ + self.component + "/"@ + "binary-amd64/"@
            + "Packages.gz"@
    }
}

impl Source {
    /// The name of the file that keeps the index of this source: the
    /// address with an underscore for each slash, `_dists_`, the
    /// distribution, a hyphen and the component.
    pub fn to_filename(&self) -> (r: String)
        ensures
            r@ == self@.filename(),
    {
        let uri = chars_of(self.uri.as_str());
        let mut r = String::new();
        let mut i: usize = 0;
        while i < uri.len()
            invariant
                i <= uri.len(),
                uri@ == self.uri@,
                r@ == underscored(uri@).take(i as int),
            decreases uri.len() - i,
        {
            let ghost before = r@;
            if uri[i] == '/' {
                r.push('_');
            } else {
                r.push(uri[i]);
            }
            assert(r@ =~= underscored(uri@).take(i + 1));
            i += 1;
        }
        assert(underscored(uri@).take(uri.len() as int) =~= underscored(uri@));
        r.append("_dists_");
        r.append(self.dists.as_str());
        r.append("-");
        r.append(self.component.as_str());
        r
    }

    /// The source in one line: its address, its distribution and its
    /// component.
    pub fn info(&self) -> (r: String)
        ensures
            r@ == self@.info(),
    {
        let proto = match self.protocol {
            Protocol::HTTP => "http",
        };
        let mut r = proto.to_owned();
        r.append("://");
        r.append(self.uri.as_str());
        r.append(" ");
        r.append(self.dists.as_str());
        r.append(" ");
        r.append(self.component.as_str());
        r
    }

    /// The address of the packed index of this source for amd64.
    pub fn to_index_uri(&self) -> (r: String)
        ensures
            r@ == self@.index_uri(),
    {
        let mut iuri = String::new();
        match self.protocol {
            Protocol::HTTP => iuri.append("http"),
        };
        assert(iuri@ =~= "http"@);
        iuri.append("://");
        iuri.append(self.uri.as_str());
        let uri = chars_of(self.uri.as_str());
        if !(uri.len() > 0 && uri[uri.len() - 1] == '/') {
            iuri.append("/");
        } else {
            assert(iuri@ + Seq::<char>::empty() =~= iuri@);
        }
        iuri.append("dists/");
        iuri.append(self.dists.as_str());
        iuri.append("/");
        iuri.append(self.component.as_str());
        iuri.append("/");
        iuri.append("binary-amd64/");
        iuri.append("Packages.gz");
        iuri
    }
}

/// The kind of packages that the first word of a source line names.
pub open spec fn source_type_of(word: Seq<char>) -> Option<SourceType> {
    if word == "deb"@ {
        Some(SourceType::DEB)
    } else if word == "deb-src"@ {
        Some(SourceType::DEBSRC)
    } else {
        None
    }
}

/// The sources that the components from index `k` on give.
pub open spec fn sources_from(
    stype: SourceType,
    uri: Seq<char>,
    dists: Seq<char>,
    words: Seq<Seq<char>>,
    k: int,
) -> Seq<SourceEntry>
    decreases words.len() - k,
{
    if k < 0 || k >= words.len() {
        Seq::empty()
    } else {
        seq![
            SourceEntry {
                stype: stype,
                protocol: Protocol::HTTP,
                uri: uri,
                dists: dists,
                component: words[k],
            },
        ] + sources_from(stype, uri, dists, words, k + 1)
    }
}

/// The sources that a line of the list names, or `None` where the line is
/// malformed. An empty line and one that starts with `#` name none. Any
/// other line has four words at least, with one space between them: `deb`
/// or `deb-src`; an address that starts with `http://` and has no other
/// `://`; the distribution; and one component or more, each of which
/// gives one source.
pub open spec fn sources_of(line: Seq<char>) -> Option<Seq<SourceEntry>> {
    if line.len() == 0 || line[0] == '#' {
        Some(Seq::empty())
    } else {
        let words = split(line, " "@);
        if words.len() < 4 {
            None
        } else {
            let address = split(words[1], "://"@);
            match source_type_of(words[0]) {
                None => None,
                Some(stype) => if address.len() != 2 || address[0] != "http"@ {
                    None
                } else {
                    Some(sources_from(stype, address[1], words[2], words, 3))
                },
            }
        }
    }
}

/// Reads one line of the source list.
pub fn parse_source_line(line: &str) -> (r: Result<Vec<Source>, Error>)
    ensures
        match sources_of(line@) {
            Some(sources) => r is Ok && source_views(r->Ok_0@) == sources,
            None => r is Err && r->Err_0.is_malformed(line@),
        },
{
    let text = chars_of(line);
    if text.len() == 0 || text[0] == '#' {
        let none: Vec<Source> = Vec::new();
        assert(source_views(none@) =~= Seq::empty());
        return Ok(none);
    }
    let space = chars_of(" ");
    let colon_slashes = chars_of("://");
    proof {
        reveal_strlit(" ");
        reveal_strlit("://");
    }
    let words = split_chars(&text, &space);
    assert(views(words@).len() == words.len());
    if words.len() < 4 {
        return Err(Error::MalformedInput(string_of(&text)));
    }
    assert(views(words@)[0] == words[0]@);
    assert(views(words@)[1] == words[1]@);
    assert(views(words@)[2] == words[2]@);
    let stype = if is_text(&words[0], "deb") {
        SourceType::DEB
    } else if is_text(&words[0], "deb-src") {
        SourceType::DEBSRC
    } else {
        return Err(Error::MalformedInput(string_of(&text)));
    };
    let address = split_chars(&words[1], &colon_slashes);
    assert(views(address@).len() == address.len());
    if address.len() != 2 {
        return Err(Error::MalformedInput(string_of(&text)));
    }
    assert(views(address@)[0] == address[0]@);
    assert(views(address@)[1] == address[1]@);
    if !is_text(&address[0], "http") {
        return Err(Error::MalformedInput(string_of(&text)));
    }
    let mut sources: Vec<Source> = Vec::new();
    let mut k: usize = 3;
    assert(source_views(sources@) =~= Seq::empty());
    while k < words.len()
        invariant
            3 <= k <= words.len(),
            address.len() == 2,
            sources_from(stype, address[1]@, words[2]@, views(words@), 3) == source_views(sources@)
                + sources_from(stype, address[1]@, words[2]@, views(words@), k as int),
        decreases words.len() - k,
    {
        assert(views(words@)[k as int] == words[k as int]@);
        let ghost before = source_views(sources@);
        let ghost rest = sources_from(stype, address[1]@, words[2]@, views(words@), k + 1);
        let source = Source {
            stype: stype,
            protocol: Protocol::HTTP,
            uri: string_of(&address[1]),
            dists: string_of(&words[2]),
            component: string_of(&words[k]),
        };
        let ghost entry = source@;
        sources.push(source);
        assert(source_views(sources@) =~= before.push(entry));
        assert(before + (seq![entry] + rest) =~= before.push(entry) + rest);
        k += 1;
    }
    assert(source_views(sources@) + Seq::<SourceEntry>::empty() =~= source_views(sources@));
    Ok(sources)
}

/// The sources of the first `k` lines, or the first malformed line. A line
/// that is empty names none.
pub open spec fn sources_upto(lines: Seq<Seq<char>>, k: int) -> Result<Seq<SourceEntry>, Seq<char>>
    decreases k,
{
    if k <= 0 {
        Ok(Seq::empty())
    } else {
        match sources_upto(lines, k - 1) {
            Err(line) => Err(line),
            Ok(head) => match sources_of(lines[k - 1]) {
                None => Err(lines[k - 1]),
                Some(tail) => Ok(head + tail),
            },
        }
    }
}

proof fn lemma_sources_error(lines: Seq<Seq<char>>, k: int, n: int)
    requires
        0 <= k <= n,
        sources_upto(lines, k) is Err,
    ensures
        sources_upto(lines, n) == sources_upto(lines, k),
    decreases n - k,
{
    if k < n {
        lemma_sources_error(lines, k, n - 1);
    }
}

/// Reads the source list with the text `text`, line by line.
pub fn parse_source_file(text: &str) -> (r: Result<Vec<Source>, Error>)
    ensures
        match sources_upto(split(text@, "\n"@), split(text@, "\n"@).len() as int) {
            Ok(sources) => r is Ok && source_views(r->Ok_0@) == sources,
            Err(line) => r is Err && r->Err_0.is_malformed(line),
        },
{
    let newline = chars_of("\n");
    proof {
        reveal_strlit("\n");
    }
    let lines = split_chars(&chars_of(text), &newline);
    assert(views(lines@).len() == lines.len());
    let mut sources: Vec<Source> = Vec::new();
    let mut k: usize = 0;
    assert(source_views(sources@) =~= Seq::empty());
    while k < lines.len()
        invariant
            k <= lines.len(),
            views(lines@) == split(text@, "\n"@),
            sources_upto(views(lines@), k as int) == Ok::<Seq<SourceEntry>, Seq<char>>(
                source_views(sources@),
            ),
        decreases lines.len() - k,
    {
        assert(views(lines@)[k as int] == lines[k as int]@);
        let line = string_of(&lines[k]);
        match parse_source_line(line.as_str()) {
            Ok(mut more) => {
                let ghost head = source_views(sources@);
                let ghost tail = source_views(more@);
                sources.append(&mut more);
                assert(source_views(sources@) =~= head + tail);
            },
            Err(e) => {
                proof {
                    lemma_sources_error(views(lines@), k + 1, lines.len() as int);
                }
                return Err(e);
            },
        }
        k += 1;
    }
    Ok(sources)
}

} // verus!
