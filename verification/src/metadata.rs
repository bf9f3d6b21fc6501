//! The metadata block at the head of a module's source: annotation comments
//! of the form `-- Key: value`.

use crate::error::Error;
use crate::store::schema::Family;
use crate::text::{chars_of, same_text, string_of};
use crate::version::{is_release_version, valid_version};
use vstd::prelude::*;

verus! {

/// What a module declares of itself.
#[derive(Clone, PartialEq, Eq, Debug)]
pub struct Metadata {
    pub description: String,
    pub version: String,
    pub author: Option<String>,
    pub license: Option<String>,
    /// The plural name of the entity family that the module takes its seeds from.
    pub source: Option<String>,
    /// The keyring namespaces that the module may read.
    pub keyring_access: Vec<String>,
}

/// The mathematical value of a [`Metadata`].
pub struct MetadataView {
    pub description: Seq<char>,
    pub version: Seq<char>,
    pub author: Option<Seq<char>>,
    pub license: Option<Seq<char>>,
    pub source: Option<Seq<char>>,
    pub keyring_access: Seq<Seq<char>>,
}

/// The view of an optional string.
pub open spec fn text_of(s: Option<String>) -> Option<Seq<char>> {
    match s {
        Some(t) => Some(t@),
        None => None,
    }
}

/// The views of a list of strings.
pub open spec fn texts_of(v: Seq<String>) -> Seq<Seq<char>> {
    v.map_values(|s: String| s@)
}

impl View for Metadata {
    type V = MetadataView;

    open spec fn view(&self) -> MetadataView {
        MetadataView {
            description: self.description@,
            version: self.version@,
            author: text_of(self.author),
            license: text_of(self.license),
            source: text_of(self.source),
            keyring_access: texts_of(self.keyring_access@),
        }
    }
}

/// The keys that a metadata block may hold.
#[derive(Clone, Copy, PartialEq, Eq, Debug, Structural)]
pub enum Key {
    Description,
    Version,
    Author,
    License,
    Source,
    KeyringAccess,
}

/// The key that a text names, if it names one.
pub open spec fn key_of(name: Seq<char>) -> Option<Key> {
    if name == "Description"@ {
        Some(Key::Description)
    } else if name == "Version"@ {
        Some(Key::Version)
    } else if name == "Author"@ {
        Some(Key::Author)
    } else if name == "License"@ {
        Some(Key::License)
    } else if name == "Source"@ {
        Some(Key::Source)
    } else if name == "Keyring-Access"@ {
        Some(Key::KeyringAccess)
    } else {
        None
    }
}

/// The place of the line break that ends the line beginning at `from`, or the
/// length of `s` where the last line has none.
pub open spec fn line_end(s: Seq<char>, from: int) -> int
    decreases s.len() - from,
{
    if from >= s.len() {
        s.len() as int
    } else if s[from] == '\n' {
        from
    } else {
        line_end(s, from + 1)
    }
}

/// The line `s[from..end]` without the carriage return that may end it.
pub open spec fn line_at(s: Seq<char>, from: int, end: int) -> Seq<char> {
    if from < end && s[end - 1] == '\r' {
        s.subrange(from, end - 1)
    } else {
        s.subrange(from, end)
    }
}

/// The first place at or after `from` where `line` holds a colon and then a
/// space, or `-1` where it holds none.
pub open spec fn separator(line: Seq<char>, from: int) -> int
    decreases line.len() - from,
{
    if from + 1 >= line.len() {
        -1
    } else if line[from] == ':' && line[from + 1] == ' ' {
        from
    } else {
        separator(line, from + 1)
    }
}

/// The key and the value of a metadata line: the line begins with two
/// hyphens and a space; the key runs up to the first colon and space, the
/// value from there to the end. A line of any other form has neither.
pub open spec fn entry_of(line: Seq<char>) -> Option<(Seq<char>, Seq<char>)> {
    if line.len() >= 3 && line[0] == '-' && line[1] == '-' && line[2] == ' ' && separator(line, 3)
        >= 0 {
        let k = separator(line, 3);
        Some((line.subrange(3, k), line.subrange(k + 2, line.len() as int)))
    } else {
        None
    }
}

/// The entries of the metadata block that begins at `from`: those of the
/// lines from there up to the first line that is no metadata line.
pub open spec fn entries(s: Seq<char>, from: int) -> Seq<(Seq<char>, Seq<char>)>
    decreases s.len() - from,
{
    if from < 0 || from >= s.len() {
        Seq::empty()
    } else {
        let end = line_end(s, from);
        match entry_of(line_at(s, from, end)) {
            Some(entry) => if from <= end < s.len() {
                seq![entry] + entries(s, end + 1)
            } else {
                seq![entry]
            },
            None => Seq::empty(),
        }
    }
}

/// What has been gathered from the entries read so far.
pub struct Draft {
    pub description: Option<Seq<char>>,
    pub version: Option<Seq<char>>,
    pub author: Option<Seq<char>>,
    pub license: Option<Seq<char>>,
    pub source: Option<Seq<char>>,
    pub keyring_access: Seq<Seq<char>>,
}

/// The draft before any entry is read.
pub open spec fn blank() -> Draft {
    Draft {
        description: None,
        version: None,
        author: None,
        license: None,
        source: None,
        keyring_access: Seq::empty(),
    }
}

/// The draft with one more entry: a keyring namespace is added to the list,
/// any other value replaces what the key held.
pub open spec fn absorb(d: Draft, key: Key, value: Seq<char>) -> Draft {
    match key {
        Key::Description => Draft { description: Some(value), ..d },
        Key::Version => Draft { version: Some(value), ..d },
        Key::Author => Draft { author: Some(value), ..d },
        Key::License => Draft { license: Some(value), ..d },
        Key::Source => Draft { source: Some(value), ..d },
        Key::KeyringAccess => Draft { keyring_access: d.keyring_access.push(value), ..d },
    }
}

/// The draft gathered from `es`, read in order; `MetadataUnknownKey` where
/// one of them has a key that is not recognised.
pub open spec fn gather(es: Seq<(Seq<char>, Seq<char>)>) -> Result<Draft, Error>
    decreases es.len(),
{
    if es.len() == 0 {
        Ok(blank())
    } else {
        match gather(es.drop_last()) {
            Err(e) => Err(e),
            Ok(d) => match key_of(es.last().0) {
                None => Err(Error::MetadataUnknownKey),
                Some(key) => Ok(absorb(d, key, es.last().1)),
            },
        }
    }
}

/// The metadata of a finished draft: the version must be there and be a
/// release version, else `MetadataVersion`; a description that is missing
/// is empty.
pub open spec fn finish(d: Draft) -> Result<MetadataView, Error> {
    match d.version {
        Some(version) if is_release_version(version) => Ok(
            MetadataView {
                description: match d.description {
                    Some(text) => text,
                    None => Seq::empty(),
                },
                version,
                author: d.author,
                license: d.license,
                source: d.source,
                keyring_access: d.keyring_access,
            },
        ),
        _ => Err(Error::MetadataVersion),
    }
}

/// The metadata that the source text `code` declares.
pub open spec fn parsed(code: Seq<char>) -> Result<MetadataView, Error> {
    match gather(entries(code, 0)) {
        Err(e) => Err(e),
        Ok(d) => finish(d),
    }
}

fn find_line_end(cs: &Vec<char>, from: usize) -> (end: usize)
    requires
        from <= cs.len(),
    ensures
        end == line_end(cs@, from as int),
        from <= end <= cs.len(),
{
    let mut i: usize = from;
    while i < cs.len() && cs[i] != '\n'
        invariant
            from <= i <= cs.len(),
            line_end(cs@, from as int) == line_end(cs@, i as int),
        decreases cs.len() - i,
    {
        i += 1;
    }
    i
}

fn find_separator(cs: &Vec<char>, lo: usize, hi: usize, from: usize) -> (r: Option<usize>)
    requires
        lo <= from <= hi <= cs.len(),
    ensures
        match r {
            Some(k) => from <= k && k + 2 <= hi && separator(
                cs@.subrange(lo as int, hi as int),
                from - lo,
            ) == k - lo,
            None => separator(cs@.subrange(lo as int, hi as int), from - lo) == -1,
        },
{
    let ghost line = cs@.subrange(lo as int, hi as int);
    let mut i: usize = from;
    while hi - i >= 2
        invariant
            lo <= from <= i <= hi <= cs.len(),
            line == cs@.subrange(lo as int, hi as int),
            separator(line, from - lo) == separator(line, i - lo),
        decreases hi - i,
    {
        assert(line[i - lo] == cs@[i as int]);
        assert(line[i - lo + 1] == cs@[i + 1]);
        if cs[i] == ':' && cs[i + 1] == ' ' {
            return Some(i);
        }
        i += 1;
    }
    None
}

fn read_key(name: &String) -> (r: Option<Key>)
    ensures
        r == key_of(name@),
{
    if same_text(name, "Description") {
        Some(Key::Description)
    } else if same_text(name, "Version") {
        Some(Key::Version)
    } else if same_text(name, "Author") {
        Some(Key::Author)
    } else if same_text(name, "License") {
        Some(Key::License)
    } else if same_text(name, "Source") {
        Some(Key::Source)
    } else if same_text(name, "Keyring-Access") {
        Some(Key::KeyringAccess)
    } else {
        None
    }
}

/// The key and value of the line `cs[lo..hi]`, if it is a metadata line.
fn read_entry(cs: &Vec<char>, lo: usize, hi: usize) -> (r: Option<(String, String)>)
    requires
        lo <= hi <= cs.len(),
    ensures
        match r {
            Some((k, v)) => entry_of(cs@.subrange(lo as int, hi as int)) == Some((k@, v@)),
            None => entry_of(cs@.subrange(lo as int, hi as int)) is None,
        },
{
    let ghost line = cs@.subrange(lo as int, hi as int);
    if hi - lo < 3 {
        return None;
    }
    assert(line[0] == cs@[lo as int] && line[1] == cs@[lo + 1] && line[2] == cs@[lo + 2]);
    if cs[lo] != '-' || cs[lo + 1] != '-' || cs[lo + 2] != ' ' {
        return None;
    }
    match find_separator(cs, lo, hi, lo + 3) {
        None => None,
        Some(k) => {
            let key = string_of(cs, lo + 3, k);
            let value = string_of(cs, k + 2, hi);
            assert(line.subrange(3, k - lo) == cs@.subrange(lo + 3, k as int));
            assert(line.subrange(k - lo + 2, line.len() as int) == cs@.subrange(
                k + 2,
                hi as int,
            ));
            Some((key, value))
        },
    }
}

impl Metadata {
    /// The entity family that the module takes its seeds from: the family
    /// that its source names, if it names one.
    pub fn source_family(&self) -> (r: Option<Family>)
        ensures
            r == (match self@.source {
                Some(name) => Family::of_source(name),
                None => None,
            }),
    {
        match &self.source {
            Some(name) => Family::from_source(name),
            None => None,
        }
    }

    /// Reads the metadata block at the head of `code`. Nothing of `code` is
    /// run. The result is `MetadataUnknownKey` where the block holds a key
    /// that is not recognised; else `MetadataVersion` where it holds no
    /// version or one that is no release version.
    pub fn parse(code: &str) -> (r: Result<Metadata, Error>)
        ensures
            match r {
                Ok(m) => parsed(code@) == Ok::<MetadataView, Error>(m@),
                Err(e) => parsed(code@) == Err::<MetadataView, Error>(e),
            },
    {
        let cs = chars_of(code);
        let mut description: Option<String> = None;
        let mut version: Option<String> = None;
        let mut author: Option<String> = None;
        let mut license: Option<String> = None;
        let mut source: Option<String> = None;
        let mut keyring_access: Vec<String> = Vec::new();
        let ghost mut seen: Seq<(Seq<char>, Seq<char>)> = Seq::empty();
        let ghost mut draft: Draft = blank();
        let mut at: usize = 0;
        assert(seen + entries(cs@, 0) == entries(cs@, 0));
        assert(texts_of(keyring_access@) == Seq::<Seq<char>>::empty());
        loop
            invariant
                at <= cs.len(),
                cs@ == code@,
                entries(cs@, 0) == seen + entries(cs@, at as int),
                gather(seen) == Ok::<Draft, Error>(draft),
                draft.description == text_of(description),
                draft.version == text_of(version),
                draft.author == text_of(author),
                draft.license == text_of(license),
                draft.source == text_of(source),
                draft.keyring_access == texts_of(keyring_access@),
            ensures
                entries(cs@, 0) == seen,
            decreases cs.len() - at,
        {
            if at >= cs.len() {
                assert(seen + Seq::<(Seq<char>, Seq<char>)>::empty() == seen);
                break ;
            }
            let end = find_line_end(&cs, at);
            let stop: usize = if at < end && cs[end - 1] == '\r' {
                end - 1
            } else {
                end
            };
            assert(cs@.subrange(at as int, stop as int) == line_at(cs@, at as int, end as int));
            match read_entry(&cs, at, stop) {
                None => {
                    assert(entries(cs@, at as int) == Seq::<(Seq<char>, Seq<char>)>::empty());
                    assert(seen + Seq::<(Seq<char>, Seq<char>)>::empty() == seen);
                    break ;
                },
                Some((name, value)) => {
                    let ghost entry = (name@, value@);
                    let next: usize = if end < cs.len() {
                        end + 1
                    } else {
                        end
                    };
                    proof {
                        assert(seq![entry] + Seq::<(Seq<char>, Seq<char>)>::empty() == seq![entry]);
                        assert(entries(cs@, at as int) == seq![entry] + entries(cs@, next as int));
                        assert(seen + (seq![entry] + entries(cs@, next as int)) == seen.push(entry)
                            + entries(cs@, next as int));
                        assert(seen.push(entry).drop_last() == seen);
                        assert(seen.push(entry).last() == entry);
                    }
                    match read_key(&name) {
                        None => {
                            proof {
                                lemma_gather_fails(seen.push(entry), entries(cs@, next as int));
                            }
                            return Err(Error::MetadataUnknownKey);
                        },
                        Some(key) => {
                            proof {
                                seen = seen.push(entry);
                                draft = absorb(draft, key, value@);
                            }
                            match key {
                                Key::Description => {
                                    description = Some(value);
                                },
                                Key::Version => {
                                    version = Some(value);
                                },
                                Key::Author => {
                                    author = Some(value);
                                },
                                Key::License => {
                                    license = Some(value);
                                },
                                Key::Source => {
                                    source = Some(value);
                                },
                                Key::KeyringAccess => {
                                    assert(texts_of(keyring_access@.push(value)) == texts_of(
                                        keyring_access@,
                                    ).push(value@));
                                    keyring_access.push(value);
                                },
                            }
                        },
                    }
                    at = next;
                },
            }
        }
        match version {
            None => Err(Error::MetadataVersion),
            Some(version) => {
                if !valid_version(version.as_str()) {
                    return Err(Error::MetadataVersion);
                }
                let description = match description {
                    Some(text) => text,
                    None => String::new(),
                };
                Ok(Metadata { description, version, author, license, source, keyring_access })
            },
        }
    }
}

/// Once an entry with an unknown key has been read, no further entry mends it.
proof fn lemma_gather_fails(seen: Seq<(Seq<char>, Seq<char>)>, more: Seq<(Seq<char>, Seq<char>)>)
    requires
        gather(seen) is Err,
    ensures
        gather(seen + more) == gather(seen),
    decreases more.len(),
{
    if more.len() == 0 {
        assert(seen + more == seen);
    } else {
        lemma_gather_fails(seen, more.drop_last());
        assert((seen + more).drop_last() == seen + more.drop_last());
    }
}

} // verus!
