//! Modules as the runtime loads them, and the index of the modules that
//! are installed.

use crate::error::Error;
use crate::find::{first_where, lemma_first_found, lemma_first_is_first, lemma_first_missing};
use crate::ident::{is_valid_name, valid_name};
use crate::metadata::{parsed, Metadata};
use crate::text::{chars_of, string_of};
use vstd::prelude::*;
use vstd::string::StringExecFns;

verus! {

/// The name of a module with the name of its author: `author/name`.
#[derive(Clone, PartialEq, Eq, Debug)]
pub struct ModuleID {
    pub author: String,
    pub name: String,
}

/// A module as it is loaded: its source with the metadata that the source
/// declares.
#[derive(Clone, PartialEq, Eq, Debug)]
pub struct Script {
    pub id: ModuleID,
    pub metadata: Metadata,
    pub code: String,
}

/// The key of a module in the index: `author/name@version`.
pub struct Key {
    pub author: Seq<char>,
    pub name: Seq<char>,
    pub version: Seq<char>,
}

/// The place of the first `/` of a text, or its length where it has none.
pub open spec fn slash(text: Seq<char>, from: int) -> int
    decreases text.len() - from,
{
    if 0 <= from < text.len() && text[from] != '/' {
        slash(text, from + 1)
    } else {
        from
    }
}

/// The author and the name that `text` names: the parts before and behind
/// its first `/`. `InvalidModuleName` where the text has no `/`; else
/// `InvalidUserName` where the author does not meet the identifier policy;
/// else `InvalidModuleName` where the name does not meet it.
pub open spec fn id_of(text: Seq<char>) -> Result<(Seq<char>, Seq<char>), Error> {
    let at = slash(text, 0);
    if !(0 <= at < text.len()) {
        Err(Error::InvalidModuleName)
    } else if !is_valid_name(text.subrange(0, at)) {
        Err(Error::InvalidUserName)
    } else if !is_valid_name(text.subrange(at + 1, text.len() as int)) {
        Err(Error::InvalidModuleName)
    } else {
        Ok((text.subrange(0, at), text.subrange(at + 1, text.len() as int)))
    }
}

impl ModuleID {
    /// Reads `author/name`.
    pub fn parse(text: &str) -> (r: Result<ModuleID, Error>)
        ensures
            match id_of(text@) {
                Ok((author, name)) => r matches Ok(id) && id.author@ == author && id.name@ == name,
                Err(e) => r == Err::<ModuleID, Error>(e),
            },
    {
        let cs = chars_of(text);
        let mut at: usize = 0;
        while at < cs.len() && cs[at] != '/'
            invariant
                at <= cs.len(),
                slash(cs@, 0) == slash(cs@, at as int),
            decreases cs.len() - at,
        {
            at += 1;
        }
        if at >= cs.len() {
            return Err(Error::InvalidModuleName);
        }
        let author = string_of(&cs, 0, at);
        let name = string_of(&cs, at + 1, cs.len());
        if !valid_name(author.as_str()) {
            Err(Error::InvalidUserName)
        } else if !valid_name(name.as_str()) {
            Err(Error::InvalidModuleName)
        } else {
            Ok(ModuleID { author, name })
        }
    }

    /// The id as a text: `author/name`.
    pub fn to_string(&self) -> (r: String)
        ensures
            r@ == self.author@ + seq!['/'] + self.name@,
    {
        let mut out = self.author.clone();
        out.push('/');
        out.append(self.name.as_str());
        assert(out@ =~= self.author@ + seq!['/'] + self.name@);
        out
    }
}

impl Script {
    /// Loads a module: reads the metadata of its source. Nothing of the
    /// source is run.
    pub fn load(id: ModuleID, code: String) -> (r: Result<Script, Error>)
        ensures
            match parsed(code@) {
                Ok(m) => r matches Ok(s) && s.id == id && s.code == code && s.metadata@ == m,
                Err(e) => r == Err::<Script, Error>(e),
            },
    {
        let metadata = Metadata::parse(code.as_str())?;
        Ok(Script { id, metadata, code })
    }

    /// The key of the module in the index.
    pub open spec fn key(self) -> Key {
        Key { author: self.id.author@, name: self.id.name@, version: self.metadata.version@ }
    }
}

/// The modules that are installed, each under its key.
#[derive(Clone, PartialEq, Eq, Debug)]
pub struct ModuleIndex {
    scripts: Vec<Script>,
}

impl View for ModuleIndex {
    type V = Seq<Script>;

    closed spec fn view(&self) -> Seq<Script> {
        self.scripts@
    }
}

/// The place of the module with the key `key`.
pub open spec fn place_of(scripts: Seq<Script>, key: Key) -> Option<int> {
    first_where(scripts, |s: Script| s.key() == key)
}

/// No two modules have the same key.
pub open spec fn keyed(scripts: Seq<Script>) -> bool {
    forall|i: int, j: int|
        0 <= i < j < scripts.len() ==> (#[trigger] scripts[i]).key() != (
        #[trigger] scripts[j]).key()
}

/// The modules once `script` is recorded: it takes the place of the module
/// with its key, or is added where there was none.
pub open spec fn recorded(scripts: Seq<Script>, script: Script) -> Seq<Script> {
    match place_of(scripts, script.key()) {
        Some(i) => scripts.update(i, script),
        None => scripts.push(script),
    }
}

impl ModuleIndex {
    /// Whether the index meets its invariant: a key occurs once.
    pub open spec fn wf(&self) -> bool {
        keyed(self@)
    }

    /// An index without modules.
    pub fn new() -> (r: ModuleIndex)
        ensures
            r.wf(),
            r@.len() == 0,
    {
        ModuleIndex { scripts: Vec::new() }
    }

    /// The modules, in the order in which their keys were first recorded.
    pub fn scripts(&self) -> (r: &Vec<Script>)
        ensures
            r@ == self@,
    {
        &self.scripts
    }

    /// The number of modules.
    pub fn len(&self) -> (r: usize)
        ensures
            r == self@.len(),
    {
        self.scripts.len()
    }

    fn find(&self, author: &String, name: &String, version: &String) -> (r: Option<usize>)
        ensures
            match r {
                Some(i) => place_of(
                    self@,
                    Key { author: author@, name: name@, version: version@ },
                ) == Some(i as int) && i < self@.len(),
                None => place_of(self@, Key { author: author@, name: name@, version: version@ })
                    is None,
            },
    {
        let ghost key = Key { author: author@, name: name@, version: version@ };
        let ghost p = |s: Script| s.key() == key;
        let mut i: usize = 0;
        while i < self.scripts.len()
            invariant
                i <= self.scripts.len(),
                key == (Key { author: author@, name: name@, version: version@ }),
                p == |s: Script| s.key() == key,
                forall|j: int| 0 <= j < i ==> !p(#[trigger] self@[j]),
            decreases self.scripts.len() - i,
        {
            let s = &self.scripts[i];
            if s.id.author == *author && s.id.name == *name && s.metadata.version == *version {
                proof {
                    lemma_first_found(self@, p, i as int);
                }
                return Some(i);
            }
            i += 1;
        }
        proof {
            lemma_first_missing(self@, p);
        }
        None
    }

    /// Records a module under its key, in place of the one that was there.
    pub fn insert(&mut self, script: Script)
        requires
            old(self).wf(),
        ensures
            final(self).wf(),
            final(self)@ == recorded(old(self)@, script),
    {
        proof {
            lemma_first_is_first(self@, |s: Script| s.key() == script.key());
        }
        match self.find(&script.id.author, &script.id.name, &script.metadata.version) {
            Some(i) => {
                self.scripts.set(i, script);
                assert forall|a: int, b: int| 0 <= a < b < self@.len() implies (
                #[trigger] self@[a]).key() != (#[trigger] self@[b]).key() by {
                    assert(self@[a].key() == old(self)@[a].key());
                    assert(self@[b].key() == old(self)@[b].key());
                }
            },
            None => {
                self.scripts.push(script);
                assert forall|a: int, b: int| 0 <= a < b < self@.len() implies (
                #[trigger] self@[a]).key() != (#[trigger] self@[b]).key() by {
                    assert(self@[a] == old(self)@[a]);
                    if b < old(self)@.len() {
                        assert(self@[b] == old(self)@[b]);
                    }
                }
            },
        }
    }

    /// The module with the key `author/name@version`, or `NotFound`.
    pub fn get(&self, author: &String, name: &String, version: &String) -> (r: Result<
        &Script,
        Error,
    >)
        ensures
            match place_of(self@, Key { author: author@, name: name@, version: version@ }) {
                Some(i) => r == Ok::<&Script, Error>(&self@[i]),
                None => r == Err::<&Script, Error>(Error::NotFound),
            },
    {
        match self.find(author, name, version) {
            Some(i) => Ok(&self.scripts[i]),
            None => Err(Error::NotFound),
        }
    }
}

} // verus!
