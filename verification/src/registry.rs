//! The state of the module registry and the transitions that its endpoints
//! make: authors, modules, releases and sessions.

use crate::error::Error;
use crate::find::{
    first_where, lemma_first_exists, lemma_first_found, lemma_first_is_first, lemma_first_missing,
    lemma_first_push, lemma_first_update,
};
use crate::ident::{is_valid_name, valid_name};
use crate::version::{later, newer};
use vstd::prelude::*;

pub mod api;
pub mod laws;
pub mod search;

verus! {

/// A publisher: a local name bound to an identity of the identity provider.
#[derive(Clone, PartialEq, Eq, Debug)]
pub struct Author {
    pub name: String,
    pub subject: String,
    pub created_at: u64,
}

/// A module. Its id is its position among the modules.
#[derive(Clone, PartialEq, Eq, Debug)]
pub struct Module {
    pub author: String,
    pub name: String,
    pub description: String,
    pub latest: Option<String>,
    pub featured: bool,
    pub downloads: u64,
}

/// One published version of a module.
#[derive(Clone, PartialEq, Eq, Debug)]
pub struct Release {
    /// The position of the module that this is a release of.
    pub module: usize,
    pub version: String,
    pub code: String,
    pub downloads: u64,
    pub published_at: u64,
}

/// A session, the user that it was authorised for, and the time from which
/// on it is no longer valid.
#[derive(Clone, PartialEq, Eq, Debug)]
pub struct AuthToken {
    pub session: String,
    pub user: String,
    pub expires_at: u64,
}

/// The registry.
#[derive(Clone, PartialEq, Eq, Debug)]
pub struct Registry {
    authors: Vec<Author>,
    modules: Vec<Module>,
    releases: Vec<Release>,
    tokens: Vec<AuthToken>,
}

/// The mathematical value of an [`Author`].
pub struct AuthorView {
    pub name: Seq<char>,
    pub subject: Seq<char>,
    pub created_at: u64,
}

/// The mathematical value of a [`Module`].
pub struct ModuleView {
    pub author: Seq<char>,
    pub name: Seq<char>,
    pub description: Seq<char>,
    pub latest: Option<Seq<char>>,
    pub featured: bool,
    pub downloads: u64,
}

/// The mathematical value of a [`Release`].
pub struct ReleaseView {
    pub module: int,
    pub version: Seq<char>,
    pub code: Seq<char>,
    pub downloads: u64,
    pub published_at: u64,
}

/// The mathematical value of an [`AuthToken`].
pub struct TokenView {
    pub session: Seq<char>,
    pub user: Seq<char>,
    pub expires_at: u64,
}

/// The mathematical value of a [`Registry`].
pub struct RegistryView {
    pub authors: Seq<AuthorView>,
    pub modules: Seq<ModuleView>,
    pub releases: Seq<ReleaseView>,
    pub tokens: Seq<TokenView>,
}

impl View for Author {
    type V = AuthorView;

    open spec fn view(&self) -> AuthorView {
        AuthorView { name: self.name@, subject: self.subject@, created_at: self.created_at }
    }
}

impl View for Module {
    type V = ModuleView;

    open spec fn view(&self) -> ModuleView {
        ModuleView {
            author: self.author@,
            name: self.name@,
            description: self.description@,
            latest: match self.latest {
                Some(v) => Some(v@),
                None => None,
            },
            featured: self.featured,
            downloads: self.downloads,
        }
    }
}

impl View for Release {
    type V = ReleaseView;

    open spec fn view(&self) -> ReleaseView {
        ReleaseView {
            module: self.module as int,
            version: self.version@,
            code: self.code@,
            downloads: self.downloads,
            published_at: self.published_at,
        }
    }
}

impl View for AuthToken {
    type V = TokenView;

    open spec fn view(&self) -> TokenView {
        TokenView { session: self.session@, user: self.user@, expires_at: self.expires_at }
    }
}

impl View for Registry {
    type V = RegistryView;

    closed spec fn view(&self) -> RegistryView {
        RegistryView {
            authors: self.authors@.map_values(|a: Author| a@),
            modules: self.modules@.map_values(|m: Module| m@),
            releases: self.releases@.map_values(|r: Release| r@),
            tokens: self.tokens@.map_values(|t: AuthToken| t@),
        }
    }
}

impl RegistryView {
    /// The position of the module called `name`.
    pub open spec fn module_index(self, name: Seq<char>) -> Option<int> {
        first_where(self.modules, |m: ModuleView| m.name == name)
    }

    /// The position of the release of module `module` with version `version`.
    pub open spec fn release_index(self, module: int, version: Seq<char>) -> Option<int> {
        first_where(self.releases, |r: ReleaseView| r.module == module && r.version == version)
    }

    /// The position of the token of `session`.
    pub open spec fn token_index(self, session: Seq<char>) -> Option<int> {
        first_where(self.tokens, |t: TokenView| t.session == session)
    }

    /// The user that `session` is authorised for at the time `now`: the
    /// user of its token, unless the token has expired.
    pub open spec fn user_of(self, session: Seq<char>, now: u64) -> Option<Seq<char>> {
        match self.token_index(session) {
            Some(i) => if now < self.tokens[i].expires_at {
                Some(self.tokens[i].user)
            } else {
                None
            },
            None => None,
        }
    }

    /// The position of the author bound to the identity `subject`.
    pub open spec fn author_by_subject(self, subject: Seq<char>) -> Option<int> {
        first_where(self.authors, |a: AuthorView| a.subject == subject)
    }

    /// The position of the author called `name`.
    pub open spec fn author_by_name(self, name: Seq<char>) -> Option<int> {
        first_where(self.authors, |a: AuthorView| a.name == name)
    }

    /// The invariant of the registry: the name of a module and the name of
    /// its author meet the identifier policy; a module name occurs once; a
    /// release belongs to a module and its version occurs once for that
    /// module; a module has a latest version exactly if it has a release, and
    /// the latest version is that of one of its releases; a session, an
    /// author's name and an author's identity occur once.
    pub open spec fn wf(self) -> bool {
        &&& forall|i: int|
            0 <= i < self.modules.len() ==> is_valid_name((#[trigger] self.modules[i]).author)
                && is_valid_name(self.modules[i].name)
        &&& forall|i: int, j: int|
            0 <= i < j < self.modules.len() ==> (#[trigger] self.modules[i]).name != (
            #[trigger] self.modules[j]).name
        &&& forall|r: int|
            0 <= r < self.releases.len() ==> 0 <= (#[trigger] self.releases[r]).module
                < self.modules.len()
        &&& forall|r: int|
            0 <= r < self.releases.len() ==> self.modules[(
            #[trigger] self.releases[r]).module].latest is Some
        &&& forall|r: int, s: int|
            0 <= r < s < self.releases.len() ==> !((#[trigger] self.releases[r]).module == (
            #[trigger] self.releases[s]).module && self.releases[r].version
                == self.releases[s].version)
        &&& forall|i: int|
            0 <= i < self.modules.len() ==> ((#[trigger] self.modules[i]).latest matches Some(v)
                ==> self.release_index(i, v) is Some)
        &&& forall|i: int, j: int|
            0 <= i < j < self.tokens.len() ==> (#[trigger] self.tokens[i]).session != (
            #[trigger] self.tokens[j]).session
        &&& forall|i: int, j: int|
            0 <= i < j < self.authors.len() ==> (#[trigger] self.authors[i]).name != (
            #[trigger] self.authors[j]).name && self.authors[i].subject
                != self.authors[j].subject
    }

    /// The latest version once `version` is released: `version` where the
    /// module had none or where `version` is the greater, else the one before.
    pub open spec fn next_latest(latest: Option<Seq<char>>, version: Seq<char>) -> Option<
        Seq<char>,
    > {
        match latest {
            None => Some(version),
            Some(old) => if later(version, old) {
                Some(version)
            } else {
                Some(old)
            },
        }
    }

    /// The registry after `user` released `version` of the module `name`, in
    /// one transaction. `InvalidUserName` where the name of the user does not
    /// meet the identifier policy; else `InvalidModuleName` where the name of
    /// the module does not meet it; else `NameTaken` where the module belongs
    /// to another author; else `VersionExists` where it has a release of this
    /// version. Else the module is created if it is missing, takes the
    /// description, gets the release, and gets `version` as its latest where
    /// that is greater than the latest before.
    pub open spec fn released(
        self,
        user: Seq<char>,
        name: Seq<char>,
        description: Seq<char>,
        version: Seq<char>,
        code: Seq<char>,
        now: u64,
    ) -> Result<RegistryView, Error> {
        if !is_valid_name(user) {
            Err(Error::InvalidUserName)
        } else if !is_valid_name(name) {
            Err(Error::InvalidModuleName)
        } else {
            match self.module_index(name) {
                Some(i) => {
                    let m = self.modules[i];
                    if m.author != user {
                        Err(Error::NameTaken)
                    } else if self.release_index(i, version) is Some {
                        Err(Error::VersionExists)
                    } else {
                        Ok(
                            RegistryView {
                                modules: self.modules.update(
                                    i,
                                    ModuleView {
                                        description,
                                        latest: Self::next_latest(m.latest, version),
                                        ..m
                                    },
                                ),
                                releases: self.releases.push(
                                    ReleaseView {
                                        module: i,
                                        version,
                                        code,
                                        downloads: 0,
                                        published_at: now,
                                    },
                                ),
                                ..self
                            },
                        )
                    }
                },
                None => Ok(
                    RegistryView {
                        modules: self.modules.push(
                            ModuleView {
                                author: user,
                                name,
                                description,
                                latest: Some(version),
                                featured: false,
                                downloads: 0,
                            },
                        ),
                        releases: self.releases.push(
                            ReleaseView {
                                module: self.modules.len() as int,
                                version,
                                code,
                                downloads: 0,
                                published_at: now,
                            },
                        ),
                        ..self
                    },
                ),
            }
        }
    }

    /// The registry after one download of `version` of the module
    /// `author/name`, with the code that is delivered. `NotFound` where there
    /// is no such module or release; `Internal` where a counter is at its
    /// limit. Else the counters of the release and of the module grow by one.
    pub open spec fn downloaded(self, author: Seq<char>, name: Seq<char>, version: Seq<char>)
        -> Result<(Seq<char>, RegistryView), Error> {
        match self.module_index(name) {
            Some(i) if self.modules[i].author == author => match self.release_index(i, version) {
                Some(k) => {
                    let m = self.modules[i];
                    let r = self.releases[k];
                    if r.downloads == u64::MAX || m.downloads == u64::MAX {
                        Err(Error::Internal)
                    } else {
                        Ok(
                            (
                                r.code,
                                RegistryView {
                                    modules: self.modules.update(
                                        i,
                                        ModuleView { downloads: (m.downloads + 1) as u64, ..m },
                                    ),
                                    releases: self.releases.update(
                                        k,
                                        ReleaseView { downloads: (r.downloads + 1) as u64, ..r },
                                    ),
                                    ..self
                                },
                            ),
                        )
                    }
                },
                None => Err(Error::NotFound),
            },
            _ => Err(Error::NotFound),
        }
    }

    /// The module `author/name`, or `NotFound`.
    pub open spec fn module_of(self, author: Seq<char>, name: Seq<char>) -> Result<
        ModuleView,
        Error,
    > {
        match self.module_index(name) {
            Some(i) if self.modules[i].author == author => Ok(self.modules[i]),
            _ => Err(Error::NotFound),
        }
    }

    /// The local name of the identity `subject`, whose name at the identity
    /// provider is `login`, and the registry after it was looked up: an
    /// identity that is known keeps its name; a new one is registered under
    /// `login`, unless that name belongs to another identity (`NameTaken`).
    pub open spec fn registered(self, subject: Seq<char>, login: Seq<char>, now: u64) -> Result<
        (Seq<char>, RegistryView),
        Error,
    > {
        match self.author_by_subject(subject) {
            Some(i) => Ok((self.authors[i].name, self)),
            None => match self.author_by_name(login) {
                Some(_) => Err(Error::NameTaken),
                None => Ok(
                    (
                        login,
                        RegistryView {
                            authors: self.authors.push(
                                AuthorView { name: login, subject, created_at: now },
                            ),
                            ..self
                        },
                    ),
                ),
            },
        }
    }

    /// The registry after `session` was authorised for `user` until
    /// `expires_at`: the session's token is replaced, or added where there
    /// was none.
    pub open spec fn authorized(self, session: Seq<char>, user: Seq<char>, expires_at: u64)
        -> RegistryView {
        let token = TokenView { session, user, expires_at };
        match self.token_index(session) {
            Some(i) => RegistryView { tokens: self.tokens.update(i, token), ..self },
            None => RegistryView { tokens: self.tokens.push(token), ..self },
        }
    }
}

impl Registry {
    /// Whether the registry meets its invariant.
    pub open spec fn wf(&self) -> bool {
        self@.wf()
    }

    /// A registry without authors, modules, releases and sessions.
    pub fn new() -> (r: Registry)
        ensures
            r.wf(),
            r@.authors.len() == 0,
            r@.modules.len() == 0,
            r@.releases.len() == 0,
            r@.tokens.len() == 0,
    {
        Registry {
            authors: Vec::new(),
            modules: Vec::new(),
            releases: Vec::new(),
            tokens: Vec::new(),
        }
    }

    /// The views of a list of modules.
    pub open spec fn views(v: Seq<Module>) -> Seq<ModuleView> {
        v.map_values(|m: Module| m@)
    }

    /// The modules, in the order of their ids.
    pub fn modules(&self) -> (r: &Vec<Module>)
        ensures
            Self::views(r@) == self@.modules,
    {
        &self.modules
    }

    /// The releases, in the order in which they were published.
    pub fn releases(&self) -> (r: &Vec<Release>)
        ensures
            r@.map_values(|x: Release| x@) == self@.releases,
    {
        &self.releases
    }

    /// Marks the module called `name` as featured, or not: an act of the
    /// administrator. `NotFound` where there is no such module.
    pub fn set_featured(&mut self, name: &String, featured: bool) -> (r: Result<(), Error>)
        requires
            old(self).wf(),
        ensures
            final(self).wf(),
            match old(self)@.module_index(name@) {
                Some(i) => r is Ok && final(self)@ == (RegistryView {
                    modules: old(self)@.modules.update(
                        i,
                        ModuleView { featured, ..old(self)@.modules[i] },
                    ),
                    ..old(self)@
                }),
                None => r == Err::<(), Error>(Error::NotFound) && final(self)@ == old(self)@,
            },
    {
        match self.find_module(name) {
            Some(i) => {
                let ghost before = self@;
                assert(before.modules[i as int] == self.modules@[i as int]@);
                self.modules[i].featured = featured;
                proof {
                    let next = RegistryView {
                        modules: before.modules.update(
                            i as int,
                            ModuleView { featured, ..before.modules[i as int] },
                        ),
                        ..before
                    };
                    assert(self@.modules =~= next.modules);
                    assert(self@.releases =~= next.releases);
                    assert(self@.authors =~= next.authors);
                    assert(self@.tokens =~= next.tokens);
                    assert forall|j: int| 0 <= j < next.modules.len() implies ((
                    #[trigger] next.modules[j]).latest matches Some(v) ==> next.release_index(j, v)
                        is Some) by {
                        assert(next.modules[j].latest == before.modules[j].latest);
                    }
                    assert forall|x: int| 0 <= x < next.releases.len() implies next.modules[(
                    #[trigger] next.releases[x]).module].latest is Some by {
                        assert(before.modules[before.releases[x].module].latest is Some);
                    }
                    assert forall|a: int, b: int| 0 <= a < b < next.modules.len() implies (
                    #[trigger] next.modules[a]).name != (#[trigger] next.modules[b]).name by {
                        assert(next.modules[a].name == before.modules[a].name);
                        assert(next.modules[b].name == before.modules[b].name);
                    }
                }
                Ok(())
            },
            None => Err(Error::NotFound),
        }
    }

    /// The position of the module called `name`.
    pub fn find_module(&self, name: &String) -> (r: Option<usize>)
        ensures
            match r {
                Some(i) => self@.module_index(name@) == Some(i as int) && i < self@.modules.len(),
                None => self@.module_index(name@) is None,
            },
    {
        let ghost p = |m: ModuleView| m.name == name@;
        let mut i: usize = 0;
        while i < self.modules.len()
            invariant
                i <= self.modules.len(),
                p == |m: ModuleView| m.name == name@,
                forall|j: int| 0 <= j < i ==> !p(#[trigger] self@.modules[j]),
            decreases self.modules.len() - i,
        {
            if self.modules[i].name == *name {
                proof {
                    assert(self@.modules[i as int] == self.modules@[i as int]@);
                    lemma_first_found(self@.modules, p, i as int);
                }
                return Some(i);
            }
            assert(self@.modules[i as int] == self.modules@[i as int]@);
            i += 1;
        }
        proof {
            lemma_first_missing(self@.modules, p);
        }
        None
    }

    /// The position of the release of the module at `module` with `version`.
    pub fn find_release(&self, module: usize, version: &String) -> (r: Option<usize>)
        ensures
            match r {
                Some(i) => self@.release_index(module as int, version@) == Some(i as int) && i
                    < self@.releases.len(),
                None => self@.release_index(module as int, version@) is None,
            },
    {
        let ghost p = |r: ReleaseView| r.module == module as int && r.version == version@;
        let mut i: usize = 0;
        while i < self.releases.len()
            invariant
                i <= self.releases.len(),
                p == |r: ReleaseView| r.module == module as int && r.version == version@,
                forall|j: int| 0 <= j < i ==> !p(#[trigger] self@.releases[j]),
            decreases self.releases.len() - i,
        {
            assert(self@.releases[i as int] == self.releases@[i as int]@);
            if self.releases[i].module == module && self.releases[i].version == *version {
                proof {
                    lemma_first_found(self@.releases, p, i as int);
                }
                return Some(i);
            }
            i += 1;
        }
        proof {
            lemma_first_missing(self@.releases, p);
        }
        None
    }

    /// The position of the token of `session`.
    pub fn find_token(&self, session: &String) -> (r: Option<usize>)
        ensures
            match r {
                Some(i) => self@.token_index(session@) == Some(i as int) && i < self@.tokens.len(),
                None => self@.token_index(session@) is None,
            },
    {
        let ghost p = |t: TokenView| t.session == session@;
        let mut i: usize = 0;
        while i < self.tokens.len()
            invariant
                i <= self.tokens.len(),
                p == |t: TokenView| t.session == session@,
                forall|j: int| 0 <= j < i ==> !p(#[trigger] self@.tokens[j]),
            decreases self.tokens.len() - i,
        {
            assert(self@.tokens[i as int] == self.tokens@[i as int]@);
            if self.tokens[i].session == *session {
                proof {
                    lemma_first_found(self@.tokens, p, i as int);
                }
                return Some(i);
            }
            i += 1;
        }
        proof {
            lemma_first_missing(self@.tokens, p);
        }
        None
    }

    /// Verifies a session at the time `now`: the user that it is authorised
    /// for, or `AuthRequired` where the registry does not know it or it has
    /// expired.
    pub fn verify(&self, session: &String, now: u64) -> (r: Result<String, Error>)
        ensures
            match r {
                Ok(user) => self@.user_of(session@, now) == Some(user@),
                Err(e) => e == Error::AuthRequired && self@.user_of(session@, now) is None,
            },
    {
        match self.find_token(session) {
            Some(i) => {
                assert(self@.tokens[i as int] == self.tokens@[i as int]@);
                if now < self.tokens[i].expires_at {
                    Ok(self.tokens[i].user.clone())
                } else {
                    Err(Error::AuthRequired)
                }
            },
            None => Err(Error::AuthRequired),
        }
    }
}

impl Registry {
    /// One transaction of publishing: `user` releases `version` of the
    /// module `name`. On an error the registry is as before.
    pub fn release(
        &mut self,
        user: String,
        name: String,
        description: String,
        version: String,
        code: String,
        now: u64,
    ) -> (r: Result<(), Error>)
        requires
            old(self).wf(),
        ensures
            final(self).wf(),
            match old(self)@.released(user@, name@, description@, version@, code@, now) {
                Ok(next) => r is Ok && final(self)@ == next,
                Err(e) => r == Err::<(), Error>(e) && final(self)@ == old(self)@,
            },
    {
        proof {
            old(self)@.lemma_released_wf(user@, name@, description@, version@, code@, now);
        }
        if !valid_name(user.as_str()) {
            return Err(Error::InvalidUserName);
        }
        if !valid_name(name.as_str()) {
            return Err(Error::InvalidModuleName);
        }
        match self.find_module(&name) {
            Some(i) => {
                assert(self@.modules[i as int] == self.modules@[i as int]@);
                if self.modules[i].author != user {
                    return Err(Error::NameTaken);
                }
                if self.find_release(i, &version).is_some() {
                    return Err(Error::VersionExists);
                }
                let replace = match &self.modules[i].latest {
                    None => true,
                    Some(latest) => newer(version.as_str(), latest.as_str()),
                };
                let latest = if replace {
                    Some(version.clone())
                } else {
                    match &self.modules[i].latest {
                        Some(latest) => Some(latest.clone()),
                        None => None,
                    }
                };
                let module = Module {
                    author: self.modules[i].author.clone(),
                    name: self.modules[i].name.clone(),
                    description,
                    latest,
                    featured: self.modules[i].featured,
                    downloads: self.modules[i].downloads,
                };
                let release = Release { module: i, version, code, downloads: 0, published_at: now };
                self.modules.set(i, module);
                self.releases.push(release);
                proof {
                    let next = old(self)@.released(
                        user@,
                        name@,
                        description@,
                        version@,
                        code@,
                        now,
                    )->Ok_0;
                    assert(self@.modules =~= next.modules);
                    assert(self@.releases =~= next.releases);
                    assert(self@.authors =~= next.authors);
                    assert(self@.tokens =~= next.tokens);
                }
                Ok(())
            },
            None => {
                let at = self.modules.len();
                let module = Module {
                    author: user,
                    name,
                    description,
                    latest: Some(version.clone()),
                    featured: false,
                    downloads: 0,
                };
                let release = Release {
                    module: at,
                    version,
                    code,
                    downloads: 0,
                    published_at: now,
                };
                self.modules.push(module);
                self.releases.push(release);
                proof {
                    let next = old(self)@.released(
                        user@,
                        name@,
                        description@,
                        version@,
                        code@,
                        now,
                    )->Ok_0;
                    assert(self@.modules =~= next.modules);
                    assert(self@.releases =~= next.releases);
                    assert(self@.authors =~= next.authors);
                    assert(self@.tokens =~= next.tokens);
                }
                Ok(())
            },
        }
    }

    /// One download of `version` of the module `author/name`: the code of
    /// the release. The counters of the release and of the module grow by
    /// one. On an error the registry is as before.
    pub fn download(&mut self, author: &String, name: &String, version: &String) -> (r: Result<
        String,
        Error,
    >)
        requires
            old(self).wf(),
        ensures
            final(self).wf(),
            match old(self)@.downloaded(author@, name@, version@) {
                Ok((code, next)) => r matches Ok(c) && c@ == code && final(self)@ == next,
                Err(e) => r == Err::<String, Error>(e) && final(self)@ == old(self)@,
            },
    {
        proof {
            old(self)@.lemma_downloaded_wf(author@, name@, version@);
        }
        let i = match self.find_module(name) {
            Some(i) => i,
            None => {
                return Err(Error::NotFound);
            },
        };
        assert(self@.modules[i as int] == self.modules@[i as int]@);
        if self.modules[i].author != *author {
            return Err(Error::NotFound);
        }
        let k = match self.find_release(i, version) {
            Some(k) => k,
            None => {
                return Err(Error::NotFound);
            },
        };
        assert(self@.releases[k as int] == self.releases@[k as int]@);
        if self.releases[k].downloads == u64::MAX || self.modules[i].downloads == u64::MAX {
            return Err(Error::Internal);
        }
        let code = self.releases[k].code.clone();
        let module = Module {
            author: self.modules[i].author.clone(),
            name: self.modules[i].name.clone(),
            description: self.modules[i].description.clone(),
            latest: match &self.modules[i].latest {
                Some(latest) => Some(latest.clone()),
                None => None,
            },
            featured: self.modules[i].featured,
            downloads: self.modules[i].downloads + 1,
        };
        let release = Release {
            module: i,
            version: self.releases[k].version.clone(),
            code: self.releases[k].code.clone(),
            downloads: self.releases[k].downloads + 1,
            published_at: self.releases[k].published_at,
        };
        self.modules.set(i, module);
        self.releases.set(k, release);
        proof {
            let next = old(self)@.downloaded(author@, name@, version@)->Ok_0.1;
            assert(self@.modules =~= next.modules);
            assert(self@.releases =~= next.releases);
            assert(self@.authors =~= next.authors);
            assert(self@.tokens =~= next.tokens);
        }
        Ok(code)
    }

    /// The position of the module `author/name`, or `NotFound`.
    pub fn module(&self, author: &String, name: &String) -> (r: Result<usize, Error>)
        ensures
            match r {
                Ok(i) => i < self@.modules.len() && self@.module_of(author@, name@) == Ok::<
                    ModuleView,
                    Error,
                >(self@.modules[i as int]),
                Err(e) => self@.module_of(author@, name@) == Err::<ModuleView, Error>(e),
            },
    {
        match self.find_module(name) {
            Some(i) => {
                assert(self@.modules[i as int] == self.modules@[i as int]@);
                if self.modules[i].author == *author {
                    Ok(i)
                } else {
                    Err(Error::NotFound)
                }
            },
            None => Err(Error::NotFound),
        }
    }

    /// The position of the author bound to the identity `subject`.
    pub fn find_subject(&self, subject: &String) -> (r: Option<usize>)
        ensures
            match r {
                Some(i) => self@.author_by_subject(subject@) == Some(i as int) && i
                    < self@.authors.len(),
                None => self@.author_by_subject(subject@) is None,
            },
    {
        let ghost p = |a: AuthorView| a.subject == subject@;
        let mut i: usize = 0;
        while i < self.authors.len()
            invariant
                i <= self.authors.len(),
                p == |a: AuthorView| a.subject == subject@,
                forall|j: int| 0 <= j < i ==> !p(#[trigger] self@.authors[j]),
            decreases self.authors.len() - i,
        {
            assert(self@.authors[i as int] == self.authors@[i as int]@);
            if self.authors[i].subject == *subject {
                proof {
                    lemma_first_found(self@.authors, p, i as int);
                }
                return Some(i);
            }
            i += 1;
        }
        proof {
            lemma_first_missing(self@.authors, p);
        }
        None
    }

    /// The position of the author called `name`.
    pub fn find_author(&self, name: &String) -> (r: Option<usize>)
        ensures
            match r {
                Some(i) => self@.author_by_name(name@) == Some(i as int) && i
                    < self@.authors.len(),
                None => self@.author_by_name(name@) is None,
            },
    {
        let ghost p = |a: AuthorView| a.name == name@;
        let mut i: usize = 0;
        while i < self.authors.len()
            invariant
                i <= self.authors.len(),
                p == |a: AuthorView| a.name == name@,
                forall|j: int| 0 <= j < i ==> !p(#[trigger] self@.authors[j]),
            decreases self.authors.len() - i,
        {
            assert(self@.authors[i as int] == self.authors@[i as int]@);
            if self.authors[i].name == *name {
                proof {
                    lemma_first_found(self@.authors, p, i as int);
                }
                return Some(i);
            }
            i += 1;
        }
        proof {
            lemma_first_missing(self@.authors, p);
        }
        None
    }

    /// Maps an identity of the identity provider to a local user name,
    /// first come, first served. On an error the registry is as before.
    pub fn register(&mut self, subject: String, login: String, now: u64) -> (r: Result<
        String,
        Error,
    >)
        requires
            old(self).wf(),
        ensures
            final(self).wf(),
            match old(self)@.registered(subject@, login@, now) {
                Ok((user, next)) => r matches Ok(u) && u@ == user && final(self)@ == next,
                Err(e) => r == Err::<String, Error>(e) && final(self)@ == old(self)@,
            },
    {
        proof {
            old(self)@.lemma_registered_wf(subject@, login@, now);
        }
        if let Some(i) = self.find_subject(&subject) {
            assert(self@.authors[i as int] == self.authors@[i as int]@);
            return Ok(self.authors[i].name.clone());
        }
        if self.find_author(&login).is_some() {
            return Err(Error::NameTaken);
        }
        let user = login.clone();
        self.authors.push(Author { name: login, subject, created_at: now });
        proof {
            let next = old(self)@.registered(subject@, login@, now)->Ok_0.1;
            assert(self@.modules =~= next.modules);
            assert(self@.releases =~= next.releases);
            assert(self@.authors =~= next.authors);
            assert(self@.tokens =~= next.tokens);
        }
        Ok(user)
    }

    /// Stores that `session` is authorised for `user` until `expires_at`.
    pub fn authorize(&mut self, session: String, user: String, expires_at: u64)
        requires
            old(self).wf(),
        ensures
            final(self).wf(),
            final(self)@ == old(self)@.authorized(session@, user@, expires_at),
    {
        proof {
            old(self)@.lemma_authorized_wf(session@, user@, expires_at);
        }
        match self.find_token(&session) {
            Some(i) => {
                self.tokens.set(i, AuthToken { session, user, expires_at });
            },
            None => {
                self.tokens.push(AuthToken { session, user, expires_at });
            },
        }
        proof {
            let next = old(self)@.authorized(session@, user@, expires_at);
            assert(self@.modules =~= next.modules);
            assert(self@.releases =~= next.releases);
            assert(self@.authors =~= next.authors);
            assert(self@.tokens =~= next.tokens);
        }
    }
}

impl RegistryView {
    /// A release keeps the invariant of the registry.
    pub proof fn lemma_released_wf(
        self,
        user: Seq<char>,
        name: Seq<char>,
        description: Seq<char>,
        version: Seq<char>,
        code: Seq<char>,
        now: u64,
    )
        requires
            self.wf(),
        ensures
            self.released(user, name, description, version, code, now) matches Ok(next)
                ==> next.wf(),
    {
        if let Ok(next) = self.released(user, name, description, version, code, now) {
            let by_name = |m: ModuleView| m.name == name;
            lemma_first_is_first(self.modules, by_name);
            let at: int = match self.module_index(name) {
                Some(i) => i,
                None => self.modules.len() as int,
            };
            let rel = next.releases.last();
            assert(next.releases == self.releases.push(rel));
            assert(rel.module == at && rel.version == version);
            let same = |r: ReleaseView| r.module == at && r.version == version;
            lemma_first_is_first(self.releases, same);
            assert(forall|r: int|
                0 <= r < self.releases.len() ==> !same(#[trigger] self.releases[r]));
            assert(forall|r: int|
                0 <= r < self.releases.len() ==> next.releases[r] == self.releases[r]);
            assert(forall|j: int|
                0 <= j < self.modules.len() && j != at ==> next.modules[j] == self.modules[j]);
            assert forall|i: int| 0 <= i < next.modules.len() implies ((
            #[trigger] next.modules[i]).latest matches Some(v) ==> next.release_index(i, v)
                is Some) by {
                if let Some(v) = next.modules[i].latest {
                    let q = |r: ReleaseView| r.module == i && r.version == v;
                    if i == at && v == version {
                        lemma_first_exists(next.releases, q, self.releases.len() as int);
                    } else {
                        assert(self.modules[i].latest == Some(v));
                        assert(self.release_index(i, v) is Some);
                        lemma_first_push(self.releases, q, rel);
                    }
                }
            }
            assert forall|r: int, s: int| 0 <= r < s < next.releases.len() implies !((
            #[trigger] next.releases[r]).module == (#[trigger] next.releases[s]).module
                && next.releases[r].version == next.releases[s].version) by {
                if s == self.releases.len() {
                    assert(!same(self.releases[r]));
                }
            }
            assert forall|r: int| 0 <= r < next.releases.len() implies next.modules[(
            #[trigger] next.releases[r]).module].latest is Some by {
                if r < self.releases.len() {
                    assert(self.modules[self.releases[r].module].latest is Some);
                }
            }
        }
    }

    /// A download keeps the invariant of the registry.
    pub proof fn lemma_downloaded_wf(self, author: Seq<char>, name: Seq<char>, version: Seq<char>)
        requires
            self.wf(),
        ensures
            self.downloaded(author, name, version) matches Ok(next) ==> next.1.wf(),
    {
        if let Ok((_, next)) = self.downloaded(author, name, version) {
            let i = self.module_index(name)->0;
            let k = self.release_index(i, version)->0;
            lemma_first_is_first(self.modules, |m: ModuleView| m.name == name);
            lemma_first_is_first(
                self.releases,
                |r: ReleaseView| r.module == i && r.version == version,
            );
            assert(forall|r: int|
                0 <= r < self.releases.len() ==> (#[trigger] next.releases[r]).module
                    == self.releases[r].module && next.releases[r].version
                    == self.releases[r].version);
            assert(forall|j: int|
                0 <= j < self.modules.len() ==> (#[trigger] next.modules[j]).name
                    == self.modules[j].name && next.modules[j].latest == self.modules[j].latest);
            assert forall|j: int| 0 <= j < next.modules.len() implies ((
            #[trigger] next.modules[j]).latest matches Some(v) ==> next.release_index(j, v)
                is Some) by {
                if let Some(v) = next.modules[j].latest {
                    assert(self.modules[j].latest == Some(v));
                    lemma_first_update(
                        self.releases,
                        |r: ReleaseView| r.module == j && r.version == v,
                        k,
                        next.releases[k],
                    );
                }
            }
            assert forall|r: int| 0 <= r < next.releases.len() implies next.modules[(
            #[trigger] next.releases[r]).module].latest is Some by {
                assert(self.modules[self.releases[r].module].latest is Some);
            }
        }
    }

    /// Looking up an identity keeps the invariant of the registry.
    pub proof fn lemma_registered_wf(self, subject: Seq<char>, login: Seq<char>, now: u64)
        requires
            self.wf(),
        ensures
            self.registered(subject, login, now) matches Ok(next) ==> next.1.wf(),
    {
        if let Ok((_, next)) = self.registered(subject, login, now) {
            lemma_first_is_first(self.authors, |a: AuthorView| a.subject == subject);
            lemma_first_is_first(self.authors, |a: AuthorView| a.name == login);
            if self.author_by_subject(subject) is None {
                assert forall|i: int, j: int| 0 <= i < j < next.authors.len() implies (
                #[trigger] next.authors[i]).name != (#[trigger] next.authors[j]).name
                    && next.authors[i].subject != next.authors[j].subject by {
                    assert(next.authors[i] == self.authors[i]);
                    if j < self.authors.len() {
                        assert(next.authors[j] == self.authors[j]);
                    }
                }
            }
        }
    }

    /// Authorising a session keeps the invariant of the registry.
    pub proof fn lemma_authorized_wf(self, session: Seq<char>, user: Seq<char>, expires_at: u64)
        requires
            self.wf(),
        ensures
            self.authorized(session, user, expires_at).wf(),
    {
        let next = self.authorized(session, user, expires_at);
        lemma_first_is_first(self.tokens, |t: TokenView| t.session == session);
        assert forall|i: int, j: int| 0 <= i < j < next.tokens.len() implies (
        #[trigger] next.tokens[i]).session != (#[trigger] next.tokens[j]).session by {
            match self.token_index(session) {
                Some(k) => {
                    assert(next.tokens[i].session == self.tokens[i].session);
                    assert(next.tokens[j].session == self.tokens[j].session);
                },
                None => {
                    assert(next.tokens[i] == self.tokens[i]);
                    if j < self.tokens.len() {
                        assert(next.tokens[j] == self.tokens[j]);
                    }
                },
            }
        }
    }
}

/// Whether no text of a list occurs twice in it.
pub open spec fn all_distinct(texts: Seq<Seq<char>>) -> bool {
    forall|i: int, j: int| 0 <= i < j < texts.len() ==> texts[i] != texts[j]
}

/// Whether no string of a list occurs twice in it.
pub fn distinct(texts: &Vec<String>) -> (r: bool)
    ensures
        r == all_distinct(texts@.map_values(|t: String| t@)),
{
    let ghost views = texts@.map_values(|t: String| t@);
    let mut j: usize = 0;
    while j < texts.len()
        invariant
            j <= texts.len(),
            views == texts@.map_values(|t: String| t@),
            forall|a: int, b: int| 0 <= a < b < j ==> views[a] != views[b],
        decreases texts.len() - j,
    {
        let mut i: usize = 0;
        while i < j
            invariant
                i <= j < texts.len(),
                views == texts@.map_values(|t: String| t@),
                forall|a: int| 0 <= a < i ==> views[a] != views[j as int],
            decreases j - i,
        {
            assert(views[i as int] == texts@[i as int]@);
            assert(views[j as int] == texts@[j as int]@);
            if texts[i] == texts[j] {
                return false;
            }
            i += 1;
        }
        j += 1;
    }
    true
}

impl Registry {
    /// Whether the registry meets its invariant.
    fn check(&self) -> (r: bool)
        ensures
            r == self.wf(),
    {
        let ghost v = self@;
        // The names of the modules and of their authors meet the policy; a
        // module name, a session, an author's name and an author's identity
        // occur once.
        let mut names: Vec<String> = Vec::new();
        let mut i: usize = 0;
        while i < self.modules.len()
            invariant
                i <= self.modules.len(),
                v == self@,
                names.len() == i,
                forall|k: int| 0 <= k < i ==> (#[trigger] names@[k])@ == v.modules[k].name,
                forall|k: int|
                    0 <= k < i ==> is_valid_name((#[trigger] v.modules[k]).author)
                        && is_valid_name(v.modules[k].name),
            decreases self.modules.len() - i,
        {
            assert(v.modules[i as int] == self.modules@[i as int]@);
            if !valid_name(self.modules[i].author.as_str()) || !valid_name(
                self.modules[i].name.as_str(),
            ) {
                return false;
            }
            names.push(self.modules[i].name.clone());
            i += 1;
        }
        let mut sessions: Vec<String> = Vec::new();
        let mut i: usize = 0;
        while i < self.tokens.len()
            invariant
                i <= self.tokens.len(),
                v == self@,
                sessions.len() == i,
                forall|k: int| 0 <= k < i ==> (#[trigger] sessions@[k])@ == v.tokens[k].session,
            decreases self.tokens.len() - i,
        {
            assert(v.tokens[i as int] == self.tokens@[i as int]@);
            sessions.push(self.tokens[i].session.clone());
            i += 1;
        }
        let mut authors: Vec<String> = Vec::new();
        let mut subjects: Vec<String> = Vec::new();
        let mut i: usize = 0;
        while i < self.authors.len()
            invariant
                i <= self.authors.len(),
                v == self@,
                authors.len() == i,
                subjects.len() == i,
                forall|k: int| 0 <= k < i ==> (#[trigger] authors@[k])@ == v.authors[k].name,
                forall|k: int| 0 <= k < i ==> (#[trigger] subjects@[k])@ == v.authors[k].subject,
            decreases self.authors.len() - i,
        {
            assert(v.authors[i as int] == self.authors@[i as int]@);
            authors.push(self.authors[i].name.clone());
            subjects.push(self.authors[i].subject.clone());
            i += 1;
        }
        let ghost name_views = names@.map_values(|t: String| t@);
        let ghost session_views = sessions@.map_values(|t: String| t@);
        let ghost author_views = authors@.map_values(|t: String| t@);
        let ghost subject_views = subjects@.map_values(|t: String| t@);
        proof {
            assert forall|k: int| 0 <= k < v.modules.len() implies name_views[k]
                == (#[trigger] v.modules[k]).name by {
                assert(names@[k]@ == v.modules[k].name);
            }
            assert forall|k: int| 0 <= k < v.tokens.len() implies session_views[k]
                == (#[trigger] v.tokens[k]).session by {
                assert(sessions@[k]@ == v.tokens[k].session);
            }
            assert forall|k: int| 0 <= k < v.authors.len() implies author_views[k]
                == (#[trigger] v.authors[k]).name && subject_views[k] == v.authors[k].subject by {
                assert(authors@[k]@ == v.authors[k].name);
                assert(subjects@[k]@ == v.authors[k].subject);
            }
        }
        if !distinct(&names) {
            proof {
                let (a, b) = choose|a: int, b: int|
                    0 <= a < b < name_views.len() && name_views[a] == name_views[b];
                assert(v.modules[a].name == v.modules[b].name);
            }
            return false;
        }
        if !distinct(&sessions) {
            proof {
                let (a, b) = choose|a: int, b: int|
                    0 <= a < b < session_views.len() && session_views[a] == session_views[b];
                assert(v.tokens[a].session == v.tokens[b].session);
            }
            return false;
        }
        if !distinct(&authors) {
            proof {
                let (a, b) = choose|a: int, b: int|
                    0 <= a < b < author_views.len() && author_views[a] == author_views[b];
                assert(v.authors[a].name == v.authors[b].name);
            }
            return false;
        }
        if !distinct(&subjects) {
            proof {
                let (a, b) = choose|a: int, b: int|
                    0 <= a < b < subject_views.len() && subject_views[a] == subject_views[b];
                assert(v.authors[a].subject == v.authors[b].subject);
            }
            return false;
        }
        // A release belongs to a module that has a latest version, and is
        // the first release of its module with its version.
        let mut r: usize = 0;
        while r < self.releases.len()
            invariant
                r <= self.releases.len(),
                v == self@,
                forall|x: int|
                    0 <= x < r ==> 0 <= (#[trigger] v.releases[x]).module < v.modules.len()
                        && v.modules[v.releases[x].module].latest is Some,
                forall|x: int|
                    0 <= x < r ==> v.release_index(
                        (#[trigger] v.releases[x]).module,
                        v.releases[x].version,
                    ) == Some(x),
            decreases self.releases.len() - r,
        {
            assert(v.releases[r as int] == self.releases@[r as int]@);
            let release = &self.releases[r];
            if release.module >= self.modules.len() {
                return false;
            }
            assert(v.modules[release.module as int] == self.modules@[release.module as int]@);
            if self.modules[release.module].latest.is_none() {
                return false;
            }
            match self.find_release(release.module, &release.version) {
                Some(first) => {
                    if first != r {
                        proof {
                            lemma_first_is_first(
                                v.releases,
                                |x: ReleaseView|
                                    x.module == release.module as int && x.version
                                        == release.version@,
                            );
                            assert(v.releases[first as int].module == v.releases[r as int].module);
                        }
                        return false;
                    }
                },
                None => {
                    proof {
                        lemma_first_exists(
                            v.releases,
                            |x: ReleaseView|
                                x.module == release.module as int && x.version
                                    == release.version@,
                            r as int,
                        );
                    }
                    return false;
                },
            }
            r += 1;
        }
        proof {
            assert forall|a: int, b: int| 0 <= a < b < v.releases.len() implies !((
            #[trigger] v.releases[a]).module == (#[trigger] v.releases[b]).module
                && v.releases[a].version == v.releases[b].version) by {
                if v.releases[a].module == v.releases[b].module && v.releases[a].version
                    == v.releases[b].version {
                    assert(v.release_index(v.releases[a].module, v.releases[a].version) == Some(a));
                    assert(v.release_index(v.releases[b].module, v.releases[b].version) == Some(b));
                }
            }
        }
        // The latest version of a module is that of one of its releases.
        let mut m: usize = 0;
        while m < self.modules.len()
            invariant
                m <= self.modules.len(),
                v == self@,
                forall|k: int|
                    0 <= k < m ==> ((#[trigger] v.modules[k]).latest matches Some(latest)
                        ==> v.release_index(k, latest) is Some),
            decreases self.modules.len() - m,
        {
            assert(v.modules[m as int] == self.modules@[m as int]@);
            match &self.modules[m].latest {
                Some(latest) => {
                    if self.find_release(m, latest).is_none() {
                        return false;
                    }
                },
                None => {},
            }
            m += 1;
        }
        true
    }

    /// A registry with the given authors, modules, releases and sessions,
    /// as they were stored before. `StorageError` where they do not meet the
    /// invariant of the registry.
    pub fn restore(
        authors: Vec<Author>,
        modules: Vec<Module>,
        releases: Vec<Release>,
        tokens: Vec<AuthToken>,
    ) -> (r: Result<Registry, Error>)
        ensures
            ({
                let v = RegistryView {
                    authors: authors@.map_values(|a: Author| a@),
                    modules: modules@.map_values(|m: Module| m@),
                    releases: releases@.map_values(|x: Release| x@),
                    tokens: tokens@.map_values(|t: AuthToken| t@),
                };
                if v.wf() {
                    r matches Ok(registry) && registry@ == v
                } else {
                    r matches Err(e) && e == Error::StorageError
                }
            }),
    {
        let registry = Registry { authors, modules, releases, tokens };
        if registry.check() {
            Ok(registry)
        } else {
            Err(Error::StorageError)
        }
    }

    /// The authors, in the order in which they were registered.
    pub fn authors(&self) -> (r: &Vec<Author>)
        ensures
            r@.map_values(|a: Author| a@) == self@.authors,
    {
        &self.authors
    }

    /// The sessions with the users that they were authorised for.
    pub fn tokens(&self) -> (r: &Vec<AuthToken>)
        ensures
            r@.map_values(|t: AuthToken| t@) == self@.tokens,
    {
        &self.tokens
    }
}

} // verus!
