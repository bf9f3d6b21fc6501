//! What holds of the registry over several requests.

use crate::error::Error;
use crate::metadata::parsed;
use crate::registry::api::published;
use crate::find::{
    lemma_first_is_first, lemma_first_missing, lemma_first_push, lemma_first_update,
};
use crate::ident::is_valid_name;
use crate::registry::{ModuleView, RegistryView, ReleaseView};
use crate::version::{later, lemma_later_is_strict};
use vstd::prelude::*;

verus! {

impl RegistryView {
    /// The latest version of the module called `name`.
    pub open spec fn latest_of(self, name: Seq<char>) -> Option<Seq<char>> {
        match self.module_index(name) {
            Some(i) => self.modules[i].latest,
            None => None,
        }
    }

    /// After a release the module is found where the release put it, it
    /// belongs to the user who released, and it has the release.
    pub proof fn lemma_released_module(
        self,
        user: Seq<char>,
        name: Seq<char>,
        description: Seq<char>,
        version: Seq<char>,
        code: Seq<char>,
        now: u64,
    )
        requires
            self.wf(),
            self.released(user, name, description, version, code, now) is Ok,
        ensures
            ({
                let next = self.released(user, name, description, version, code, now)->Ok_0;
                &&& next.module_index(name) matches Some(i) && 0 <= i < next.modules.len()
                    && next.modules[i].author == user && next.release_index(i, version) is Some
                &&& next.latest_of(name) == Self::next_latest(self.latest_of(name), version)
                &&& next.tokens == self.tokens
                &&& next.authors == self.authors
            }),
    {
        let next = self.released(user, name, description, version, code, now)->Ok_0;
        let by_name = |m: ModuleView| m.name == name;
        lemma_first_is_first(self.modules, by_name);
        let at: int = match self.module_index(name) {
            Some(i) => {
                lemma_first_update(self.modules, by_name, i, next.modules[i]);
                i
            },
            None => {
                lemma_first_push(self.modules, by_name, next.modules.last());
                self.modules.len() as int
            },
        };
        assert(next.module_index(name) == Some(at));
        let same = |r: ReleaseView| r.module == at && r.version == version;
        lemma_first_push(self.releases, same, next.releases.last());
    }

    /// Releasing `v1` and then `v2` of a module leaves `v2` as the latest
    /// version where it is the greater of the two, and `v1` where it is the
    /// lesser. This is stated of a first release after which `v1` is the
    /// latest version, and of a second release that succeeds.
    pub proof fn law_latest_is_greatest(
        self,
        user: Seq<char>,
        name: Seq<char>,
        d1: Seq<char>,
        v1: Seq<char>,
        c1: Seq<char>,
        t1: u64,
        d2: Seq<char>,
        v2: Seq<char>,
        c2: Seq<char>,
        t2: u64,
    )
        requires
            self.wf(),
            self.released(user, name, d1, v1, c1, t1) matches Ok(first) && first.latest_of(name)
                == Some(v1) && first.released(user, name, d2, v2, c2, t2) is Ok,
        ensures
            ({
                let first = self.released(user, name, d1, v1, c1, t1)->Ok_0;
                let second = first.released(user, name, d2, v2, c2, t2)->Ok_0;
                &&& later(v2, v1) ==> second.latest_of(name) == Some(v2)
                &&& later(v1, v2) ==> second.latest_of(name) == Some(v1)
            }),
    {
        let first = self.released(user, name, d1, v1, c1, t1)->Ok_0;
        self.lemma_released_wf(user, name, d1, v1, c1, t1);
        first.lemma_released_module(user, name, d2, v2, c2, t2);
        if later(v1, v2) {
            lemma_later_is_strict(v1, v2);
        }
    }

    /// Whether the module at place `i` has the release `version` and no other.
    pub open spec fn only_release(self, i: int, version: Seq<char>) -> bool {
        &&& self.release_index(i, version) is Some
        &&& forall|r: int|
            0 <= r < self.releases.len() && (#[trigger] self.releases[r]).module == i
                ==> self.releases[r].version == version
    }

    /// Where a module has the one release `v1`, its author can release any
    /// version that is greater or lesser than `v1`: the module then has both
    /// releases, and its latest version is the greater of the two.
    pub proof fn law_release_beside_one(
        self,
        user: Seq<char>,
        name: Seq<char>,
        description: Seq<char>,
        v1: Seq<char>,
        v2: Seq<char>,
        code: Seq<char>,
        now: u64,
    )
        requires
            self.wf(),
            self.module_index(name) matches Some(i) && self.modules[i].author == user
                && self.modules[i].latest == Some(v1) && self.only_release(i, v1),
            later(v2, v1) || later(v1, v2),
        ensures
            ({
                let i = self.module_index(name)->0;
                &&& self.released(user, name, description, v2, code, now) matches Ok(next)
                    && next.releases == self.releases.push(
                    ReleaseView { module: i, version: v2, code, downloads: 0, published_at: now },
                ) && next.module_index(name) == Some(i) && next.latest_of(name) == Some(
                    if later(v2, v1) {
                        v2
                    } else {
                        v1
                    },
                )
            }),
    {
        let i = self.module_index(name)->0;
        lemma_first_is_first(self.modules, |m: ModuleView| m.name == name);
        assert(is_valid_name(self.modules[i].author) && is_valid_name(self.modules[i].name));
        if later(v2, v1) {
            lemma_later_is_strict(v2, v1);
        } else {
            lemma_later_is_strict(v1, v2);
        }
        assert forall|r: int| 0 <= r < self.releases.len() implies !(
        #[trigger] self.releases[r].module == i && self.releases[r].version == v2) by {}
        lemma_first_missing(self.releases, |r: ReleaseView| r.module == i && r.version == v2);
        self.lemma_released_module(user, name, description, v2, code, now);
    }

    /// Releasing a version of a module that was just released fails with
    /// `VersionExists`.
    pub proof fn law_version_released_once(
        self,
        user: Seq<char>,
        name: Seq<char>,
        d1: Seq<char>,
        version: Seq<char>,
        c1: Seq<char>,
        t1: u64,
        d2: Seq<char>,
        c2: Seq<char>,
        t2: u64,
    )
        requires
            self.wf(),
            self.released(user, name, d1, version, c1, t1) is Ok,
        ensures
            self.released(user, name, d1, version, c1, t1)->Ok_0.released(
                user,
                name,
                d2,
                version,
                c2,
                t2,
            ) == Err::<RegistryView, Error>(Error::VersionExists),
    {
        self.lemma_released_module(user, name, d1, version, c1, t1);
    }

    /// Releasing a module under another author than the one who released it
    /// before fails with `NameTaken`.
    pub proof fn law_name_has_one_author(
        self,
        user: Seq<char>,
        name: Seq<char>,
        d1: Seq<char>,
        v1: Seq<char>,
        c1: Seq<char>,
        t1: u64,
        other: Seq<char>,
        d2: Seq<char>,
        v2: Seq<char>,
        c2: Seq<char>,
        t2: u64,
    )
        requires
            self.wf(),
            self.released(user, name, d1, v1, c1, t1) is Ok,
            other != user,
            is_valid_name(other),
        ensures
            self.released(user, name, d1, v1, c1, t1)->Ok_0.released(other, name, d2, v2, c2, t2)
                == Err::<RegistryView, Error>(Error::NameTaken),
    {
        self.lemma_released_module(user, name, d1, v1, c1, t1);
    }

    /// A download that succeeds adds exactly one to the counter of the
    /// release that it delivers and to the counter of its module, and leaves
    /// every other release and module as it was.
    pub proof fn law_download_counts_once(
        self,
        author: Seq<char>,
        name: Seq<char>,
        version: Seq<char>,
    )
        requires
            self.wf(),
            self.downloaded(author, name, version) is Ok,
        ensures
            ({
                let next = self.downloaded(author, name, version)->Ok_0.1;
                let i = self.module_index(name)->0;
                let k = self.release_index(i, version)->0;
                &&& 0 <= i < self.modules.len()
                &&& 0 <= k < self.releases.len()
                &&& next.module_index(name) == Some(i)
                &&& next.release_index(i, version) == Some(k)
                &&& next.releases.len() == self.releases.len()
                &&& next.modules.len() == self.modules.len()
                &&& next.releases[k].downloads == self.releases[k].downloads + 1
                &&& next.modules[i].downloads == self.modules[i].downloads + 1
                &&& forall|j: int|
                    0 <= j < self.releases.len() && j != k ==> next.releases[j]
                        == self.releases[j]
                &&& forall|j: int|
                    0 <= j < self.modules.len() && j != i ==> next.modules[j] == self.modules[j]
            }),
    {
        let next = self.downloaded(author, name, version)->Ok_0.1;
        let i = self.module_index(name)->0;
        let by_name = |m: ModuleView| m.name == name;
        let same = |r: ReleaseView| r.module == i && r.version == version;
        lemma_first_is_first(self.modules, by_name);
        lemma_first_is_first(self.releases, same);
        let k = self.release_index(i, version)->0;
        lemma_first_update(self.modules, by_name, i, next.modules[i]);
        lemma_first_update(self.releases, same, k, next.releases[k]);
    }
}

/// Publishing a module with the version `v1` and then with `v2` leaves `v2`
/// as its latest version where it is the greater of the two, and `v1` where
/// it is the lesser. This is stated of a first publication after which `v1`
/// is the latest version, and of a second one that succeeds.
pub proof fn law_publish_latest_is_greatest(
    registry: RegistryView,
    name: Seq<char>,
    code1: Seq<char>,
    session1: Seq<char>,
    t1: u64,
    code2: Seq<char>,
    session2: Seq<char>,
    t2: u64,
)
    requires
        registry.wf(),
        published(registry, name, code1, session1, t1) matches Ok(first) && first.1.latest_of(name)
            == Some(first.0.2) && published(first.1, name, code2, session2, t2) is Ok,
    ensures
        ({
            let first = published(registry, name, code1, session1, t1)->Ok_0;
            let second = published(first.1, name, code2, session2, t2)->Ok_0;
            let v1 = first.0.2;
            let v2 = second.0.2;
            &&& later(v2, v1) ==> second.1.latest_of(name) == Some(v2)
            &&& later(v1, v2) ==> second.1.latest_of(name) == Some(v1)
        }),
{
    let user1 = registry.user_of(session1, t1)->0;
    let m1 = parsed(code1)->Ok_0;
    let first = published(registry, name, code1, session1, t1)->Ok_0.1;
    registry.lemma_released_wf(user1, name, m1.description, m1.version, code1, t1);
    let user2 = first.user_of(session2, t2)->0;
    let m2 = parsed(code2)->Ok_0;
    first.lemma_released_module(user2, name, m2.description, m2.version, code2, t2);
    if later(m1.version, m2.version) {
        lemma_later_is_strict(m1.version, m2.version);
    }
}

/// Where a module has the one release `v1`, which is its latest version,
/// and its author publishes it with a greater version, the publication
/// succeeds, the module has both releases, and the greater version is its
/// latest.
pub proof fn law_publish_later_version(
    registry: RegistryView,
    name: Seq<char>,
    code: Seq<char>,
    session: Seq<char>,
    now: u64,
    v1: Seq<char>,
)
    requires
        registry.wf(),
        registry.user_of(session, now) matches Some(user) && (registry.module_index(
            name,
        ) matches Some(i) && registry.modules[i].author == user && registry.modules[i].latest
            == Some(v1) && registry.only_release(i, v1)),
        parsed(code) matches Ok(meta) && later(meta.version, v1),
    ensures
        ({
            let user = registry.user_of(session, now)->0;
            let i = registry.module_index(name)->0;
            let v2 = parsed(code)->Ok_0.version;
            &&& published(registry, name, code, session, now) matches Ok((answer, next))
                && answer == (user, name, v2) && next.latest_of(name) == Some(v2)
                && next.releases == registry.releases.push(
                ReleaseView { module: i, version: v2, code, downloads: 0, published_at: now },
            )
        }),
{
    let user = registry.user_of(session, now)->0;
    let meta = parsed(code)->Ok_0;
    registry.law_release_beside_one(user, name, meta.description, v1, meta.version, code, now);
}

/// Where a module has the one release `v1`, which is its latest version,
/// and its author publishes it with a lesser version, the publication
/// succeeds, the module has both releases, and `v1` is still its latest
/// version: a publication never lowers the latest version.
pub proof fn law_publish_earlier_version(
    registry: RegistryView,
    name: Seq<char>,
    code: Seq<char>,
    session: Seq<char>,
    now: u64,
    v1: Seq<char>,
)
    requires
        registry.wf(),
        registry.user_of(session, now) matches Some(user) && (registry.module_index(
            name,
        ) matches Some(i) && registry.modules[i].author == user && registry.modules[i].latest
            == Some(v1) && registry.only_release(i, v1)),
        parsed(code) matches Ok(meta) && later(v1, meta.version),
    ensures
        ({
            let user = registry.user_of(session, now)->0;
            let i = registry.module_index(name)->0;
            let v2 = parsed(code)->Ok_0.version;
            &&& published(registry, name, code, session, now) matches Ok((answer, next))
                && answer == (user, name, v2) && next.latest_of(name) == Some(v1)
                && next.releases == registry.releases.push(
                ReleaseView { module: i, version: v2, code, downloads: 0, published_at: now },
            )
        }),
{
    let user = registry.user_of(session, now)->0;
    let meta = parsed(code)->Ok_0;
    lemma_later_is_strict(v1, meta.version);
    registry.law_release_beside_one(user, name, meta.description, v1, meta.version, code, now);
}

/// Publishing a module twice with the same version, under sessions of the
/// same user, fails the second time with `VersionExists`.
pub proof fn law_publish_version_once(
    registry: RegistryView,
    name: Seq<char>,
    code1: Seq<char>,
    session1: Seq<char>,
    t1: u64,
    code2: Seq<char>,
    session2: Seq<char>,
    t2: u64,
)
    requires
        registry.wf(),
        published(registry, name, code1, session1, t1) is Ok,
        registry.user_of(session2, t2) == registry.user_of(session1, t1),
        parsed(code2) matches Ok(m2) && m2.version == parsed(code1)->Ok_0.version,
    ensures
        published(published(registry, name, code1, session1, t1)->Ok_0.1, name, code2, session2, t2)
            == Err::<((Seq<char>, Seq<char>, Seq<char>), RegistryView), Error>(
            Error::VersionExists,
        ),
{
    let user = registry.user_of(session1, t1)->0;
    let m1 = parsed(code1)->Ok_0;
    registry.lemma_released_module(user, name, m1.description, m1.version, code1, t1);
    let m2 = parsed(code2)->Ok_0;
    registry.law_version_released_once(
        user,
        name,
        m1.description,
        m1.version,
        code1,
        t1,
        m2.description,
        code2,
        t2,
    );
}

/// Publishing a module under the session of another user than the one who
/// published it before fails with `NameTaken`.
pub proof fn law_publish_name_has_one_author(
    registry: RegistryView,
    name: Seq<char>,
    code1: Seq<char>,
    session1: Seq<char>,
    t1: u64,
    code2: Seq<char>,
    session2: Seq<char>,
    t2: u64,
)
    requires
        registry.wf(),
        published(registry, name, code1, session1, t1) is Ok,
        registry.user_of(session2, t2) matches Some(other) && Some(other) != registry.user_of(
            session1,
            t1,
        ) && is_valid_name(other),
        parsed(code2) is Ok,
    ensures
        published(published(registry, name, code1, session1, t1)->Ok_0.1, name, code2, session2, t2)
            == Err::<((Seq<char>, Seq<char>, Seq<char>), RegistryView), Error>(Error::NameTaken),
{
    let user = registry.user_of(session1, t1)->0;
    let other = registry.user_of(session2, t2)->0;
    let m1 = parsed(code1)->Ok_0;
    let m2 = parsed(code2)->Ok_0;
    registry.lemma_released_module(user, name, m1.description, m1.version, code1, t1);
    registry.law_name_has_one_author(
        user,
        name,
        m1.description,
        m1.version,
        code1,
        t1,
        other,
        m2.description,
        m2.version,
        code2,
        t2,
    );
}

} // verus!
