//! The endpoints of the registry: what each of them answers for a request,
//! and what it changes in the registry.

use crate::error::{plain, Error, Failure, FailureView};
use crate::metadata::{parsed, Metadata};
use crate::registry::search::{found, hits_of, ranked, SearchResponse};
use crate::registry::{Registry, RegistryView};
use crate::runtime::json::JsonValue;
use crate::text::{quote, quoted};
use vstd::prelude::*;
use vstd::string::StringExecFns;

verus! {

/// What an endpoint returns: its answer, or the failure with the text that
/// the client is shown.
pub type ApiResult<T> = Result<T, Failure>;

/// The envelope of every answer: `{"success": T}` or `{"error": string}`.
#[derive(Clone, PartialEq, Eq, Debug)]
pub enum ApiResponse<T> {
    Success(T),
    Error(String),
}

/// The query of a search.
#[derive(Clone, PartialEq, Eq, Debug)]
pub struct Search {
    pub q: String,
}

/// The session that a request presents in its `Authorization` header.
#[derive(Clone, PartialEq, Eq, Debug)]
pub struct AuthHeader(pub String);

/// The body of a request to publish.
#[derive(Clone, PartialEq, Eq, Debug)]
pub struct PublishRequest {
    pub code: String,
}

/// The answer to a request to publish: what was published.
#[derive(Clone, PartialEq, Eq, Debug)]
pub struct PublishResponse {
    pub author: String,
    pub name: String,
    pub version: String,
}

/// What the registry tells of a module.
#[derive(Clone, PartialEq, Eq, Debug)]
pub struct ModuleInfoResponse {
    pub author: String,
    pub name: String,
    pub description: String,
    pub latest: Option<String>,
}

/// A release as it is delivered.
#[derive(Clone, PartialEq, Eq, Debug)]
pub struct DownloadResponse {
    pub author: String,
    pub name: String,
    pub version: String,
    pub code: String,
}

/// The user of a session.
#[derive(Clone, PartialEq, Eq, Debug)]
pub struct WhoamiResponse {
    pub user: String,
}

/// What the identity provider sends back to the registry: a code and the
/// state it was asked with, or an error and its description.
#[derive(Clone, PartialEq, Eq, Debug)]
pub struct OAuth {
    pub code: Option<String>,
    pub state: Option<String>,
    pub error: Option<String>,
    pub error_description: Option<String>,
}

/// An identity that the identity provider has verified.
#[derive(Clone, PartialEq, Eq, Debug)]
pub struct Identity {
    /// The provider's own, lasting name for the identity.
    pub subject: String,
    /// The name that the identity goes by at the provider.
    pub login: String,
}

impl<T> ApiResponse<T> {
    /// The envelope for the outcome of an endpoint: the answer, or the text
    /// of the failure, as it is.
    pub fn wrap(result: ApiResult<T>) -> (r: ApiResponse<T>)
        ensures
            match result {
                Ok(v) => r == ApiResponse::Success(v),
                Err(f) => r == ApiResponse::<T>::Error(f.text),
            },
    {
        match result {
            Ok(v) => ApiResponse::Success(v),
            Err(f) => ApiResponse::Error(f.text),
        }
    }
}

impl AuthHeader {
    /// The user that the session is authorised for at the time `now`, or
    /// `AuthRequired`.
    pub fn verify(&self, registry: &Registry, now: u64) -> (r: ApiResult<String>)
        ensures
            match r {
                Ok(user) => registry@.user_of(self.0@, now) == Some(user@),
                Err(f) => f@ == plain(Error::AuthRequired) && registry@.user_of(self.0@, now)
                    is None,
            },
    {
        match registry.verify(&self.0, now) {
            Ok(user) => Ok(user),
            Err(e) => Err(Failure::of(e)),
        }
    }
}

/// The text that tells of a refusal of the identity provider: its error
/// and the description of the error, each quoted.
pub open spec fn refusal(error: Seq<char>, description: Seq<char>) -> Seq<char> {
    "oauth error: "@ + quoted(error) + ", "@ + quoted(description)
}

impl OAuth {
    /// What the request of the identity provider holds: the code and the
    /// state of a successful authorisation. Where the provider sent an error
    /// with its description, the result is an `AuthRequired` whose text
    /// tells both, whatever else the request holds; a request of any other
    /// form is an `InvalidRequest`.
    pub open spec fn extracted(self) -> Result<(String, String), FailureView> {
        match (self.code, self.state, self.error, self.error_description) {
            (Some(code), Some(state), None, None) => Ok((code, state)),
            (_, _, Some(error), Some(description)) => Err(
                FailureView { kind: Error::AuthRequired, text: refusal(error@, description@) },
            ),
            _ => Err(plain(Error::InvalidRequest)),
        }
    }

    /// The code and the state of a successful authorisation, or the failure
    /// that the request tells of.
    pub fn extract(self) -> (r: ApiResult<(String, String)>)
        ensures
            match self.extracted() {
                Ok(pair) => r == Ok::<(String, String), Failure>(pair),
                Err(failure) => r matches Err(f) && f@ == failure,
            },
    {
        match (self.code, self.state, self.error, self.error_description) {
            (Some(code), Some(state), None, None) => Ok((code, state)),
            (_, _, Some(error), Some(description)) => {
                let mut text = "oauth error: ".to_owned();
                text.append(quote(error.as_str()).as_str());
                text.append(", ");
                text.append(quote(description.as_str()).as_str());
                Err(Failure { kind: Error::AuthRequired, text })
            },
            _ => Err(Failure::of(Error::InvalidRequest)),
        }
    }
}

/// What `publish` answers and leaves behind. `AuthRequired` where the
/// session is unknown or has expired; else the error of the metadata of
/// `code`; else the error of the release: `InvalidUserName`,
/// `InvalidModuleName`, `NameTaken` or `VersionExists`.
pub open spec fn published(
    registry: RegistryView,
    name: Seq<char>,
    code: Seq<char>,
    session: Seq<char>,
    now: u64,
) -> Result<((Seq<char>, Seq<char>, Seq<char>), RegistryView), Error> {
    match registry.user_of(session, now) {
        None => Err(Error::AuthRequired),
        Some(user) => match parsed(code) {
            Err(e) => Err(e),
            Ok(meta) => match registry.released(
                user,
                name,
                meta.description,
                meta.version,
                code,
                now,
            ) {
                Err(e) => Err(e),
                Ok(next) => Ok(((user, name, meta.version), next)),
            },
        },
    }
}

/// `GET /dashboard`: the object `{"dashboard": {}}`.
pub fn dashboard() -> (r: JsonValue)
    ensures
        r matches JsonValue::Object(members) && members@.len() == 1 && members@[0].0@
            == "dashboard"@ && (members@[0].1 matches JsonValue::Object(inner) && inner@.len()
            == 0),
{
    let mut members: Vec<(String, JsonValue)> = Vec::new();
    members.push(("dashboard".to_owned(), JsonValue::Object(Vec::new())));
    JsonValue::Object(members)
}

/// `GET /search?q=`: the modules with a release of which the query is a part
/// of the name or of the description, each once; featured modules first,
/// then the more downloaded, then by name.
pub fn search(q: Search, registry: &Registry) -> (r: ApiResult<ApiResponse<Vec<SearchResponse>>>)
    ensures
        r matches Ok(ApiResponse::Success(list)) && ranked(hits_of(list@)) && hits_of(
            list@,
        ).to_multiset() == found(registry@.modules, q.q@).to_multiset(),
{
    let modules = registry.search(q.q.as_str());
    Ok(ApiResponse::Success(modules))
}

/// `GET /info/<author>/<name>`: the module, or `NotFound`.
pub fn info(author: String, name: String, registry: &Registry) -> (r: ApiResult<
    ApiResponse<ModuleInfoResponse>,
>)
    ensures
        match registry@.module_of(author@, name@) {
            Ok(m) => r matches Ok(ApiResponse::Success(a)) && a.author@ == m.author && a.name@
                == m.name && a.description@ == m.description && crate::metadata::text_of(
                a.latest,
            ) == m.latest,
            Err(e) => r matches Err(f) && f@ == plain(e),
        },
{
    let i = match registry.module(&author, &name) {
        Ok(i) => i,
        Err(e) => {
            return Err(Failure::of(e));
        },
    };
    let modules = registry.modules();
    assert(Registry::views(modules@)[i as int] == modules@[i as int]@);
    let module = &modules[i];
    Ok(
        ApiResponse::Success(
            ModuleInfoResponse {
                author: module.author.clone(),
                name: module.name.clone(),
                description: module.description.clone(),
                latest: match &module.latest {
                    Some(v) => Some(v.clone()),
                    None => None,
                },
            },
        ),
    )
}

/// `GET /dl/<author>/<name>/<version>`: the code of the release, whose
/// download counter, like that of its module, grows by one. `NotFound`
/// where there is no such module or release, `Internal` where a counter is
/// at its limit; the registry is then as before.
pub fn download(author: String, name: String, version: String, registry: &mut Registry) -> (r:
    ApiResult<ApiResponse<DownloadResponse>>)
    requires
        old(registry).wf(),
    ensures
        final(registry).wf(),
        match old(registry)@.downloaded(author@, name@, version@) {
            Ok((code, next)) => final(registry)@ == next && (r matches Ok(
                ApiResponse::Success(a),
            ) && a.author == author && a.name == name && a.version == version && a.code@ == code),
            Err(e) => (r matches Err(f) && f@ == plain(e)) && final(registry)@ == old(registry)@,
        },
{
    let code = match registry.download(&author, &name, &version) {
        Ok(code) => code,
        Err(e) => {
            return Err(Failure::of(e));
        },
    };
    Ok(ApiResponse::Success(DownloadResponse { author, name, version, code }))
}

/// `POST /publish/<name>`: the user of the session publishes the module
/// `name` with the source `upload.code`, as the version that its metadata
/// declares. On an error the registry is as before.
pub fn publish(
    name: String,
    upload: PublishRequest,
    session: AuthHeader,
    registry: &mut Registry,
    now: u64,
) -> (r: ApiResult<ApiResponse<PublishResponse>>)
    requires
        old(registry).wf(),
    ensures
        final(registry).wf(),
        match published(old(registry)@, name@, upload.code@, session.0@, now) {
            Ok((answer, next)) => final(registry)@ == next && (r matches Ok(
                ApiResponse::Success(a),
            ) && a.author@ == answer.0 && a.name@ == answer.1 && a.version@ == answer.2),
            Err(e) => (r matches Err(f) && f@ == plain(e)) && final(registry)@ == old(registry)@,
        },
{
    let user = session.verify(registry, now)?;
    let metadata = match Metadata::parse(upload.code.as_str()) {
        Ok(metadata) => metadata,
        Err(e) => {
            return Err(Failure::of(e));
        },
    };
    let version = metadata.version.clone();
    let released = registry.release(
        user.clone(),
        name.clone(),
        metadata.description,
        metadata.version,
        upload.code,
        now,
    );
    if let Err(e) = released {
        return Err(Failure::of(e));
    }
    Ok(ApiResponse::Success(PublishResponse { author: user, name, version }))
}

/// `GET /whoami`: the user of the session at the time `now`, or
/// `AuthRequired`.
pub fn whoami(session: AuthHeader, registry: &Registry, now: u64) -> (r: ApiResult<
    ApiResponse<WhoamiResponse>,
>)
    ensures
        match registry@.user_of(session.0@, now) {
            Some(user) => r matches Ok(ApiResponse::Success(a)) && a.user@ == user,
            None => r matches Err(f) && f@ == plain(Error::AuthRequired),
        },
{
    let user = session.verify(registry, now)?;
    Ok(ApiResponse::Success(WhoamiResponse { user }))
}

/// What `authorize` leaves behind: the identity is mapped to its local user
/// name, and the session `state` is authorised for that user until
/// `expires_at`.
pub open spec fn authorized(
    registry: RegistryView,
    state: Seq<char>,
    subject: Seq<char>,
    login: Seq<char>,
    now: u64,
    expires_at: u64,
) -> Result<RegistryView, Error> {
    match registry.registered(subject, login, now) {
        Err(e) => Err(e),
        Ok((user, next)) => Ok(next.authorized(state, user, expires_at)),
    }
}

/// `GET /authorize`, once the identity provider has exchanged the code for
/// an identity: binds the session `state` to the local user of the
/// identity until `expires_at`, and answers `{"success": {}}`. `NameTaken`
/// where the identity is new and its name belongs to another; the registry
/// is then as before.
pub fn authorize(
    state: String,
    identity: Identity,
    registry: &mut Registry,
    now: u64,
    expires_at: u64,
) -> (r: ApiResult<JsonValue>)
    requires
        old(registry).wf(),
    ensures
        final(registry).wf(),
        match authorized(
            old(registry)@,
            state@,
            identity.subject@,
            identity.login@,
            now,
            expires_at,
        ) {
            Ok(next) => final(registry)@ == next && (r matches Ok(JsonValue::Object(members))
                && members@.len() == 1 && members@[0].0@ == "success"@ && (
            members@[0].1 matches JsonValue::Object(inner) && inner@.len() == 0)),
            Err(e) => (r matches Err(f) && f@ == plain(e)) && final(registry)@ == old(registry)@,
        },
{
    let user = match registry.register(identity.subject, identity.login, now) {
        Ok(user) => user,
        Err(e) => {
            return Err(Failure::of(e));
        },
    };
    registry.authorize(state, user, expires_at);
    let mut members: Vec<(String, JsonValue)> = Vec::new();
    members.push(("success".to_owned(), JsonValue::Object(Vec::new())));
    Ok(JsonValue::Object(members))
}

} // verus!
