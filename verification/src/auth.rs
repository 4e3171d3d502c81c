//! Access tokens, the permissions they carry, and the decision whether a
//! request may proceed.

use crate::names::NameMap;
use crate::schema::text_of;
use crate::text::{chars_of, ends_with, same_text, starts_with};
use vstd::prelude::*;

verus! {

/// May create and delete indexes.
pub const MODIFY_ENGINE: usize = 1;

/// May search an index.
pub const SEARCH_INDEX: usize = 2;

/// May add and remove documents.
pub const MODIFY_DOCUMENTS: usize = 4;

/// May change the stop words of an index.
pub const MODIFY_STOP_WORDS: usize = 8;

/// May issue and revoke tokens.
pub const MODIFY_AUTH: usize = 16;

/// Every permission at once.
pub const SUPER_USER: usize = 31;

/// Whether the bitmask `granted` holds every bit of `required`.
pub open spec fn covers(granted: usize, required: usize) -> bool {
    granted & required == required
}

/// An access token with what it allows.
#[derive(Debug)]
pub struct TokenData {
    pub token: String,
    pub permissions: usize,
    pub user: Option<String>,
    pub description: Option<String>,
    pub allowed_indexes: Option<Vec<String>>,
}

/// The mathematical content of a [`TokenData`].
#[verifier::ext_equal]
pub struct TokenShape {
    pub token: Seq<char>,
    pub permissions: usize,
    pub user: Option<Seq<char>>,
    pub description: Option<Seq<char>>,
    pub allowed_indexes: Option<Seq<Seq<char>>>,
}

/// The characters of each string of an optional list.
pub open spec fn texts_of(list: Option<Vec<String>>) -> Option<Seq<Seq<char>>> {
    match list {
        Some(v) => Some(Seq::new(v@.len(), |i: int| v@[i]@)),
        None => None,
    }
}

impl View for TokenData {
    type V = TokenShape;

    open spec fn view(&self) -> TokenShape {
        TokenShape {
            token: self.token@,
            permissions: self.permissions,
            user: text_of(self.user),
            description: text_of(self.description),
            allowed_indexes: texts_of(self.allowed_indexes),
        }
    }
}

fn copy_text(s: &Option<String>) -> (copy: Option<String>)
    ensures
        text_of(copy) == text_of(*s),
{
    match s {
        Some(t) => Some(t.clone()),
        None => None,
    }
}

fn copy_texts(list: &Option<Vec<String>>) -> (copy: Option<Vec<String>>)
    ensures
        texts_of(copy) == texts_of(*list),
{
    match list {
        Some(v) => {
            let mut out: Vec<String> = Vec::new();
            let mut i: usize = 0;
            while i < v.len()
                invariant
                    i <= v@.len(),
                    out@.len() == i,
                    forall|j: int| 0 <= j < i ==> (#[trigger] out@[j])@ == v@[j]@,
                decreases v@.len() - i,
            {
                out.push(v[i].clone());
                i += 1;
            }
            assert(Seq::new(out@.len(), |i: int| out@[i]@) =~= Seq::new(v@.len(), |i: int| v@[i]@));
            Some(out)
        },
        None => None,
    }
}

impl TokenData {
    /// Whether the token carries every permission of `required`.
    pub fn has_permissions(&self, required: usize) -> (r: bool)
        ensures
            r == covers(self.permissions, required),
    {
        self.permissions & required == required
    }

    /// Whether the token may act on the index called `index`: tokens without
    /// a list of allowed indexes may act on every index.
    pub fn has_access_to_index(&self, index: &str) -> (r: bool)
        ensures
            r == match texts_of(self.allowed_indexes) {
                Some(names) => names.contains(index@),
                None => true,
            },
    {
        match &self.allowed_indexes {
            Some(names) => {
                let ghost shapes = Seq::new(names@.len(), |i: int| names@[i]@);
                let mut i: usize = 0;
                while i < names.len()
                    invariant
                        i <= names@.len(),
                        shapes == Seq::new(names@.len(), |i: int| names@[i]@),
                        texts_of(self.allowed_indexes) == Some(shapes),
                        forall|j: int| 0 <= j < i ==> shapes[j] != index@,
                    decreases names@.len() - i,
                {
                    if same_text(names[i].as_str(), index) {
                        assert(shapes[i as int] == index@);
                        return true;
                    }
                    i += 1;
                }
                false
            },
            None => true,
        }
    }

    /// A token with the same content.
    pub fn duplicate(&self) -> (copy: TokenData)
        ensures
            copy@ == self@,
    {
        TokenData {
            token: self.token.clone(),
            permissions: self.permissions,
            user: copy_text(&self.user),
            description: copy_text(&self.description),
            allowed_indexes: copy_texts(&self.allowed_indexes),
        }
    }
}

/// The metadata a caller supplies for a new or edited token.
#[derive(Debug)]
pub struct CreateTokenPayload {
    pub permissions: usize,
    pub user: Option<String>,
    pub description: Option<String>,
    pub allowed_indexes: Option<Vec<String>>,
}

/// The set of live tokens, and whether authorisation is enforced at all.
pub struct AuthManager {
    enabled: bool,
    tokens: NameMap<TokenData>,
}

impl AuthManager {
    #[verifier::type_invariant]
    spec fn keyed_by_token(self) -> bool {
        forall|t: Seq<char>| #[trigger] self.tokens@.contains_key(t) ==> self.tokens@[t].token@ == t
    }

    /// The live tokens, each under its own token string.
    pub closed spec fn view(&self) -> Map<Seq<char>, TokenData> {
        self.tokens@
    }

    /// Whether requests are checked against tokens.
    pub closed spec fn is_enabled(&self) -> bool {
        self.enabled
    }

    /// A manager that enforces authorisation when `enabled`.  When it does,
    /// `super_user_key` is live from the start and carries every permission.
    pub fn new(enabled: bool, super_user_key: String) -> (manager: Self)
        ensures
            manager.is_enabled() == enabled,
            !enabled ==> manager@ == Map::<Seq<char>, TokenData>::empty(),
            enabled ==> manager@.dom() == set![super_user_key@] && manager@[super_user_key@]@
                == (TokenShape {
                token: super_user_key@,
                permissions: SUPER_USER,
                user: None,
                description: None,
                allowed_indexes: None,
            }),
    {
        let mut tokens: NameMap<TokenData> = NameMap::new();
        if enabled {
            let data = TokenData {
                token: super_user_key.clone(),
                permissions: SUPER_USER,
                user: None,
                description: None,
                allowed_indexes: None,
            };
            tokens.insert(super_user_key, data);
            assert(tokens@.dom() =~= set![super_user_key@]);
        }
        AuthManager { enabled, tokens }
    }

    /// Whether requests are checked against tokens.
    pub fn enabled(&self) -> (r: bool)
        ensures
            r == self.is_enabled(),
    {
        self.enabled
    }

    /// The data of a live token.
    pub fn get_token_data(&self, token: &str) -> (found: Option<&TokenData>)
        ensures
            found == if self@.contains_key(token@) {
                Some(&self@[token@])
            } else {
                None
            },
            found matches Some(data) ==> data.token@ == token@,
    {
        proof {
            use_type_invariant(self);
        }
        self.tokens.get(token)
    }

    /// Makes `token` live with the given metadata, replacing what it had.
    pub fn create_token(&mut self, token: String, payload: CreateTokenPayload) -> (data: TokenData)
        ensures
            final(self).is_enabled() == old(self).is_enabled(),
            final(self)@.dom() == old(self)@.dom().insert(token@),
            forall|t: Seq<char>|
                t != token@ && old(self)@.contains_key(t) ==> final(self)@[t] == old(self)@[t],
            final(self)@[token@]@ == data@,
            data@ == (TokenShape {
                token: token@,
                permissions: payload.permissions,
                user: text_of(payload.user),
                description: text_of(payload.description),
                allowed_indexes: texts_of(payload.allowed_indexes),
            }),
    {
        proof {
            use_type_invariant(&*self);
        }
        let data = TokenData {
            token: token.clone(),
            permissions: payload.permissions,
            user: payload.user,
            description: payload.description,
            allowed_indexes: payload.allowed_indexes,
        };
        let copy = data.duplicate();
        let mut holder = AuthManager { enabled: false, tokens: NameMap::new() };
        std::mem::swap(&mut holder, self);
        let enabled = holder.enabled;
        let mut tokens = holder.tokens;
        tokens.insert(token, data);
        assert(tokens@.dom() =~= old(self)@.dom().insert(token@));
        *self = AuthManager { enabled, tokens };
        copy
    }

    /// Changes the metadata of a live token; tokens that are not live stay so.
    pub fn update_token(&mut self, token: &str, payload: CreateTokenPayload) -> (data: Option<
        TokenData,
    >)
        ensures
            final(self).is_enabled() == old(self).is_enabled(),
            final(self)@.dom() == old(self)@.dom(),
            forall|t: Seq<char>|
                t != token@ && old(self)@.contains_key(t) ==> final(self)@[t] == old(self)@[t],
            match data {
                Some(d) => old(self)@.contains_key(token@) && final(self)@[token@]@ == d@ && d@ == (
                TokenShape {
                    token: token@,
                    permissions: payload.permissions,
                    user: text_of(payload.user),
                    description: text_of(payload.description),
                    allowed_indexes: texts_of(payload.allowed_indexes),
                }),
                None => !old(self)@.contains_key(token@) && final(self)@ == old(self)@,
            },
    {
        if !self.tokens.contains(token) {
            return None;
        }
        let owned = token.to_owned();
        let data = self.create_token(owned, payload);
        assert(final(self)@.dom() =~= old(self)@.dom());
        Some(data)
    }

    /// Ends the life of `token`.
    pub fn revoke_token(&mut self, token: &str)
        ensures
            final(self).is_enabled() == old(self).is_enabled(),
            final(self)@ == old(self)@.remove(token@),
    {
        proof {
            use_type_invariant(&*self);
        }
        let mut holder = AuthManager { enabled: false, tokens: NameMap::new() };
        std::mem::swap(&mut holder, self);
        let enabled = holder.enabled;
        let mut tokens = holder.tokens;
        tokens.remove(token);
        *self = AuthManager { enabled, tokens };
    }

    /// Ends the life of every token, the super user key included.
    pub fn revoke_all_tokens(&mut self)
        ensures
            final(self).is_enabled() == old(self).is_enabled(),
            final(self)@ == Map::<Seq<char>, TokenData>::empty(),
    {
        let enabled = self.enabled;
        *self = AuthManager { enabled, tokens: NameMap::new() };
    }
}

/// The permission a request path asks for, read off the route table:
/// everything under `/auth` needs [`MODIFY_AUTH`]; `/indexes` itself needs
/// [`MODIFY_ENGINE`]; below `/indexes/`, paths ending in `/search` need
/// [`SEARCH_INDEX`], paths ending in `/stopwords` need [`MODIFY_STOP_WORDS`]
/// and all others need [`MODIFY_DOCUMENTS`].  No other path is a route.
pub open spec fn route_permission(path: Seq<char>) -> Option<usize> {
    if "/auth"@.is_prefix_of(path) {
        Some(MODIFY_AUTH)
    } else if path == "/indexes"@ {
        Some(MODIFY_ENGINE)
    } else if "/indexes/"@.is_prefix_of(path) {
        if path.len() >= "/indexes/"@.len() + "/search"@.len() && "/search"@.is_suffix_of(path) {
            Some(SEARCH_INDEX)
        } else if path.len() >= "/indexes/"@.len() + "/stopwords"@.len() && "/stopwords"@.is_suffix_of(
            path,
        ) {
            Some(MODIFY_STOP_WORDS)
        } else {
            Some(MODIFY_DOCUMENTS)
        }
    } else {
        None
    }
}

/// The permission the route at `path` asks for, or `None` where `path` is no route.
pub fn required_permission(path: &str) -> (required: Option<usize>)
    ensures
        required == route_permission(path@),
{
    let p = chars_of(path);
    let auth = chars_of("/auth");
    let indexes = chars_of("/indexes");
    let below = chars_of("/indexes/");
    let search = chars_of("/search");
    let stopwords = chars_of("/stopwords");
    if starts_with(&p, &auth) {
        Some(MODIFY_AUTH)
    } else if same_text(path, "/indexes") {
        Some(MODIFY_ENGINE)
    } else if starts_with(&p, &below) {
        if below.len() <= p.len() && search.len() <= p.len() - below.len() && ends_with(&p, &search) {
            Some(SEARCH_INDEX)
        } else if below.len() <= p.len() && stopwords.len() <= p.len() - below.len() && ends_with(
            &p,
            &stopwords,
        ) {
            Some(MODIFY_STOP_WORDS)
        } else {
            Some(MODIFY_DOCUMENTS)
        }
    } else {
        None
    }
}

/// The `Authorization` header of a request as the transport hands it over.
#[derive(Debug)]
pub enum AuthorizationHeader {
    /// The request has no such header.
    Missing,
    /// The header is present but is not text.
    Unreadable,
    /// The header's text.
    Token(String),
}

/// What becomes of a request at the permission check.
#[derive(Clone, Copy, Debug, PartialEq, Eq, Structural)]
pub enum Verdict {
    /// The request proceeds.
    Allowed,
    /// 401: the request carries no `Authorization` header.
    MissingHeader,
    /// 400: the header cannot be read as a token.
    UnreadableToken,
    /// 401: the token is not live.
    UnknownToken,
    /// 404: the path is no route.
    UnknownRoute,
    /// 401: the token lacks the permission the route asks for.
    LacksPermission,
}

impl Verdict {
    /// The HTTP status code that reports the verdict.
    pub fn status(&self) -> (code: u16)
        ensures
            code == match *self {
                Verdict::Allowed => 200u16,
                Verdict::UnreadableToken => 400u16,
                Verdict::UnknownRoute => 404u16,
                _ => 401u16,
            },
    {
        match self {
            Verdict::Allowed => 200,
            Verdict::UnreadableToken => 400,
            Verdict::UnknownRoute => 404,
            _ => 401,
        }
    }
}

/// The verdict on a request, as a function of the live tokens, the header and the path.
pub open spec fn verdict_for(
    enabled: bool,
    tokens: Map<Seq<char>, TokenData>,
    header: AuthorizationHeader,
    path: Seq<char>,
) -> Verdict {
    if !enabled {
        Verdict::Allowed
    } else {
        match header {
            AuthorizationHeader::Missing => Verdict::MissingHeader,
            AuthorizationHeader::Unreadable => Verdict::UnreadableToken,
            AuthorizationHeader::Token(token) => if !tokens.contains_key(token@) {
                Verdict::UnknownToken
            } else {
                match route_permission(path) {
                    None => Verdict::UnknownRoute,
                    Some(required) => if covers(tokens[token@].permissions, required) {
                        Verdict::Allowed
                    } else {
                        Verdict::LacksPermission
                    },
                }
            },
        }
    }
}

/// Decides whether a request for `path` carrying `header` may proceed.
///
/// With authorisation switched off every request proceeds.  Otherwise the
/// header must name a live token, the path must be a route, and the token
/// must carry the permission the route asks for.
pub fn check_permissions(auth: &AuthManager, header: &AuthorizationHeader, path: &str) -> (verdict:
    Verdict)
    ensures
        verdict == verdict_for(auth.is_enabled(), auth@, *header, path@),
{
    if !auth.enabled() {
        return Verdict::Allowed;
    }
    let token = match header {
        AuthorizationHeader::Missing => {
            return Verdict::MissingHeader;
        },
        AuthorizationHeader::Unreadable => {
            return Verdict::UnreadableToken;
        },
        AuthorizationHeader::Token(token) => token,
    };
    let data = match auth.get_token_data(token.as_str()) {
        None => {
            return Verdict::UnknownToken;
        },
        Some(data) => data,
    };
    match required_permission(path) {
        None => Verdict::UnknownRoute,
        Some(required) => if data.has_permissions(required) {
            Verdict::Allowed
        } else {
            Verdict::LacksPermission
        },
    }
}

/// A response body that carries one line of detail.
#[derive(Debug)]
pub struct Detailed {
    pub detail: String,
}

impl Detailed {
    /// A body whose detail is `detail`.
    pub fn from(detail: &str) -> (body: Detailed)
        ensures
            body.detail@ == detail@,
    {
        Detailed { detail: detail.to_owned() }
    }
}

/// The outcome of a request to create a token.
#[derive(Debug)]
pub enum CreateTokenResponse {
    /// 200: the token was created.
    Created(TokenData),
    /// 422: the payload could not be read.
    DeserializationError,
    /// 401: the caller lacks the permission.
    Unauthorized,
    /// 400: the request is missing a required element.
    BadRequest,
}

/// The outcome of a request to revoke tokens.
#[derive(Debug)]
pub enum RevokeTokenResponse {
    /// 200: the tokens were revoked.
    Revoked(Detailed),
    /// 401: the caller lacks the permission.
    Unauthorized,
    /// 400: the request is missing a required element.
    BadRequest,
}

/// The token routes.
pub struct AuthApi;

impl AuthApi {
    /// Creates a token named `token` with the payload's metadata.
    pub fn create_token(
        &self,
        auth: &mut AuthManager,
        token: String,
        payload: CreateTokenPayload,
    ) -> (response: CreateTokenResponse)
        ensures
            final(auth).is_enabled() == old(auth).is_enabled(),
            final(auth)@.dom() == old(auth)@.dom().insert(token@),
            forall|t: Seq<char>|
                t != token@ && old(auth)@.contains_key(t) ==> final(auth)@[t] == old(auth)@[t],
            response matches CreateTokenResponse::Created(data) && final(auth)@[token@]@ == data@
                && data@ == (TokenShape {
                token: token@,
                permissions: payload.permissions,
                user: text_of(payload.user),
                description: text_of(payload.description),
                allowed_indexes: texts_of(payload.allowed_indexes),
            }),
    {
        CreateTokenResponse::Created(auth.create_token(token, payload))
    }

    /// Revokes every token, the super user key included.
    pub fn revoke_all_tokens(&self, auth: &mut AuthManager) -> (response: RevokeTokenResponse)
        ensures
            final(auth).is_enabled() == old(auth).is_enabled(),
            final(auth)@ == Map::<Seq<char>, TokenData>::empty(),
            response matches RevokeTokenResponse::Revoked(body) && body.detail@
                == "Successfully revoked all tokens"@,
    {
        auth.revoke_all_tokens();
        RevokeTokenResponse::Revoked(Detailed::from("Successfully revoked all tokens"))
    }

    /// Revokes `token`; requests that carry it are rejected from then on.
    pub fn revoke_token(&self, auth: &mut AuthManager, token: &str) -> (response:
        RevokeTokenResponse)
        ensures
            final(auth).is_enabled() == old(auth).is_enabled(),
            final(auth)@ == old(auth)@.remove(token@),
            response matches RevokeTokenResponse::Revoked(body) && body.detail@
                == "Successfully revoked token"@,
    {
        auth.revoke_token(token);
        RevokeTokenResponse::Revoked(Detailed::from("Successfully revoked token"))
    }
}

/// A status code with one line of text.
#[derive(Debug)]
pub struct PlainReply {
    pub status: u16,
    pub message: String,
}

/// Revokes every token and reports it.
pub fn revoke_all_tokens(auth: &mut AuthManager) -> (reply: PlainReply)
    ensures
        final(auth).is_enabled() == old(auth).is_enabled(),
        final(auth)@ == Map::<Seq<char>, TokenData>::empty(),
        reply.status == 200,
        reply.message@ == "token revoked."@,
{
    auth.revoke_all_tokens();
    PlainReply { status: 200, message: "token revoked.".to_owned() }
}

/// The outcome of a request to edit a token.
#[derive(Debug)]
pub enum EditTokenReply {
    /// 200: the token now carries this data.
    Updated(TokenData),
    /// 400: the request names no token.
    MissingToken,
    /// 400: the named token is not live.
    UnknownToken,
}

/// Replaces the metadata of the token a request names.
pub fn edit_token(auth: &mut AuthManager, token: Option<&str>, payload: CreateTokenPayload) -> (reply:
    EditTokenReply)
    ensures
        final(auth).is_enabled() == old(auth).is_enabled(),
        final(auth)@.dom() == old(auth)@.dom(),
        match token {
            None => reply is MissingToken && final(auth)@ == old(auth)@,
            Some(name) => {
                &&& forall|t: Seq<char>|
                    t != name@ && old(auth)@.contains_key(t) ==> final(auth)@[t] == old(auth)@[t]
                &&& match reply {
                    EditTokenReply::Updated(data) => old(auth)@.contains_key(name@) && final(auth)@[name@]@ == data@ && data@ == (TokenShape {
                        token: name@,
                        permissions: payload.permissions,
                        user: text_of(payload.user),
                        description: text_of(payload.description),
                        allowed_indexes: texts_of(payload.allowed_indexes),
                    }),
                    EditTokenReply::UnknownToken => !old(auth)@.contains_key(name@) && final(auth)@
                        == old(auth)@,
                    EditTokenReply::MissingToken => false,
                }
            },
        },
{
    match token {
        None => EditTokenReply::MissingToken,
        Some(name) => match auth.update_token(name, payload) {
            Some(data) => EditTokenReply::Updated(data),
            None => EditTokenReply::UnknownToken,
        },
    }
}

} // verus!
