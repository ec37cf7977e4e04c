//! Signing users in: the primary key a user is stored under, and the
//! answers and errors of a login session.
use vstd::prelude::*;

use crate::text::push_char;

verus! {

/// The lowercase mapping of `str::to_lowercase` (Unicode's full case mapping).
pub uninterp spec fn lowercase(s: Seq<char>) -> Seq<char>;

/// Lowercases a string (`str::to_lowercase`).
#[verifier::external_body]
fn to_lowercase(s: &str) -> (r: String)
    ensures
        r@ == lowercase(s@),
{
    s.to_lowercase()
}

/// The `Debug` form of a string: quoted, with special characters escaped.
pub uninterp spec fn debug_text(s: Seq<char>) -> Seq<char>;

/// Renders a string as `{:?}` does.
#[verifier::external_body]
pub(crate) fn to_debug_text(s: &str) -> (r: String)
    ensures
        r@ == debug_text(s@),
{
    format!("{:?}", s)
}

/// How one character is written in a key: `-`, `.`, `@` and `_` become
/// `-s-`, `-d-`, `-at-` and `-u-`; every other character stays.
pub open spec fn escape_char(c: char) -> Seq<char> {
    if c == '-' {
        seq!['-', 's', '-']
    } else if c == '.' {
        seq!['-', 'd', '-']
    } else if c == '@' {
        seq!['-', 'a', 't', '-']
    } else if c == '_' {
        seq!['-', 'u', '-']
    } else {
        seq![c]
    }
}

/// A text with every character escaped.
pub open spec fn escape(s: Seq<char>) -> Seq<char>
    decreases s.len(),
{
    if s.len() == 0 {
        Seq::empty()
    } else {
        escape(s.drop_last()) + escape_char(s.last())
    }
}

/// A text as it appears in a key: lowercased, then escaped (the replacements
/// of `-`, `.`, `@`, `_` in turn, which never touch each other's output).
pub open spec fn encode(s: Seq<char>) -> Seq<char> {
    escape(lowercase(s))
}

/// Escapes a text for a key (the replacements that follow lowercasing).
pub fn escape_text(s: &str) -> (r: String)
    ensures
        r@ == escape(s@),
{
    let n = s.unicode_len();
    let mut out = String::new();
    let mut i: usize = 0;
    while i < n
        invariant
            n == s@.len(),
            i <= n,
            out@ == escape(s@.take(i as int)),
        decreases n - i,
    {
        let c = s.get_char(i);
        proof {
            assert(s@.take(i + 1).drop_last() =~= s@.take(i as int));
            assert(s@.take(i + 1).last() == c);
        }
        if c == '-' {
            out.append("-s-");
        } else if c == '.' {
            out.append("-d-");
        } else if c == '@' {
            out.append("-at-");
        } else if c == '_' {
            out.append("-u-");
        } else {
            push_char(&mut out, c);
        }
        proof {
            reveal_strlit("-s-");
            reveal_strlit("-d-");
            reveal_strlit("-at-");
            reveal_strlit("-u-");
            assert(out@ =~= escape(s@.take(i as int)) + escape_char(c));
        }
        i = i + 1;
    }
    assert(s@.take(n as int) =~= s@);
    out
}

fn encode_text(s: &str) -> (r: String)
    ensures
        r@ == encode(s@),
{
    let lower = to_lowercase(s);
    escape_text(lower.as_str())
}

/// The claims of a signed-in user's token.
#[derive(Clone, Debug, PartialEq, Eq)]
pub struct UserAuthPayload {
    /// User primary id
    id: Option<String>,
    /// User e-mail address
    email: String,
    /// User name
    name: Option<String>,
    /// Preferred user name
    username: String,
    /// User roles
    roles: String,
}

/// The view of an optional text.
pub open spec fn opt_view(s: Option<String>) -> Option<Seq<char>> {
    match s {
        Some(t) => Some(t@),
        None => None,
    }
}

/// The `Debug` form of an optional text: `None`, or `Some(..)` around the
/// text's own form.
pub open spec fn opt_debug_text(s: Option<Seq<char>>) -> Seq<char> {
    match s {
        Some(t) => "Some("@ + debug_text(t) + ")"@,
        None => "None"@,
    }
}

/// The `Debug` form of a payload: its name, then each field's name and form.
pub open spec fn payload_debug_text(
    id: Option<Seq<char>>,
    email: Seq<char>,
    name: Option<Seq<char>>,
    username: Seq<char>,
    roles: Seq<char>,
) -> Seq<char> {
    "UserAuthPayload { id: "@ + opt_debug_text(id) + ", email: "@ + debug_text(email) + ", name: "@
        + opt_debug_text(name) + ", username: "@ + debug_text(username) + ", roles: "@ + debug_text(roles) + " }"@
}

fn opt_debug_form(s: &Option<String>) -> (r: String)
    ensures
        r@ == opt_debug_text(opt_view(*s)),
{
    match s {
        Some(t) => {
            let mut out = String::from_str("Some(");
            let q = to_debug_text(t.as_str());
            out.append(q.as_str());
            out.append(")");
            proof {
                reveal_strlit("Some(");
                reveal_strlit(")");
            }
            out
        },
        None => String::from_str("None"),
    }
}

/// Why no primary key could be made for a payload: it has no user name, no
/// e-mail address that parses and no id.
#[derive(Clone, Debug, PartialEq, Eq)]
pub struct PrimaryKeyError {
    /// The payload's `Debug` form.
    pub payload: String,
}

impl PrimaryKeyError {
    /// The error's message (its `Display`).
    pub fn message(&self) -> (r: String)
        ensures
            r@ == "failed to parse primary key: "@ + self.payload@,
    {
        let mut s = String::from_str("failed to parse primary key: ");
        s.append(self.payload.as_str());
        s
    }
}

/// The prefix and encoded text of a key.
pub open spec fn key_with(prefix: Seq<char>, s: Seq<char>) -> Seq<char> {
    prefix + encode(s)
}

impl UserAuthPayload {
    pub fn new(id: Option<String>, email: String, name: Option<String>, username: String, roles: String) -> (r: UserAuthPayload)
        ensures
            r.id_view() == opt_view(id),
            r.email_view() == email@,
            r.name_view() == opt_view(name),
            r.username_view() == username@,
            r.roles_view() == roles@,
    {
        UserAuthPayload { id, email, name, username, roles }
    }

    pub closed spec fn name_view(&self) -> Option<Seq<char>> {
        opt_view(self.name)
    }

    pub closed spec fn roles_view(&self) -> Seq<char> {
        self.roles@
    }

    /// The payload's `Debug` form, as `{:?}` writes it.
    pub open spec fn debug_view(&self) -> Seq<char> {
        payload_debug_text(self.id_view(), self.email_view(), self.name_view(), self.username_view(), self.roles_view())
    }

    /// Writes the payload's `Debug` form.
    pub fn debug_form(&self) -> (r: String)
        ensures
            r@ == self.debug_view(),
    {
        let mut out = String::from_str("UserAuthPayload { id: ");
        let id = opt_debug_form(&self.id);
        out.append(id.as_str());
        out.append(", email: ");
        let email = to_debug_text(self.email.as_str());
        out.append(email.as_str());
        out.append(", name: ");
        let name = opt_debug_form(&self.name);
        out.append(name.as_str());
        out.append(", username: ");
        let username = to_debug_text(self.username.as_str());
        out.append(username.as_str());
        out.append(", roles: ");
        let roles = to_debug_text(self.roles.as_str());
        out.append(roles.as_str());
        out.append(" }");
        proof {
            reveal_strlit("UserAuthPayload { id: ");
            reveal_strlit(", email: ");
            reveal_strlit(", name: ");
            reveal_strlit(", username: ");
            reveal_strlit(", roles: ");
            reveal_strlit(" }");
        }
        out
    }

    pub closed spec fn id_view(&self) -> Option<Seq<char>> {
        opt_view(self.id)
    }

    pub closed spec fn email_view(&self) -> Seq<char> {
        self.email@
    }

    pub closed spec fn username_view(&self) -> Seq<char> {
        self.username@
    }

    pub fn email(&self) -> (r: &str)
        ensures
            r@ == self.email_view(),
    {
        self.email.as_str()
    }

    /// The key a user is stored under: `name-` and the preferred user name
    /// where there is one, else `email-` and the e-mail address where it
    /// parses (`parsed_email`, its normalised form), else `id-` and the id;
    /// each encoded.  Without any of them the error carries the payload.
    pub fn primary_key(&self, parsed_email: Option<&str>) -> (r: Result<String, PrimaryKeyError>)
        ensures
            match r {
                Ok(key) => if self.username_view().len() > 0 {
                    key@ == key_with("name-"@, self.username_view())
                } else if parsed_email is Some {
                    key@ == key_with("email-"@, parsed_email.unwrap()@)
                } else {
                    self.id_view() is Some && key@ == key_with("id-"@, self.id_view().unwrap())
                },
                Err(e) => {
                    &&& e.payload@ == self.debug_view()
                    &&& self.username_view().len() == 0
                    &&& parsed_email is None
                    &&& self.id_view() is None
                },
            },
    {
        if self.username.as_str().unicode_len() > 0 {
            let mut key = String::from_str("name-");
            let encoded = encode_text(self.username.as_str());
            key.append(encoded.as_str());
            return Ok(key);
        }
        match parsed_email {
            Some(email) => {
                let mut key = String::from_str("email-");
                let encoded = encode_text(email);
                key.append(encoded.as_str());
                Ok(key)
            },
            None => match &self.id {
                Some(id) => {
                    let mut key = String::from_str("id-");
                    let encoded = encode_text(id.as_str());
                    key.append(encoded.as_str());
                    Ok(key)
                },
                None => Err(PrimaryKeyError { payload: self.debug_form() }),
            },
        }
    }
}

/// Escaping never merges two texts: what comes out tells what went in.
pub proof fn law_escape_injective(a: Seq<char>, b: Seq<char>)
    requires
        escape(a) == escape(b),
    ensures
        a == b,
    decreases a.len() + b.len(),
{
    if a.len() == 0 && b.len() == 0 {
        assert(a =~= b);
    } else if a.len() == 0 {
        assert(escape_char(b.last()).len() > 0);
        assert(escape(b).len() > 0);
    } else if b.len() == 0 {
        assert(escape_char(a.last()).len() > 0);
        assert(escape(a).len() > 0);
    } else {
        let x = escape(a);
        let ea = escape_char(a.last());
        let eb = escape_char(b.last());
        let pa = escape(a.drop_last());
        let pb = escape(b.drop_last());
        assert(x == pa + ea);
        assert(x == pb + eb);
        assert(x.last() == ea.last());
        assert(x.last() == eb.last());
        if ea.len() >= 3 && eb.len() >= 3 {
            assert(x[x.len() - 2] == ea[ea.len() - 2]);
            assert(x[x.len() - 2] == eb[eb.len() - 2]);
        }
        assert(a.last() == b.last());
        assert(ea == eb);
        assert(pa =~= x.subrange(0, x.len() - ea.len()));
        assert(pb =~= x.subrange(0, x.len() - eb.len()));
        law_escape_injective(a.drop_last(), b.drop_last());
        assert(a =~= a.drop_last().push(a.last()));
        assert(b =~= b.drop_last().push(b.last()));
    }
}

/// Keys of different kinds never meet, and keys of one kind are equal only
/// for texts that lowercase alike.
pub proof fn law_primary_keys_distinct(a: Seq<char>, b: Seq<char>)
    ensures
        key_with("name-"@, a) != key_with("email-"@, b),
        key_with("name-"@, a) != key_with("id-"@, b),
        key_with("email-"@, a) != key_with("id-"@, b),
        key_with("name-"@, a) == key_with("name-"@, b) ==> lowercase(a) == lowercase(b),
        key_with("email-"@, a) == key_with("email-"@, b) ==> lowercase(a) == lowercase(b),
        key_with("id-"@, a) == key_with("id-"@, b) ==> lowercase(a) == lowercase(b),
{
    reveal_strlit("name-");
    reveal_strlit("email-");
    reveal_strlit("id-");
    assert(key_with("name-"@, a)[0] == 'n');
    assert(key_with("email-"@, b)[0] == 'e');
    assert(key_with("id-"@, b)[0] == 'i');
    assert(key_with("email-"@, a)[0] == 'e');
    if key_with("name-"@, a) == key_with("name-"@, b) {
        assert(encode(a) =~= key_with("name-"@, a).subrange(5, key_with("name-"@, a).len() as int));
        assert(encode(b) =~= key_with("name-"@, b).subrange(5, key_with("name-"@, b).len() as int));
        law_escape_injective(lowercase(a), lowercase(b));
    }
    if key_with("email-"@, a) == key_with("email-"@, b) {
        assert(encode(a) =~= key_with("email-"@, a).subrange(6, key_with("email-"@, a).len() as int));
        assert(encode(b) =~= key_with("email-"@, b).subrange(6, key_with("email-"@, b).len() as int));
        law_escape_injective(lowercase(a), lowercase(b));
    }
    if key_with("id-"@, a) == key_with("id-"@, b) {
        assert(encode(a) =~= key_with("id-"@, a).subrange(3, key_with("id-"@, a).len() as int));
        assert(encode(b) =~= key_with("id-"@, b).subrange(3, key_with("id-"@, b).len() as int));
        law_escape_injective(lowercase(a), lowercase(b));
    }
}

/// The OAuth 2.0 client of an identity provider.
#[derive(Clone, Debug, PartialEq, Eq)]
pub struct UserAuthOAuth2Common {
    pub client_id: String,
    pub client_secret: String,
}

/// The query of a login from a box.
#[derive(Copy, Clone, Debug, PartialEq, Eq)]
pub struct UserAuthLoginQuery {
    /// The box's uuid.
    pub box_uuid: u128,
}

/// Why a user could not be authenticated.
#[derive(Clone, Debug, PartialEq, Eq, Structural)]
pub enum UserAuthError {
    AuthorizationTokenMalformed,
    AuthorizationTokenNotFound,
    NamespaceNotAllowed,
    NamespaceTokenMalformed,
    PrimaryKeyMalformed,
    UserNotAdmin,
    UserNotRegistered,
    SessionNotBinded,
}

/// The message of an authentication error.
pub open spec fn auth_error_message(e: UserAuthError) -> Seq<char> {
    match e {
        UserAuthError::AuthorizationTokenMalformed => "Malformed authorization token. Please contact the administrator."@,
        UserAuthError::AuthorizationTokenNotFound => "Missing authorization token. Please contact the administrator."@,
        UserAuthError::NamespaceNotAllowed => "This user has no permission to sign in. Please contact the administrator."@,
        UserAuthError::NamespaceTokenMalformed => "Missing namespace token. Please contact the administrator."@,
        UserAuthError::PrimaryKeyMalformed => "Malformed primary key. Please contact the administrator."@,
        UserAuthError::UserNotAdmin => "This user is not an admin. Please contact the administrator."@,
        UserAuthError::UserNotRegistered => "This user is not registered. Please contact the administrator."@,
        UserAuthError::SessionNotBinded => "This user has no available vine sessions. Please contact the administrator."@,
    }
}

impl UserAuthError {
    /// The error's message (its `Display`).
    pub fn message(&self) -> (r: String)
        ensures
            r@ == auth_error_message(*self),
    {
        match self {
            UserAuthError::AuthorizationTokenMalformed => String::from_str("Malformed authorization token. Please contact the administrator."),
            UserAuthError::AuthorizationTokenNotFound => String::from_str("Missing authorization token. Please contact the administrator."),
            UserAuthError::NamespaceNotAllowed => String::from_str("This user has no permission to sign in. Please contact the administrator."),
            UserAuthError::NamespaceTokenMalformed => String::from_str("Missing namespace token. Please contact the administrator."),
            UserAuthError::PrimaryKeyMalformed => String::from_str("Malformed primary key. Please contact the administrator."),
            UserAuthError::UserNotAdmin => String::from_str("This user is not an admin. Please contact the administrator."),
            UserAuthError::UserNotRegistered => String::from_str("This user is not registered. Please contact the administrator."),
            UserAuthError::SessionNotBinded => String::from_str("This user has no available vine sessions. Please contact the administrator."),
        }
    }
}

/// Why a login session could not be opened.
#[derive(Clone, Debug, PartialEq, Eq)]
pub enum UserSessionError {
    AlreadyLoggedInByNode { node_name: String },
    AlreadyLoggedInByUser { user_name: String },
    AuthError(UserAuthError),
    NodeNotFound,
    NodeNotInCluster,
    NodeReserved,
    QuotaMismatched,
}

/// The message of a session error.
pub open spec fn session_error_message(e: UserSessionError) -> Seq<char> {
    match e {
        UserSessionError::AlreadyLoggedInByNode { node_name } => "This user is already logged in to "@ + debug_text(node_name@),
        UserSessionError::AlreadyLoggedInByUser { user_name } => "This node is already logged in by "@ + debug_text(user_name@),
        UserSessionError::AuthError(e) => auth_error_message(e),
        UserSessionError::NodeNotFound => "This node is not registered. Please contact the administrator."@,
        UserSessionError::NodeNotInCluster => "This node is not permitted. Please contact the administrator."@,
        UserSessionError::NodeReserved => "This node is reserved to other user."@,
        UserSessionError::QuotaMismatched => "This node does not meet quota requirements. Please contact the administrator."@,
    }
}

impl UserSessionError {
    /// The error's message (its `Display`).
    pub fn message(&self) -> (r: String)
        ensures
            r@ == session_error_message(*self),
    {
        match self {
            UserSessionError::AlreadyLoggedInByNode { node_name } => {
                let mut s = String::from_str("This user is already logged in to ");
                let q = to_debug_text(node_name.as_str());
                s.append(q.as_str());
                s
            },
            UserSessionError::AlreadyLoggedInByUser { user_name } => {
                let mut s = String::from_str("This node is already logged in by ");
                let q = to_debug_text(user_name.as_str());
                s.append(q.as_str());
                s
            },
            UserSessionError::AuthError(e) => e.message(),
            UserSessionError::NodeNotFound => String::from_str("This node is not registered. Please contact the administrator."),
            UserSessionError::NodeNotInCluster => String::from_str("This node is not permitted. Please contact the administrator."),
            UserSessionError::NodeReserved => String::from_str("This node is reserved to other user."),
            UserSessionError::QuotaMismatched => String::from_str("This node does not meet quota requirements. Please contact the administrator."),
        }
    }
}

impl From<UserAuthError> for UserSessionError {
    fn from(error: UserAuthError) -> (r: UserSessionError) {
        UserSessionError::AuthError(error)
    }
}

impl vstd::std_specs::convert::FromSpecImpl<UserAuthError> for UserSessionError {
    open spec fn obeys_from_spec() -> bool {
        true
    }

    open spec fn from_spec(v: UserAuthError) -> UserSessionError {
        UserSessionError::AuthError(v)
    }
}

/// The answer to a login: the user and its box quota, or why not.
#[derive(Clone, Debug, PartialEq, Eq)]
pub enum UserSessionResponse<BoxQuota, User> {
    Accept { box_quota: BoxQuota, user: User },
    Error(UserSessionError),
}

impl<BoxQuota, User> From<UserAuthError> for UserSessionResponse<BoxQuota, User> {
    fn from(error: UserAuthError) -> (r: UserSessionResponse<BoxQuota, User>) {
        UserSessionResponse::Error(UserSessionError::AuthError(error))
    }
}

impl<BoxQuota, User> vstd::std_specs::convert::FromSpecImpl<UserAuthError> for UserSessionResponse<BoxQuota, User> {
    open spec fn obeys_from_spec() -> bool {
        true
    }

    open spec fn from_spec(v: UserAuthError) -> UserSessionResponse<BoxQuota, User> {
        UserSessionResponse::Error(UserSessionError::AuthError(v))
    }
}

} // verus!
