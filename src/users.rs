use vstd::prelude::*;
use crate::error::EngineError;
use crate::identifier::Identifier;
use crate::permissions::{allows, check, same_permissions, Operation, Permissions};
use crate::metadata::{EntryCommand, MetadataEntry, MetadataLog};
use crate::session::{has_client, rebind, without_user, ClientManager, Session};
use vstd::utf8::encode_utf8;
use vstd::string::{StrSliceExecFns, StringExecFns};

verus! {

pub const ROOT_USER_ID: u32 = 1;
pub const MAX_USERS: usize = 4294967295;
pub const MIN_USERNAME_LENGTH: usize = 3;
pub const MAX_USERNAME_LENGTH: usize = 50;
pub const MIN_PASSWORD_LENGTH: usize = 3;
pub const MAX_PASSWORD_LENGTH: usize = 100;

/// Whether a user may log in.
#[derive(Clone, Copy, Debug, PartialEq, Eq, Structural)]
pub enum UserStatus {
    Active,
    Inactive,
}

/// A registered user. `password` holds the credential exactly as given at
/// creation; login and password changes compare against it byte for byte, so
/// a caller that hashes must use a deterministic hash on every call.
#[derive(Debug)]
pub struct User {
    pub id: u32,
    pub username: String,
    pub password: String,
    pub status: UserStatus,
    pub permissions: Option<Permissions>,
}

impl User {
    pub fn is_root(&self) -> (r: bool)
        ensures
            r == (self.id == ROOT_USER_ID),
    {
        self.id == ROOT_USER_ID
    }

    pub fn is_active(&self) -> (r: bool)
        ensures
            r == (self.status == UserStatus::Active),
    {
        self.status == UserStatus::Active
    }
}

/// Case folding of a name, as `str::to_lowercase` does it.
pub uninterp spec fn lowercase_of(s: Seq<char>) -> Seq<char>;

/// Relies on str::to_lowercase: the folded text depends on the characters alone.
#[verifier::external_body]
pub(crate) fn to_lowercase(s: &str) -> (r: String)
    ensures
        r@ == lowercase_of(s@),
{
    s.to_lowercase()
}

/// Unicode White_Space, the characters that `char::is_whitespace` accepts.
pub open spec fn is_white_space(c: char) -> bool {
    ('\u{9}' <= c && c <= '\u{d}') || c == ' ' || c == '\u{85}' || c == '\u{a0}' || c == '\u{1680}'
        || ('\u{2000}' <= c && c <= '\u{200a}') || c == '\u{2028}' || c == '\u{2029}' || c
        == '\u{202f}' || c == '\u{205f}' || c == '\u{3000}'
}

fn is_white_space_exec(c: char) -> (r: bool)
    ensures
        r == is_white_space(c),
{
    ('\u{9}' <= c && c <= '\u{d}') || c == ' ' || c == '\u{85}' || c == '\u{a0}' || c == '\u{1680}'
        || ('\u{2000}' <= c && c <= '\u{200a}') || c == '\u{2028}' || c == '\u{2029}' || c
        == '\u{202f}' || c == '\u{205f}' || c == '\u{3000}'
}

/// The words read so far joined by '_', and whether white space was seen
/// after the last word.
pub open spec fn squash_state(s: Seq<char>) -> (Seq<char>, bool)
    decreases s.len(),
{
    if s.len() == 0 {
        (Seq::empty(), false)
    } else {
        let (out, gap) = squash_state(s.drop_last());
        let c = s.last();
        if is_white_space(c) {
            (out, out.len() > 0)
        } else if gap {
            (out.push('_').push(c), false)
        } else {
            (out.push(c), false)
        }
    }
}

/// The white-space separated words of `s`, joined by '_'.
pub open spec fn squash_white_space(s: Seq<char>) -> Seq<char> {
    squash_state(s).0
}

/// A username as stored: case-folded, its words joined by '_'.
pub open spec fn normalized_username(s: Seq<char>) -> Seq<char> {
    squash_white_space(lowercase_of(s))
}

fn squash(s: &str) -> (r: String)
    ensures
        r@ == squash_white_space(s@),
{
    let n = s.unicode_len();
    let mut out = String::new();
    let mut gap = false;
    let mut i: usize = 0;
    while i < n
        invariant
            n == s@.len(),
            i <= n,
            (out@, gap) == squash_state(s@.take(i as int)),
        decreases n - i,
    {
        let c = s.get_char(i);
        proof {
            assert(s@.take(i + 1).drop_last() =~= s@.take(i as int));
            assert(s@.take(i + 1).last() == c);
        }
        if is_white_space_exec(c) {
            gap = out.as_str().unicode_len() > 0;
        } else {
            if gap {
                let sep = "_";
                proof {
                    reveal_strlit("_");
                }
                out.append(sep);
            }
            let one = s.substring_char(i, i + 1);
            proof {
                assert(one@ =~= seq![c]);
            }
            let ghost before = out@;
            out.append(one);
            proof {
                assert(out@ =~= before.push(c));
                assert(before.push('_') =~= before + seq!['_']);
            }
            gap = false;
        }
        i = i + 1;
    }
    proof {
        assert(s@.take(n as int) =~= s@);
    }
    out
}

/// Normalizes a username: case-folded, then its words joined by '_'.
fn normalize_name(s: &str) -> (r: String)
    ensures
        r@ == normalized_username(s@),
{
    let lowered = to_lowercase(s);
    squash(lowered.as_str())
}

/// Whether `u` is the user that `id` names.
pub open spec fn matches_identifier(u: User, id: Identifier) -> bool {
    match id {
        Identifier::Numeric(n) => u.id == n,
        Identifier::Named(s) => u.username@ == s@,
    }
}

pub open spec fn has_username(users: Seq<User>, name: Seq<char>) -> bool {
    exists|i: int| 0 <= i < users.len() && (#[trigger] users[i]).username@ == name
}

pub open spec fn has_user_id(users: Seq<User>, id: u32) -> bool {
    exists|i: int| 0 <= i < users.len() && (#[trigger] users[i]).id == id
}

pub open spec fn resolves(users: Seq<User>, id: Identifier) -> bool {
    exists|i: int| 0 <= i < users.len() && matches_identifier(#[trigger] users[i], id)
}

/// Whether user `user_id` exists and its permissions allow `op` on `stream_id`.
pub open spec fn user_allowed(users: Seq<User>, user_id: u32, op: Operation,
    stream_id: u32) -> bool {
    exists|i: int|
        0 <= i < users.len() && (#[trigger] users[i]).id == user_id && allows(
            users[i].permissions,
            op,
            stream_id,
        )
}

/// Ids and usernames unique; every id below the next one to hand out.
pub open spec fn users_wf(users: Seq<User>, next_user_id: u32) -> bool {
    &&& forall|i: int, j: int|
        0 <= i < users.len() && 0 <= j < users.len() && i != j ==> (#[trigger] users[i]).id
            != (#[trigger] users[j]).id && users[i].username@ != users[j].username@
    &&& forall|i: int| 0 <= i < users.len() ==> (#[trigger] users[i]).id < next_user_id
        && users[i].id != 0
    &&& next_user_id >= 1
}

/// `new` is `old` with one user added at the end, with the given fields.
pub open spec fn user_appended(
    old: Seq<User>,
    new: Seq<User>,
    id: u32,
    username: Seq<char>,
    password: Seq<char>,
    status: UserStatus,
    permissions: Option<Permissions>,
) -> bool {
    &&& new.len() == old.len() + 1
    &&& new.drop_last() == old
    &&& new.last().id == id
    &&& new.last().username@ == username
    &&& new.last().password@ == password
    &&& new.last().status == status
    &&& new.last().permissions == permissions
}

/// Removing any user other than the root one leaves the root user in place.
pub proof fn root_survives_removal(users: Seq<User>, removed_at: int)
    requires
        0 <= removed_at < users.len(),
        users[removed_at].id != ROOT_USER_ID,
        has_user_id(users, ROOT_USER_ID),
    ensures
        has_user_id(users.remove(removed_at), ROOT_USER_ID),
{
    let k = choose|k: int| 0 <= k < users.len() && (#[trigger] users[k]).id == ROOT_USER_ID;
    if k < removed_at {
        assert(users.remove(removed_at)[k].id == ROOT_USER_ID);
    } else {
        assert(users.remove(removed_at)[k - 1].id == ROOT_USER_ID);
    }
}

/// Creating a user and then deleting it leaves as many users as before.
pub proof fn create_then_delete_restores_count(
    before: Seq<User>,
    created: Seq<User>,
    after: Seq<User>,
    id: u32,
    username: Seq<char>,
    password: Seq<char>,
    status: UserStatus,
    permissions: Option<Permissions>,
    removed_at: int,
)
    requires
        user_appended(before, created, id, username, password, status, permissions),
        0 <= removed_at < created.len(),
        after == created.remove(removed_at),
    ensures
        after.len() == before.len(),
{
}


pub open spec fn resolved_index(users: Seq<User>, id: Identifier) -> int {
    choose|i: int| 0 <= i < users.len() && matches_identifier(users[i], id)
}

pub open spec fn user_index_by_name(users: Seq<User>, name: Seq<char>) -> int {
    choose|i: int| 0 <= i < users.len() && users[i].username@ == name
}

pub open spec fn fold_name(username: Option<String>) -> Option<Seq<char>> {
    match username {
        Some(n) => Some(normalized_username(n@)),
        None => None,
    }
}

/// A username of an accepted length, in bytes.
pub open spec fn valid_username(name: Seq<char>) -> bool {
    MIN_USERNAME_LENGTH <= byte_len(name) <= MAX_USERNAME_LENGTH
}

/// Why creating user `name` fails, if it does.
pub open spec fn create_user_error(
    users: Seq<User>,
    next_id: u32,
    caller: u32,
    name: Seq<char>,
) -> Option<EngineError> {
    if caller == 0 {
        Some(EngineError::NotAuthenticated)
    } else if !user_allowed(users, caller, Operation::CreateUser, 0) {
        Some(EngineError::PermissionDenied)
    } else if has_username(users, name) {
        Some(EngineError::UserAlreadyExists)
    } else if users.len() >= MAX_USERS || next_id == u32::MAX {
        Some(EngineError::UsersLimitReached)
    } else if !valid_username(name) {
        Some(EngineError::InvalidUsername)
    } else {
        None
    }
}

/// Why deleting the user that `id` names fails, if it does.
pub open spec fn delete_user_error(users: Seq<User>, caller: u32,
    id: Identifier) -> Option<EngineError> {
    if caller == 0 {
        Some(EngineError::NotAuthenticated)
    } else if !user_allowed(users, caller, Operation::DeleteUser, 0) {
        Some(EngineError::PermissionDenied)
    } else if !resolves(users, id) {
        Some(EngineError::ResourceNotFound)
    } else if users[resolved_index(users, id)].id == ROOT_USER_ID {
        Some(EngineError::CannotDeleteUser(ROOT_USER_ID))
    } else {
        None
    }
}

/// Why updating the user that `id` names fails, if it does.
pub open spec fn update_user_error(
    users: Seq<User>,
    caller: u32,
    id: Identifier,
    new_name: Option<Seq<char>>,
) -> Option<EngineError> {
    if caller == 0 {
        Some(EngineError::NotAuthenticated)
    } else if !user_allowed(users, caller, Operation::UpdateUser, 0) {
        Some(EngineError::PermissionDenied)
    } else if !resolves(users, id) {
        Some(EngineError::ResourceNotFound)
    } else if new_name matches Some(n) && !valid_username(n) {
        Some(EngineError::InvalidUsername)
    } else if new_name matches Some(n) && has_username(users, n) && user_index_by_name(users, n)
        != resolved_index(users, id) {
        Some(EngineError::UserAlreadyExists)
    } else {
        None
    }
}

/// Why changing the permissions of the user that `id` names fails, if it does.
pub open spec fn update_permissions_error(users: Seq<User>, caller: u32, id: Identifier) -> Option<
    EngineError,
> {
    if caller == 0 {
        Some(EngineError::NotAuthenticated)
    } else if !user_allowed(users, caller, Operation::UpdatePermissions, 0) {
        Some(EngineError::PermissionDenied)
    } else if !resolves(users, id) {
        Some(EngineError::ResourceNotFound)
    } else if users[resolved_index(users, id)].id == ROOT_USER_ID {
        Some(EngineError::CannotChangePermissions(ROOT_USER_ID))
    } else {
        None
    }
}

/// Why changing the password of the user that `id` names fails, if it does.
pub open spec fn change_password_error(
    users: Seq<User>,
    caller: u32,
    id: Identifier,
    current: Seq<char>,
) -> Option<EngineError> {
    if caller == 0 {
        Some(EngineError::NotAuthenticated)
    } else if !resolves(users, id) {
        Some(EngineError::ResourceNotFound)
    } else if users[resolved_index(users, id)].id != caller && !user_allowed(
        users,
        caller,
        Operation::ChangePassword,
        0,
    ) {
        Some(EngineError::PermissionDenied)
    } else if users[resolved_index(users, id)].password@ != current {
        Some(EngineError::InvalidCredentials)
    } else {
        None
    }
}

/// Why custom root credentials are refused.
#[derive(Clone, Copy, Debug, PartialEq, Eq, Structural)]
pub enum RootCredentialsError {
    OnlyOneProvided,
    Empty,
    UsernameTooShort,
    UsernameTooLong,
    PasswordTooShort,
    PasswordTooLong,
}

/// Length in bytes of the UTF-8 encoding, as `str::len` reports it.
pub open spec fn byte_len(s: Seq<char>) -> usize {
    encode_utf8(s).len() as usize
}

pub open spec fn default_root_username() -> Seq<char> {
    seq!['i', 'g', 'g', 'y']
}

pub open spec fn default_root_password() -> Seq<char> {
    seq!['i', 'g', 'g', 'y']
}

/// Why a root username and password are refused, if they are.
pub open spec fn root_credentials_error(username: Seq<char>, password: Seq<char>) -> Option<
    RootCredentialsError,
> {
    if username.len() == 0 || password.len() == 0 {
        Some(RootCredentialsError::Empty)
    } else if byte_len(username) < MIN_USERNAME_LENGTH {
        Some(RootCredentialsError::UsernameTooShort)
    } else if byte_len(username) > MAX_USERNAME_LENGTH {
        Some(RootCredentialsError::UsernameTooLong)
    } else if byte_len(password) < MIN_PASSWORD_LENGTH {
        Some(RootCredentialsError::PasswordTooShort)
    } else if byte_len(password) > MAX_PASSWORD_LENGTH {
        Some(RootCredentialsError::PasswordTooLong)
    } else {
        None
    }
}

pub open spec fn opt_view(s: Option<String>) -> Option<Seq<char>> {
    match s {
        Some(v) => Some(v@),
        None => None,
    }
}

/// The largest id among `users`, 0 for none.
pub open spec fn max_user_id(users: Seq<User>) -> u32
    decreases users.len(),
{
    if users.len() == 0 {
        0
    } else {
        let m = max_user_id(users.drop_last());
        if users.last().id > m {
            users.last().id
        } else {
            m
        }
    }
}

/// Why logging in as `username` fails, if it does: an unknown name and a
/// wrong password give the same error.
pub open spec fn credentials_error(users: Seq<User>, username: Seq<char>,
    password: Option<Seq<char>>) -> Option<
    EngineError,
> {
    if !has_username(users, username) {
        Some(EngineError::InvalidCredentials)
    } else if users[user_index_by_name(users, username)].status != UserStatus::Active {
        Some(EngineError::UserInactive)
    } else if password matches Some(p)
        && p != users[user_index_by_name(users, username)].password@ {
        Some(EngineError::InvalidCredentials)
    } else {
        None
    }
}

/// The client bindings once a session's earlier login is torn down.
pub open spec fn after_prior_logout(clients: Seq<crate::session::Client>, session: Session) -> Seq<
    crate::session::Client,
> {
    if session.user_id != 0 && session.client_id > 0 {
        rebind(clients, session.client_id, 0)
    } else {
        clients
    }
}

/// The root user from custom credentials, or from the defaults when neither
/// is given. Giving only one of the two is refused.
pub fn create_root_user(username: Option<String>, password: Option<String>) -> (r: Result<
    User,
    RootCredentialsError,
>)
    ensures
        username is Some != password is Some ==> r == Err::<User, RootCredentialsError>(
            RootCredentialsError::OnlyOneProvided,
        ),
        username is Some == password is Some ==> {
            let name = match opt_view(username) {
                Some(n) => n,
                None => default_root_username(),
            };
            let pass = match opt_view(password) {
                Some(p) => p,
                None => default_root_password(),
            };
            match root_credentials_error(name, pass) {
                Some(e) => r == Err::<User, RootCredentialsError>(e),
                None => r matches Ok(u) && u.id == ROOT_USER_ID && u.username@ == name
                    && u.password@ == pass && u.status == UserStatus::Active && (forall|
                    op: Operation,
                    stream_id: u32,
                | #[trigger] allows(u.permissions, op, stream_id)),
            }
        },
{
    let (name, pass) = match (username, password) {
        (Some(u), Some(p)) => (u, p),
        (None, None) => {
            let u = "iggy".to_owned();
            let p = "iggy".to_owned();
            proof {
                reveal_strlit("iggy");
                assert(u@ =~= default_root_username());
                assert(p@ =~= default_root_password());
            }
            (u, p)
        },
        _ => return Err(RootCredentialsError::OnlyOneProvided),
    };
    if name.as_str().is_empty() || pass.as_str().is_empty() {
        return Err(RootCredentialsError::Empty);
    }
    if name.as_str().len() < MIN_USERNAME_LENGTH {
        return Err(RootCredentialsError::UsernameTooShort);
    }
    if name.as_str().len() > MAX_USERNAME_LENGTH {
        return Err(RootCredentialsError::UsernameTooLong);
    }
    if pass.as_str().len() < MIN_PASSWORD_LENGTH {
        return Err(RootCredentialsError::PasswordTooShort);
    }
    if pass.as_str().len() > MAX_PASSWORD_LENGTH {
        return Err(RootCredentialsError::PasswordTooLong);
    }
    Ok(User {
        id: ROOT_USER_ID,
        username: name,
        password: pass,
        status: UserStatus::Active,
        permissions: Some(Permissions::root()),
    })
}

/// What a login leaves behind: on any error, the session and the client
/// bindings as they were; otherwise the earlier login torn down, and the
/// client and the session bound to the user.
pub open spec fn login_outcome(
    users: Seq<User>,
    clients: Seq<crate::session::Client>,
    session: Session,
    username: Seq<char>,
    password: Option<Seq<char>>,
    new_clients: Seq<crate::session::Client>,
    new_session: Session,
    r: Result<u32, EngineError>,
) -> bool {
    let user_id = users[user_index_by_name(users, username)].id;
    let cleared = after_prior_logout(clients, session);
    &&& new_session.client_id == session.client_id
    &&& match credentials_error(users, username, password) {
        Some(e) => r == Err::<u32, EngineError>(e) && new_clients == clients
            && new_session == session,
        None => if session.user_id != 0 && !has_user_id(users, session.user_id) {
            r == Err::<u32, EngineError>(EngineError::ResourceNotFound) && new_clients == clients
                && new_session == session
        } else if !has_client(clients, session.client_id) {
            r == Err::<u32, EngineError>(EngineError::ResourceNotFound) && new_clients == clients
                && new_session == session
        } else {
            r == Ok::<u32, EngineError>(user_id) && new_clients == rebind(
                cleared,
                session.client_id,
                user_id,
            ) && new_session.user_id == user_id
        },
    }
}

/// The users, the counter for new ids and the client bindings.
#[derive(Debug)]
pub struct System {
    users: Vec<User>,
    next_user_id: u32,
    client_manager: ClientManager,
}

impl System {
    pub closed spec fn users_seq(&self) -> Seq<User> {
        self.users@
    }

    pub closed spec fn next_id(&self) -> u32 {
        self.next_user_id
    }

    pub closed spec fn clients(&self) -> Seq<crate::session::Client> {
        self.client_manager@
    }

    pub closed spec fn groups(&self) -> Seq<crate::session::GroupMember> {
        self.client_manager.groups()
    }

    /// Records that client `client_id` joined group `group_id` of a topic.
    pub fn join_consumer_group(&mut self, client_id: u32, stream_id: u32, topic_id: u32, group_id: u32)
        ensures
            final(self).users_seq() == old(self).users_seq(),
            final(self).next_id() == old(self).next_id(),
            final(self).clients() == old(self).clients(),
            final(self).groups() == old(self).groups().push(
                crate::session::GroupMember { client_id, stream_id, topic_id, group_id },
            ),
    {
        self.client_manager.join_consumer_group(client_id, stream_id, topic_id, group_id);
    }

    /// The consumer-group memberships, in the order they were recorded.
    pub fn consumer_groups(&self) -> (r: &Vec<crate::session::GroupMember>)
        ensures
            r@ == self.groups(),
    {
        self.client_manager.consumer_groups()
    }

    /// Drops every membership in the consumer groups of a topic.
    pub fn delete_consumer_groups_for_topic(&mut self, stream_id: u32, topic_id: u32)
        ensures
            final(self).users_seq() == old(self).users_seq(),
            final(self).next_id() == old(self).next_id(),
            final(self).clients() == old(self).clients(),
            final(self).groups() == crate::session::without_topic_groups(
                old(self).groups(),
                stream_id,
                topic_id,
            ),
    {
        self.client_manager.delete_consumer_groups_for_topic(stream_id, topic_id);
    }

    pub open spec fn wf(&self) -> bool {
        users_wf(self.users_seq(), self.next_id())
    }

    /// An empty registry with no clients.
    pub fn new() -> (r: System)
        ensures
            r.wf(),
            r.users_seq().len() == 0,
            r.next_id() == 1,
            r.clients().len() == 0,
    {
        System { users: Vec::new(), next_user_id: 1, client_manager: ClientManager::new() }
    }

    /// Registers a connected client, not yet bound to a user.
    pub fn add_client(&mut self, client_id: u32)
        ensures
            final(self).clients() == old(self).clients().push(
                crate::session::Client { client_id, user_id: 0 },
            ),
            final(self).users_seq() == old(self).users_seq(),
            final(self).next_id() == old(self).next_id(),
    {
        self.client_manager.add_client(client_id);
    }

    /// The user that client `client_id` is bound to, if the client is known.
    pub fn client_user_id(&self, client_id: u32) -> (r: Option<u32>)
        ensures
            r == crate::session::binding_of(self.clients(), client_id),
    {
        self.client_manager.get_user_id(client_id)
    }

    /// The caller's user id, if the session is authenticated.
    pub fn ensure_authenticated(&self, session: &Session) -> (r: Result<u32, EngineError>)
        ensures
            session.user_id != 0 ==> r == Ok::<u32, EngineError>(session.user_id),
            session.user_id == 0 ==> r == Err::<u32, EngineError>(EngineError::NotAuthenticated),
    {
        if session.user_id == 0 {
            Err(EngineError::NotAuthenticated)
        } else {
            Ok(session.user_id)
        }
    }

    fn index_of_id(&self, id: u32) -> (r: Option<usize>)
        ensures
            r matches Some(i) ==> i < self.users@.len() && self.users@[i as int].id == id,
            r is None ==> !has_user_id(self.users@, id),
    {
        let mut i: usize = 0;
        while i < self.users.len()
            invariant
                i <= self.users@.len(),
                forall|j: int| 0 <= j < i ==> (#[trigger] self.users@[j]).id != id,
            decreases self.users@.len() - i,
        {
            if self.users[i].id == id {
                return Some(i);
            }
            i = i + 1;
        }
        None
    }

    fn index_of_username(&self, name: &String) -> (r: Option<usize>)
        ensures
            r matches Some(i) ==> i < self.users@.len() && self.users@[i as int].username@ == name@,
            r is None ==> !has_username(self.users@, name@),
    {
        let mut i: usize = 0;
        while i < self.users.len()
            invariant
                i <= self.users@.len(),
                forall|j: int| 0 <= j < i ==> (#[trigger] self.users@[j]).username@ != name@,
            decreases self.users@.len() - i,
        {
            if self.users[i].username == *name {
                return Some(i);
            }
            i = i + 1;
        }
        None
    }

    fn index_of(&self, user_id: &Identifier) -> (r: Option<usize>)
        ensures
            r matches Some(i) ==> i < self.users@.len() && matches_identifier(
                self.users@[i as int],
                *user_id,
            ),
            r is None ==> !resolves(self.users@, *user_id),
    {
        match user_id {
            Identifier::Numeric(n) => self.index_of_id(*n),
            Identifier::Named(s) => self.index_of_username(s),
        }
    }

    /// Checks that user `user_id` may perform `op` on `stream_id`.
    pub fn permit(&self, user_id: u32, op: Operation, stream_id: u32) -> (r: Result<(),
        EngineError>)
        requires
            self.wf(),
        ensures
            r is Ok <==> user_allowed(self.users_seq(), user_id, op, stream_id),
            r is Err ==> r == Err::<(), EngineError>(EngineError::PermissionDenied),
    {
        match self.index_of_id(user_id) {
            None => Err(EngineError::PermissionDenied),
            Some(i) => {
                let r = check(&self.users[i].permissions, op, stream_id);
                proof {
                    if !(r is Ok) && user_allowed(self.users@, user_id, op, stream_id) {
                        let k = choose|k: int|
                            0 <= k < self.users@.len() && (#[trigger] self.users@[k]).id == user_id
                                && allows(self.users@[k].permissions, op, stream_id);
                        assert(k == i);
                    }
                }
                r
            },
        }
    }

    /// The user that `user_id` names.
    pub fn get_user(&self, user_id: &Identifier) -> (r: Result<&User, EngineError>)
        ensures
            r is Ok <==> resolves(self.users_seq(), *user_id),
            r matches Ok(u) ==> exists|i: int|
                0 <= i < self.users_seq().len() && self.users_seq()[i] == *u && matches_identifier(
                    *u,
                    *user_id,
                ),
            r is Err ==> r == Err::<&User, EngineError>(EngineError::ResourceNotFound),
    {
        match self.index_of(user_id) {
            Some(i) => {
                let u = &self.users[i];
                assert(self.users_seq()[i as int] == *u);
                Ok(u)
            },
            None => Err(EngineError::ResourceNotFound),
        }
    }

    /// The user that `user_id` names, for a caller that is authenticated and
    /// is that user or may read users.
    pub fn find_user(&self, session: &Session, user_id: &Identifier) -> (r: Result<&User,
        EngineError>)
        requires
            self.wf(),
        ensures
            session.user_id == 0 ==> r == Err::<&User, EngineError>(EngineError::NotAuthenticated),
            session.user_id != 0 && !resolves(self.users_seq(), *user_id) ==> r == Err::<
                &User,
                EngineError,
            >(EngineError::ResourceNotFound),
            r matches Ok(u) ==> exists|i: int|
                0 <= i < self.users_seq().len() && self.users_seq()[i] == *u && matches_identifier(
                    *u,
                    *user_id,
                ),
            session.user_id != 0 && resolves(self.users_seq(), *user_id) ==> (r is Ok <==> (
            forall|i: int|
                0 <= i < self.users_seq().len() && matches_identifier(
                    #[trigger] self.users_seq()[i],
                    *user_id,
                ) ==> (self.users_seq()[i].id == session.user_id || user_allowed(
                    self.users_seq(),
                    session.user_id,
                    Operation::GetUser,
                    0,
                )))),
            r matches Err(e) ==> (e == EngineError::NotAuthenticated || e
                == EngineError::ResourceNotFound || e == EngineError::PermissionDenied),
    {
        let caller = self.ensure_authenticated(session)?;
        match self.index_of(user_id) {
            None => Err(EngineError::ResourceNotFound),
            Some(i) => {
                proof {
                    self.lemma_identifier_unique(*user_id, i as int);
                }
                if self.users[i].id != caller {
                    self.permit(caller, Operation::GetUser, 0)?;
                }
                let u = &self.users[i];
                assert(self.users_seq()[i as int] == *u);
                Ok(u)
            },
        }
    }

    proof fn lemma_identifier_unique(&self, id: Identifier, i: int)
        requires
            self.wf(),
            0 <= i < self.users@.len(),
            matches_identifier(self.users@[i], id),
        ensures
            forall|j: int|
                0 <= j < self.users@.len() && matches_identifier(#[trigger] self.users@[j], id)
                    ==> j == i,
    {
    }

    /// All users, for an authenticated caller that may read users.
    pub fn get_users(&self, session: &Session) -> (r: Result<&Vec<User>, EngineError>)
        requires
            self.wf(),
        ensures
            session.user_id == 0 ==> r == Err::<&Vec<User>, EngineError>(
                EngineError::NotAuthenticated,
            ),
            session.user_id != 0 ==> (r is Ok <==> user_allowed(
                self.users_seq(),
                session.user_id,
                Operation::GetUsers,
                0,
            )),
            r matches Ok(v) ==> v@ == self.users_seq(),
            session.user_id != 0 && r is Err ==> r == Err::<&Vec<User>, EngineError>(
                EngineError::PermissionDenied,
            ),
    {
        let caller = self.ensure_authenticated(session)?;
        self.permit(caller, Operation::GetUsers, 0)?;
        Ok(&self.users)
    }

    proof fn lemma_named_unique(&self, name: Seq<char>, i: int)
        requires
            self.wf(),
            0 <= i < self.users@.len(),
            self.users@[i].username@ == name,
        ensures
            user_index_by_name(self.users@, name) == i,
    {
    }

    proof fn lemma_resolved_at(&self, id: Identifier, i: int)
        requires
            self.wf(),
            0 <= i < self.users@.len(),
            matches_identifier(self.users@[i], id),
        ensures
            resolved_index(self.users@, id) == i,
    {
        self.lemma_identifier_unique(id, i);
    }

    /// Adds a user under the next id, with its name case-folded.
    pub fn create_user(
        &mut self,
        session: &Session,
        username: &str,
        password: &str,
        status: UserStatus,
        permissions: Option<Permissions>,
    ) -> (r: Result<(), EngineError>)
        requires
            old(self).wf(),
        ensures
            final(self).wf(),
            match create_user_error(
                old(self).users_seq(),
                old(self).next_id(),
                session.user_id,
                normalized_username(username@),
            ) {
                Some(e) => r == Err::<(), EngineError>(e) && *final(self) == *old(self),
                None => r is Ok && user_appended(
                    old(self).users_seq(),
                    final(self).users_seq(),
                    old(self).next_id(),
                    normalized_username(username@),
                    password@,
                    status,
                    permissions,
                ) && final(self).next_id() == old(self).next_id() + 1 && final(self).clients()
                    == old(self).clients(),
            },
    {
        let caller = self.ensure_authenticated(session)?;
        self.permit(caller, Operation::CreateUser, 0)?;
        let username = normalize_name(username);
        if self.index_of_username(&username).is_some() {
            return Err(EngineError::UserAlreadyExists);
        }
        if self.users.len() >= MAX_USERS || self.next_user_id == u32::MAX {
            return Err(EngineError::UsersLimitReached);
        }
        if username.as_str().len() < MIN_USERNAME_LENGTH || username.as_str().len() > MAX_USERNAME_LENGTH {
            return Err(EngineError::InvalidUsername);
        }
        let user_id = self.next_user_id;
        self.next_user_id = self.next_user_id + 1;
        let user = User {
            id: user_id,
            username,
            password: password.to_owned(),
            status,
            permissions,
        };
        self.users.push(user);
        proof {
            assert(self.users@.drop_last() =~= old(self).users@);
        }
        Ok(())
    }

    /// Removes the user that `user_id` names, and every client bound to it.
    /// The root user cannot be removed.
    pub fn delete_user(&mut self, session: &Session, user_id: &Identifier) -> (r: Result<
        User,
        EngineError,
    >)
        requires
            old(self).wf(),
        ensures
            final(self).wf(),
            match delete_user_error(old(self).users_seq(), session.user_id, *user_id) {
                Some(e) => r == Err::<User, EngineError>(e) && *final(self) == *old(self),
                None => {
                    let i = resolved_index(old(self).users_seq(), *user_id);
                    &&& r == Ok::<User, EngineError>(old(self).users_seq()[i])
                    &&& final(self).users_seq() == old(self).users_seq().remove(i)
                    &&& final(self).next_id() == old(self).next_id()
                    &&& final(self).clients() == without_user(
                        old(self).clients(),
                        old(self).users_seq()[i].id,
                    )
                },
            },
    {
        let caller = self.ensure_authenticated(session)?;
        self.permit(caller, Operation::DeleteUser, 0)?;
        let i = match self.index_of(user_id) {
            Some(i) => i,
            None => return Err(EngineError::ResourceNotFound),
        };
        proof {
            self.lemma_resolved_at(*user_id, i as int);
        }
        if self.users[i].is_root() {
            return Err(EngineError::CannotDeleteUser(ROOT_USER_ID));
        }
        let user = self.users.remove(i);
        self.client_manager.delete_clients_for_user(user.id);
        Ok(user)
    }

    /// Renames and/or changes the status of the user that `user_id` names.
    /// A new name is case-folded and must not belong to another user.
    pub fn update_user(
        &mut self,
        session: &Session,
        user_id: &Identifier,
        username: Option<String>,
        status: Option<UserStatus>,
    ) -> (r: Result<(), EngineError>)
        requires
            old(self).wf(),
        ensures
            final(self).wf(),
            match update_user_error(
                old(self).users_seq(),
                session.user_id,
                *user_id,
                fold_name(username),
            ) {
                Some(e) => r == Err::<(), EngineError>(e) && *final(self) == *old(self),
                None => {
                    let i = resolved_index(old(self).users_seq(), *user_id);
                    let before = old(self).users_seq()[i];
                    let after = final(self).users_seq()[i];
                    &&& r is Ok
                    &&& final(self).users_seq().len() == old(self).users_seq().len()
                    &&& forall|j: int|
                        0 <= j < old(self).users_seq().len()
                            && j != i ==> final(self).users_seq()[j]
                            == old(self).users_seq()[j]
                    &&& after.id == before.id
                    &&& after.username@ == (match fold_name(username) {
                        Some(n) => n,
                        None => before.username@,
                    })
                    &&& after.password == before.password
                    &&& after.status == (match status {
                        Some(s) => s,
                        None => before.status,
                    })
                    &&& after.permissions == before.permissions
                    &&& final(self).next_id() == old(self).next_id()
                    &&& final(self).clients() == old(self).clients()
                },
            },
    {
        let caller = self.ensure_authenticated(session)?;
        self.permit(caller, Operation::UpdateUser, 0)?;
        let i = match self.index_of(user_id) {
            Some(i) => i,
            None => return Err(EngineError::ResourceNotFound),
        };
        proof {
            self.lemma_resolved_at(*user_id, i as int);
        }
        let new_name = match username {
            Some(n) => {
                let folded = normalize_name(n.as_str());
                if folded.as_str().len() < MIN_USERNAME_LENGTH || folded.as_str().len()
                    > MAX_USERNAME_LENGTH {
                    return Err(EngineError::InvalidUsername);
                }
                match self.index_of_username(&folded) {
                    Some(j) => {
                        if j != i {
                            return Err(EngineError::UserAlreadyExists);
                        }
                    },
                    None => {},
                }
                Some(folded)
            },
            None => None,
        };
        let mut user = self.users.remove(i);
        match new_name {
            Some(n) => {
                user.username = n;
            },
            None => {},
        }
        match status {
            Some(s) => {
                user.status = s;
            },
            None => {},
        }
        self.users.insert(i, user);
        proof {
            assert(forall|j: int|
                0 <= j < old(self).users@.len()
                    && j != i ==> self.users@[j] == old(self).users@[j]);
        }
        Ok(())
    }

    /// Replaces the permissions of the user that `user_id` names; the root
    /// user's permissions cannot change.
    pub fn update_permissions(
        &mut self,
        session: &Session,
        user_id: &Identifier,
        permissions: Option<Permissions>,
    ) -> (r: Result<(), EngineError>)
        requires
            old(self).wf(),
        ensures
            final(self).wf(),
            match update_permissions_error(old(self).users_seq(), session.user_id, *user_id) {
                Some(e) => r == Err::<(), EngineError>(e) && *final(self) == *old(self),
                None => {
                    let i = resolved_index(old(self).users_seq(), *user_id);
                    let before = old(self).users_seq()[i];
                    let after = final(self).users_seq()[i];
                    &&& r is Ok
                    &&& final(self).users_seq().len() == old(self).users_seq().len()
                    &&& forall|j: int|
                        0 <= j < old(self).users_seq().len()
                            && j != i ==> final(self).users_seq()[j]
                            == old(self).users_seq()[j]
                    &&& after.id == before.id
                    &&& after.username == before.username
                    &&& after.password == before.password
                    &&& after.status == before.status
                    &&& after.permissions == permissions
                    &&& final(self).next_id() == old(self).next_id()
                    &&& final(self).clients() == old(self).clients()
                },
            },
    {
        let caller = self.ensure_authenticated(session)?;
        self.permit(caller, Operation::UpdatePermissions, 0)?;
        let i = match self.index_of(user_id) {
            Some(i) => i,
            None => return Err(EngineError::ResourceNotFound),
        };
        proof {
            self.lemma_resolved_at(*user_id, i as int);
        }
        if self.users[i].is_root() {
            return Err(EngineError::CannotChangePermissions(ROOT_USER_ID));
        }
        let mut user = self.users.remove(i);
        user.permissions = permissions;
        self.users.insert(i, user);
        proof {
            assert(forall|j: int|
                0 <= j < old(self).users@.len()
                    && j != i ==> self.users@[j] == old(self).users@[j]);
        }
        Ok(())
    }

    /// Replaces the password of the user that `user_id` names, once the
    /// current one is confirmed. Changing another user's password needs the
    /// capability to; changing one's own does not.
    pub fn change_password(
        &mut self,
        session: &Session,
        user_id: &Identifier,
        current_password: &str,
        new_password: &str,
    ) -> (r: Result<(), EngineError>)
        requires
            old(self).wf(),
        ensures
            final(self).wf(),
            match change_password_error(
                old(self).users_seq(),
                session.user_id,
                *user_id,
                current_password@,
            ) {
                Some(e) => r == Err::<(), EngineError>(e) && *final(self) == *old(self),
                None => {
                    let i = resolved_index(old(self).users_seq(), *user_id);
                    let before = old(self).users_seq()[i];
                    let after = final(self).users_seq()[i];
                    &&& r is Ok
                    &&& final(self).users_seq().len() == old(self).users_seq().len()
                    &&& forall|j: int|
                        0 <= j < old(self).users_seq().len()
                            && j != i ==> final(self).users_seq()[j]
                            == old(self).users_seq()[j]
                    &&& after.id == before.id
                    &&& after.username == before.username
                    &&& after.password@ == new_password@
                    &&& after.status == before.status
                    &&& after.permissions == before.permissions
                    &&& final(self).next_id() == old(self).next_id()
                    &&& final(self).clients() == old(self).clients()
                },
            },
    {
        let caller = self.ensure_authenticated(session)?;
        let i = match self.index_of(user_id) {
            Some(i) => i,
            None => return Err(EngineError::ResourceNotFound),
        };
        proof {
            self.lemma_resolved_at(*user_id, i as int);
        }
        if self.users[i].id != caller {
            self.permit(caller, Operation::ChangePassword, 0)?;
        }
        let current = current_password.to_owned();
        if !(self.users[i].password == current) {
            return Err(EngineError::InvalidCredentials);
        }
        let mut user = self.users.remove(i);
        user.password = new_password.to_owned();
        self.users.insert(i, user);
        proof {
            assert(forall|j: int|
                0 <= j < old(self).users@.len()
                    && j != i ==> self.users@[j] == old(self).users@[j]);
        }
        Ok(())
    }

    fn validate_view(view: &Vec<User>) -> (r: bool)
        ensures
            r == users_wf(view@, u32::MAX),
    {
        let mut i: usize = 0;
        while i < view.len()
            invariant
                i <= view@.len(),
                forall|a: int| 0 <= a < i ==> (#[trigger] view@[a]).id < u32::MAX && view@[a].id != 0,
                forall|a: int, b: int|
                    0 <= a < i && 0 <= b < i && a != b ==> (#[trigger] view@[a]).id
                        != (#[trigger] view@[b]).id && view@[a].username@ != view@[b].username@,
            decreases view@.len() - i,
        {
            if view[i].id == u32::MAX || view[i].id == 0 {
                return false;
            }
            let mut j: usize = 0;
            while j < i
                invariant
                    i < view@.len(),
                    j <= i,
                    forall|b: int|
                        0 <= b < j ==> view@[i as int].id != (#[trigger] view@[b]).id
                            && view@[i as int].username@ != view@[b].username@,
                decreases i - j,
            {
                if view[i].id == view[j].id || view[i].username == view[j].username {
                    return false;
                }
                j = j + 1;
            }
            i = i + 1;
        }
        true
    }

    /// Loads the persisted users into an empty registry. With none persisted,
    /// `root` is created instead and recorded in the metadata log. The next
    /// id handed out is one past the largest loaded id.
    pub fn load_users(&mut self, view: Vec<User>, root: Option<User>, log: &mut MetadataLog) -> (r:
        Result<(), EngineError>)
        requires
            old(self).wf(),
            old(self).users_seq().len() == 0,
        ensures
            final(self).wf(),
            final(self).clients() == old(self).clients(),
            view@.len() == 0 ==> match root {
                Some(u) => if u.id != ROOT_USER_ID {
                    r == Err::<(), EngineError>(EngineError::InternalError)
                        && *final(self) == *old(self) && *final(log) == *old(log)
                } else {
                    &&& r is Ok
                    &&& final(self).users_seq() == seq![u]
                    &&& final(self).next_id() == u.id + 1
                    &&& final(log)@.len() == old(log)@.len() + 1
                    &&& final(log)@.drop_last() == old(log)@
                    &&& final(log)@.last().command matches EntryCommand::CreateUser {
                        username,
                        password,
                        status,
                        permissions,
                    } && username@ == u.username@ && password@ == u.password@ && status == u.status
                        && same_permissions(permissions, u.permissions)
                },
                None => r == Err::<(), EngineError>(EngineError::InternalError) && *final(self)
                    == *old(self) && *final(log) == *old(log),
            },
            view@.len() > 0 ==> *final(log) == *old(log) && if users_wf(view@, u32::MAX) {
                &&& r is Ok
                &&& final(self).users_seq() == view@
                &&& final(self).next_id() == max_user_id(view@) + 1
            } else {
                r == Err::<(), EngineError>(EngineError::InternalError)
                    && *final(self) == *old(self)
            },
    {
        if view.len() == 0 {
            match root {
                None => {
                    return Err(EngineError::InternalError);
                },
                Some(u) => {
                    if u.id != ROOT_USER_ID {
                        return Err(EngineError::InternalError);
                    }
                    log.apply(
                        MetadataEntry {
                            user_id: 0,
                            command: EntryCommand::CreateUser {
                                username: u.username.clone(),
                                password: u.password.clone(),
                                status: u.status,
                                permissions: match &u.permissions {
                                    Some(p) => Some(p.copy()),
                                    None => None,
                                },
                            },
                        },
                    );
                    self.next_user_id = u.id + 1;
                    self.users.push(u);
                    proof {
                        assert(self.users@ =~= seq![u]);
                        assert(log@.drop_last() =~= old(log)@);
                    }
                    return Ok(());
                },
            }
        }
        if !Self::validate_view(&view) {
            return Err(EngineError::InternalError);
        }
        let mut max_id: u32 = 0;
        let mut i: usize = 0;
        while i < view.len()
            invariant
                i <= view@.len(),
                max_id == max_user_id(view@.take(i as int)),
                max_id < u32::MAX,
                forall|j: int| 0 <= j < i ==> (#[trigger] view@[j]).id <= max_id,
                users_wf(view@, u32::MAX),
            decreases view@.len() - i,
        {
            proof {
                assert(view@.take(i + 1).drop_last() =~= view@.take(i as int));
            }
            if view[i].id > max_id {
                max_id = view[i].id;
            }
            i = i + 1;
        }
        proof {
            assert(view@.take(view@.len() as int) =~= view@);
            if view@.len() > 0 {
                assert(view@[0].id < u32::MAX);
            }
        }
        self.next_user_id = max_id + 1;
        self.users = view;
        Ok(())
    }

    /// The id of user `username`, once its credentials are verified; an
    /// absent password is not checked.
    pub fn authenticate(&self, username: &str, password: Option<&str>) -> (r: Result<u32,
        EngineError>)
        requires
            self.wf(),
        ensures
            match credentials_error(
                self.users_seq(),
                username@,
                match password {
                    Some(p) => Some(p@),
                    None => None::<Seq<char>>,
                },
            ) {
                Some(e) => r == Err::<u32, EngineError>(e),
                None => r == Ok::<u32, EngineError>(
                    self.users_seq()[user_index_by_name(self.users_seq(), username@)].id,
                ),
            },
    {
        let name = username.to_owned();
        let i = match self.index_of_username(&name) {
            Some(i) => i,
            None => return Err(EngineError::InvalidCredentials),
        };
        proof {
            self.lemma_named_unique(username@, i as int);
        }
        if !self.users[i].is_active() {
            return Err(EngineError::UserInactive);
        }
        match password {
            Some(p) => {
                let given = p.to_owned();
                if !(self.users[i].password == given) {
                    return Err(EngineError::InvalidCredentials);
                }
            },
            None => {},
        }
        Ok(self.users[i].id)
    }

    /// Logs in with a password; see `login_user_with_credentials`.
    pub fn login_user(&mut self, username: &str, password: &str, session: &mut Session) -> (r:
        Result<u32, EngineError>)
        requires
            old(self).wf(),
        ensures
            final(self).wf(),
            final(self).users_seq() == old(self).users_seq(),
            final(self).next_id() == old(self).next_id(),
            login_outcome(
                old(self).users_seq(),
                old(self).clients(),
                *old(session),
                username@,
                Some(password@),
                final(self).clients(),
                *final(session),
                r,
            ),
    {
        self.login_user_with_credentials(username, Some(password), session)
    }

    /// Logs the session in as `username`. A session that is already logged
    /// in is logged out first, so the last login wins; the client is then
    /// bound to the user.
    pub fn login_user_with_credentials(
        &mut self,
        username: &str,
        password: Option<&str>,
        session: &mut Session,
    ) -> (r: Result<u32, EngineError>)
        requires
            old(self).wf(),
        ensures
            final(self).wf(),
            final(self).users_seq() == old(self).users_seq(),
            final(self).next_id() == old(self).next_id(),
            login_outcome(
                old(self).users_seq(),
                old(self).clients(),
                *old(session),
                username@,
                match password {
                    Some(p) => Some(p@),
                    None => None::<Seq<char>>,
                },
                final(self).clients(),
                *final(session),
                r,
            ),
    {
        let user_id = self.authenticate(username, password)?;
        if session.is_authenticated() && self.index_of_id(session.user_id).is_none() {
            return Err(EngineError::ResourceNotFound);
        }
        if self.client_manager.get_user_id(session.client_id).is_none() {
            return Err(EngineError::ResourceNotFound);
        }
        if session.is_authenticated() {
            self.logout_user(session)?;
        }
        proof {
            crate::session::lemma_rebind_keeps_clients(old(self).clients(), session.client_id, 0, session.client_id);
        }
        self.client_manager.set_user_id(session.client_id, user_id)?;
        session.user_id = user_id;
        Ok(user_id)
    }

    /// Ends the session's login: its client is unbound (for a real client)
    /// and the session is no longer authenticated.
    pub fn logout_user(&mut self, session: &mut Session) -> (r: Result<(), EngineError>)
        requires
            old(self).wf(),
        ensures
            final(self).wf(),
            final(self).users_seq() == old(self).users_seq(),
            final(self).next_id() == old(self).next_id(),
            final(session).client_id == old(session).client_id,
            old(session).user_id == 0 ==> r == Err::<(), EngineError>(EngineError::NotAuthenticated)
                && final(self).clients() == old(self).clients() && *final(session) == *old(session),
            old(session).user_id != 0 && !has_user_id(old(self).users_seq(), old(session).user_id)
                ==> r == Err::<(), EngineError>(EngineError::ResourceNotFound)
                    && final(self).clients()
                == old(self).clients() && *final(session) == *old(session),
            old(session).user_id != 0 && has_user_id(old(self).users_seq(), old(session).user_id)
                ==> r is Ok && final(session).user_id == 0 && final(self).clients()
                == after_prior_logout(old(self).clients(), *old(session)),
    {
        let user_id = self.ensure_authenticated(session)?;
        if self.index_of_id(user_id).is_none() {
            return Err(EngineError::ResourceNotFound);
        }
        if session.client_id > 0 {
            self.client_manager.clear_user_id(session.client_id);
        }
        session.user_id = 0;
        Ok(())
    }
}

/// A user created, deleted and created again gets a new id: creation hands
/// out the registry's next id and moves the counter past it, deletion leaves
/// the counter alone, and no user of the starting registry holds that id.
pub proof fn recreated_user_gets_new_id(before: System, created: System, deleted: System)
    requires
        before.wf(),
        created.next_id() == before.next_id() + 1,
        deleted.next_id() == created.next_id(),
    ensures
        deleted.next_id() != before.next_id(),
        !has_user_id(before.users_seq(), deleted.next_id()),
{
}

} // verus!
