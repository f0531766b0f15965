use streaming_core::error::EngineError;
use streaming_core::identifier::Identifier;
use streaming_core::metadata::{EntryCommand, MetadataLog};
use streaming_core::permissions::{GlobalPermissions, Permissions};
use streaming_core::session::Session;
use streaming_core::users::{create_root_user, RootCredentialsError, System, User, UserStatus};
use streaming_core::handlers::handle_delete_user;

fn boot() -> (System, MetadataLog, Session) {
    let mut system = System::new();
    let mut log = MetadataLog::new();
    let root = create_root_user(None, None).unwrap();
    system.load_users(Vec::new(), Some(root), &mut log).unwrap();
    system.add_client(1);
    let mut session = Session::new(1);
    system.login_user("iggy", "iggy", &mut session).unwrap();
    (system, log, session)
}

fn no_permissions() -> Option<Permissions> {
    None
}

#[test]
fn bootstrap_creates_default_root() {
    let (system, log, session) = boot();
    let users = system.get_users(&session).unwrap();
    assert_eq!(users.len(), 1);
    assert_eq!(users[0].id, 1);
    assert_eq!(users[0].username, "iggy");
    assert_eq!(log.len(), 1);
    match &log.entries()[0].command {
        EntryCommand::CreateUser { username, .. } => assert_eq!(username, "iggy"),
        _ => panic!("expected a CreateUser entry"),
    }
}

#[test]
fn root_credentials_are_validated() {
    assert_eq!(
        create_root_user(Some("admin".to_string()), None).unwrap_err(),
        RootCredentialsError::OnlyOneProvided
    );
    assert_eq!(
        create_root_user(Some("ab".to_string()), Some("secret".to_string())).unwrap_err(),
        RootCredentialsError::UsernameTooShort
    );
    assert_eq!(
        create_root_user(Some("admin".to_string()), Some("pw".to_string())).unwrap_err(),
        RootCredentialsError::PasswordTooShort
    );
    assert_eq!(
        create_root_user(Some("".to_string()), Some("".to_string())).unwrap_err(),
        RootCredentialsError::Empty
    );
    assert_eq!(
        create_root_user(Some("a".repeat(51)), Some("secret".to_string())).unwrap_err(),
        RootCredentialsError::UsernameTooLong
    );
    assert_eq!(
        create_root_user(Some("admin".to_string()), Some("p".repeat(101))).unwrap_err(),
        RootCredentialsError::PasswordTooLong
    );
    let root = create_root_user(Some("admin".to_string()), Some("secret".to_string())).unwrap();
    assert_eq!(root.id, 1);
    assert_eq!(root.username, "admin");
    assert_eq!(root.password, "secret");
}

#[test]
fn load_users_sets_next_id_past_the_largest() {
    let mut system = System::new();
    let mut log = MetadataLog::new();
    let view = vec![
        User { id: 1, username: "iggy".to_string(), password: "iggy".to_string(), status: UserStatus::Active, permissions: Some(Permissions::root()) },
        User { id: 7, username: "bob".to_string(), password: "pw0".to_string(), status: UserStatus::Active, permissions: None },
    ];
    system.load_users(view, None, &mut log).unwrap();
    assert_eq!(log.len(), 0);
    system.add_client(1);
    let mut session = Session::new(1);
    system.login_user("iggy", "iggy", &mut session).unwrap();
    system.create_user(&session, "carol", "pw0", UserStatus::Active, no_permissions()).unwrap();
    let carol = system.get_user(&Identifier::named("carol")).unwrap();
    assert_eq!(carol.id, 8);
}

#[test]
fn load_users_refuses_duplicate_ids() {
    let mut system = System::new();
    let mut log = MetadataLog::new();
    let view = vec![
        User { id: 3, username: "a".to_string(), password: "x".to_string(), status: UserStatus::Active, permissions: None },
        User { id: 3, username: "b".to_string(), password: "y".to_string(), status: UserStatus::Active, permissions: None },
    ];
    assert_eq!(system.load_users(view, None, &mut log), Err(EngineError::InternalError));
}

#[test]
fn login_checks_credentials_and_status() {
    let (mut system, _log, root) = boot();
    system.create_user(&root, "alice", "pw1", UserStatus::Active, no_permissions()).unwrap();
    system.add_client(2);
    let mut session = Session::new(2);
    let id = system.login_user("alice", "pw1", &mut session).unwrap();
    assert_eq!(session.user_id, id);
    let mut other = Session::new(2);
    assert_eq!(system.login_user("alice", "wrong", &mut other), Err(EngineError::InvalidCredentials));
    assert_eq!(system.login_user("nobody", "pw1", &mut other), Err(EngineError::InvalidCredentials));
    system.update_user(&root, &Identifier::named("alice"), None, Some(UserStatus::Inactive)).unwrap();
    assert_eq!(system.login_user("alice", "pw1", &mut other), Err(EngineError::UserInactive));
}

#[test]
fn root_cannot_be_deleted_or_restricted() {
    let (mut system, _log, root) = boot();
    assert_eq!(system.delete_user(&root, &Identifier::numeric(1)).unwrap_err(), EngineError::CannotDeleteUser(1));
    assert_eq!(
        system.update_permissions(&root, &Identifier::numeric(1), None),
        Err(EngineError::CannotChangePermissions(1))
    );
    assert_eq!(system.get_users(&root).unwrap().len(), 1);
}

#[test]
fn usernames_are_case_folded_and_unique() {
    let (mut system, _log, root) = boot();
    system.create_user(&root, "ALICE", "pw0", UserStatus::Active, no_permissions()).unwrap();
    assert_eq!(system.get_user(&Identifier::named("alice")).unwrap().username, "alice");
    assert_eq!(
        system.create_user(&root, "Alice", "pw0", UserStatus::Active, no_permissions()),
        Err(EngineError::UserAlreadyExists)
    );
    system.create_user(&root, "bob", "pw0", UserStatus::Active, no_permissions()).unwrap();
    assert_eq!(
        system.update_user(&root, &Identifier::named("bob"), Some("ALICE".to_string()), None),
        Err(EngineError::UserAlreadyExists)
    );
    system.update_user(&root, &Identifier::named("bob"), Some("Robert".to_string()), None).unwrap();
    assert!(system.get_user(&Identifier::named("robert")).is_ok());
}

#[test]
fn create_then_delete_restores_count_and_recreate_gets_new_id() {
    let (mut system, _log, root) = boot();
    let before = system.get_users(&root).unwrap().len();
    system.create_user(&root, "dave", "pw0", UserStatus::Active, no_permissions()).unwrap();
    let first = system.get_user(&Identifier::named("dave")).unwrap().id;
    let removed = system.delete_user(&root, &Identifier::named("dave")).unwrap();
    assert_eq!(removed.id, first);
    assert_eq!(system.get_users(&root).unwrap().len(), before);
    system.create_user(&root, "dave", "pw0", UserStatus::Active, no_permissions()).unwrap();
    let second = system.get_user(&Identifier::named("dave")).unwrap().id;
    assert_ne!(first, second);
    assert!(second > first);
}

#[test]
fn login_then_logout_clears_binding() {
    let (mut system, _log, root) = boot();
    system.create_user(&root, "erin", "pw0", UserStatus::Active, no_permissions()).unwrap();
    system.add_client(5);
    let mut session = Session::new(5);
    let id = system.login_user("erin", "pw0", &mut session).unwrap();
    assert_eq!(system.client_user_id(5), Some(id));
    system.logout_user(&mut session).unwrap();
    assert_eq!(system.client_user_id(5), Some(0));
    assert_eq!(session.user_id, 0);
    assert_eq!(system.logout_user(&mut session), Err(EngineError::NotAuthenticated));
}

#[test]
fn relogin_replaces_previous_binding() {
    let (mut system, _log, root) = boot();
    system.create_user(&root, "frank", "pw0", UserStatus::Active, no_permissions()).unwrap();
    system.add_client(6);
    let mut session = Session::new(6);
    system.login_user("iggy", "iggy", &mut session).unwrap();
    let id = system.login_user("frank", "pw0", &mut session).unwrap();
    assert_eq!(session.user_id, id);
    assert_eq!(system.client_user_id(6), Some(id));
}

#[test]
fn login_of_unknown_client_fails() {
    let (mut system, _log, _root) = boot();
    let mut session = Session::new(99);
    assert_eq!(system.login_user("iggy", "iggy", &mut session), Err(EngineError::ResourceNotFound));
    assert_eq!(session.user_id, 0);
}

#[test]
fn unauthenticated_and_unpermitted_callers_are_refused() {
    let (mut system, _log, root) = boot();
    let anonymous = Session::new(1);
    assert_eq!(
        system.create_user(&anonymous, "x", "pw0", UserStatus::Active, no_permissions()),
        Err(EngineError::NotAuthenticated)
    );
    system.create_user(&root, "gina", "pw0", UserStatus::Active, no_permissions()).unwrap();
    system.add_client(7);
    let mut gina = Session::new(7);
    system.login_user("gina", "pw0", &mut gina).unwrap();
    assert_eq!(
        system.create_user(&gina, "x", "pw0", UserStatus::Active, no_permissions()),
        Err(EngineError::PermissionDenied)
    );
    assert_eq!(system.get_users(&gina).unwrap_err(), EngineError::PermissionDenied);
    assert_eq!(system.find_user(&gina, &Identifier::numeric(1)).unwrap_err(), EngineError::PermissionDenied);
    assert_eq!(system.find_user(&gina, &Identifier::named("gina")).unwrap().username, "gina");
    assert_eq!(system.get_user(&Identifier::numeric(42)).unwrap_err(), EngineError::ResourceNotFound);
}

#[test]
fn change_password_rules() {
    let (mut system, _log, root) = boot();
    system.create_user(&root, "hank", "old", UserStatus::Active, no_permissions()).unwrap();
    system.add_client(8);
    let mut hank = Session::new(8);
    system.login_user("hank", "old", &mut hank).unwrap();
    assert_eq!(
        system.change_password(&hank, &Identifier::named("hank"), "bad", "new"),
        Err(EngineError::InvalidCredentials)
    );
    system.change_password(&hank, &Identifier::named("hank"), "old", "new").unwrap();
    assert_eq!(
        system.change_password(&hank, &Identifier::numeric(1), "iggy", "x"),
        Err(EngineError::PermissionDenied)
    );
    let mut again = Session::new(8);
    assert_eq!(system.login_user("hank", "old", &mut again), Err(EngineError::InvalidCredentials));
    system.login_user("hank", "new", &mut again).unwrap();
}

#[test]
fn permissions_grant_user_reads() {
    let (mut system, _log, root) = boot();
    let mut global = Permissions::root().global;
    global.manage_users = false;
    let readers: GlobalPermissions = GlobalPermissions { read_users: true, ..global };
    let perms = Permissions { global: readers, streams: Vec::new() };
    system.create_user(&root, "ivy", "pw0", UserStatus::Active, Some(perms)).unwrap();
    system.add_client(9);
    let mut ivy = Session::new(9);
    system.login_user("ivy", "pw0", &mut ivy).unwrap();
    assert_eq!(system.get_users(&ivy).unwrap().len(), 2);
    assert_eq!(
        system.delete_user(&ivy, &Identifier::named("iggy")).unwrap_err(),
        EngineError::PermissionDenied
    );
}

#[test]
fn delete_user_handler_records_one_entry() {
    let (mut system, mut log, root) = boot();
    system.create_user(&root, "jack", "pw0", UserStatus::Active, no_permissions()).unwrap();
    let id = system.get_user(&Identifier::named("jack")).unwrap().id;
    let before = log.len();
    handle_delete_user(&mut system, &mut log, &root, &Identifier::named("jack")).unwrap();
    assert_eq!(log.len(), before + 1);
    match &log.entries()[before].command {
        EntryCommand::DeleteUser { user_id } => assert_eq!(*user_id, id),
        _ => panic!("expected a DeleteUser entry"),
    }
    assert_eq!(
        handle_delete_user(&mut system, &mut log, &root, &Identifier::numeric(1)),
        Err(EngineError::CannotDeleteUser(1))
    );
    assert_eq!(log.len(), before + 1);
}

#[test]
fn delete_user_drops_its_clients() {
    let (mut system, _log, root) = boot();
    system.create_user(&root, "kate", "pw0", UserStatus::Active, no_permissions()).unwrap();
    system.add_client(10);
    let mut kate = Session::new(10);
    system.login_user("kate", "pw0", &mut kate).unwrap();
    system.delete_user(&root, &Identifier::named("kate")).unwrap();
    assert_eq!(system.client_user_id(10), None);
}

#[test]
fn identifier_accessors() {
    assert_eq!(Identifier::numeric(5).as_u32(), Ok(5));
    assert_eq!(Identifier::named("s").as_u32(), Err(EngineError::InvalidIdentifier));
    assert_eq!(Identifier::named("s").as_str(), Ok("s"));
    assert_eq!(Identifier::numeric(5).as_str(), Err(EngineError::InvalidIdentifier));
}

#[test]
fn invalid_usernames_are_refused() {
    let (mut system, _log, root) = boot();
    assert_eq!(
        system.create_user(&root, "ab", "secret", UserStatus::Active, no_permissions()),
        Err(EngineError::InvalidUsername)
    );
    assert_eq!(
        system.create_user(&root, &"n".repeat(51), "secret", UserStatus::Active, no_permissions()),
        Err(EngineError::InvalidUsername)
    );
    system.create_user(&root, "mike", "secret", UserStatus::Active, no_permissions()).unwrap();
    assert_eq!(
        system.update_user(&root, &Identifier::named("mike"), Some("mk".to_string()), None),
        Err(EngineError::InvalidUsername)
    );
}

#[test]
fn failed_relogin_keeps_the_session() {
    let (mut system, _log, _root) = boot();
    let mut session = Session { client_id: 42, user_id: 1 };
    assert_eq!(system.login_user("iggy", "iggy", &mut session), Err(EngineError::ResourceNotFound));
    assert_eq!(session.user_id, 1);
}

#[test]
fn load_users_refuses_user_id_zero() {
    let mut system = System::new();
    let mut log = MetadataLog::new();
    let view = vec![User { id: 0, username: "zero".to_string(), password: "pw0".to_string(), status: UserStatus::Active, permissions: None }];
    assert_eq!(system.load_users(view, None, &mut log), Err(EngineError::InternalError));
}

#[test]
fn usernames_join_words_with_underscores() {
    let (mut system, _log, root) = boot();
    system.create_user(&root, "  John \t Smith ", "secret", UserStatus::Active, no_permissions()).unwrap();
    assert_eq!(system.get_user(&Identifier::named("john_smith")).unwrap().username, "john_smith");
    assert_eq!(
        system.create_user(&root, "JOHN SMITH", "secret", UserStatus::Active, no_permissions()),
        Err(EngineError::UserAlreadyExists)
    );
}

#[test]
fn duplicate_name_wins_over_length_checks() {
    let (mut system, _log, root) = boot();
    system.create_user(&root, "nora", "secret", UserStatus::Active, no_permissions()).unwrap();
    assert_eq!(
        system.create_user(&root, "NORA", "p", UserStatus::Active, no_permissions()),
        Err(EngineError::UserAlreadyExists)
    );
    system.create_user(&root, "olga", "p", UserStatus::Active, no_permissions()).unwrap();
}

#[test]
fn load_users_refuses_root_with_other_id() {
    let mut system = System::new();
    let mut log = MetadataLog::new();
    let mut root = create_root_user(None, None).unwrap();
    root.id = 7;
    assert_eq!(system.load_users(Vec::new(), Some(root), &mut log), Err(EngineError::InternalError));
    assert_eq!(log.len(), 0);
}
