use icutil::auth::{generate_secure_secret, is_authorized, AuthState};
use icutil::device::{get_shard_key, validate_device_id};
use icutil::users::{User, UserDirectory};

#[test]
fn secret_is_64_hex_characters() {
    let secret = generate_secure_secret();
    assert_eq!(secret.len(), 64);
    assert!(secret
        .chars()
        .all(|c| c.is_ascii_digit() || ('a'..='f').contains(&c)));
}

#[test]
fn init_produces_fresh_state() {
    let st = AuthState::init();
    assert_eq!(st.jwt_secret.len(), 64);
    assert!(st.role_entries.is_empty());
}

#[test]
fn roles_are_assigned_and_looked_up() {
    let mut st = AuthState::init();
    assert!(st.get_roles(&String::from("alice")).is_empty());
    st.assign_roles(
        String::from("alice"),
        vec![String::from("viewer"), String::from("manager")],
    );
    assert_eq!(
        st.get_roles(&String::from("alice")),
        vec![String::from("viewer"), String::from("manager")]
    );
    assert!(st.get_roles(&String::from("bob")).is_empty());
    st.assign_roles(String::from("alice"), vec![String::from("admin")]);
    assert_eq!(st.get_roles(&String::from("alice")), vec![String::from("admin")]);
}

#[test]
fn admin_membership_check() {
    let admins = vec![String::from("root"), String::from("ops")];
    assert!(is_authorized(&admins, &String::from("ops")));
    assert!(!is_authorized(&admins, &String::from("guest")));
}

#[test]
fn shard_key_is_stable_and_bounded() {
    let id = Some(String::from("meter-42"));
    let k1 = get_shard_key(&id);
    let k2 = get_shard_key(&id);
    assert_eq!(k1, k2);
    assert!(k1 < 8);
    assert_eq!(get_shard_key(&None), 0);
}

#[test]
fn device_id_format() {
    assert!(validate_device_id("meter-1_a", 32).is_ok());
    assert!(validate_device_id("", 32).is_err());
    assert!(validate_device_id("has space", 32).is_err());
    assert!(validate_device_id("xxxxxxxxxxxxxxxxxxxxxxxxxxxxxxxxx", 32).is_err());
    assert!(validate_device_id("xxxxxxxxxxxxxxxxxxxxxxxxxxxxxxxx", 32).is_ok());
}

#[test]
fn directory_authenticates_by_role() {
    let mut dir = UserDirectory::new();
    dir.init_admin(String::from("host"), 42);

    // The admin may register users; a stranger may not.
    let stranger = User {
        principal: String::from("eve"),
        roles: vec![],
        created_at: 50,
    };
    assert!(dir
        .create_user(&String::from("eve"), stranger.clone())
        .is_err());

    let viewer = User {
        principal: String::from("carol"),
        roles: vec![String::from("viewer")],
        created_at: 60,
    };
    assert!(dir.create_user(&String::from("host"), viewer).is_ok());

    // Authentication against a required role.
    let required = vec![String::from("viewer")];
    assert!(dir.authenticate(&String::from("carol"), &required).is_ok());
    assert!(dir.authenticate(&String::from("host"), &required).is_err());
    assert!(dir.authenticate(&String::from("nobody"), &required).is_err());

    // No required roles: any known caller passes.
    let none: Vec<String> = Vec::new();
    let u = dir
        .authenticate(&String::from("host"), &none)
        .expect("admin should authenticate");
    assert_eq!(u.principal, "host");
    assert_eq!(u.created_at, 42);

    assert_eq!(
        dir.get_roles(&String::from("host")).expect("roles missing"),
        vec![String::from("admin")]
    );
    assert!(dir.get_roles(&String::from("nobody")).is_err());
}
