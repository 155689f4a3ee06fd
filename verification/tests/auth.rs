use squillion::auth::pwd_file::check_entry;
use squillion::auth::pwd_file::check_sha_password;
use squillion::auth::pwd_file::PasswordAuth;
use squillion::messages::ReturnCode;

const USERS: &str = "user1:{SHA}44rSFJQ9qtHWTBAvrsKd5K/p2j0=\nuser2:secret\nbroken\nuser3:a:b\r\n\nuser5:{SHA}7bqVXQ6hX9709hcm75flr1B0MMA=\r\n";

#[test]
fn test_sha_password() {
    assert!(check_sha_password("password", "W6ph5Mm5Pz8GgiULbPgzG37mj9g="));
    assert!(!check_sha_password("notpassword", "W6ph5Mm5Pz8GgiULbPgzG37mj9g="));
}

#[test]
fn test_password_file() {
    let mut pa = PasswordAuth::new();
    pa.load_password_file(USERS);

    assert_eq!(pa.check_password_internal("user1", "password1"), ReturnCode::Accepted);
    assert_eq!(
        pa.check_password_internal("user1", "password2"),
        ReturnCode::BadUsernameOrPassword
    );
    assert_eq!(pa.check_password_internal("user5", "password5"), ReturnCode::Accepted);
}

#[test]
fn faulty_lines_are_told() {
    let mut pa = PasswordAuth::new();
    assert_eq!(pa.load_password_file(USERS), vec!["broken", "user3:a:b", ""]);
    assert_eq!(pa.check_password_internal("user2", "secret"), ReturnCode::BadUsernameOrPassword);
    assert_eq!(pa.check_password_internal("nobody", ""), ReturnCode::BadUsernameOrPassword);
    let response = pa.check_password("user1", "password1");
    assert_eq!(response.return_code, ReturnCode::Accepted);
    assert_eq!(response.tenant, None);
}

#[test]
fn later_lines_count() {
    let mut pa = PasswordAuth::new();
    assert!(pa.load_password_file("u:x\nu:{SHA}W6ph5Mm5Pz8GgiULbPgzG37mj9g=").is_empty());
    assert_eq!(pa.check_password_internal("u", "password"), ReturnCode::Accepted);
}

#[test]
fn entries_are_compared_with_the_hash() {
    let entry = "{SHA}abc".to_string();
    assert_eq!(check_entry(Some(&entry), "abc"), ReturnCode::Accepted);
    assert_eq!(check_entry(Some(&entry), "abd"), ReturnCode::BadUsernameOrPassword);
    assert_eq!(check_entry(None, "abc"), ReturnCode::BadUsernameOrPassword);
    let plain = "abc".to_string();
    assert_eq!(check_entry(Some(&plain), "abc"), ReturnCode::BadUsernameOrPassword);
}

#[test]
fn hashes_of_other_passwords() {
    assert!(check_sha_password("", "2jmj7l5rSw0yVb/vlWAYkK/YBwk="));
    assert!(check_sha_password("abc", "qZk+NkcGgWq6PiVxeFDCbJzQ2J0="));
}

#[test]
fn the_last_line_for_a_user_counts_wherever_it_stands() {
    let mut pa = PasswordAuth::new();
    pa.load_password_file(
        "u:x\nu:{SHA}W6ph5Mm5Pz8GgiULbPgzG37mj9g=\nv:{SHA}qZk+NkcGgWq6PiVxeFDCbJzQ2J0=\nbroken",
    );
    assert_eq!(pa.check_password_internal("u", "password"), ReturnCode::Accepted);
    assert_eq!(pa.check_password_internal("u", "abc"), ReturnCode::BadUsernameOrPassword);
    assert_eq!(pa.check_password_internal("v", "abc"), ReturnCode::Accepted);
    assert_eq!(pa.check_password_internal("w", "abc"), ReturnCode::BadUsernameOrPassword);
}
