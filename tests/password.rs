use ectfy::password::{check_new_password, PasswordCheck};

#[test]
fn test_password_confirmation_mismatch() {
    assert_eq!(check_new_password("secret", Some("secreT")), PasswordCheck::Mismatch);
}

#[test]
fn password_confirmation_outcomes() {
    assert_eq!(check_new_password("", None), PasswordCheck::Empty);
    assert_eq!(check_new_password("", Some("")), PasswordCheck::Empty);
    assert_eq!(check_new_password("pw", None), PasswordCheck::NeedsConfirmation);
    assert_eq!(check_new_password("pw", Some("pw")), PasswordCheck::Accepted);
    assert_eq!(check_new_password("pw", Some("pw ")), PasswordCheck::Mismatch);
}
