use rusty_store::auth::AuthManager;

#[test]
fn built_in_account_is_accepted() {
    let auth = AuthManager::new();
    assert!(auth.authenticate("admin", "password"));
}

#[test]
fn wrong_credentials_are_refused() {
    let auth = AuthManager::new();
    assert!(!auth.authenticate("admin", "Password"));
    assert!(!auth.authenticate("root", "password"));
    assert!(!auth.authenticate("", ""));
}
