use shine_identity::identity::{
    DBError, ExternalLoginInfo, FindIdentity, Identity, IdentityError, IdentityKind, IdentityManager,
    SearchIdentity, SearchIdentityOrder,
};

fn login(provider: &str, id: &str) -> ExternalLoginInfo {
    ExternalLoginInfo { provider: provider.to_string(), provider_id: id.to_string() }
}

fn same(a: &Identity, b: &Identity) -> bool {
    a.user_id == b.user_id
        && a.kind == b.kind
        && a.name == b.name
        && a.email == b.email
        && a.is_email_confirmed == b.is_email_confirmed
        && a.creation == b.creation
}

fn names(found: &[Identity]) -> Vec<String> {
    found.iter().map(|i| i.name.clone()).collect()
}

fn search_by_name(cursor: Option<(String, u128)>, count: Option<usize>) -> SearchIdentity<'static> {
    SearchIdentity { order: SearchIdentityOrder::Name(cursor), count, user_ids: None, emails: None, names: None }
}

#[test]
fn kind_codes_round_trip() {
    assert_eq!(IdentityKind::User.to_code(), 1);
    assert_eq!(IdentityKind::Studio.to_code(), 2);
    assert_eq!(IdentityKind::from_code(1), Some(IdentityKind::User));
    assert_eq!(IdentityKind::from_code(2), Some(IdentityKind::Studio));
    assert_eq!(IdentityKind::from_code(0), None);
    assert_eq!(IdentityKind::from_code(3), None);
}

#[test]
fn created_identity_is_found_by_id_name_and_email() {
    let mut store = IdentityManager::new();
    let created = store.create_user(7, "alice", Some("alice@example.com"), None).unwrap();
    assert_eq!(created.user_id, 7);
    assert_eq!(created.name, "alice");
    assert_eq!(created.email.as_deref(), Some("alice@example.com"));
    assert_eq!(created.kind, IdentityKind::User);
    assert!(!created.is_email_confirmed);
    for find in [FindIdentity::UserId(7), FindIdentity::Name("alice"), FindIdentity::Email("alice@example.com")] {
        let found = store.find(find).unwrap().unwrap();
        assert!(same(&found, &created));
    }
    assert!(store.find(FindIdentity::Name("bob")).unwrap().is_none());
    assert!(store.find(FindIdentity::UserId(8)).unwrap().is_none());
}

#[test]
fn created_identity_without_email_is_found() {
    let mut store = IdentityManager::new();
    let created = store.create_user(1, "nomail", None, None).unwrap();
    assert!(created.email.is_none());
    assert!(same(&store.find(FindIdentity::UserId(1)).unwrap().unwrap(), &created));
    assert!(store.find(FindIdentity::Email("")).unwrap().is_none());
}

#[test]
fn conflicting_user_id_name_or_email_adds_nothing() {
    let mut store = IdentityManager::new();
    let original = store.create_user(1, "alice", Some("a@x.com"), None).unwrap();

    assert!(matches!(store.create_user(1, "other", Some("o@x.com"), None), Err(IdentityError::UserIdConflict)));
    assert!(matches!(store.create_user(2, "alice", Some("o@x.com"), None), Err(IdentityError::NameConflict)));
    assert!(matches!(store.create_user(3, "other", Some("a@x.com"), None), Err(IdentityError::LinkEmailConflict)));

    for id in [2u128, 3] {
        assert!(store.find(FindIdentity::UserId(id)).unwrap().is_none());
    }
    assert!(store.find(FindIdentity::Name("other")).unwrap().is_none());
    let kept = store.find(FindIdentity::UserId(1)).unwrap().unwrap();
    assert!(same(&kept, &original));
}

#[test]
fn user_id_conflict_is_reported_first() {
    let mut store = IdentityManager::new();
    store.create_user(1, "alice", Some("a@x.com"), None).unwrap();
    assert!(matches!(store.create_user(1, "alice", Some("a@x.com"), None), Err(IdentityError::UserIdConflict)));
    assert!(matches!(store.create_user(2, "alice", Some("a@x.com"), None), Err(IdentityError::NameConflict)));
}

#[test]
fn create_with_taken_provider_account_rolls_back() {
    let mut store = IdentityManager::new();
    store.create_user(1, "alice", None, Some(&login("github", "42"))).unwrap();
    let r = store.create_user(2, "bob", Some("b@x.com"), Some(&login("github", "42")));
    assert!(matches!(r, Err(IdentityError::LinkProviderConflict)));
    assert!(store.find(FindIdentity::UserId(2)).unwrap().is_none());
    assert!(store.find(FindIdentity::Name("bob")).unwrap().is_none());
    let linked = store.find(FindIdentity::ExternalLogin(&login("github", "42"))).unwrap().unwrap();
    assert_eq!(linked.user_id, 1);
}

#[test]
fn linking_same_account_twice_fails() {
    let mut store = IdentityManager::new();
    store.create_user(1, "alice", None, None).unwrap();
    store.create_user(2, "bob", None, None).unwrap();
    store.link_user(1, &login("google", "g-1")).unwrap();
    assert!(matches!(store.link_user(2, &login("google", "g-1")), Err(IdentityError::LinkProviderConflict)));
    assert!(matches!(store.link_user(1, &login("google", "g-1")), Err(IdentityError::LinkProviderConflict)));
    let owner = store.find(FindIdentity::ExternalLogin(&login("google", "g-1"))).unwrap().unwrap();
    assert_eq!(owner.user_id, 1);
    // the same id at another provider is another account
    store.link_user(2, &login("github", "g-1")).unwrap();
    let other = store.find(FindIdentity::ExternalLogin(&login("github", "g-1"))).unwrap().unwrap();
    assert_eq!(other.user_id, 2);
}

#[test]
fn linking_to_unknown_user_fails() {
    let mut store = IdentityManager::new();
    assert!(matches!(
        store.link_user(9, &login("google", "x")),
        Err(IdentityError::DBError(DBError::Conflict))
    ));
    assert!(store.find(FindIdentity::ExternalLogin(&login("google", "x"))).unwrap().is_none());
}

#[test]
fn delete_removes_identity_and_its_links() {
    let mut store = IdentityManager::new();
    store.create_user(1, "alice", Some("a@x.com"), Some(&login("github", "a"))).unwrap();
    store.create_user(2, "bob", None, Some(&login("github", "b"))).unwrap();
    store.link_user(1, &login("google", "a")).unwrap();
    store.delete_identity(1).unwrap();
    assert!(store.find(FindIdentity::UserId(1)).unwrap().is_none());
    assert!(store.find(FindIdentity::ExternalLogin(&login("github", "a"))).unwrap().is_none());
    assert!(store.find(FindIdentity::ExternalLogin(&login("google", "a"))).unwrap().is_none());
    assert_eq!(store.find(FindIdentity::ExternalLogin(&login("github", "b"))).unwrap().unwrap().user_id, 2);
    // the name, email and accounts are free again
    store.create_user(3, "alice", Some("a@x.com"), Some(&login("github", "a"))).unwrap();
    // deleting an unknown identity is no error
    store.delete_identity(99).unwrap();
}

fn store_a1_to_a10() -> IdentityManager {
    let mut store = IdentityManager::new();
    // inserted out of order, with user ids unrelated to the names
    for n in [7u128, 3, 10, 1, 5, 9, 2, 8, 4, 6] {
        store.create_user(100 - n, &format!("a{n:02}"), None, None).unwrap();
    }
    store
}

#[test]
fn pages_by_name_follow_each_other() {
    let store = store_a1_to_a10();
    let page1 = store.search(search_by_name(None, Some(3))).unwrap();
    assert_eq!(names(&page1), vec!["a01", "a02", "a03"]);
    let last = page1.last().unwrap();
    let page2 = store.search(search_by_name(Some((last.name.clone(), last.user_id)), Some(3))).unwrap();
    assert_eq!(names(&page2), vec!["a04", "a05", "a06"]);
    let last = page2.last().unwrap();
    let page3 = store.search(search_by_name(Some((last.name.clone(), last.user_id)), Some(10))).unwrap();
    assert_eq!(names(&page3), vec!["a07", "a08", "a09", "a10"]);
}

#[test]
fn page_is_stable_under_unrelated_inserts() {
    let mut store = store_a1_to_a10();
    let page1 = store.search(search_by_name(None, Some(3))).unwrap();
    let last = page1.last().unwrap();
    let cursor = (last.name.clone(), last.user_id);
    store.create_user(1000, "a00", None, None).unwrap();
    let page2 = store.search(search_by_name(Some(cursor), Some(3))).unwrap();
    assert_eq!(names(&page2), vec!["a04", "a05", "a06"]);
}

#[test]
fn search_count_is_capped_at_one_hundred() {
    let mut store = IdentityManager::new();
    for n in 0..120u128 {
        store.create_user(n, &format!("u{n:03}"), None, None).unwrap();
    }
    assert_eq!(store.search(search_by_name(None, Some(500))).unwrap().len(), 100);
    assert_eq!(store.search(search_by_name(None, None)).unwrap().len(), 100);
    assert_eq!(store.search(search_by_name(None, Some(0))).unwrap().len(), 0);
    let by_id = SearchIdentity {
        order: SearchIdentityOrder::UserId(Some(115)),
        count: None,
        user_ids: None,
        emails: None,
        names: None,
    };
    let ids: Vec<u128> = store.search(by_id).unwrap().iter().map(|i| i.user_id).collect();
    assert_eq!(ids, vec![116, 117, 118, 119]);
}

#[test]
fn search_filters_are_a_conjunction() {
    let mut store = IdentityManager::new();
    store.create_user(1, "ann", Some("ann@x.com"), None).unwrap();
    store.create_user(2, "bob", Some("bob@x.com"), None).unwrap();
    store.create_user(3, "cid", None, None).unwrap();
    let ids = [1u128, 2, 3];
    let wanted = vec!["bob".to_string(), "cid".to_string()];
    let search = SearchIdentity {
        order: SearchIdentityOrder::UserId(None),
        count: None,
        user_ids: Some(&ids),
        emails: None,
        names: Some(&wanted),
    };
    assert_eq!(names(&store.search(search).unwrap()), vec!["bob", "cid"]);
    let emails = vec!["bob@x.com".to_string(), "cid@x.com".to_string()];
    let search = SearchIdentity {
        order: SearchIdentityOrder::UserId(None),
        count: None,
        user_ids: Some(&ids),
        emails: Some(&emails),
        names: Some(&wanted),
    };
    assert_eq!(names(&store.search(search).unwrap()), vec!["bob"]);
}

#[test]
fn search_by_email_puts_missing_emails_last() {
    let mut store = IdentityManager::new();
    store.create_user(1, "n1", None, None).unwrap();
    store.create_user(2, "n2", Some("b@x.com"), None).unwrap();
    store.create_user(3, "n3", Some("a@x.com"), None).unwrap();
    let search = SearchIdentity {
        order: SearchIdentityOrder::Email(None),
        count: None,
        user_ids: None,
        emails: None,
        names: None,
    };
    assert_eq!(names(&store.search(search).unwrap()), vec!["n3", "n2", "n1"]);
    let search = SearchIdentity {
        order: SearchIdentityOrder::Email(Some(("a@x.com".to_string(), 3))),
        count: Some(1),
        user_ids: None,
        emails: None,
        names: None,
    };
    assert_eq!(names(&store.search(search).unwrap()), vec!["n2"]);
}

#[test]
fn external_login_resolves_or_registers() {
    let mut store = IdentityManager::new();
    let created = store.login_external(&login("github", "42"), 1, "octo", Some("o@x.com")).unwrap();
    assert_eq!(created.user_id, 1);
    assert_eq!(created.name, "octo");
    // the second login finds the same identity and registers nothing
    let again = store.login_external(&login("github", "42"), 2, "other", None).unwrap();
    assert!(same(&again, &created));
    assert!(store.find(FindIdentity::UserId(2)).unwrap().is_none());
    // a new account whose name is taken is refused, and nothing is linked
    let r = store.login_external(&login("google", "g"), 3, "octo", None);
    assert!(matches!(r, Err(IdentityError::NameConflict)));
    assert!(store.find(FindIdentity::ExternalLogin(&login("google", "g"))).unwrap().is_none());
}
