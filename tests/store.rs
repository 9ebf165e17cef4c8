use config_store::access::{Grant, SharedAccess};
use config_store::partition::{classify, Resource, MAX_SHARED_CONFIG_ID};
use config_store::store::{ConfigStore, NewConfig, StoreError, UpdateConfig};

fn grants_a_five() -> SharedAccess {
    SharedAccess::from_grants(vec![
        Grant { token: String::from("A"), shared_configs: vec![5] },
        Grant { token: String::from("B"), shared_configs: vec![] },
    ])
    .unwrap()
}

fn token(s: &str) -> String {
    String::from(s)
}

fn create(store: &mut ConfigStore, t: &str, content: &str) -> i32 {
    store
        .create(&token(t), NewConfig { content: String::from(content) })
        .unwrap()
}

#[test]
fn classify_boundaries() {
    assert_eq!(MAX_SHARED_CONFIG_ID, 1000);
    assert_eq!(classify(0), Resource::Private(0));
    assert_eq!(classify(1), Resource::Shared(1));
    assert_eq!(classify(MAX_SHARED_CONFIG_ID - 1), Resource::Shared(999));
    assert_eq!(classify(MAX_SHARED_CONFIG_ID), Resource::Private(1000));
    assert_eq!(classify(-7), Resource::Private(-7));
    assert_eq!(classify(i32::MAX), Resource::Private(i32::MAX));
    assert_eq!(classify(5).id(), 5);
}

#[test]
fn created_config_is_fetched_by_owner_only() {
    let mut store = ConfigStore::new(grants_a_five());
    let id = create(&mut store, "A", "{\"x\":1}");
    assert_eq!(id, MAX_SHARED_CONFIG_ID);
    let got = store.fetch(&token("A"), id).unwrap();
    assert_eq!(got.id, id);
    assert_eq!(got.owner, "A");
    assert_eq!(got.content.as_deref(), Some("{\"x\":1}"));
    assert_eq!(store.fetch(&token("B"), id).unwrap_err(), StoreError::Unauthorized);
}

#[test]
fn shared_config_visible_to_granted_token_only() {
    let mut store = ConfigStore::new(grants_a_five());
    assert_eq!(store.insert_shared_config(5, token("admin"), token("{\"s\":true}")), Ok(()));
    let got = store.fetch(&token("A"), 5).unwrap();
    assert_eq!(got.id, 5);
    assert_eq!(got.content.as_deref(), Some("{\"s\":true}"));
    assert_eq!(store.fetch(&token("C"), 5).unwrap_err(), StoreError::Unauthorized);
    let listed = store.list_for_user(&token("A"));
    assert_eq!(listed.len(), 1);
    assert_eq!(listed[0].id, 5);
    assert!(listed[0].content.is_none());
}

#[test]
fn unowned_private_fetch_matches_absent_fetch() {
    let mut store = ConfigStore::new(grants_a_five());
    let id = create(&mut store, "A", "{}");
    let unowned = store.fetch(&token("B"), id).unwrap_err();
    let absent = store.fetch(&token("B"), id + 1).unwrap_err();
    assert_eq!(unowned, absent);
    assert_eq!(absent, StoreError::Unauthorized);
    assert_eq!(store.fetch(&token("A"), 0).unwrap_err(), StoreError::Unauthorized);
}

#[test]
fn listing_holds_own_private_then_granted_shared() {
    let mut store = ConfigStore::new(grants_a_five());
    store.insert_shared_config(5, token("admin"), token("{\"s\":1}")).unwrap();
    store.insert_shared_config(6, token("admin"), token("{\"s\":2}")).unwrap();
    let a1 = create(&mut store, "A", "{\"a\":1}");
    let b1 = create(&mut store, "B", "{\"b\":1}");
    let a2 = create(&mut store, "A", "{\"a\":2}");
    let listed = store.list_for_user(&token("A"));
    let ids: Vec<i32> = listed.iter().map(|c| c.id).collect();
    assert_eq!(ids, vec![a1, a2, 5]);
    assert_eq!(listed[0].content.as_deref(), Some("{\"a\":1}"));
    assert_eq!(listed[1].content.as_deref(), Some("{\"a\":2}"));
    assert!(listed[2].content.is_none());
    let listed_b = store.list_for_user(&token("B"));
    assert_eq!(listed_b.len(), 1);
    assert_eq!(listed_b[0].id, b1);
    assert_eq!(listed_b[0].owner, "B");
    assert!(store.list_for_user(&token("nobody")).is_empty());
}

#[test]
fn listing_skips_missing_and_private_range_grants() {
    let access = SharedAccess::from_grants(vec![Grant {
        token: token("A"),
        shared_configs: vec![7, 5, 1000],
    }])
    .unwrap();
    let mut store = ConfigStore::new(access);
    store.insert_shared_config(5, token("admin"), token("{}")).unwrap();
    let other = create(&mut store, "B", "{\"secret\":1}");
    assert_eq!(other, 1000);
    let listed = store.list_for_user(&token("A"));
    assert_eq!(listed.len(), 1);
    assert_eq!(listed[0].id, 5);
    assert!(listed[0].content.is_none());
}

#[test]
fn create_assigns_caller_as_owner() {
    let mut store = ConfigStore::new(SharedAccess::new());
    let first = create(&mut store, "A", "{}");
    let second = create(&mut store, "B", "{}");
    assert_eq!(second, first + 1);
    assert_eq!(store.fetch(&token("A"), first).unwrap().owner, "A");
    assert_eq!(store.fetch(&token("B"), second).unwrap().owner, "B");
}

#[test]
fn update_by_non_owner_is_refused_and_changes_nothing() {
    let mut store = ConfigStore::new(grants_a_five());
    let id = create(&mut store, "A", "{\"v\":1}");
    let r = store.update(&token("B"), id, UpdateConfig { content: token("{\"v\":2}") });
    assert_eq!(r, Err(StoreError::Unauthorized));
    let got = store.fetch(&token("A"), id).unwrap();
    assert_eq!(got.content.as_deref(), Some("{\"v\":1}"));
    let absent = store.update(&token("A"), id + 1, UpdateConfig { content: token("{}") });
    assert_eq!(absent, Err(StoreError::Unauthorized));
}

#[test]
fn update_by_owner_replaces_content_idempotently() {
    let mut store = ConfigStore::new(grants_a_five());
    let id = create(&mut store, "A", "{\"v\":1}");
    let other = create(&mut store, "A", "{\"w\":1}");
    assert_eq!(store.update(&token("A"), id, UpdateConfig { content: token("{\"v\":2}") }), Ok(()));
    assert_eq!(store.fetch(&token("A"), id).unwrap().content.as_deref(), Some("{\"v\":2}"));
    assert_eq!(store.update(&token("A"), id, UpdateConfig { content: token("{\"v\":2}") }), Ok(()));
    assert_eq!(store.fetch(&token("A"), id).unwrap().content.as_deref(), Some("{\"v\":2}"));
    assert_eq!(store.fetch(&token("A"), other).unwrap().content.as_deref(), Some("{\"w\":1}"));
}

#[test]
fn update_of_shared_config_is_not_offered() {
    let mut store = ConfigStore::new(grants_a_five());
    store.insert_shared_config(5, token("admin"), token("{}")).unwrap();
    let r = store.update(&token("A"), 5, UpdateConfig { content: token("{\"x\":2}") });
    assert_eq!(r, Err(StoreError::Unimplemented));
    assert_eq!(store.fetch(&token("A"), 5).unwrap().content.as_deref(), Some("{}"));
}

#[test]
fn shared_insert_refuses_private_range_and_duplicates() {
    let mut store = ConfigStore::new(SharedAccess::new());
    assert_eq!(store.insert_shared_config(1000, token("admin"), token("{}")), Err(StoreError::Storage));
    assert_eq!(store.insert_shared_config(0, token("admin"), token("{}")), Err(StoreError::Storage));
    assert_eq!(store.insert_shared_config(3, token("admin"), token("{}")), Ok(()));
    assert_eq!(store.insert_shared_config(3, token("admin"), token("{}")), Err(StoreError::Storage));
}

#[test]
fn grants_refuse_repeated_token() {
    let r = SharedAccess::from_grants(vec![
        Grant { token: token("A"), shared_configs: vec![1] },
        Grant { token: token("B"), shared_configs: vec![2] },
        Grant { token: token("A"), shared_configs: vec![3] },
    ]);
    match r {
        Err(t) => assert_eq!(t, "A"),
        Ok(_) => panic!("a repeated token must be refused"),
    }
}

#[test]
fn grants_answer_per_token() {
    let access = grants_a_five();
    assert_eq!(access.visible_shared_ids(&token("A")), vec![5]);
    assert!(access.visible_shared_ids(&token("B")).is_empty());
    assert!(access.visible_shared_ids(&token("Z")).is_empty());
    assert!(access.may_read_shared(&token("A"), 5));
    assert!(!access.may_read_shared(&token("A"), 6));
    assert!(!access.may_read_shared(&token("C"), 5));
}
