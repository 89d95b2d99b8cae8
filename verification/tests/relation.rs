use openim::domain::relation::{
    BlacklistInfo, BlacklistRepository, FriendInfo, FriendRepository, RelationService,
};

fn friend(owner: &str, user_id: &str, nickname: &str) -> FriendInfo {
    FriendInfo {
        owner_user_id: owner.to_string(),
        friend_user_id: user_id.to_string(),
        nickname: nickname.to_string(),
        remark: String::new(),
        face_url: String::new(),
        updated_at: 0,
    }
}

fn black(owner: &str, user_id: &str) -> BlacklistInfo {
    BlacklistInfo {
        owner_user_id: owner.to_string(),
        blocked_user_id: user_id.to_string(),
        nickname: user_id.to_string(),
        face_url: String::new(),
        updated_at: 0,
    }
}

#[test]
fn sync_friends_inserts_updates_and_deletes_by_owner() {
    let mut service = RelationService::new();
    service.upsert_friend(friend("owner", "old", "Old")).unwrap();
    service
        .upsert_friend(friend("owner", "delete", "Delete"))
        .unwrap();
    service
        .upsert_friend(friend("other-owner", "keep", "Keep"))
        .unwrap();

    let summary = service
        .sync_friends(
            "owner",
            vec![friend("owner", "new", "New"), friend("owner", "old", "Old 2")],
        )
        .unwrap();

    assert_eq!(summary.inserted, 1);
    assert_eq!(summary.updated, 1);
    assert_eq!(summary.deleted, 1);
    assert_eq!(
        service.get_friend("owner", "old").unwrap().unwrap().nickname,
        "Old 2"
    );
    assert!(service.get_friend("owner", "delete").unwrap().is_none());
    assert!(service.get_friend("other-owner", "keep").unwrap().is_some());
}

#[test]
fn sync_blacklist_deletes_missing_items() {
    let mut service = RelationService::new();
    service.upsert_blacklist(black("owner", "blocked-1")).unwrap();

    let summary = service.sync_blacklist("owner", Vec::new()).unwrap();

    assert_eq!(summary.deleted, 1);
    assert!(service.all_blacklist("owner").unwrap().is_empty());
}

#[test]
fn repository_traits_delegate_to_relation_service() {
    let mut repository = RelationService::new();
    repository.save_friend(friend("owner", "u1", "Alice")).unwrap();
    repository.save_blacklist(black("owner", "u2")).unwrap();

    assert_eq!(repository.load_friends("owner").unwrap().len(), 1);
    assert_eq!(repository.load_blacklist("owner").unwrap().len(), 1);

    repository.remove_friend("owner", "u1").unwrap();
    repository.remove_blacklist("owner", "u2").unwrap();

    assert!(repository.load_friends("owner").unwrap().is_empty());
    assert!(repository.load_blacklist("owner").unwrap().is_empty());
}

#[test]
fn sync_friends_rejects_foreign_owner() {
    let mut service = RelationService::new();
    service.upsert_friend(friend("owner", "a", "A")).unwrap();
    let err = service
        .sync_friends("owner", vec![friend("intruder", "b", "B")])
        .unwrap_err();
    assert_eq!(err.code().as_i32(), 10002);
    assert_eq!(err.message(), "server item owner_user_id mismatch");
    assert_eq!(service.all_friends("owner").unwrap().len(), 1);
}

#[test]
fn all_friends_are_sorted_by_friend_id() {
    let mut service = RelationService::new();
    service.upsert_friend(friend("owner", "c", "C")).unwrap();
    service.upsert_friend(friend("owner", "a", "A")).unwrap();
    service.upsert_friend(friend("owner", "b", "B")).unwrap();
    let ids: Vec<String> = service
        .all_friends("owner")
        .unwrap()
        .into_iter()
        .map(|f| f.friend_user_id)
        .collect();
    assert_eq!(ids, vec!["a", "b", "c"]);
    let again = service
        .sync_friends(
            "owner",
            vec![friend("owner", "a", "A"), friend("owner", "b", "B"), friend("owner", "c", "C")],
        )
        .unwrap();
    assert_eq!(again.unchanged, 3);
    assert_eq!(again.inserted + again.updated + again.deleted, 0);
    let err = service.delete_friend("owner", "").unwrap_err();
    assert_eq!(err.message(), "target_user_id is empty");
}
