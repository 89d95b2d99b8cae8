use openim::domain::group::{GroupInfo, GroupMemberInfo, GroupService};

fn group(group_id: &str, name: &str) -> GroupInfo {
    GroupInfo {
        group_id: group_id.to_string(),
        group_name: name.to_string(),
        face_url: String::new(),
        owner_user_id: "owner".to_string(),
        member_count: 1,
        updated_at: 0,
    }
}

fn member(group_id: &str, user_id: &str, nickname: &str) -> GroupMemberInfo {
    GroupMemberInfo {
        group_id: group_id.to_string(),
        user_id: user_id.to_string(),
        nickname: nickname.to_string(),
        face_url: String::new(),
        role_level: 0,
        join_time: 0,
    }
}

#[test]
fn sync_groups_inserts_updates_and_deletes() {
    let mut service = GroupService::new();
    service.upsert_group(group("g-old", "Old")).unwrap();
    service.upsert_group(group("g-delete", "Delete")).unwrap();
    service
        .upsert_member(member("g-delete", "u-delete", "Delete"))
        .unwrap();

    let summary = service
        .sync_groups(vec![group("g-new", "New"), group("g-old", "Old 2")])
        .unwrap();

    assert_eq!(summary.inserted, 1);
    assert_eq!(summary.updated, 1);
    assert_eq!(summary.deleted, 1);
    assert_eq!(
        service.get_group("g-old").unwrap().unwrap().group_name,
        "Old 2"
    );
    assert!(service.get_group("g-delete").unwrap().is_none());
    assert!(service.group_members("g-delete").unwrap().is_empty());
}

#[test]
fn sync_group_members_is_scoped_by_group() {
    let mut service = GroupService::new();
    service.upsert_member(member("g1", "u1", "old")).unwrap();
    service.upsert_member(member("g2", "u2", "keep")).unwrap();

    let summary = service
        .sync_group_members("g1", vec![member("g1", "u3", "new")])
        .unwrap();

    assert_eq!(summary.inserted, 1);
    assert_eq!(summary.deleted, 1);
    assert_eq!(
        service
            .group_members("g1")
            .unwrap()
            .iter()
            .map(|member| member.user_id.as_str())
            .collect::<Vec<_>>(),
        vec!["u3"]
    );
    assert_eq!(service.group_members("g2").unwrap().len(), 1);
}

#[test]
fn joined_groups_are_sorted_and_empty_ids_rejected() {
    let mut service = GroupService::new();
    service.upsert_group(group("g2", "B")).unwrap();
    service.upsert_group(group("g1", "A")).unwrap();
    let ids: Vec<String> = service
        .joined_groups()
        .into_iter()
        .map(|g| g.group_id)
        .collect();
    assert_eq!(ids, vec!["g1", "g2"]);
    let err = service.upsert_group(group("", "X")).unwrap_err();
    assert_eq!(err.code().as_i32(), 10002);
    assert_eq!(err.message(), "group_id is empty");
}

#[test]
fn removed_group_leaves_no_members_and_kept_groups_keep_theirs() {
    let mut service = GroupService::new();
    service.upsert_group(group("g-keep", "Keep")).unwrap();
    service.upsert_group(group("g-gone", "Gone")).unwrap();
    service.upsert_member(member("g-keep", "u1", "a")).unwrap();
    service.upsert_member(member("g-gone", "u1", "a")).unwrap();
    service.upsert_member(member("g-gone", "u2", "b")).unwrap();

    service.sync_groups(vec![group("g-keep", "Keep")]).unwrap();

    assert!(service.group_members("g-gone").unwrap().is_empty());
    assert_eq!(service.group_members("g-keep").unwrap().len(), 1);
}
