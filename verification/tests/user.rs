use openim::domain::user::{UserProfile, UserProfilePatch, UserProfileRepository, UserService};

fn profile(user_id: &str, nickname: &str, face_url: &str, updated_at: i64) -> UserProfile {
    UserProfile {
        user_id: user_id.to_string(),
        nickname: nickname.to_string(),
        face_url: face_url.to_string(),
        ex: String::new(),
        updated_at,
    }
}

#[test]
fn user_profile_round_trips_and_updates() {
    let mut service = UserService::new();
    service
        .upsert_profile(profile("u1", "Alice", "face-a", 1))
        .unwrap();

    service
        .update_profile(
            "u1",
            UserProfilePatch {
                nickname: Some("Alice B".to_string()),
                updated_at: Some(2),
                ..Default::default()
            },
        )
        .unwrap();

    let profile = service.get_profile("u1").unwrap().unwrap();
    assert_eq!(profile.nickname, "Alice B");
    assert_eq!(profile.face_url, "face-a");
    assert_eq!(profile.updated_at, 2);
}

#[test]
fn get_profiles_preserves_requested_order_and_skips_missing() {
    let mut service = UserService::new();
    for user_id in ["u1", "u2"] {
        service.upsert_profile(profile(user_id, user_id, "", 0)).unwrap();
    }

    let profiles = service
        .get_profiles(&["u2".to_string(), "missing".to_string(), "u1".to_string()])
        .unwrap();

    assert_eq!(
        profiles
            .iter()
            .map(|profile| profile.user_id.as_str())
            .collect::<Vec<_>>(),
        vec!["u2", "u1"]
    );
}

#[test]
fn repository_trait_delegates_to_user_service() {
    let mut repository = UserService::new();
    repository.save_profile(profile("u1", "Alice", "", 1)).unwrap();

    assert_eq!(
        repository.load_profile("u1").unwrap().unwrap().nickname,
        "Alice"
    );
}

#[test]
fn updating_unknown_profile_is_an_argument_error() {
    let mut service = UserService::new();
    let err = service
        .update_profile("ghost", UserProfilePatch::default())
        .unwrap_err();
    assert_eq!(err.code().as_i32(), 10002);
    assert_eq!(err.message(), "user profile not found: ghost");
}

#[test]
fn empty_user_ids_are_rejected() {
    let mut service = UserService::new();
    let err = service.upsert_profile(profile("", "x", "", 0)).unwrap_err();
    assert_eq!(err.message(), "user_id is empty");
    service.upsert_profile(profile("u1", "x", "", 0)).unwrap();
    let err = service
        .get_profiles(&["u1".to_string(), String::new()])
        .unwrap_err();
    assert_eq!(err.message(), "user_id is empty");
    assert!(service.get_profile("").is_err());
    assert_eq!(service.len(), 1);
    assert!(!service.is_empty());
}
