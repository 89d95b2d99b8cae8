//! User profiles.
use vstd::prelude::*;

use crate::errors::{empty_message, ensure_not_empty, error_of, ErrorView, OpenImError};
use crate::keyed::{Duplicate, Key, Keyed, KeyedStore};
use crate::text::{concat2, str_eq};

verus! {

#[derive(Debug, Clone, PartialEq, Eq)]
pub struct UserProfile {
    pub user_id: String,
    pub nickname: String,
    pub face_url: String,
    pub ex: String,
    pub updated_at: i64,
}

/// The fields of a profile to change; `None` keeps a field.
#[derive(Debug, Clone, PartialEq, Eq)]
pub struct UserProfilePatch {
    pub nickname: Option<String>,
    pub face_url: Option<String>,
    pub ex: Option<String>,
    pub updated_at: Option<i64>,
}

impl Default for UserProfilePatch {
    fn default() -> (r: UserProfilePatch)
        ensures
            r.nickname is None && r.face_url is None && r.ex is None && r.updated_at is None,
    {
        UserProfilePatch { nickname: None, face_url: None, ex: None, updated_at: None }
    }
}

impl Duplicate for UserProfile {
    fn duplicate(&self) -> (r: UserProfile)
        ensures
            r == *self,
    {
        UserProfile {
            user_id: self.user_id.clone(),
            nickname: self.nickname.clone(),
            face_url: self.face_url.clone(),
            ex: self.ex.clone(),
            updated_at: self.updated_at,
        }
    }
}

/// The key of a user's profile: no scope, and the user id.
pub open spec fn user_key(user_id: Seq<char>) -> Key {
    (Seq::empty(), user_id)
}

impl Keyed for UserProfile {
    open spec fn spec_key(&self) -> Key {
        user_key(self.user_id@)
    }

    fn key_is(&self, scope: &str, id: &str) -> (r: bool) {
        if scope.is_empty() {
            assert(scope@ =~= Seq::<char>::empty());
            str_eq(self.user_id.as_str(), id)
        } else {
            false
        }
    }

    fn same_key(&self, other: &Self) -> (r: bool) {
        self.user_id.eq(&other.user_id)
    }

    fn in_scope(&self, scope: &str) -> (r: bool) {
        let r = scope.is_empty();
        if r {
            assert(scope@ =~= Seq::<char>::empty());
        }
        r
    }
}

/// A profile with a patch applied.
pub open spec fn patched(p: UserProfile, patch: UserProfilePatch) -> UserProfile {
    UserProfile {
        user_id: p.user_id,
        nickname: match patch.nickname {
            Some(n) => n,
            None => p.nickname,
        },
        face_url: match patch.face_url {
            Some(f) => f,
            None => p.face_url,
        },
        ex: match patch.ex {
            Some(e) => e,
            None => p.ex,
        },
        updated_at: match patch.updated_at {
            Some(t) => t,
            None => p.updated_at,
        },
    }
}

/// The profiles of the listed users that are stored, in list order.
pub open spec fn profiles_for(ids: Seq<String>, m: Map<Key, UserProfile>) -> Seq<UserProfile>
    decreases ids.len(),
{
    if ids.len() == 0 {
        Seq::empty()
    } else {
        profiles_for(ids.drop_last(), m) + if m.contains_key(user_key(ids.last()@)) {
            seq![m[user_key(ids.last()@)]]
        } else {
            Seq::empty()
        }
    }
}

/// The message of a missing profile.
pub open spec fn profile_not_found(user_id: Seq<char>) -> Seq<char> {
    "user profile not found: "@ + user_id
}

/// A repository of user profiles.
pub trait UserProfileRepository {
    fn save_profile(&mut self, profile: UserProfile) -> Result<(), OpenImError>;

    fn load_profile(&self, user_id: &str) -> Result<Option<UserProfile>, OpenImError>;

    fn load_profiles(&self, user_ids: &[String]) -> Result<Vec<UserProfile>, OpenImError>;
}

/// Profiles of users, by user id.
pub struct UserService {
    profiles: KeyedStore<UserProfile>,
}

impl Default for UserService {
    fn default() -> (r: UserService)
        ensures
            r.view() == Map::<Key, UserProfile>::empty(),
    {
        UserService::new()
    }
}

impl UserService {
    pub closed spec fn view(&self) -> Map<Key, UserProfile> {
        self.profiles.view()
    }

    pub fn new() -> (r: UserService)
        ensures
            r.view() == Map::<Key, UserProfile>::empty(),
    {
        UserService { profiles: KeyedStore::new() }
    }

    /// Stores a profile under its user id.
    pub fn upsert_profile(&mut self, profile: UserProfile) -> (r: Result<(), OpenImError>)
        ensures
            r is Ok <==> profile.user_id@.len() > 0,
            r matches Err(e) ==> e@ == error_of(10002, empty_message("user_id"@)) && final(self).view() == old(self).view(),
            r is Ok ==> final(self).view() == old(self).view().insert(
                user_key(profile.user_id@),
                profile,
            ),
    {
        ensure_not_empty(profile.user_id.as_str(), "user_id")?;
        self.profiles.upsert(profile);
        Ok(())
    }

    /// Changes the patched fields of a stored profile.
    pub fn update_profile(&mut self, user_id: &str, patch: UserProfilePatch) -> (r: Result<
        (),
        OpenImError,
    >)
        ensures
            r is Ok <==> user_id@.len() > 0 && old(self).view().contains_key(user_key(user_id@)),
            r matches Err(e) ==> final(self).view() == old(self).view() && e@ == (if user_id@.len()
                == 0 {
                error_of(10002, empty_message("user_id"@))
            } else {
                error_of(10002, profile_not_found(user_id@))
            }),
            r is Ok ==> final(self).view() == old(self).view().insert(
                user_key(user_id@),
                patched(old(self).view()[user_key(user_id@)], patch),
            ),
    {
        ensure_not_empty(user_id, "user_id")?;
        proof {
            reveal_strlit("");
            assert(""@ =~= Seq::<char>::empty());
        }
        let current = match self.profiles.get("", user_id) {
            Some(p) => p.duplicate(),
            None => {
                let message = concat2("user profile not found: ", user_id);
                return Err(OpenImError::with_message(crate::errors::ErrorCode::args(), message));
            },
        };
        let mut profile = current;
        if let Some(nickname) = patch.nickname {
            profile.nickname = nickname;
        }
        if let Some(face_url) = patch.face_url {
            profile.face_url = face_url;
        }
        if let Some(ex) = patch.ex {
            profile.ex = ex;
        }
        if let Some(updated_at) = patch.updated_at {
            profile.updated_at = updated_at;
        }
        proof {
            reveal_strlit("");
            assert(""@ =~= Seq::<char>::empty());
        }
        self.profiles.upsert(profile);
        Ok(())
    }

    /// The stored profile of a user, if any.
    pub fn get_profile(&self, user_id: &str) -> (r: Result<Option<UserProfile>, OpenImError>)
        ensures
            r is Err <==> user_id@.len() == 0,
            r matches Err(e) ==> e@ == error_of(10002, empty_message("user_id"@)),
            r matches Ok(o) ==> (o is Some <==> self.view().contains_key(user_key(user_id@))),
            r matches Ok(Some(p)) ==> p == self.view()[user_key(user_id@)],
    {
        ensure_not_empty(user_id, "user_id")?;
        proof {
            reveal_strlit("");
            assert(""@ =~= Seq::<char>::empty());
        }
        match self.profiles.get("", user_id) {
            Some(p) => Ok(Some(p.duplicate())),
            None => Ok(None),
        }
    }

    /// The stored profiles of the listed users, in list order; fails when
    /// any listed id is empty.
    pub fn get_profiles(&self, user_ids: &[String]) -> (r: Result<Vec<UserProfile>, OpenImError>)
        ensures
            r is Ok <==> forall|i: int| 0 <= i < user_ids@.len() ==> #[trigger] user_ids@[i]@.len()
                > 0,
            r matches Err(e) ==> e@ == error_of(10002, empty_message("user_id"@)),
            r matches Ok(v) ==> v@ == profiles_for(user_ids@, self.view()),
    {
        let mut out: Vec<UserProfile> = Vec::new();
        let mut i: usize = 0;
        proof {
            reveal_strlit("");
            assert(""@ =~= Seq::<char>::empty());
        }
        while i < user_ids.len()
            invariant
                i <= user_ids@.len(),
                forall|j: int| 0 <= j < i ==> #[trigger] user_ids@[j]@.len() > 0,
                out@ == profiles_for(user_ids@.take(i as int), self.view()),
                ""@ == Seq::<char>::empty(),
            decreases user_ids.len() - i,
        {
            let id = &user_ids[i];
            ensure_not_empty(id.as_str(), "user_id")?;
            assert(user_ids@.take(i + 1).drop_last() =~= user_ids@.take(i as int));
            if let Some(p) = self.profiles.get("", id.as_str()) {
                out.push(p.duplicate());
            }
            i = i + 1;
        }
        assert(user_ids@.take(i as int) =~= user_ids@);
        Ok(out)
    }

    /// Number of stored profiles.
    pub fn len(&self) -> (r: usize)
        ensures
            r == self.view().dom().len(),
    {
        self.profiles.len()
    }

    pub fn is_empty(&self) -> (r: bool)
        ensures
            r == (self.view().dom().len() == 0),
    {
        self.profiles.len() == 0
    }
}

impl UserProfileRepository for UserService {
    fn save_profile(&mut self, profile: UserProfile) -> (r: Result<(), OpenImError>)
        ensures
            r is Ok <==> profile.user_id@.len() > 0,
            r matches Err(e) ==> e@ == error_of(10002, empty_message("user_id"@)) && final(self).view() == old(self).view(),
            r is Ok ==> final(self).view() == old(self).view().insert(
                user_key(profile.user_id@),
                profile,
            ),
    {
        self.upsert_profile(profile)
    }

    fn load_profile(&self, user_id: &str) -> (r: Result<Option<UserProfile>, OpenImError>)
        ensures
            r is Err <==> user_id@.len() == 0,
            r matches Err(e) ==> e@ == error_of(10002, empty_message("user_id"@)),
            r matches Ok(o) ==> (o is Some <==> self.view().contains_key(user_key(user_id@))),
            r matches Ok(Some(p)) ==> p == self.view()[user_key(user_id@)],
    {
        self.get_profile(user_id)
    }

    fn load_profiles(&self, user_ids: &[String]) -> (r: Result<Vec<UserProfile>, OpenImError>)
        ensures
            r is Ok <==> forall|i: int| 0 <= i < user_ids@.len() ==> #[trigger] user_ids@[i]@.len() > 0,
            r matches Err(e) ==> e@ == error_of(10002, empty_message("user_id"@)),
            r matches Ok(v) ==> v@ == profiles_for(user_ids@, self.view()),
    {
        self.get_profiles(user_ids)
    }
}

} // verus!
