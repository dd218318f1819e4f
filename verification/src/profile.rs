//! The read-only profile lookup consumed when a membership event is built.

use vstd::prelude::*;

use crate::error::ApiError;
use crate::store::Store;

verus! {

/// A user's display name and avatar reference, as the profile source
/// stores them. Both fields may be absent.
#[derive(Debug, PartialEq, Eq)]
pub struct Profile {
    /// The user the profile belongs to.
    pub user_id: String,
    /// A reference to the user's avatar, if one is set.
    pub avatar_url: Option<String>,
    /// The user's display name, if one is set.
    pub displayname: Option<String>,
}

impl Clone for Profile {
    fn clone(&self) -> (r: Self)
        ensures
            r == *self,
    {
        Profile {
            user_id: self.user_id.clone(),
            avatar_url: match &self.avatar_url {
                Some(url) => Some(url.clone()),
                None => None,
            },
            displayname: match &self.displayname {
                Some(name) => Some(name.clone()),
                None => None,
            },
        }
    }
}

/// The first profile of `s` for `user`, if any.
pub open spec fn spec_find_profile(s: Seq<Profile>, user: Seq<char>) -> Option<Profile>
    decreases s.len(),
{
    if s.len() == 0 {
        None
    } else if s[0].user_id@ == user {
        Some(s[0])
    } else {
        spec_find_profile(s.drop_first(), user)
    }
}

/// The avatar reference a membership event built against `p` carries.
pub open spec fn spec_profile_avatar(p: Option<Profile>) -> Option<String> {
    match p {
        Some(q) => q.avatar_url,
        None => None,
    }
}

/// The display name a membership event built against `p` carries.
pub open spec fn spec_profile_displayname(p: Option<Profile>) -> Option<String> {
    match p {
        Some(q) => q.displayname,
        None => None,
    }
}

impl Profile {
    /// Look up the profile stored for a user.
    ///
    /// Absence is an empty result, never an error.
    pub fn find_by_user_id(store: &Store, user_id: &str) -> (r: Result<Option<Profile>, ApiError>)
        ensures
            (match r {
                Ok(found) => found == spec_find_profile(store.profiles@, user_id@),
                Err(_) => false,
            }),
    {
        let u = user_id.to_owned();
        let n = store.profiles.len();
        let mut i: usize = 0;
        proof {
            assert(store.profiles@.skip(0) =~= store.profiles@);
        }
        while i < n
            invariant
                n == store.profiles@.len(),
                i <= n,
                u@ == user_id@,
                spec_find_profile(store.profiles@.skip(i as int), u@) == spec_find_profile(
                    store.profiles@,
                    u@,
                ),
            decreases n - i,
        {
            let profile = &store.profiles[i];
            if profile.user_id == u {
                proof {
                    assert(store.profiles@.skip(i as int)[0] == store.profiles@[i as int]);
                }
                return Ok(Some(profile.clone()));
            }
            proof {
                assert(store.profiles@.skip(i as int).drop_first() =~= store.profiles@.skip(
                    i as int + 1,
                ));
            }
            i = i + 1;
        }
        proof {
            assert(store.profiles@.skip(n as int) =~= Seq::<Profile>::empty());
        }
        Ok(None)
    }
}

} // verus!
