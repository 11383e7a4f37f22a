//! The authorization gate consulted before storage operations. It answers
//! yes or no from the global permissions recorded per user; it never derives
//! identity itself.

use vstd::prelude::*;

use crate::error::Error;

verus! {

/// Global (non-scoped) permissions of one user.
#[derive(Clone, Copy, Debug, PartialEq, Eq, Structural)]
pub struct GlobalPermissions {
    pub manage_users: bool,
    pub read_users: bool,
    pub manage_streams: bool,
    pub read_streams: bool,
    pub poll_messages: bool,
    pub send_messages: bool,
}

/// The permissions the latest record gives a user, scanning from the newest.
pub open spec fn perms_lookup(s: Seq<(u32, GlobalPermissions)>, user_id: u32) -> Option<
    GlobalPermissions,
>
    decreases s.len(),
{
    if s.len() == 0 {
        None
    } else if s.last().0 == user_id {
        Some(s.last().1)
    } else {
        perms_lookup(s.drop_last(), user_id)
    }
}

/// No two records share a user.
pub open spec fn unique_users(s: Seq<(u32, GlobalPermissions)>) -> bool {
    forall|i: int, j: int| 0 <= i < j < s.len() ==> (#[trigger] s[i]).0 != (#[trigger] s[j]).0
}

proof fn lemma_perms_found(s: Seq<(u32, GlobalPermissions)>, i: int, user_id: u32)
    requires
        unique_users(s),
        0 <= i < s.len(),
        s[i].0 == user_id,
    ensures
        perms_lookup(s, user_id) == Some(s[i].1),
    decreases s.len(),
{
    if i < s.len() - 1 {
        assert(s[i].0 != s[s.len() - 1].0);
        assert(unique_users(s.drop_last())) by {
            assert(forall|a: int, b: int|
                0 <= a < b < s.drop_last().len() ==> s.drop_last()[a] == s[a] && s.drop_last()[b]
                    == s[b]);
        }
        lemma_perms_found(s.drop_last(), i, user_id);
    }
}

proof fn lemma_perms_none(s: Seq<(u32, GlobalPermissions)>, user_id: u32)
    requires
        forall|i: int| 0 <= i < s.len() ==> (#[trigger] s[i]).0 != user_id,
    ensures
        perms_lookup(s, user_id) == None::<GlobalPermissions>,
    decreases s.len(),
{
    if s.len() > 0 {
        lemma_perms_none(s.drop_last(), user_id);
    }
}

/// The permission-rule evaluator.
#[derive(Debug)]
pub struct Permissioner {
    pub users_permissions: Vec<(u32, GlobalPermissions)>,
}

impl Permissioner {
    /// The recorded global permissions of a user, if any.
    pub open spec fn perms_of(&self, user_id: u32) -> Option<GlobalPermissions> {
        perms_lookup(self.users_permissions@, user_id)
    }

    /// Whether a user may manage users.
    pub open spec fn can_manage_users(&self, user_id: u32) -> bool {
        match self.perms_of(user_id) {
            Some(p) => p.manage_users,
            None => false,
        }
    }

    /// Whether a user may read user records.
    pub open spec fn can_read_users(&self, user_id: u32) -> bool {
        match self.perms_of(user_id) {
            Some(p) => p.read_users,
            None => false,
        }
    }

    /// Well-formed: one record per user.
    pub open spec fn wf(&self) -> bool {
        unique_users(self.users_permissions@)
    }

    /// A gate with no users recorded: it refuses everything.
    pub fn new() -> (r: Permissioner)
        ensures
            r.wf(),
            forall|u: u32| #[trigger] r.perms_of(u) == None::<GlobalPermissions>,
    {
        let r = Permissioner { users_permissions: Vec::new() };
        proof {
            assert forall|u: u32| #[trigger] r.perms_of(u) == None::<GlobalPermissions> by {
                lemma_perms_none(r.users_permissions@, u);
            }
        }
        r
    }

    /// Record (or replace) a user's global permissions, as loaded from the
    /// user store at startup or changed by an administrator.
    pub fn set_permissions(&mut self, user_id: u32, perms: GlobalPermissions)
        requires
            old(self).wf(),
        ensures
            final(self).wf(),
            final(self).perms_of(user_id) == Some(perms),
            forall|u: u32|
                u != user_id ==> #[trigger] final(self).perms_of(u) == old(self).perms_of(u),
    {
        let ghost orig = self.users_permissions@;
        let n = self.users_permissions.len();
        let mut i: usize = 0;
        let mut found = n;
        while i < n
            invariant_except_break
                found == n,
            invariant
                i <= n,
                n == self.users_permissions@.len(),
                self.users_permissions@ == orig,
                forall|j: int| 0 <= j < i ==> (#[trigger] orig[j]).0 != user_id,
            ensures
                n == self.users_permissions@.len(),
                self.users_permissions@ == orig,
                found <= n,
                found == n ==> forall|j: int|
                    0 <= j < orig.len() ==> (#[trigger] orig[j]).0 != user_id,
                found < n ==> orig[found as int].0 == user_id,
            decreases n - i,
        {
            if self.users_permissions[i].0 == user_id {
                found = i;
                break;
            }
            i += 1;
        }
        if found < n {
            self.users_permissions.remove(found);
            proof {
                assert forall|u: u32| u != user_id implies perms_lookup(
                    self.users_permissions@,
                    u,
                ) == perms_lookup(orig, u) by {
                    lemma_perms_remove(orig, found as int, u);
                }
                assert(unique_users(self.users_permissions@)) by {
                    assert(forall|j: int|
                        0 <= j < self.users_permissions@.len()
                            ==> #[trigger] self.users_permissions@[j] == (if j < found as int {
                            orig[j]
                        } else {
                            orig[j + 1]
                        }));
                }
                assert forall|j: int| 0 <= j < self.users_permissions@.len() implies (
                #[trigger] self.users_permissions@[j]).0 != user_id by {
                    if j < found as int {
                        if orig[j].0 == user_id {
                            assert(orig[j].0 != orig[found as int].0);
                        }
                    } else {
                        assert(self.users_permissions@[j] == orig[j + 1]);
                        assert(orig[found as int].0 != orig[j + 1].0);
                    }
                }
            }
        }
        let ghost trimmed = self.users_permissions@;
        self.users_permissions.push((user_id, perms));
        proof {
            assert(self.users_permissions@.drop_last() =~= trimmed);
            assert forall|u: u32| u != user_id implies #[trigger] perms_lookup(
                self.users_permissions@,
                u,
            ) == perms_lookup(orig, u) by {
                assert(perms_lookup(self.users_permissions@, u) == perms_lookup(trimmed, u));
            }
            assert(unique_users(self.users_permissions@)) by {
                assert(forall|j: int|
                    0 <= j < trimmed.len() ==> (#[trigger] trimmed[j]).0 != user_id);
                assert(forall|j: int|
                    0 <= j < self.users_permissions@.len() - 1
                        ==> #[trigger] self.users_permissions@[j] == trimmed[j]);
            }
        }
    }

    /// Gate for fetching one user record.
    pub fn get_user(&self, user_id: u32) -> (r: Result<(), Error>)
        requires
            self.wf(),
        ensures
            r == if self.can_read_users(user_id) {
                Ok::<(), Error>(())
            } else {
                Err::<(), Error>(Error::Unauthorized)
            },
    {
        self.read_users(user_id)
    }

    /// Gate for listing user records.
    pub fn get_users(&self, user_id: u32) -> (r: Result<(), Error>)
        requires
            self.wf(),
        ensures
            r == if self.can_read_users(user_id) {
                Ok::<(), Error>(())
            } else {
                Err::<(), Error>(Error::Unauthorized)
            },
    {
        self.read_users(user_id)
    }

    /// Gate for creating a user.
    pub fn create_user(&self, user_id: u32) -> (r: Result<(), Error>)
        requires
            self.wf(),
        ensures
            r == if self.can_manage_users(user_id) {
                Ok::<(), Error>(())
            } else {
                Err::<(), Error>(Error::Unauthorized)
            },
    {
        self.manager_users(user_id)
    }

    /// Gate for deleting a user.
    pub fn delete_user(&self, user_id: u32) -> (r: Result<(), Error>)
        requires
            self.wf(),
        ensures
            r == if self.can_manage_users(user_id) {
                Ok::<(), Error>(())
            } else {
                Err::<(), Error>(Error::Unauthorized)
            },
    {
        self.manager_users(user_id)
    }

    /// Gate for updating a user record.
    pub fn update_user(&self, user_id: u32) -> (r: Result<(), Error>)
        requires
            self.wf(),
        ensures
            r == if self.can_manage_users(user_id) {
                Ok::<(), Error>(())
            } else {
                Err::<(), Error>(Error::Unauthorized)
            },
    {
        self.manager_users(user_id)
    }

    /// Gate for changing another user's permissions.
    pub fn update_permissions(&self, user_id: u32) -> (r: Result<(), Error>)
        requires
            self.wf(),
        ensures
            r == if self.can_manage_users(user_id) {
                Ok::<(), Error>(())
            } else {
                Err::<(), Error>(Error::Unauthorized)
            },
    {
        self.manager_users(user_id)
    }

    /// Gate for changing a password.
    pub fn change_password(&self, user_id: u32) -> (r: Result<(), Error>)
        requires
            self.wf(),
        ensures
            r == if self.can_manage_users(user_id) {
                Ok::<(), Error>(())
            } else {
                Err::<(), Error>(Error::Unauthorized)
            },
    {
        self.manager_users(user_id)
    }

    /// The shared manage-users rule.
    fn manager_users(&self, user_id: u32) -> (r: Result<(), Error>)
        requires
            self.wf(),
        ensures
            r == if self.can_manage_users(user_id) {
                Ok::<(), Error>(())
            } else {
                Err::<(), Error>(Error::Unauthorized)
            },
    {
        match self.find_permissions(user_id) {
            Some(global_permissions) => {
                if global_permissions.manage_users {
                    return Ok(());
                }
                Err(Error::Unauthorized)
            },
            None => Err(Error::Unauthorized),
        }
    }

    /// The shared read-users rule.
    fn read_users(&self, user_id: u32) -> (r: Result<(), Error>)
        requires
            self.wf(),
        ensures
            r == if self.can_read_users(user_id) {
                Ok::<(), Error>(())
            } else {
                Err::<(), Error>(Error::Unauthorized)
            },
    {
        match self.find_permissions(user_id) {
            Some(global_permissions) => {
                if global_permissions.read_users {
                    return Ok(());
                }
                Err(Error::Unauthorized)
            },
            None => Err(Error::Unauthorized),
        }
    }

    /// Scan for a user's recorded permissions.
    fn find_permissions(&self, user_id: u32) -> (r: Option<GlobalPermissions>)
        requires
            self.wf(),
        ensures
            r == self.perms_of(user_id),
    {
        let n = self.users_permissions.len();
        let mut i: usize = 0;
        while i < n
            invariant
                i <= n,
                n == self.users_permissions@.len(),
                self.wf(),
                forall|j: int|
                    0 <= j < i ==> (#[trigger] self.users_permissions@[j]).0 != user_id,
            decreases n - i,
        {
            if self.users_permissions[i].0 == user_id {
                proof {
                    lemma_perms_found(self.users_permissions@, i as int, user_id);
                }
                return Some(self.users_permissions[i].1);
            }
            i += 1;
        }
        proof {
            lemma_perms_none(self.users_permissions@, user_id);
        }
        None
    }
}

proof fn lemma_perms_remove(s: Seq<(u32, GlobalPermissions)>, i: int, user_id: u32)
    requires
        0 <= i < s.len(),
        s[i].0 != user_id,
    ensures
        perms_lookup(s.remove(i), user_id) == perms_lookup(s, user_id),
    decreases s.len(),
{
    if i == s.len() - 1 {
        assert(s.remove(i) =~= s.drop_last());
    } else {
        assert(s.remove(i).last() == s.last());
        if s.last().0 != user_id {
            assert(s.remove(i).drop_last() =~= s.drop_last().remove(i));
            lemma_perms_remove(s.drop_last(), i, user_id);
        }
    }
}

} // verus!
