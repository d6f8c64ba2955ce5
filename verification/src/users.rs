//! The user directory of the metering service: registration and role-based
//! authentication, with the caller's identity supplied by the host.

use vstd::prelude::*;

verus! {

/// A registered user of the service.
#[derive(Clone, Debug)]
pub struct User {
    pub principal: String,
    pub roles: Vec<String>,
    pub created_at: u64,
}

/// The claims carried by an issued authentication token.
#[derive(Clone, Debug)]
pub struct AuthPayload {
    pub principal: String,
    pub exp: u64,
}

/// Two user records with the same principal, role names and creation time.
pub open spec fn same_user(a: User, b: User) -> bool {
    &&& a.principal == b.principal
    &&& a.roles@ == b.roles@
    &&& a.created_at == b.created_at
}

/// The user a directory holds for `key`: the newest registration, if any.
pub open spec fn user_lookup(s: Seq<User>, key: Seq<char>) -> Option<User>
    decreases s.len(),
{
    if s.len() == 0 {
        None
    } else if s[0].principal@ == key {
        Some(s[0])
    } else {
        user_lookup(s.drop_first(), key)
    }
}

/// Whether the role name `role` appears in `roles`.
pub open spec fn has_role(roles: Seq<String>, role: Seq<char>) -> bool {
    exists|i: int| 0 <= i < roles.len() && (#[trigger] roles[i])@ == role
}

/// Whether the user holds at least one of the required role names.
pub open spec fn has_any_role(user_roles: Seq<String>, required: Seq<String>) -> bool {
    exists|j: int| 0 <= j < required.len() && has_role(user_roles, (#[trigger] required[j])@)
}

/// Whether a caller passes a check against the required role names: no
/// requirement, or at least one required role held.
pub open spec fn passes(u: User, required: Seq<String>) -> bool {
    required.len() == 0 || has_any_role(u.roles@, required)
}

/// The users known to the service, newest registration first.
pub struct UserDirectory {
    users: Vec<User>,
}

impl View for UserDirectory {
    type V = Seq<User>;

    closed spec fn view(&self) -> Seq<User> {
        self.users@
    }
}

impl UserDirectory {
    /// An empty directory.
    pub fn new() -> (d: UserDirectory)
        ensures
            d@ == Seq::<User>::empty(),
    {
        UserDirectory { users: Vec::new() }
    }

    /// Registers the host's own identity as the administrator.
    pub fn init_admin(&mut self, admin_principal: String, now: u64)
        ensures
            final(self)@.len() == old(self)@.len() + 1,
            final(self)@[0].principal == admin_principal,
            final(self)@[0].roles@.len() == 1,
            final(self)@[0].roles@[0]@ == "admin"@,
            final(self)@[0].created_at == now,
            user_lookup(final(self)@, admin_principal@) == Some(final(self)@[0]),
            forall|key: Seq<char>|
                key != admin_principal@ ==> #[trigger] user_lookup(final(self)@, key)
                    == user_lookup(old(self)@, key),
    {
        let mut roles: Vec<String> = Vec::new();
        roles.push("admin".to_owned());
        let admin = User { principal: admin_principal, roles, created_at: now };
        self.users.insert(0, admin);
        proof {
            assert(self.users@.drop_first() =~= old(self).users@);
        }
    }

    /// Authenticates the caller against the required role names: the
    /// caller's user record when it exists and passes, a rejection
    /// otherwise.
    pub fn authenticate(&self, caller: &String, required: &Vec<String>) -> (r: Result<User, String>)
        ensures
            match user_lookup(self@, caller@) {
                Some(u) => if passes(u, required@) {
                    r matches Ok(ru) && same_user(ru, u)
                } else {
                    r is Err
                },
                None => r is Err,
            },
    {
        let n = self.users.len();
        let mut i: usize = 0;
        while i < n
            invariant
                i <= n,
                forall|j: int| 0 <= j < i ==> (#[trigger] self@[j]).principal@ != caller@,
            decreases n - i,
        {
            if self.users[i].principal == *caller {
                proof {
                    lemma_user_lookup_found(self@, caller@, i as int);
                }
                if required.len() == 0 || holds_any(&self.users[i].roles, required) {
                    return Ok(copy_user(&self.users[i]));
                } else {
                    return Err("Unauthorized access".to_owned());
                }
            }
            i = i + 1;
        }
        proof {
            lemma_user_lookup_none(self@, caller@);
        }
        Err("Unauthorized access".to_owned())
    }

    /// Registers a user; only a caller holding the `admin` role may do so.
    /// On rejection the directory is unchanged.
    pub fn create_user(&mut self, caller: &String, new_user: User) -> (r: Result<(), String>)
        ensures
            ({
                let auth = match user_lookup(old(self)@, caller@) {
                    Some(u) => has_role(u.roles@, "admin"@),
                    None => false,
                };
                if auth {
                    r is Ok && final(self)@.len() == old(self)@.len() + 1 && final(self)@[0]
                        == new_user && user_lookup(final(self)@, new_user.principal@) == Some(
                        new_user,
                    ) && (forall|key: Seq<char>|
                        key != new_user.principal@ ==> #[trigger] user_lookup(final(self)@, key)
                            == user_lookup(old(self)@, key))
                } else {
                    r is Err && final(self)@ == old(self)@
                }
            }),
    {
        let mut required: Vec<String> = Vec::new();
        required.push("admin".to_owned());
        proof {
            assert forall|ur: Seq<String>| #[trigger]
                has_any_role(ur, required@) == has_role(ur, "admin"@) by {
                assert(required@[0]@ == "admin"@);
                if has_any_role(ur, required@) {
                    let j = choose|j: int|
                        0 <= j < required@.len() && has_role(ur, (#[trigger] required@[j])@);
                    assert(j == 0);
                }
            }
        }
        match self.authenticate(caller, &required) {
            Ok(_) => {},
            Err(e) => {
                return Err(e);
            },
        }
        self.users.insert(0, new_user);
        proof {
            assert(self.users@.drop_first() =~= old(self).users@);
        }
        Ok(())
    }

    /// The role names of the authenticated caller.
    pub fn get_roles(&self, caller: &String) -> (r: Result<Vec<String>, String>)
        ensures
            match user_lookup(self@, caller@) {
                Some(u) => r matches Ok(roles) && roles@ == u.roles@,
                None => r is Err,
            },
    {
        let no_roles: Vec<String> = Vec::new();
        match self.authenticate(caller, &no_roles) {
            Ok(u) => Ok(u.roles),
            Err(e) => Err(e),
        }
    }
}

/// Whether the user's roles include one of the required names.
fn holds_any(user_roles: &Vec<String>, required: &Vec<String>) -> (r: bool)
    ensures
        r == has_any_role(user_roles@, required@),
{
    let nr = required.len();
    let mut j: usize = 0;
    while j < nr
        invariant
            j <= nr,
            forall|jj: int| 0 <= jj < j ==> !has_role(user_roles@, (#[trigger] required@[jj])@),
        decreases nr - j,
    {
        let nu = user_roles.len();
        let mut i: usize = 0;
        while i < nu
            invariant
                i <= nu,
                forall|ii: int|
                    0 <= ii < i ==> (#[trigger] user_roles@[ii])@ != required@[j as int]@,
            decreases nu - i,
        {
            if user_roles[i] == required[j] {
                assert(has_role(user_roles@, required@[j as int]@));
                return true;
            }
            i = i + 1;
        }
        proof {
            assert(!has_role(user_roles@, required@[j as int]@));
        }
        j = j + 1;
    }
    false
}

/// A copy of a user record with the same principal, roles and creation
/// time.
fn copy_user(u: &User) -> (c: User)
    ensures
        same_user(c, *u),
{
    let roles = crate::auth::copy_strings(&u.roles);
    User { principal: u.principal.clone(), roles, created_at: u.created_at }
}

/// Matching entries after an unmatched prefix decide the lookup.
proof fn lemma_user_lookup_found(s: Seq<User>, key: Seq<char>, i: int)
    requires
        0 <= i < s.len(),
        s[i].principal@ == key,
        forall|j: int| 0 <= j < i ==> (#[trigger] s[j]).principal@ != key,
    ensures
        user_lookup(s, key) == Some(s[i]),
    decreases s.len(),
{
    if i > 0 {
        assert(s.drop_first()[i - 1] == s[i]);
        assert(forall|j: int| 0 <= j < i - 1 ==> (#[trigger] s.drop_first()[j]).principal@ != key);
        lemma_user_lookup_found(s.drop_first(), key, i - 1);
    }
}

/// A key no entry carries is not found.
proof fn lemma_user_lookup_none(s: Seq<User>, key: Seq<char>)
    requires
        forall|j: int| 0 <= j < s.len() ==> (#[trigger] s[j]).principal@ != key,
    ensures
        user_lookup(s, key) is None,
    decreases s.len(),
{
    if s.len() > 0 {
        assert(forall|j: int|
            0 <= j < s.drop_first().len() ==> (#[trigger] s.drop_first()[j]).principal@ != key);
        lemma_user_lookup_none(s.drop_first(), key);
    }
}

} // verus!
