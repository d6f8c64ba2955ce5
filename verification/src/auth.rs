//! Authentication state: secret generation, role assignments, and the
//! administrator check.

use vstd::prelude::*;

verus! {

/// Roles a platform user can hold.
#[derive(Clone, Copy, Debug, PartialEq, Eq, Structural)]
pub enum UserRole {
    Admin,
    DeviceManager,
    Viewer,
}

/// A platform user with an issued session token.
#[derive(Clone, Debug)]
pub struct User {
    pub principal: String,
    pub roles: Vec<UserRole>,
    pub session_token: String,
    pub expires_at: u64,
}

/// One caller's assigned role names.
pub struct RoleEntry {
    pub principal: String,
    pub roles: Vec<String>,
}

/// Authentication state: the signing secret and the per-caller role
/// assignments, newest assignment first.
pub struct AuthState {
    pub jwt_secret: String,
    pub role_entries: Vec<RoleEntry>,
}

/// The hexadecimal digit for `n`, lowercase; inputs above fifteen saturate
/// at `f`.
pub open spec fn hex_digit(n: u8) -> char {
    if n == 0 {
        '0'
    } else if n == 1 {
        '1'
    } else if n == 2 {
        '2'
    } else if n == 3 {
        '3'
    } else if n == 4 {
        '4'
    } else if n == 5 {
        '5'
    } else if n == 6 {
        '6'
    } else if n == 7 {
        '7'
    } else if n == 8 {
        '8'
    } else if n == 9 {
        '9'
    } else if n == 10 {
        'a'
    } else if n == 11 {
        'b'
    } else if n == 12 {
        'c'
    } else if n == 13 {
        'd'
    } else if n == 14 {
        'e'
    } else {
        'f'
    }
}

/// The lowercase hexadecimal encoding of a byte sequence: two digits per
/// byte, high nibble first.
pub open spec fn hex_of(b: Seq<u8>) -> Seq<char> {
    Seq::new(
        2 * b.len(),
        |i: int|
            if i % 2 == 0 {
                hex_digit(b[i / 2] >> 4)
            } else {
                hex_digit(b[i / 2] & 0x0f)
            },
    )
}

/// A lowercase hexadecimal digit.
pub open spec fn is_hex_char(c: char) -> bool {
    let u = c as u32;
    (48 <= u <= 57) || (97 <= u <= 102)
}

/// Relies on rand::random: 32 bytes drawn from the thread-local generator.
/// Nothing is promised of their values.
#[verifier::external_body]
fn random_bytes_32() -> (r: Vec<u8>)
    ensures
        r@.len() == 32,
{
    rand::random::<[u8; 32]>().to_vec()
}

/// Relies on hex::encode: the lowercase hexadecimal encoding of the bytes,
/// two digits per byte, high nibble first.
#[verifier::external_body]
fn to_hex(b: &Vec<u8>) -> (r: String)
    ensures
        r@ == hex_of(b@),
{
    hex::encode(b.as_slice())
}

/// Whatever the nibble, its digit is a hexadecimal character.
proof fn lemma_hex_digit_is_hex(n: u8)
    ensures
        is_hex_char(hex_digit(n)),
{
}

/// A fresh signing secret: 64 hexadecimal characters encoding 32 random
/// bytes.
pub fn generate_secure_secret() -> (s: String)
    ensures
        s@.len() == 64,
        forall|i: int| 0 <= i < s@.len() ==> is_hex_char(#[trigger] s@[i]),
{
    let bytes = random_bytes_32();
    let s = to_hex(&bytes);
    proof {
        assert forall|i: int| 0 <= i < s@.len() implies is_hex_char(#[trigger] s@[i]) by {
            if i % 2 == 0 {
                lemma_hex_digit_is_hex(bytes@[i / 2] >> 4);
            } else {
                lemma_hex_digit_is_hex(bytes@[i / 2] & 0x0f);
            }
        }
    }
    s
}

/// The role names a state assigns to `key`: the newest assignment, if any.
pub open spec fn role_lookup(s: Seq<RoleEntry>, key: Seq<char>) -> Option<Vec<String>>
    decreases s.len(),
{
    if s.len() == 0 {
        None
    } else if s[0].principal@ == key {
        Some(s[0].roles)
    } else {
        role_lookup(s.drop_first(), key)
    }
}

impl AuthState {
    /// Fresh authentication state: a generated secret, no assignments.
    pub fn init() -> (st: AuthState)
        ensures
            st.jwt_secret@.len() == 64,
            forall|i: int|
                0 <= i < st.jwt_secret@.len() ==> is_hex_char(#[trigger] st.jwt_secret@[i]),
            st.role_entries@.len() == 0,
    {
        AuthState { jwt_secret: generate_secure_secret(), role_entries: Vec::new() }
    }

    /// Assigns `roles` to `user`, shadowing any earlier assignment.
    pub fn assign_roles(&mut self, user: String, roles: Vec<String>)
        ensures
            role_lookup(final(self).role_entries@, user@) == Some(roles),
            forall|key: Seq<char>|
                key != user@ ==> #[trigger] role_lookup(final(self).role_entries@, key)
                    == role_lookup(old(self).role_entries@, key),
            final(self).jwt_secret == old(self).jwt_secret,
    {
        let entry = RoleEntry { principal: user, roles };
        self.role_entries.insert(0, entry);
        proof {
            assert(self.role_entries@.drop_first() =~= old(self).role_entries@);
        }
    }

    /// The role names assigned to `user`, empty when none were assigned.
    pub fn get_roles(&self, user: &String) -> (r: Vec<String>)
        ensures
            match role_lookup(self.role_entries@, user@) {
                Some(roles) => r@ =~= roles@,
                None => r@.len() == 0,
            },
    {
        let n = self.role_entries.len();
        let mut i: usize = 0;
        while i < n
            invariant
                i <= n,
                forall|j: int| 0 <= j < i ==> (#[trigger] self.role_entries@[j]).principal@ != user@,
            decreases n - i,
        {
            if self.role_entries[i].principal == *user {
                proof {
                    lemma_role_lookup_found(self.role_entries@, user@, i as int);
                }
                return copy_strings(&self.role_entries[i].roles);
            }
            i = i + 1;
        }
        proof {
            lemma_role_lookup_none(self.role_entries@, user@);
        }
        Vec::new()
    }
}

/// An element-by-element copy of a list of strings.
pub(crate) fn copy_strings(v: &Vec<String>) -> (r: Vec<String>)
    ensures
        r@ =~= v@,
{
    let mut out: Vec<String> = Vec::new();
    let n = v.len();
    let mut i: usize = 0;
    while i < n
        invariant
            i <= n,
            out@.len() == i,
            forall|j: int| 0 <= j < i ==> #[trigger] out@[j] == v@[j],
        decreases n - i,
    {
        out.push(v[i].clone());
        i = i + 1;
    }
    out
}

/// Matching entries after an unmatched prefix decide the lookup.
proof fn lemma_role_lookup_found(s: Seq<RoleEntry>, key: Seq<char>, i: int)
    requires
        0 <= i < s.len(),
        s[i].principal@ == key,
        forall|j: int| 0 <= j < i ==> (#[trigger] s[j]).principal@ != key,
    ensures
        role_lookup(s, key) == Some(s[i].roles),
    decreases s.len(),
{
    if i > 0 {
        assert(s.drop_first()[i - 1] == s[i]);
        assert(forall|j: int|
            0 <= j < i - 1 ==> (#[trigger] s.drop_first()[j]).principal@ != key);
        lemma_role_lookup_found(s.drop_first(), key, i - 1);
    }
}

/// A key no entry carries is not found.
proof fn lemma_role_lookup_none(s: Seq<RoleEntry>, key: Seq<char>)
    requires
        forall|j: int| 0 <= j < s.len() ==> (#[trigger] s[j]).principal@ != key,
    ensures
        role_lookup(s, key) is None,
    decreases s.len(),
{
    if s.len() > 0 {
        assert(forall|j: int|
            0 <= j < s.drop_first().len() ==> (#[trigger] s.drop_first()[j]).principal@ != key);
        lemma_role_lookup_none(s.drop_first(), key);
    }
}

/// Whether `caller` is one of the administrators.
pub fn is_authorized(admins: &Vec<String>, caller: &String) -> (r: bool)
    ensures
        r <==> exists|i: int| 0 <= i < admins@.len() && (#[trigger] admins@[i])@ == caller@,
{
    let n = admins.len();
    let mut i: usize = 0;
    while i < n
        invariant
            i <= n,
            forall|j: int| 0 <= j < i ==> (#[trigger] admins@[j])@ != caller@,
        decreases n - i,
    {
        if admins[i] == *caller {
            return true;
        }
        i = i + 1;
    }
    false
}

} // verus!
