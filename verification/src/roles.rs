//! Privilege roles and the total order that drives authorization decisions.

use vstd::prelude::*;
use crate::token::Claims;

verus! {

/// A privilege level. The order is total and fixed: `User < Admin`.
#[derive(Clone, Copy, PartialEq, Eq, Structural, Debug)]
pub enum Role {
    User,
    Admin,
}

/// The spelling of the `Admin` role on the wire.
pub open spec fn admin_name() -> Seq<char> {
    "Admin"@
}

/// The spelling of the `User` role on the wire.
pub open spec fn user_name() -> Seq<char> {
    "User"@
}

/// The role a role string denotes: exactly `"Admin"` names `Admin`; every
/// other string maps to the lowest-privilege role, never escalating.
pub open spec fn spec_role_from_str(s: Seq<char>) -> Role {
    if s == admin_name() {
        Role::Admin
    } else {
        Role::User
    }
}

impl Role {
    /// Numeric rank of the role under the total privilege order.
    pub open spec fn rank(self) -> int {
        match self {
            Role::User => 0,
            Role::Admin => 1,
        }
    }

    /// `self` grants no more privilege than `other`.
    pub open spec fn spec_le(self, other: Role) -> bool {
        self.rank() <= other.rank()
    }

    /// Parse a role string; unknown strings map to the lowest-privilege role.
    pub fn from_str(role: &str) -> (r: Role)
        ensures
            r == spec_role_from_str(role@),
    {
        if str_eq(role, "Admin") {
            Role::Admin
        } else {
            Role::User
        }
    }

    /// `self` grants no more privilege than `other` (executable form).
    pub fn le(&self, other: &Role) -> (r: bool)
        ensures
            r == self.spec_le(*other),
    {
        match (self, other) {
            (Role::User, _) => true,
            (Role::Admin, Role::Admin) => true,
            (Role::Admin, Role::User) => false,
        }
    }

    /// The wire spelling of the role.
    pub fn as_str(&self) -> (r: &'static str)
        ensures
            r@ == self.spec_name(),
    {
        match self {
            Role::User => "User",
            Role::Admin => "Admin",
        }
    }

    /// The spelling of the role on the wire.
    pub open spec fn spec_name(self) -> Seq<char> {
        match self {
            Role::User => user_name(),
            Role::Admin => admin_name(),
        }
    }
}

/// Parsing the wire spelling of a role gives that role back.
pub proof fn lemma_role_name_round_trip(r: Role)
    ensures
        spec_role_from_str(r.spec_name()) == r,
{
    reveal_strlit("Admin");
    reveal_strlit("User");
    assert(user_name().len() != admin_name().len());
    assert(user_name() != admin_name());
}

/// Character-wise string equality.
pub fn str_eq(a: &str, b: &str) -> (r: bool)
    ensures
        r == (a@ == b@),
{
    let a_len = a.unicode_len();
    let b_len = b.unicode_len();
    if a_len != b_len {
        return false;
    }
    let mut i: usize = 0;
    while i < a_len
        invariant
            a_len == a@.len(),
            b_len == b@.len(),
            a_len == b_len,
            i <= a_len,
            forall|j: int| 0 <= j < i ==> a@[j] == b@[j],
        decreases a_len - i,
    {
        if a.get_char(i) != b.get_char(i) {
            return false;
        }
        i += 1;
    }
    proof {
        assert(a@ =~= b@);
    }
    true
}

impl Role {
    /// A role string grants what `self` requires: the role it names is at
    /// least `self` under the total order.
    pub open spec fn spec_authorized(self, role_str: Seq<char>) -> bool {
        self.spec_le(spec_role_from_str(role_str))
    }

    /// Succeeds exactly when the role inside the validated claims is at
    /// least `self`, the role a route requires. Unknown role strings count
    /// as the lowest-privilege role and so never escalate.
    pub fn is_authorized(&self, claims: &Claims) -> (r: bool)
        ensures
            r == self.spec_authorized(claims.role@),
    {
        let actual = Role::from_str(claims.role.as_str());
        self.le(&actual)
    }
}

/// A route requiring `required` accepts every valid credential whose role
/// is at least `required`: authorization is monotone in the role order.
pub proof fn lemma_sufficient_role_authorized(required: Role, actual: Role)
    requires
        required.spec_le(actual),
    ensures
        required.spec_authorized(actual.spec_name()),
{
    lemma_role_name_round_trip(actual);
}

} // verus!
