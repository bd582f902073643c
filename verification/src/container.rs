//! The composition root: every service is constructed and wired here, once,
//! before request handling begins, and handed by reference to whatever
//! needs it. There is no runtime service lookup.

use vstd::prelude::*;
use crate::http::RequestParts;
use crate::models::{UserStore, UserView};
use crate::roles::Role;
use crate::token::{AuthError, TokenService};

verus! {

/// Supplies the role attached to a request by some out-of-band means. The
/// policy is fixed: every request counts as an administrator, whatever its
/// parts, and extraction never fails.
pub trait UserExtractor {
    fn extract(&self, parts: &RequestParts) -> (r: Result<Role, AuthError>)
        ensures
            r == Ok::<Role, AuthError>(Role::Admin),
    ;
}

/// The stock extractor.
pub struct UserExtractorImpl;

impl UserExtractor for UserExtractorImpl {
    fn extract(&self, _parts: &RequestParts) -> (r: Result<Role, AuthError>) {
        Ok(Role::Admin)
    }
}

/// Hands out the data-access handle.
pub trait DbPoolGetter {
    /// The records the handle holds.
    spec fn spec_pool(&self) -> Seq<UserView>;

    fn pool(&self) -> (r: &UserStore)
        ensures
            r@ == self.spec_pool(),
    ;
}

/// Owns the user table and hands it out as the pool.
pub struct DbPoolGetterImpl {
    pub db_pool: UserStore,
}

impl DbPoolGetter for DbPoolGetterImpl {
    open spec fn spec_pool(&self) -> Seq<UserView> {
        self.db_pool@
    }

    fn pool(&self) -> (r: &UserStore) {
        &self.db_pool
    }
}

/// The resolved set of named services a request may use.
pub struct Container {
    pub token_service: TokenService,
    pub user_extractor: UserExtractorImpl,
    pub db_pool: DbPoolGetterImpl,
}

impl Container {
    /// The services are usable: the user table's invariant holds.
    pub open spec fn wf(self) -> bool {
        self.db_pool.db_pool.wf()
    }
}

/// Build the container: a token service around the signing secret and an
/// empty user table.
pub fn make_container(secret: Vec<u8>) -> (c: Container)
    ensures
        c.wf(),
        c.token_service@ == secret@,
        c.db_pool.db_pool@ =~= Seq::<UserView>::empty(),
{
    Container {
        token_service: TokenService::new(secret),
        user_extractor: UserExtractorImpl,
        db_pool: DbPoolGetterImpl { db_pool: UserStore::new() },
    }
}

} // verus!
