//! User records and the in-memory user table that stands in for the
//! data-access handle. Records receive sequential identifiers starting at
//! one, so the identifier of the record at index `i` is always `i + 1`.

use vstd::prelude::*;

verus! {

/// A stored user record.
#[derive(Clone, Debug)]
pub struct User {
    pub id: i32,
    pub first_name: String,
    pub last_name: String,
    pub email: String,
}

/// The mathematical content of a user record.
#[verifier::ext_equal]
pub struct UserView {
    pub id: i32,
    pub first_name: Seq<char>,
    pub last_name: Seq<char>,
    pub email: Seq<char>,
}

impl View for User {
    type V = UserView;

    open spec fn view(&self) -> UserView {
        UserView {
            id: self.id,
            first_name: self.first_name@,
            last_name: self.last_name@,
            email: self.email@,
        }
    }
}

/// A record to be inserted; the store assigns the identifier.
#[derive(Clone, Debug)]
pub struct NewUser {
    pub first_name: String,
    pub last_name: String,
    pub email: String,
}

/// The mathematical content of a record to be inserted.
#[verifier::ext_equal]
pub struct NewUserView {
    pub first_name: Seq<char>,
    pub last_name: Seq<char>,
    pub email: Seq<char>,
}

impl View for NewUser {
    type V = NewUserView;

    open spec fn view(&self) -> NewUserView {
        NewUserView {
            first_name: self.first_name@,
            last_name: self.last_name@,
            email: self.email@,
        }
    }
}

/// Failures of the user data layer.
#[derive(Clone, Copy, PartialEq, Eq, Structural, Debug)]
pub enum UserError {
    DBError,
    InsertError,
    TokioError,
    InternalError,
}

/// The record a `NewUser` becomes under a given identifier.
pub open spec fn inserted_user(id: i32, nu: NewUserView) -> UserView {
    UserView { id, first_name: nu.first_name, last_name: nu.last_name, email: nu.email }
}

/// In-memory user table. Its contents, in insertion order, are its view.
pub struct UserStore {
    users: Vec<User>,
}

impl View for UserStore {
    type V = Seq<UserView>;

    closed spec fn view(&self) -> Seq<UserView> {
        Seq::new(self.users@.len(), |i: int| self.users@[i]@)
    }
}

impl UserStore {
    /// Identifiers are the positions shifted by one.
    pub open spec fn wf(self) -> bool {
        forall|i: int| 0 <= i < self@.len() ==> (#[trigger] self@[i]).id == i + 1
    }

    pub fn new() -> (s: Self)
        ensures
            s.wf(),
            s@ =~= Seq::<UserView>::empty(),
    {
        UserStore { users: Vec::new() }
    }

    pub fn len(&self) -> (n: usize)
        ensures
            n == self@.len(),
    {
        self.users.len()
    }
}

/// Insert a record, assigning the next sequential identifier. Succeeds for
/// every input while identifiers last; once the table holds `i32::MAX`
/// records no identifier is left and the insert is refused.
pub fn create_user(new_user: NewUser, store: &mut UserStore) -> (r: Result<User, UserError>)
    requires
        old(store).wf(),
    ensures
        final(store).wf(),
        old(store)@.len() < i32::MAX ==> match r {
            Ok(u) => u@ == inserted_user((old(store)@.len() + 1) as i32, new_user@)
                && final(store)@ == old(store)@.push(u@),
            Err(_) => false,
        },
        old(store)@.len() >= i32::MAX ==> r == Err::<User, UserError>(UserError::InsertError)
            && final(store)@ == old(store)@,
{
    let n = store.users.len();
    if n >= i32::MAX as usize {
        return Err(UserError::InsertError);
    }
    let user = User {
        id: (n as i32) + 1,
        first_name: new_user.first_name,
        last_name: new_user.last_name,
        email: new_user.email,
    };
    let echo = User {
        id: user.id,
        first_name: user.first_name.clone(),
        last_name: user.last_name.clone(),
        email: user.email.clone(),
    };
    store.users.push(user);
    proof {
        assert(final(store)@ =~= old(store)@.push(echo@));
    }
    Ok(echo)
}

/// Look a record up by its identifier. Never fails: identifiers are the
/// positions shifted by one, so the answer is the record at `id - 1`, or
/// nothing when `id` lies outside the table.
pub fn find_user_by_id(user_id: i32, store: &UserStore) -> (r: Result<Option<User>, UserError>)
    requires
        store.wf(),
    ensures
        match r {
            Ok(found) => match found {
                Some(u) => 1 <= user_id <= store@.len() && u@ == store@[user_id - 1],
                None => user_id < 1 || user_id > store@.len(),
            },
            Err(_) => false,
        },
{
    if user_id < 1 {
        return Ok(None);
    }
    let idx = (user_id - 1) as usize;
    if idx >= store.users.len() {
        return Ok(None);
    }
    let found = &store.users[idx];
    let u = User {
        id: found.id,
        first_name: found.first_name.clone(),
        last_name: found.last_name.clone(),
        email: found.email.clone(),
    };
    proof {
        assert(u@ == store@[user_id - 1]);
    }
    Ok(Some(u))
}

} // verus!
