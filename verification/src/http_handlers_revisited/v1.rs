//! The registration service and the status each of its outcomes gets.
use vstd::prelude::*;

use vstd::std_specs::cmp::PartialEqSpecImpl;

verus! {

/// A user to register.
#[derive(Debug)]
pub struct NewUser {
    pub name: String,
}

impl Clone for NewUser {
    fn clone(&self) -> (r: Self)
        ensures
            r == *self,
    {
        NewUser { name: self.name.clone() }
    }
}

/// Why a registration failed.
#[derive(Debug)]
pub enum RegisterError {
    /// A user of that name is already registered.
    AlreadyExists,
    /// The service could not do the work, for the reason given.
    Unavailable(String),
}

impl PartialEq for RegisterError {
    fn eq(&self, other: &Self) -> (r: bool) {
        match (self, other) {
            (RegisterError::AlreadyExists, RegisterError::AlreadyExists) => true,
            (RegisterError::Unavailable(a), RegisterError::Unavailable(b)) => *a == *b,
            _ => false,
        }
    }
}

impl PartialEqSpecImpl for RegisterError {
    open spec fn obeys_eq_spec() -> bool {
        true
    }

    open spec fn eq_spec(&self, other: &Self) -> bool {
        match (self, other) {
            (RegisterError::AlreadyExists, RegisterError::AlreadyExists) => true,
            (RegisterError::Unavailable(a), RegisterError::Unavailable(b)) => a@ == b@,
            _ => false,
        }
    }
}

/// What registers users.
pub trait UserService: Send + Sync {
    /// Whether registering `user` can come to `outcome`; for a service that
    /// does not say, anything can.
    open spec fn registers(&self, user: NewUser, outcome: Result<String, RegisterError>) -> bool {
        true
    }

    /// Registers `user` and gives back the new user's id.
    fn register(&self, user: NewUser) -> (r: Result<String, RegisterError>)
        ensures
            self.registers(user, r),
    ;
}

/// The status that answers a registration's outcome.
pub open spec fn reply_status(outcome: Result<String, RegisterError>) -> u16 {
    match outcome {
        Ok(_) => 201,
        Err(RegisterError::AlreadyExists) => 409,
        Err(RegisterError::Unavailable(_)) => 500,
    }
}

/// The body that answers a registration's outcome: the new id, or nothing.
pub open spec fn reply_body(outcome: Result<String, RegisterError>) -> Seq<char> {
    match outcome {
        Ok(id) => id@,
        Err(_) => Seq::empty(),
    }
}

/// The status and body that answer a registration: `201 Created` with the
/// new id, `409 Conflict` for a name already taken, and `500 Internal
/// Server Error` when the service is unavailable; the errors have no body.
pub fn registration_reply(result: Result<String, RegisterError>) -> (r: (u16, String))
    ensures
        result matches Ok(id) ==> r.0 == 201 && r.1@ == id@,
        result matches Err(RegisterError::AlreadyExists) ==> r.0 == 409 && r.1@.len() == 0,
        result matches Err(RegisterError::Unavailable(_)) ==> r.0 == 500 && r.1@.len() == 0,
{
    match result {
        Ok(id) => (201, id),
        Err(RegisterError::AlreadyExists) => (409, String::new()),
        Err(RegisterError::Unavailable(_)) => (500, String::new()),
    }
}

/// Registers `user` with `service` and gives the status and body to answer
/// with.
pub fn register_user<S: UserService>(service: &S, user: NewUser) -> (r: (u16, String))
    ensures
        exists|outcome: Result<String, RegisterError>| #[trigger]
            service.registers(user, outcome) && r.0 == reply_status(outcome) && r.1@ == reply_body(
                outcome,
            ),
{
    let outcome = service.register(user);
    let ghost seen = outcome;
    let r = registration_reply(outcome);
    assert(r.1@ =~= reply_body(seen));
    r
}

} // verus!
