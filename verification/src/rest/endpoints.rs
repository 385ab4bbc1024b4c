//! The REST endpoints of the payment platform's API.

use vstd::prelude::*;

verus! {

/// An endpoint of the platform's REST API.
#[derive(Clone, Copy, Debug)]
pub enum RestApiEndpoint {
    AuthLogin,
    CashierCreateSession,
}

impl RestApiEndpoint {
    /// The endpoint's request path under the API host.
    pub open spec fn spec_path(&self) -> Seq<char> {
        match self {
            RestApiEndpoint::AuthLogin => "/v2/auth/login"@,
            RestApiEndpoint::CashierCreateSession => "/v2/cashier/session/create"@,
        }
    }

    /// The endpoint's request path under the API host.
    pub fn path(&self) -> (r: &'static str)
        ensures
            r@ == self.spec_path(),
    {
        match self {
            RestApiEndpoint::AuthLogin => "/v2/auth/login",
            RestApiEndpoint::CashierCreateSession => "/v2/cashier/session/create",
        }
    }
}

} // verus!
