//! Plain data models of the REST exchange with the platform. The transport
//! layer serializes them; here they are bare values that the verified code
//! and its callers share.

use vstd::prelude::*;

verus! {

/// The platform's uniform response envelope.
#[derive(Debug, Clone)]
pub struct Response<T> {
    pub response: ResponseModel,
    pub result: Option<T>,
}

/// Credentials sent to the login endpoint.
#[derive(Debug, Clone)]
pub struct LoginRequest {
    pub user_name: String,
    pub password: String,
}

/// The login endpoint's full response.
#[derive(Debug, Clone)]
pub struct LoginResponse {
    pub response: ResponseModel,
    pub result: LoginModel,
}

/// The tokens a successful login yields.
#[derive(Debug, Clone)]
pub struct LoginModel {
    pub refresh_token: String,
    pub access_token: AccessTokenModel,
}

/// A bearer token and its lifetime in seconds.
#[derive(Debug, Clone)]
pub struct AccessTokenModel {
    pub token: String,
    pub expires_in: i64,
}

/// Status, code and message of a platform response.
#[derive(Debug, Clone)]
pub struct ResponseModel {
    pub status: String,
    pub code: i32,
    pub message: String,
}

/// The visual theme of the checkout widget.
#[derive(Debug, Clone, Copy, PartialEq, Eq, Structural)]
pub enum CheckoutTheme {
    Dark,
    Light,
    Bright,
    Transparent,
}

impl CheckoutTheme {
    /// The theme's name on the wire.
    pub fn as_str(&self) -> (r: &'static str)
        ensures
            r@ == self.spec_str(),
    {
        match self {
            CheckoutTheme::Dark => "dark",
            CheckoutTheme::Light => "light",
            CheckoutTheme::Bright => "bright",
            CheckoutTheme::Transparent => "transparent",
        }
    }

    /// The theme's name on the wire.
    pub open spec fn spec_str(&self) -> Seq<char> {
        match self {
            CheckoutTheme::Dark => "dark"@,
            CheckoutTheme::Light => "light"@,
            CheckoutTheme::Bright => "bright"@,
            CheckoutTheme::Transparent => "transparent"@,
        }
    }
}

/// The cashier-session endpoint's full response.
#[derive(Debug, Clone)]
pub struct CreateCashierSessionResponse {
    pub response: ResponseModel,
    pub result: CashierSessionModel,
}

/// The token that opens a cashier session.
#[derive(Debug, Clone)]
pub struct CashierSessionModel {
    pub cashier_token: String,
}

} // verus!
