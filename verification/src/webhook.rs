//! Plain data models of the webhook notifications the platform sends. The
//! transport layer deserializes them; here they are bare values. The
//! charge-level records that carry monetary amounts live with the transport
//! layer, which owns their floating-point fields.

use vstd::prelude::*;

verus! {

/// The envelope naming a webhook's type alone.
#[derive(Debug, Clone)]
pub struct WebhookTypeValue {
    pub webhook: Webhook,
}

/// The webhook header.
#[derive(Debug, Clone)]
pub struct Webhook {
    pub webhook_type: WebhookType,
}

/// Every kind of notification the platform sends.
#[derive(Debug, Clone, Copy, PartialEq, Eq, Structural)]
pub enum WebhookType {
    Approved,
    Declined,
    ApprovedOnHold,
    Authorized,
    Voided,
    CashierSessionInit,
    CashierSessionClosed,
    PaymentCardToken,
}

impl WebhookType {
    /// The type's name on the wire.
    pub fn as_str(&self) -> (r: &'static str)
        ensures
            r@ == self.spec_str(),
    {
        match self {
            WebhookType::Approved => "approved",
            WebhookType::Declined => "declined",
            WebhookType::ApprovedOnHold => "approved_on_hold",
            WebhookType::Authorized => "authorized",
            WebhookType::Voided => "voided",
            WebhookType::CashierSessionInit => "cashier.session.init",
            WebhookType::CashierSessionClosed => "cashier.session.closed",
            WebhookType::PaymentCardToken => "payment_card_token",
        }
    }

    /// The type's name on the wire.
    pub open spec fn spec_str(&self) -> Seq<char> {
        match self {
            WebhookType::Approved => "approved"@,
            WebhookType::Declined => "declined"@,
            WebhookType::ApprovedOnHold => "approved_on_hold"@,
            WebhookType::Authorized => "authorized"@,
            WebhookType::Voided => "voided"@,
            WebhookType::CashierSessionInit => "cashier.session.init"@,
            WebhookType::CashierSessionClosed => "cashier.session.closed"@,
            WebhookType::PaymentCardToken => "payment_card_token"@,
        }
    }
}

/// How a charge moved money.
#[derive(Debug, Clone, Copy, PartialEq, Eq, Structural)]
pub enum ChargeOperationType {
    Deposit,
    Refund,
    Payout,
}

/// The outcome a charge reports.
#[derive(Debug, Clone, Copy, PartialEq, Eq, Structural)]
pub enum ChargeAttributesStatus {
    Approved,
    ApprovedOnHold,
    Declined,
    Authorized,
    Voided,
}

/// Who initiated the payment, as the platform saw it.
#[derive(Debug, Clone)]
pub struct AttributesSource {
    pub email: Option<String>,
    pub ip_address: Option<String>,
    pub name: Option<String>,
}

/// Card-verification results attached to a charge.
#[derive(Debug, Clone)]
pub struct AttributesVerifications {
    pub cavv: Option<String>,
    pub cavv_message: Option<String>,
    pub avs: Option<Avs>,
}

/// Address-verification results.
#[derive(Debug, Clone)]
pub struct Avs {
    pub result: Option<String>,
    pub zip_match: Option<String>,
    pub address_match: Option<String>,
    pub name_match: Option<String>,
    pub message: Option<String>,
}

/// Metadata every webhook carries, including the encrypted payload field
/// that travels back unmodified.
#[derive(Debug, Clone)]
pub struct WebhookMeta {
    pub server_time: u64,
    pub server_timezone: String,
    pub api_version: String,
    pub payload: Option<String>,
    pub cashier_session_id: String,
    pub platform_id: Option<String>,
    pub tracking_id: Option<String>,
    pub affiliate_id: Option<String>,
}

} // verus!
