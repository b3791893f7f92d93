//! Value types and thin constructors of the service layer that surrounds the
//! credential core: email, notifications, payments, templates, uploads,
//! search facets and the cache key scheme. The operations that talk to the
//! network live outside the library; only their data shapes and the pure
//! helpers are here.

use vstd::prelude::*;

use std::collections::HashMap;

verus! {

// ---------------------------------------------------------------------------
// Email
// ---------------------------------------------------------------------------

/// A message ready to hand to a mail transport.
#[derive(Clone, Debug)]
pub struct EmailMessage {
    pub to: Vec<String>,
    pub cc: Option<Vec<String>>,
    pub bcc: Option<Vec<String>>,
    pub subject: String,
    pub body_text: Option<String>,
    pub body_html: Option<String>,
    pub attachments: Option<Vec<EmailAttachment>>,
    pub reply_to: Option<String>,
    pub headers: Option<HashMap<String, String>>,
}

#[derive(Clone, Debug)]
pub struct EmailAttachment {
    pub filename: String,
    pub content_type: String,
    pub content: Vec<u8>,
}

#[derive(Clone, Debug)]
pub struct EmailTemplate {
    pub name: String,
    pub subject: String,
    pub body_html: String,
    pub body_text: Option<String>,
}

/// The sender identity used on outgoing mail.
pub struct EmailService {
    pub from_address: String,
    pub from_name: String,
}

impl EmailService {
    pub fn new(from_address: String, from_name: String) -> (r: Self)
        ensures
            r.from_address@ == from_address@,
            r.from_name@ == from_name@,
    {
        Self { from_address, from_name }
    }

    pub fn from_address(&self) -> (r: &str)
        ensures
            r@ == self.from_address@,
    {
        self.from_address.as_str()
    }

    pub fn from_name(&self) -> (r: &str)
        ensures
            r@ == self.from_name@,
    {
        self.from_name.as_str()
    }
}

#[derive(Clone, Copy, Debug, PartialEq, Eq, Structural)]
pub enum EmailError {
    SendError,
    InvalidAddress,
    TemplateNotFound,
    ConfigError,
}

// ---------------------------------------------------------------------------
// Notifications
// ---------------------------------------------------------------------------

#[derive(Clone, Copy, Debug, PartialEq, Eq, Structural)]
pub enum NotificationType {
    OrderPlaced,
    OrderShipped,
    OrderDelivered,
    PaymentReceived,
    PaymentFailed,
    NewMessage,
    NewFollower,
    PostLiked,
    PostCommented,
    AccountAlert,
    SystemAnnouncement,
    PromotionalOffer,
}

/// Handle for the notification delivery channels.
pub struct NotificationService {}

impl NotificationService {
    pub fn new() -> Self {
        Self {  }
    }
}

// ---------------------------------------------------------------------------
// Payments
// ---------------------------------------------------------------------------

#[derive(Clone, Copy, Debug, PartialEq, Eq, Structural)]
pub enum PaymentIntentStatus {
    RequiresPaymentMethod,
    RequiresConfirmation,
    RequiresAction,
    Processing,
    Succeeded,
    Canceled,
    Failed,
}

#[derive(Clone, Copy, Debug, PartialEq, Eq, Structural)]
pub enum PaymentMethodType {
    Card,
    BankTransfer,
    PayPal,
    ApplePay,
    GooglePay,
}

/// A stored card summary: enough to display, never enough to charge.
#[derive(Clone, Debug)]
pub struct CardDetails {
    pub brand: String,
    pub last4: String,
    pub exp_month: u8,
    pub exp_year: u16,
    pub funding: String,
}

#[derive(Clone, Debug)]
pub struct BillingDetails {
    pub name: Option<String>,
    pub email: Option<String>,
    pub phone: Option<String>,
    pub address: Option<BillingAddress>,
}

#[derive(Clone, Debug)]
pub struct BillingAddress {
    pub line1: Option<String>,
    pub line2: Option<String>,
    pub city: Option<String>,
    pub state: Option<String>,
    pub postal_code: Option<String>,
    pub country: Option<String>,
}

#[derive(Clone, Copy, Debug, PartialEq, Eq, Structural)]
pub enum RefundStatus {
    Pending,
    Succeeded,
    Failed,
    Canceled,
}

#[derive(Clone, Copy, Debug, PartialEq, Eq, Structural)]
pub enum RefundReason {
    Duplicate,
    Fraudulent,
    RequestedByCustomer,
    Other,
}

/// Client of the payment gateway, keyed by an account secret.
pub struct PaymentService {
    pub api_key: String,
}

impl PaymentService {
    pub fn new(api_key: String) -> (r: Self)
        ensures
            r.api_key@ == api_key@,
    {
        Self { api_key }
    }

    pub fn api_key(&self) -> (r: &str)
        ensures
            r@ == self.api_key@,
    {
        self.api_key.as_str()
    }
}

// ---------------------------------------------------------------------------
// Templates
// ---------------------------------------------------------------------------

#[derive(Clone, Copy, Debug, PartialEq, Eq, Structural)]
pub enum TemplateError {
    ParseError,
    RenderError,
    ContextError,
    NotFound,
}

/// Context for the welcome email template.
#[derive(Clone, Debug)]
pub struct WelcomeEmailData {
    pub username: String,
    pub verification_link: String,
}

/// Context for the shipping block of the order confirmation template.
#[derive(Clone, Debug)]
pub struct ShippingAddressData {
    pub first_name: String,
    pub last_name: String,
    pub address_line_1: String,
    pub address_line_2: Option<String>,
    pub city: String,
    pub state: String,
    pub postal_code: String,
    pub country: String,
}

/// Context for the password reset template.
#[derive(Clone, Debug)]
pub struct PasswordResetData {
    pub reset_link: String,
    pub expiry_hours: i32,
}

// ---------------------------------------------------------------------------
// Outward HTTP shapes
// ---------------------------------------------------------------------------

#[derive(Clone, Copy, Debug, PartialEq, Eq, Structural)]
pub enum ApiClientError {
    Network,
    Http,
    Deserialize,
    Serialize,
}

/// A request to a third-party endpoint.
#[derive(Clone, Debug)]
pub struct ApiRequest<T> {
    pub endpoint: String,
    pub method: HttpMethod,
    pub body: Option<T>,
    pub query_params: Option<Vec<(String, String)>>,
    pub headers: Option<Vec<(String, String)>>,
}

#[derive(Clone, Copy, Debug, PartialEq, Eq, Structural)]
pub enum HttpMethod {
    Get,
    Post,
    Put,
    Patch,
    Delete,
}

#[derive(Clone, Copy, Debug, PartialEq, Eq, Structural)]
pub enum ExternalApiError {
    RequestError,
    HttpError,
    ParseError,
    Timeout,
    RateLimited,
}

// ---------------------------------------------------------------------------
// Search and upload shapes
// ---------------------------------------------------------------------------

/// Facet groups of a search response.
#[derive(Clone, Debug)]
pub struct SearchFacets {
    pub categories: Vec<FacetItem>,
    pub price_ranges: Vec<FacetItem>,
    pub ratings: Vec<FacetItem>,
}

/// One facet value and how many results carry it.
#[derive(Clone, Debug)]
pub struct FacetItem {
    pub value: String,
    pub count: i64,
}

/// What a client declares about a file it wants to upload.
#[derive(Clone, Debug)]
pub struct UploadRequest {
    pub filename: String,
    pub content_type: String,
    pub size: u64,
}

/// Where the client may put the file, and for how long the grant holds.
#[derive(Clone, Debug)]
pub struct PresignedUploadResponse {
    pub upload_url: String,
    pub file_id: String,
    pub expires_in: i64,
}

// ---------------------------------------------------------------------------
// Cache keys
// ---------------------------------------------------------------------------

/// Cache configuration including the idle cutoff.
#[derive(Clone, Copy, Debug, PartialEq, Eq, Structural)]
pub struct CacheConfig {
    pub max_capacity: u64,
    pub ttl_seconds: u64,
    pub idle_seconds: u64,
}

impl CacheConfig {
    /// The out-of-the-box value: ten thousand entries, five minutes to
    /// live, one minute idle.
    pub open spec fn is_default(self) -> bool {
        &&& self.max_capacity == 10000
        &&& self.ttl_seconds == 300
        &&& self.idle_seconds == 60
    }
}

impl Default for CacheConfig {
    fn default() -> (r: Self)
        ensures
            r.is_default(),
    {
        Self { max_capacity: 10000, ttl_seconds: 300, idle_seconds: 60 }
    }
}

/// A prefix followed by each part, every element preceded by a colon.
pub open spec fn cache_key_of(prefix: Seq<char>, parts: Seq<Seq<char>>) -> Seq<char>
    decreases parts.len(),
{
    if parts.len() == 0 {
        prefix
    } else {
        cache_key_of(prefix, parts.drop_last()) + seq![':'] + parts.last()
    }
}

/// Joins a key prefix and its parts with colons.
pub fn cache_key(prefix: &str, parts: &[&str]) -> (r: String)
    ensures
        r@ == cache_key_of(prefix@, parts@.map_values(|p: &str| p@)),
{
    let ghost views = parts@.map_values(|p: &str| p@);
    let mut key = prefix.to_owned();
    let n = parts.len();
    let mut i: usize = 0;
    proof {
        assert(views.subrange(0, 0) =~= Seq::<Seq<char>>::empty());
        assert(cache_key_of(prefix@, views.subrange(0, 0)) == prefix@);
    }
    while i < n
        invariant
            0 <= i <= n,
            n == parts@.len(),
            views == parts@.map_values(|p: &str| p@),
            views.len() == n,
            key@ == cache_key_of(prefix@, views.subrange(0, i as int)),
        decreases n - i,
    {
        key.append(":");
        let part = parts[i];
        key.append(part);
        proof {
            reveal_strlit(":");
            assert(":"@ =~= seq![':']);
            assert(views.subrange(0, i + 1 as int).drop_last() =~= views.subrange(0, i as int));
            assert(views.subrange(0, i + 1 as int).last() == part@);
            assert(key@ =~= cache_key_of(prefix@, views.subrange(0, i + 1 as int)));
        }
        i += 1;
    }
    proof {
        assert(views.subrange(0, n as int) =~= views);
    }
    key
}

impl EmailService {
    /// The welcome message for a fresh account, addressed to `to`.
    pub fn welcome_message(&self, to: &str, username: &str) -> (r: EmailMessage)
        ensures
            r.to@.len() == 1,
            r.to@[0]@ == to@,
            r.subject@ == "Welcome to Our Platform!"@,
            r.body_text is Some,
            r.body_text->0@ == "Welcome, "@ + username@ + "! We're glad to have you."@,
            r.body_html is Some,
            r.body_html->0@ == "<h1>Welcome, "@ + username@
                + "!</h1><p>We're glad to have you on our platform.</p>"@,
            r.cc is None && r.bcc is None && r.attachments is None && r.reply_to is None
                && r.headers is None,
    {
        let mut text = String::new();
        text.append("Welcome, ");
        text.append(username);
        text.append("! We're glad to have you.");
        let mut html = String::new();
        html.append("<h1>Welcome, ");
        html.append(username);
        html.append("!</h1><p>We're glad to have you on our platform.</p>");
        let mut to_list: Vec<String> = Vec::new();
        to_list.push(to.to_owned());
        EmailMessage {
            to: to_list,
            cc: None,
            bcc: None,
            subject: "Welcome to Our Platform!".to_owned(),
            body_text: Some(text),
            body_html: Some(html),
            attachments: None,
            reply_to: None,
            headers: None,
        }
    }

    /// The password-reset message: both bodies point at the reset link for
    /// the given token.
    pub fn password_reset_message(&self, to: &str, reset_token: &str) -> (r: EmailMessage)
        ensures
            r.to@.len() == 1,
            r.to@[0]@ == to@,
            r.subject@ == "Password Reset Request"@,
            r.body_text is Some,
            r.body_text->0@ == "Click this link to reset your password: "@
                + "https://example.com/reset-password?token="@ + reset_token@,
            r.body_html is Some,
            r.body_html->0@ == "<p>Click <a href=\""@
                + "https://example.com/reset-password?token="@ + reset_token@
                + "\">here</a> to reset your password.</p>"@,
            r.cc is None && r.bcc is None && r.attachments is None && r.reply_to is None
                && r.headers is None,
    {
        let mut url = String::new();
        url.append("https://example.com/reset-password?token=");
        url.append(reset_token);
        let mut text = String::new();
        text.append("Click this link to reset your password: ");
        text.append(url.as_str());
        let mut html = String::new();
        html.append("<p>Click <a href=\"");
        html.append(url.as_str());
        html.append("\">here</a> to reset your password.</p>");
        let mut to_list: Vec<String> = Vec::new();
        to_list.push(to.to_owned());
        EmailMessage {
            to: to_list,
            cc: None,
            bcc: None,
            subject: "Password Reset Request".to_owned(),
            body_text: Some(text),
            body_html: Some(html),
            attachments: None,
            reply_to: None,
            headers: None,
        }
    }

    /// The order-confirmation message for one order number.
    pub fn order_confirmation_message(&self, to: &str, order_number: &str) -> (r: EmailMessage)
        ensures
            r.to@.len() == 1,
            r.to@[0]@ == to@,
            r.subject@ == "Order Confirmation - "@ + order_number@,
            r.body_text is Some,
            r.body_text->0@ == "Your order "@ + order_number@
                + " has been confirmed. Thank you for your purchase!"@,
            r.body_html is Some,
            r.body_html->0@ == "<h1>Order Confirmed</h1><p>Your order <strong>"@ + order_number@
                + "</strong> has been confirmed.</p>"@,
            r.cc is None && r.bcc is None && r.attachments is None && r.reply_to is None
                && r.headers is None,
    {
        let mut subject = String::new();
        subject.append("Order Confirmation - ");
        subject.append(order_number);
        let mut text = String::new();
        text.append("Your order ");
        text.append(order_number);
        text.append(" has been confirmed. Thank you for your purchase!");
        let mut html = String::new();
        html.append("<h1>Order Confirmed</h1><p>Your order <strong>");
        html.append(order_number);
        html.append("</strong> has been confirmed.</p>");
        let mut to_list: Vec<String> = Vec::new();
        to_list.push(to.to_owned());
        EmailMessage {
            to: to_list,
            cc: None,
            bcc: None,
            subject,
            body_text: Some(text),
            body_html: Some(html),
            attachments: None,
            reply_to: None,
            headers: None,
        }
    }
}


} // verus!
