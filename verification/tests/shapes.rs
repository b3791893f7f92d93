use authcore::common::{
    determine_export_format, ApiResponse, ExportFormat, PaginationMeta, PaginationParams,
};
use authcore::config::{AppConfig, AuthConfig};
use authcore::services::{cache_key, EmailService, PaymentService};

#[test]
fn pagination_meta_counts_pages() {
    let m = PaginationMeta::new(2, 20, 45);
    assert_eq!(m.total_pages, 3);
    assert!(m.has_previous);
    assert!(m.has_next);
    let last = PaginationMeta::new(3, 20, 45);
    assert!(!last.has_next);
    let empty = PaginationMeta::new(1, 20, 0);
    assert_eq!(empty.total_pages, 0);
    assert!(!empty.has_previous);
    assert!(!empty.has_next);
    let exact = PaginationMeta::new(1, 20, 40);
    assert_eq!(exact.total_pages, 2);
}

#[test]
fn pagination_params_default() {
    let p = PaginationParams::default();
    assert_eq!(p.page, 1);
    assert_eq!(p.per_page, 20);
    assert!(p.sort_by.is_none());
}

#[test]
fn api_response_envelopes() {
    let ok: ApiResponse<u32> = ApiResponse::success(7);
    assert!(ok.success);
    assert_eq!(ok.data, Some(7));
    assert!(ok.error.is_none());
    let err: ApiResponse<u32> = ApiResponse::error("boom".to_string());
    assert!(!err.success);
    assert_eq!(err.error.as_deref(), Some("boom"));
}

#[test]
fn export_format_detection() {
    assert_eq!(determine_export_format("csv"), ExportFormat::Csv);
    assert_eq!(determine_export_format("CSV"), ExportFormat::Csv);
    assert_eq!(determine_export_format("Json"), ExportFormat::Json);
    assert_eq!(determine_export_format("xlsx"), ExportFormat::Xlsx);
    assert_eq!(determine_export_format("PDF"), ExportFormat::Pdf);
    assert_eq!(determine_export_format("yaml"), ExportFormat::Csv);
    assert_eq!(determine_export_format(""), ExportFormat::Csv);
}

#[test]
fn default_config_values() {
    let c = AppConfig::default();
    assert_eq!(c.server.port, 8080);
    assert_eq!(c.auth.token_expiry_seconds, 3600);
    assert_eq!(c.auth.refresh_token_expiry_seconds, 86400);
    assert_eq!(c.cache.max_capacity, 10000);
    assert_eq!(c.database.url, "sqlite::memory:");
    let a = AuthConfig::default();
    assert_eq!(a.bcrypt_cost, 10);
}

#[test]
fn cache_keys_are_colon_joined() {
    assert_eq!(cache_key("user", &["42", "profile"]), "user:42:profile");
    assert_eq!(cache_key("stats", &[]), "stats");
}

#[test]
fn service_accessors() {
    let email = EmailService::new("noreply@example.com".to_string(), "Example".to_string());
    assert_eq!(email.from_address(), "noreply@example.com");
    assert_eq!(email.from_name(), "Example");
    let pay = PaymentService::new("sk_test_123".to_string());
    assert_eq!(pay.api_key(), "sk_test_123");
}
