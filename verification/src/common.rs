//! Response and request shapes shared across the surrounding request layer:
//! pagination, generic API envelopes, health checks, uploads and exports.

use vstd::prelude::*;

verus! {

/// Page selection as sent by a client.
#[derive(Clone, Debug)]
pub struct PaginationParams {
    pub page: i32,
    pub per_page: i32,
    pub sort_by: Option<String>,
    pub sort_order: Option<String>,
}

impl Default for PaginationParams {
    /// The first page, twenty items, no ordering.
    fn default() -> (r: Self)
        ensures
            r.page == 1,
            r.per_page == 20,
            r.sort_by is None,
            r.sort_order is None,
    {
        Self { page: 1, per_page: 20, sort_by: None, sort_order: None }
    }
}

/// A page of data together with its pagination facts.
#[derive(Clone, Debug)]
pub struct PaginatedResponse<T> {
    pub data: Vec<T>,
    pub pagination: PaginationMeta,
}

/// Derived pagination facts for one page of a collection.
#[derive(Clone, Copy, Debug, PartialEq, Eq, Structural)]
pub struct PaginationMeta {
    pub current_page: i32,
    pub per_page: i32,
    pub total_items: i64,
    pub total_pages: i32,
    pub has_previous: bool,
    pub has_next: bool,
}

impl PaginationMeta {
    /// Pagination facts for `total_items` items in pages of `per_page`:
    /// the page count rounds up, and the neighbour flags compare the current
    /// page against the ends.
    pub fn new(current_page: i32, per_page: i32, total_items: i64) -> (r: Self)
        requires
            per_page >= 1,
            total_items >= 0,
            (total_items + per_page - 1) / (per_page as int) <= i32::MAX,
        ensures
            r.current_page == current_page,
            r.per_page == per_page,
            r.total_items == total_items,
            r.total_pages == (total_items + per_page - 1) / (per_page as int),
            r.has_previous == (current_page > 1),
            r.has_next == (current_page < r.total_pages),
    {
        let total_pages: i32 = if total_items == 0 {
            proof {
                assert((0 + per_page - 1) / (per_page as int) == 0) by {
                    vstd::arithmetic::div_mod::lemma_basic_div(per_page - 1, per_page as int);
                }
            }
            0
        } else {
            let tp_wide: i64 = (total_items - 1) / (per_page as i64) + 1;
            proof {
                vstd::arithmetic::div_mod::lemma_div_plus_one(total_items - 1, per_page as int);
                assert(total_items + per_page - 1 == (per_page as int) + (total_items - 1));
                assert(tp_wide == (total_items + per_page - 1) / (per_page as int));
                assert(tp_wide >= 0) by {
                    vstd::arithmetic::div_mod::lemma_div_pos_is_pos(
                        total_items - 1,
                        per_page as int,
                    );
                }
            }
            tp_wide as i32
        };
        Self {
            current_page,
            per_page,
            total_items,
            total_pages,
            has_previous: current_page > 1,
            has_next: current_page < total_pages,
        }
    }
}

/// The uniform request-layer envelope: either data or an error message.
#[derive(Clone, Debug)]
pub struct ApiResponse<T> {
    pub success: bool,
    pub data: Option<T>,
    pub error: Option<String>,
    pub metadata: Option<ResponseMetadata>,
}

impl<T> ApiResponse<T> {
    /// A successful envelope around `data`.
    pub fn success(data: T) -> (r: Self)
        ensures
            r.success == true,
            r.data == Some(data),
            r.error is None,
            r.metadata is None,
    {
        Self { success: true, data: Some(data), error: None, metadata: None }
    }

    /// A failed envelope around a message.
    pub fn error(message: String) -> (r: Self)
        ensures
            r.success == false,
            r.data is None,
            r.error == Some(message),
            r.metadata is None,
    {
        Self { success: false, data: None, error: Some(message), metadata: None }
    }

    /// The same envelope with metadata attached.
    pub fn with_metadata(self, metadata: ResponseMetadata) -> (r: Self)
        ensures
            r.success == self.success,
            r.data == self.data,
            r.error == self.error,
            r.metadata == Some(metadata),
    {
        Self { metadata: Some(metadata), ..self }
    }
}

/// Identification attached to a response.
#[derive(Clone, Debug)]
pub struct ResponseMetadata {
    pub request_id: String,
    pub timestamp: String,
    pub version: String,
}

/// Aggregated health report.
#[derive(Clone, Debug)]
pub struct HealthCheckResponse {
    pub status: String,
    pub version: String,
    pub timestamp: String,
    pub uptime_seconds: u64,
    pub checks: Vec<HealthCheck>,
}

/// One subsystem's health probe.
#[derive(Clone, Debug)]
pub struct HealthCheck {
    pub name: String,
    pub status: HealthStatus,
    pub message: Option<String>,
    pub latency_ms: Option<u64>,
}

#[derive(Clone, Copy, Debug, PartialEq, Eq, Structural)]
pub enum HealthStatus {
    Healthy,
    Degraded,
    Unhealthy,
}

/// Record of a completed file upload.
#[derive(Clone, Debug)]
pub struct FileUploadResponse {
    pub id: String,
    pub filename: String,
    pub original_filename: String,
    pub content_type: String,
    pub size: u64,
    pub url: String,
    pub thumbnail_url: Option<String>,
}

#[derive(Clone, Copy, Debug, PartialEq, Eq, Structural)]
pub enum ExportFormat {
    Csv,
    Json,
    Xlsx,
    Pdf,
}

/// State of a queued export job.
#[derive(Clone, Debug)]
pub struct ExportResponse {
    pub job_id: String,
    pub status: ExportStatus,
    pub download_url: Option<String>,
    pub expires_at: Option<String>,
}

#[derive(Clone, Copy, Debug, PartialEq, Eq, Structural)]
pub enum ExportStatus {
    Pending,
    Processing,
    Completed,
    Failed,
}

/// Case-insensitive match of a character against a lowercase ASCII letter.
pub open spec fn ci_eq(c: char, lower: char) -> bool {
    c == lower || c as u32 == lower as u32 - 32
}

/// The export format a request names, matched case-insensitively; anything
/// unrecognized falls back to CSV.
pub open spec fn export_format_of(s: Seq<char>) -> ExportFormat {
    if s.len() == 3 && ci_eq(s[0], 'c') && ci_eq(s[1], 's') && ci_eq(s[2], 'v') {
        ExportFormat::Csv
    } else if s.len() == 4 && ci_eq(s[0], 'j') && ci_eq(s[1], 's') && ci_eq(s[2], 'o') && ci_eq(
        s[3],
        'n',
    ) {
        ExportFormat::Json
    } else if s.len() == 4 && ci_eq(s[0], 'x') && ci_eq(s[1], 'l') && ci_eq(s[2], 's') && ci_eq(
        s[3],
        'x',
    ) {
        ExportFormat::Xlsx
    } else if s.len() == 3 && ci_eq(s[0], 'p') && ci_eq(s[1], 'd') && ci_eq(s[2], 'f') {
        ExportFormat::Pdf
    } else {
        ExportFormat::Csv
    }
}

fn ci_eq_exec(c: char, lower: char, upper: char) -> (r: bool)
    requires
        upper as u32 == lower as u32 - 32,
    ensures
        r == ci_eq(c, lower),
{
    c == lower || c == upper
}

/// Picks the export format a request names; unrecognized input falls back
/// to CSV.
pub fn determine_export_format(format_str: &str) -> (r: ExportFormat)
    ensures
        r == export_format_of(format_str@),
{
    let n = format_str.unicode_len();
    if n == 3 {
        let c0 = format_str.get_char(0);
        let c1 = format_str.get_char(1);
        let c2 = format_str.get_char(2);
        if ci_eq_exec(c0, 'c', 'C') && ci_eq_exec(c1, 's', 'S') && ci_eq_exec(c2, 'v', 'V') {
            ExportFormat::Csv
        } else if ci_eq_exec(c0, 'p', 'P') && ci_eq_exec(c1, 'd', 'D') && ci_eq_exec(c2, 'f', 'F') {
            ExportFormat::Pdf
        } else {
            ExportFormat::Csv
        }
    } else if n == 4 {
        let c0 = format_str.get_char(0);
        let c1 = format_str.get_char(1);
        let c2 = format_str.get_char(2);
        let c3 = format_str.get_char(3);
        if ci_eq_exec(c0, 'j', 'J') && ci_eq_exec(c1, 's', 'S') && ci_eq_exec(c2, 'o', 'O')
            && ci_eq_exec(c3, 'n', 'N') {
            ExportFormat::Json
        } else if ci_eq_exec(c0, 'x', 'X') && ci_eq_exec(c1, 'l', 'L') && ci_eq_exec(c2, 's', 'S')
            && ci_eq_exec(c3, 'x', 'X') {
            ExportFormat::Xlsx
        } else {
            ExportFormat::Csv
        }
    } else {
        ExportFormat::Csv
    }
}

} // verus!
