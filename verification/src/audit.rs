//! The audit log's events.
use vstd::prelude::*;

verus! {

/// One recorded admin action.
#[derive(Debug, Clone)]
pub struct AuditEvent {
    pub id: i64,
    pub admin_id: Option<i64>,
    pub action: String,
    pub target_type: String,
    pub target_value: String,
    pub details_json: String,
    pub ip_address: Option<String>,
    pub created_at: String,
}

} // verus!
