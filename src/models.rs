use vstd::prelude::*;

verus! {

#[derive(Debug)]
pub struct PingRequest {
    pub value: Option<String>,
}

#[derive(Debug, Clone, Default)]
pub struct PingResponse {
    pub value: Option<String>,
}

#[derive(Debug, Clone, Default)]
pub struct AutoUploadResponse {
    pub success: bool,
    pub enabled: bool,
    pub error: Option<String>,
}

#[derive(Debug, Clone, Default)]
pub struct UploadStatusResponse {
    pub auto_upload_enabled: bool,
    pub auto_upload_prompt_enabled: bool,
    pub pending_uploads: i32,
    pub failed_uploads: i32,
    pub error: Option<String>,
}

#[derive(Debug)]
pub struct UploadConfig {
    pub server_url: Option<String>,
}

#[derive(Debug, Clone, Default)]
pub struct BasicResponse {
    pub success: bool,
    pub error: Option<String>,
}

#[derive(Debug, Clone, Default)]
pub struct PhotoUploadResponse {
    pub success: bool,
    pub photo_id: String,
    pub error: Option<String>,
}

#[derive(Debug, Clone, Default)]
pub struct AuthTokenResponse {
    pub token: Option<String>,
    pub expires_at: Option<String>,
    pub success: bool,
    pub error: Option<String>,
}

#[derive(Debug, Clone, Default)]
pub struct PhotoScanResponse {
    pub photos_added: i32,
    pub scan_errors: i32,
    pub success: bool,
    pub error: Option<String>,
}

#[derive(Debug, Clone, Default)]
pub struct PhotoWorkerResponse {
    pub success: bool,
    pub response_json: Option<String>,
    pub error: Option<String>,
}

#[derive(Debug, Clone)]
pub struct PushDistributorInfo {
    pub package_name: String,
    pub display_name: String,
    pub is_available: bool,
}

#[derive(Debug, Clone, Default)]
pub struct PushDistributorsResponse {
    pub distributors: Vec<PushDistributorInfo>,
    pub success: bool,
    pub error: Option<String>,
}

/// `status` is one of `not_configured`, `registered`,
/// `distributor_missing`, `registration_failed` or `disabled`.
#[derive(Debug, Clone, Default)]
pub struct PushRegistrationStatusResponse {
    pub status: String,
    pub status_message: String,
    pub selected_distributor: Option<String>,
    pub push_endpoint: Option<String>,
    pub last_error: Option<String>,
    pub push_enabled: bool,
    pub success: bool,
    pub error: Option<String>,
}

/// An empty package name turns push notifications off.
#[derive(Debug)]
pub struct SelectDistributorRequest {
    pub package_name: String,
}

#[derive(Debug, Clone, Default)]
pub struct PermissionResponse {
    pub granted: bool,
    pub success: bool,
    pub error: Option<String>,
}

#[derive(Debug, Clone, Default)]
pub struct NotificationSettingsResponse {
    pub enabled: bool,
    pub success: bool,
    pub error: Option<String>,
}

#[derive(Debug, Clone, Default)]
pub struct TauriPermissionStringResponse {
    pub post_notification: String,
}

#[derive(Debug, Clone)]
pub struct RequestPermission {
    pub post_notification: bool,
}

/// The answer of the device's photo database to an insertion.
#[derive(Debug, Clone, Default)]
pub struct AddPhotoResponse {
    pub success: bool,
    pub photo_id: Option<String>,
    pub error: Option<String>,
}

} // verus!
