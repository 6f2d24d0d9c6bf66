//! The messages exchanged between the queue runner and its builders.
//!
//! The types here carry plain values; their serialized forms live with the
//! program that puts them on the wire.

use vstd::prelude::*;

verus! {

// -- Version check --

#[derive(Debug, Clone, PartialEq, Eq)]
pub struct VersionCheckRequest {
    pub version: String,
    pub machine_id: String,
    pub hostname: String,
}

#[derive(Debug, Clone, PartialEq, Eq)]
pub struct VersionCheckResponse {
    pub compatible: bool,
    pub server_version: String,
}

// -- Runner→Builder tunnel messages --

#[derive(Debug, Clone, PartialEq, Eq)]
pub enum RunnerMessage {
    Join(JoinResponse),
    ConfigUpdate(ConfigUpdate),
    Ping(SimplePingMessage),
    Build(BuildMessage),
    Abort(AbortMessage),
}

#[derive(Debug, Clone, PartialEq, Eq)]
pub struct JoinResponse {
    pub machine_id: String,
    pub max_concurrent_downloads: u32,
}

#[derive(Debug, Clone, PartialEq, Eq)]
pub struct ConfigUpdate {
    pub max_concurrent_downloads: u32,
}

#[derive(Debug, Clone, PartialEq, Eq)]
pub struct SimplePingMessage {
    pub message: String,
}

#[derive(Debug, Clone, PartialEq, Eq)]
pub struct PresignedUploadOpts {
    pub upload_debug_info: bool,
}

#[derive(Debug, Clone, PartialEq, Eq)]
pub struct BuildMessage {
    pub build_id: String,
    pub drv: String,
    pub resolved_drv: Option<String>,
    pub max_log_size: u64,
    pub max_silent_time: i32,
    pub build_timeout: i32,
    pub presigned_url_opts: Option<PresignedUploadOpts>,
}

#[derive(Debug, Clone, PartialEq, Eq)]
pub struct AbortMessage {
    pub build_id: String,
}

// -- Build log --

#[derive(Debug, Clone, PartialEq, Eq)]
pub struct LogChunk {
    pub drv: String,
    pub data: Vec<u8>,
}

// -- Requisites --

#[derive(Debug, Clone, PartialEq, Eq)]
pub struct FetchRequisitesRequest {
    pub path: String,
    pub include_outputs: bool,
}

#[derive(Debug, Clone, PartialEq, Eq)]
pub struct DrvRequisitesMessage {
    pub requisites: Vec<String>,
}

// -- Store paths --

#[derive(Debug, Clone, PartialEq, Eq)]
pub struct HasPathResponse {
    pub has_path: bool,
}

// -- NAR data (streaming chunk) --

#[derive(Debug, Clone, PartialEq, Eq)]
pub struct NarData {
    pub chunk: Vec<u8>,
}

// -- Build outputs --

#[derive(Debug, Clone, PartialEq, Eq)]
pub enum Output {
    NameOnly { name: String },
    WithPath(OutputWithPath),
}

#[derive(Debug, Clone, PartialEq, Eq)]
pub struct OutputWithPath {
    pub name: String,
    pub path: String,
    pub closure_size: u64,
    pub nar_size: u64,
    pub nar_hash: String,
}

// -- Build products --

#[derive(Debug, Clone, PartialEq, Eq)]
pub struct BuildProduct {
    pub path: String,
    pub default_path: String,
    /// The product's type (`type` on the wire).
    pub product_type: String,
    pub subtype: String,
    pub name: String,
    pub is_regular: bool,
    pub sha256hash: Option<String>,
    pub file_size: Option<u64>,
}

// -- Step status --

/// How far a builder has got with a step.
#[derive(Debug, Clone, Copy, PartialEq, Eq, Structural)]
pub enum StepStatus {
    Preparing,
    Connecting,
    SendingInputs,
    Building,
    WaitingForLocalSlot,
    ReceivingOutputs,
    PostProcessing,
}

impl StepStatus {
    /// The number that stands for the status on the wire and in the database.
    pub fn code(self) -> (c: u8)
        ensures
            c == step_status_code(self),
    {
        match self {
            StepStatus::Preparing => 0,
            StepStatus::Connecting => 1,
            StepStatus::SendingInputs => 2,
            StepStatus::Building => 3,
            StepStatus::WaitingForLocalSlot => 4,
            StepStatus::ReceivingOutputs => 5,
            StepStatus::PostProcessing => 6,
        }
    }
}

pub open spec fn step_status_code(s: StepStatus) -> u8 {
    match s {
        StepStatus::Preparing => 0,
        StepStatus::Connecting => 1,
        StepStatus::SendingInputs => 2,
        StepStatus::Building => 3,
        StepStatus::WaitingForLocalSlot => 4,
        StepStatus::ReceivingOutputs => 5,
        StepStatus::PostProcessing => 6,
    }
}

#[derive(Debug, Clone, PartialEq, Eq)]
pub struct StepUpdate {
    pub build_id: String,
    pub machine_id: String,
    pub step_status: StepStatus,
}

// -- Build result --

/// How a build on a builder ended.
#[derive(Debug, Clone, Copy, PartialEq, Eq, Structural)]
pub enum BuildResultState {
    BuildFailure,
    Success,
    PreparingFailure,
    ImportFailure,
    UploadFailure,
    PostProcessingFailure,
}

impl BuildResultState {
    /// The number that stands for the state on the wire.
    pub fn code(self) -> (c: u8)
        ensures
            c == build_result_state_code(self),
    {
        match self {
            BuildResultState::BuildFailure => 0,
            BuildResultState::Success => 1,
            BuildResultState::PreparingFailure => 2,
            BuildResultState::ImportFailure => 3,
            BuildResultState::UploadFailure => 4,
            BuildResultState::PostProcessingFailure => 5,
        }
    }
}

pub open spec fn build_result_state_code(s: BuildResultState) -> u8 {
    match s {
        BuildResultState::BuildFailure => 0,
        BuildResultState::Success => 1,
        BuildResultState::PreparingFailure => 2,
        BuildResultState::ImportFailure => 3,
        BuildResultState::UploadFailure => 4,
        BuildResultState::PostProcessingFailure => 5,
    }
}

// -- Presigned URL --

#[derive(Debug, Clone, PartialEq, Eq)]
pub struct PresignedNarRequest {
    pub store_path: String,
    pub nar_hash: String,
    pub debug_info_build_ids: Vec<String>,
}

#[derive(Debug, Clone, PartialEq, Eq)]
pub struct PresignedUrlRequest {
    pub build_id: String,
    pub machine_id: String,
    pub request: Vec<PresignedNarRequest>,
}

#[derive(Debug, Clone, PartialEq, Eq)]
pub struct PresignedUpload {
    pub path: String,
    pub url: String,
    pub compression: String,
    pub compression_level: i32,
}

#[derive(Debug, Clone, PartialEq, Eq)]
pub struct PresignedNarResponse {
    pub store_path: String,
    pub nar_url: String,
    pub nar_upload: PresignedUpload,
    pub ls_upload: Option<PresignedUpload>,
    pub debug_info_upload: Vec<PresignedUpload>,
}

#[derive(Debug, Clone, PartialEq, Eq)]
pub struct PresignedUrlResponse {
    pub inner: Vec<PresignedNarResponse>,
}

#[derive(Debug, Clone, PartialEq, Eq)]
pub struct PresignedUploadComplete {
    pub build_id: String,
    pub machine_id: String,
    pub store_path: String,
    pub url: String,
    pub compression: String,
    pub file_hash: String,
    pub file_size: u64,
    pub nar_hash: String,
    pub nar_size: u64,
    pub references: Vec<String>,
    pub deriver: Option<String>,
    pub ca: Option<String>,
}

} // verus!
