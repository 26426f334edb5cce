//! Collections, saved requests and environments of a workspace.
use vstd::prelude::*;

use crate::model::{FlowSource, HeaderValue};

verus! {

pub const WORKSPACE_SCHEMA_VERSION: u16 = 1;

#[derive(Debug, Clone, PartialEq, Eq)]
pub struct SessionUpdate {
    pub name: String,
    pub notes: Option<String>,
}

#[derive(Debug, Clone, PartialEq, Eq)]
pub struct FlowSearchQuery {
    pub text: Option<String>,
    pub session_id: Option<String>,
    pub method: Option<String>,
    pub source: Option<FlowSource>,
    pub status_class: Option<u16>,
    pub min_duration_ms: Option<u64>,
    pub max_duration_ms: Option<u64>,
    pub limit: usize,
    pub offset: usize,
}

impl Default for FlowSearchQuery {
    fn default() -> (q: Self)
        ensures
            q.text is None,
            q.session_id is None,
            q.method is None,
            q.source is None,
            q.status_class is None,
            q.min_duration_ms is None,
            q.max_duration_ms is None,
            q.limit == 500,
            q.offset == 0,
    {
        FlowSearchQuery {
            text: None,
            session_id: None,
            method: None,
            source: None,
            status_class: None,
            min_duration_ms: None,
            max_duration_ms: None,
            limit: 500,
            offset: 0,
        }
    }
}

#[derive(Debug, Clone, PartialEq, Eq)]
pub struct Collection {
    pub id: String,
    pub name: String,
    pub description: Option<String>,
    pub created_at: String,
    pub updated_at: String,
}

#[derive(Debug, Clone, PartialEq, Eq)]
pub struct SavedCollection {
    pub schema_version: u16,
    pub id: String,
    pub name: String,
    pub description: Option<String>,
    pub sort_order: i64,
    pub created_at: String,
    pub updated_at: String,
}

#[derive(Debug, Clone, PartialEq, Eq)]
pub struct SavedRequestHeader {
    pub name: String,
    pub value: String,
    pub enabled: bool,
    pub sensitive: bool,
}

#[derive(Debug, Clone, PartialEq, Eq)]
pub struct SavedRequestBody {
    pub text: Option<String>,
    pub base64: Option<String>,
    pub is_binary: bool,
    pub content_type: Option<String>,
}

#[derive(Debug, Clone, PartialEq, Eq)]
pub struct SavedRequest {
    pub schema_version: u16,
    pub id: String,
    pub collection_id: String,
    pub name: String,
    pub method: String,
    pub url: String,
    pub headers: Vec<HeaderValue>,
    pub body: Option<SavedRequestBody>,
    pub source_flow_id: Option<String>,
    pub sort_order: i64,
    pub created_at: String,
    pub updated_at: String,
}

#[derive(Debug, Clone, PartialEq, Eq)]
pub struct Environment {
    pub schema_version: u16,
    pub id: String,
    pub name: String,
    pub is_active: bool,
    pub created_at: String,
    pub updated_at: String,
}

#[derive(Debug, Clone, PartialEq, Eq)]
pub struct EnvironmentVariable {
    pub schema_version: u16,
    pub id: String,
    pub environment_id: String,
    pub key: String,
    pub value: Option<String>,
    pub is_secret: bool,
    pub secret_ref: Option<String>,
    pub enabled: bool,
    pub sort_order: i64,
}

#[derive(Debug, Clone, PartialEq, Eq)]
pub struct EnvironmentVariableInput {
    pub environment_id: String,
    pub key: String,
    pub value: Option<String>,
    pub is_secret: bool,
    pub enabled: bool,
    pub sort_order: Option<i64>,
}


#[derive(Debug, Clone, PartialEq, Eq)]
pub struct WorkspaceExport {
    pub schema_version: u16,
    pub exported_at: String,
    pub sessions: Vec<ExportedSession>,
    pub collections: Vec<CollectionExport>,
    pub environments: Vec<EnvironmentExport>,
}

#[derive(Debug, Clone, PartialEq, Eq)]
pub struct ExportedSession {
    pub id: String,
    pub name: String,
    pub notes: Option<String>,
    pub started_at: String,
    pub ended_at: Option<String>,
    pub device_id: Option<String>,
}

#[derive(Debug, Clone, PartialEq, Eq)]
pub struct CollectionExport {
    pub collection: Collection,
    pub requests: Vec<SavedRequest>,
}

#[derive(Debug, Clone, PartialEq, Eq)]
pub struct EnvironmentExport {
    pub environment: Environment,
    pub variables: Vec<EnvironmentVariable>,
}

} // verus!
