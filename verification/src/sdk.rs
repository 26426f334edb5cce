//! The protocol between the optional in-app SDKs and the studio, and the
//! ingestion endpoint that receives its events.
use std::collections::BTreeMap;

use vstd::prelude::*;

use crate::text::{
    chars_of, decimal_string, extend_str, is_blank, owned, string_of, trim,
};

verus! {

pub const SDK_PROTOCOL_VERSION: u16 = 1;

pub const SDK_INGESTION_PORT: u16 = 8182;

pub const SDK_EVENT_PATH: &'static str = "/v1/events";

pub const SDK_HEALTH_PATH: &'static str = "/health";

pub const SDK_CORRELATION_HEADER: &'static str = "X-Mobile-API-Studio-Request-Id";

#[derive(Debug, Clone, Copy, PartialEq, Eq, Structural)]
pub enum SdkPlatform {
    Ios,
    Android,
    Other,
}

#[derive(Debug, Clone, Copy, PartialEq, Eq, Structural)]
pub enum SdkLogLevel {
    Debug,
    Info,
    Warning,
    Error,
}

#[derive(Debug, Clone, Copy, PartialEq, Eq, Structural)]
pub enum SdkNetworkPhase {
    Started,
    Completed,
    Failed,
}

#[derive(Debug, Clone, PartialEq, Eq)]
pub struct SdkSourceLocation {
    pub file: Option<String>,
    pub function: Option<String>,
    pub line: Option<u32>,
}

#[derive(Debug, Clone, PartialEq, Eq, Default)]
pub struct SdkContextSnapshot {
    pub screen: Option<String>,
    pub feature: Option<String>,
    pub attributes: BTreeMap<String, String>,
    pub source: Option<SdkSourceLocation>,
}

#[derive(Debug, Clone, PartialEq, Eq)]
pub struct SdkHandshake {
    pub client_id: String,
    pub app_id: String,
    pub app_name: String,
    pub app_version: Option<String>,
    pub app_build: Option<String>,
    pub platform: SdkPlatform,
    pub device_name: Option<String>,
    pub os_version: Option<String>,
    pub sdk_version: String,
}

#[derive(Debug, Clone, PartialEq, Eq)]
pub struct SdkContextEvent {
    pub client_id: String,
    pub context: SdkContextSnapshot,
}

#[derive(Debug, Clone, PartialEq, Eq)]
pub struct SdkLogEvent {
    pub client_id: String,
    pub level: SdkLogLevel,
    pub message: String,
    pub context: SdkContextSnapshot,
}

#[derive(Debug, Clone, PartialEq, Eq)]
pub struct SdkNetworkEvent {
    pub client_id: String,
    pub request_id: String,
    pub phase: SdkNetworkPhase,
    pub method: String,
    pub url: String,
    pub status_code: Option<u16>,
    pub duration_ms: Option<u64>,
    pub error: Option<String>,
    pub context: SdkContextSnapshot,
}

#[derive(Debug, Clone, PartialEq, Eq)]
pub enum SdkEvent {
    Handshake(SdkHandshake),
    Context(SdkContextEvent),
    Log(SdkLogEvent),
    Network(SdkNetworkEvent),
}

pub open spec fn event_client_id(event: SdkEvent) -> Seq<char> {
    match event {
        SdkEvent::Handshake(v) => v.client_id@,
        SdkEvent::Context(v) => v.client_id@,
        SdkEvent::Log(v) => v.client_id@,
        SdkEvent::Network(v) => v.client_id@,
    }
}

pub open spec fn event_kind(event: SdkEvent) -> Seq<char> {
    match event {
        SdkEvent::Handshake(_) => "handshake"@,
        SdkEvent::Context(_) => "context"@,
        SdkEvent::Log(_) => "log"@,
        SdkEvent::Network(_) => "network"@,
    }
}

impl SdkEvent {
    /// The client that sent the event.
    pub fn client_id(&self) -> (r: &str)
        ensures
            r@ == event_client_id(*self),
    {
        match self {
            SdkEvent::Handshake(value) => value.client_id.as_str(),
            SdkEvent::Context(value) => value.client_id.as_str(),
            SdkEvent::Log(value) => value.client_id.as_str(),
            SdkEvent::Network(value) => value.client_id.as_str(),
        }
    }

    /// The correlated request of a network event.
    pub fn request_id(&self) -> (r: Option<&str>)
        ensures
            match *self {
                SdkEvent::Network(n) => r matches Some(id) && id@ == n.request_id@,
                _ => r is None,
            },
    {
        match self {
            SdkEvent::Network(value) => Some(value.request_id.as_str()),
            _ => None,
        }
    }

    /// The stored kind of the event.
    pub fn kind(&self) -> (r: &'static str)
        ensures
            r@ == event_kind(*self),
    {
        match self {
            SdkEvent::Handshake(_) => "handshake",
            SdkEvent::Context(_) => "context",
            SdkEvent::Log(_) => "log",
            SdkEvent::Network(_) => "network",
        }
    }
}

#[derive(Debug, Clone, PartialEq, Eq)]
pub struct SdkEnvelope {
    pub schema_version: u16,
    pub event_id: String,
    pub occurred_at: String,
    pub event: SdkEvent,
}

#[derive(Debug, Clone, PartialEq, Eq)]
pub struct SdkProtocolError {
    pub code: String,
    pub message: String,
}

impl SdkProtocolError {
    pub fn new(code: &str, message: &str) -> (e: Self)
        ensures
            e.code@ == code@,
            e.message@ == message@,
    {
        SdkProtocolError { code: owned(code), message: owned(message) }
    }
}

/// The code of the first rule an envelope breaks, if any.
pub open spec fn envelope_problem(envelope: SdkEnvelope) -> Option<Seq<char>> {
    if envelope.schema_version != SDK_PROTOCOL_VERSION {
        Some("sdk_schema_unsupported"@)
    } else if trim(envelope.event_id@).len() == 0 {
        Some("sdk_event_id_required"@)
    } else if trim(envelope.occurred_at@).len() == 0 {
        Some("sdk_occurred_at_required"@)
    } else if trim(event_client_id(envelope.event)).len() == 0 {
        Some("sdk_client_id_required"@)
    } else {
        match envelope.event {
            SdkEvent::Network(n) => {
                if trim(n.request_id@).len() == 0 {
                    Some("sdk_request_id_required"@)
                } else if trim(n.method@).len() == 0 || trim(n.url@).len() == 0 {
                    Some("sdk_network_request_invalid"@)
                } else {
                    None
                }
            },
            _ => None,
        }
    }
}

impl SdkEnvelope {
    /// Accepts an envelope of the supported schema whose identifiers are not
    /// blank; network events also need a request id, a method and a URL.
    pub fn validate(&self) -> (r: Result<(), SdkProtocolError>)
        ensures
            r is Ok <==> envelope_problem(*self) is None,
            r matches Err(e) ==> envelope_problem(*self) == Some(e.code@),
    {
        if self.schema_version != SDK_PROTOCOL_VERSION {
            let mut message = chars_of("Unsupported SDK schema version ");
            extend_str(&mut message, decimal_string(self.schema_version as u64).as_str());
            extend_str(&mut message, ". Desktop supports ");
            extend_str(&mut message, decimal_string(SDK_PROTOCOL_VERSION as u64).as_str());
            extend_str(&mut message, ".");
            let text = string_of(&message);
            return Err(SdkProtocolError::new("sdk_schema_unsupported", text.as_str()));
        }
        if is_blank(self.event_id.as_str()) {
            return Err(SdkProtocolError::new("sdk_event_id_required", "eventId is required"));
        }
        if is_blank(self.occurred_at.as_str()) {
            return Err(SdkProtocolError::new("sdk_occurred_at_required", "occurredAt is required"));
        }
        if is_blank(self.event.client_id()) {
            return Err(SdkProtocolError::new("sdk_client_id_required", "clientId is required"));
        }
        match &self.event {
            SdkEvent::Network(network) => {
                if is_blank(network.request_id.as_str()) {
                    return Err(
                        SdkProtocolError::new(
                            "sdk_request_id_required",
                            "requestId is required for network events",
                        ),
                    );
                }
                if is_blank(network.method.as_str()) || is_blank(network.url.as_str()) {
                    return Err(
                        SdkProtocolError::new(
                            "sdk_network_request_invalid",
                            "Network events require method and URL",
                        ),
                    );
                }
            },
            _ => {},
        }
        Ok(())
    }
}

/// The stored name of a client platform.
pub open spec fn platform_name_of(platform: SdkPlatform) -> Seq<char> {
    match platform {
        SdkPlatform::Ios => "ios"@,
        SdkPlatform::Android => "android"@,
        SdkPlatform::Other => "other"@,
    }
}

/// The platform a stored name denotes; unknown names read as other.
pub open spec fn platform_of_name(name: Seq<char>) -> SdkPlatform {
    if name == "ios"@ {
        SdkPlatform::Ios
    } else if name == "android"@ {
        SdkPlatform::Android
    } else {
        SdkPlatform::Other
    }
}

pub fn platform_string(platform: &SdkPlatform) -> (r: &'static str)
    ensures
        r@ == platform_name_of(*platform),
{
    match platform {
        SdkPlatform::Ios => "ios",
        SdkPlatform::Android => "android",
        SdkPlatform::Other => "other",
    }
}

pub fn parse_platform(value: &str) -> (r: SdkPlatform)
    ensures
        r == platform_of_name(value@),
{
    if crate::text::str_eq(value, "ios") {
        SdkPlatform::Ios
    } else if crate::text::str_eq(value, "android") {
        SdkPlatform::Android
    } else {
        SdkPlatform::Other
    }
}

/// Reading back the stored name of a platform gives the same platform.
pub proof fn platform_name_round_trip(platform: SdkPlatform)
    ensures
        platform_of_name(platform_name_of(platform)) == platform,
{
    reveal_strlit("ios");
    reveal_strlit("android");
    reveal_strlit("other");
    assert("ios"@.len() == 3);
    assert("android"@.len() == 7);
    assert("other"@.len() == 5);
}

} // verus!
