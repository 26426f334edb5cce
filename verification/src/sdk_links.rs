//! How the studio ties captured flows to what apps report through the SDK:
//! the setup it shows, and the correlation of flows and SDK events.
use vstd::prelude::*;

use crate::model::{FlowDetail, FlowSummary, HeaderValue};
use crate::sdk::{
    SDK_CORRELATION_HEADER, SDK_EVENT_PATH, SDK_HEALTH_PATH, SDK_INGESTION_PORT, SdkEnvelope, SdkEvent,
};
use crate::model::AppError;
use crate::storage::{
    EVENTS_FOR_CLIENT_SQL, LIST_CLIENTS_SQL, SEARCH_EVENTS_SQL, SdkClientRecord, SdkDatabase, SqlParam, SqlStatement, event_page,
    runs, text_param,
};
use crate::text::{chars_of, copy_string, decimal, owned, parse_u128, seq_lower, string_of, trim};

verus! {

/// What the SDK setup screen shows.
#[derive(Debug, Clone)]
pub struct SdkSetupInfo {
    pub port: u16,
    pub ios_base_url: String,
    pub android_base_url: String,
    pub event_path: String,
    pub health_path: String,
    pub correlation_header: String,
    pub ingestion_reachable: bool,
    pub active_client_count: usize,
    pub known_client_count: usize,
    pub latest_seen_at: Option<String>,
}

/// What the SDK reported about a captured flow.
#[derive(Debug, Clone)]
pub struct FlowSdkEnrichment {
    pub request_id: Option<String>,
    pub client: Option<SdkClientRecord>,
    pub request_events: Vec<SdkEnvelope>,
    pub nearby_events: Vec<SdkEnvelope>,
}

/// A client counts as active when it was seen at most 15 seconds before
/// `now` (both in epoch milliseconds).
pub open spec fn seen_recently(last_seen: Seq<char>, now: u128) -> bool {
    match parse_u128(last_seen) {
        Some(seen) => (if now >= seen { now - seen } else { 0 }) <= 15000,
        None => false,
    }
}

pub open spec fn active_count(clients: Seq<SdkClientRecord>, now: u128) -> nat
    decreases clients.len(),
{
    if clients.len() == 0 {
        0
    } else {
        active_count(clients.drop_last(), now) + if seen_recently(clients.last().last_seen_at@, now) {
            1nat
        } else {
            0nat
        }
    }
}

/// The time a client was last seen, as a number (0 where it is not one).
pub open spec fn seen_key(c: SdkClientRecord) -> u128 {
    match parse_u128(c.last_seen_at@) {
        Some(v) => v,
        None => 0,
    }
}

/// The index of the most recently seen client; of clients seen at the same
/// time, the last one.
pub open spec fn latest_index(clients: Seq<SdkClientRecord>) -> int
    decreases clients.len(),
{
    if clients.len() <= 1 {
        0
    } else {
        let i = latest_index(clients.drop_last());
        if seen_key(clients.last()) >= seen_key(clients[i]) {
            clients.len() - 1
        } else {
            i
        }
    }
}

/// The client reported as last seen was seen no earlier than any other.
pub proof fn latest_client_is_the_most_recently_seen(clients: Seq<SdkClientRecord>)
    requires
        clients.len() > 0,
    ensures
        0 <= latest_index(clients) < clients.len(),
        forall|j: int| 0 <= j < clients.len() ==> seen_key(#[trigger] clients[j]) <= seen_key(clients[latest_index(clients)]),
    decreases clients.len(),
{
    if clients.len() > 1 {
        latest_client_is_the_most_recently_seen(clients.drop_last());
        let i = latest_index(clients.drop_last());
        assert(clients.drop_last()[i] == clients[i]);
        assert forall|j: int| 0 <= j < clients.len() implies seen_key(#[trigger] clients[j]) <= seen_key(
            clients[latest_index(clients)],
        ) by {
            if j < clients.len() - 1 {
                assert(clients.drop_last()[j] == clients[j]);
            }
        }
    }
}

fn parse_or_zero(s: &str) -> (r: u128)
    ensures
        r == match parse_u128(s@) {
            Some(v) => v,
            None => 0u128,
        },
{
    match crate::text::parse_u128_exec(s) {
        Some(v) => v,
        None => 0,
    }
}

/// The setup shown for the SDK: where apps send events (the simulator
/// reaches the host at 127.0.0.1, the emulator at 10.0.2.2), whether the
/// ingestion port answered, how many known clients were seen in the last 15
/// seconds of `now`, and when a client was last seen.
pub fn sdk_setup_info(clients: &Vec<SdkClientRecord>, now: &str, ingestion_reachable: bool) -> (r: SdkSetupInfo)
    ensures
        r.port == SDK_INGESTION_PORT,
        r.ios_base_url@ == "http://127.0.0.1:"@ + decimal(SDK_INGESTION_PORT as nat),
        r.android_base_url@ == "http://10.0.2.2:"@ + decimal(SDK_INGESTION_PORT as nat),
        r.event_path@ == SDK_EVENT_PATH@,
        r.health_path@ == SDK_HEALTH_PATH@,
        r.correlation_header@ == SDK_CORRELATION_HEADER@,
        r.ingestion_reachable == ingestion_reachable,
        r.active_client_count == active_count(
            clients@,
            match parse_u128(now@) {
                Some(v) => v,
                None => 0u128,
            },
        ),
        r.known_client_count == clients@.len(),
        clients@.len() == 0 ==> r.latest_seen_at is None,
        clients@.len() > 0 ==> (r.latest_seen_at matches Some(s) && s@ == clients@[latest_index(clients@)].last_seen_at@),
{
    let now_ms = parse_or_zero(now);
    let mut active: usize = 0;
    let mut latest: usize = 0;
    let mut latest_key: u128 = 0;
    let mut i: usize = 0;
    while i < clients.len()
        invariant
            i <= clients@.len(),
            active == active_count(clients@.take(i as int), now_ms),
            active <= i,
            i > 0 ==> latest == latest_index(clients@.take(i as int)) && latest < i && latest_key == seen_key(
                clients@[latest as int],
            ),
        decreases clients@.len() - i,
    {
        assert(clients@.take(i + 1).drop_last() == clients@.take(i as int));
        assert(clients@.take(i + 1).last() == clients@[i as int]);
        let seen = crate::text::parse_u128_exec(clients[i].last_seen_at.as_str());
        match seen {
            Some(v) => {
                let gap: u128 = if now_ms >= v { now_ms - v } else { 0 };
                if gap <= 15000 {
                    active = active + 1;
                }
            },
            None => {},
        }
        let key = parse_or_zero(clients[i].last_seen_at.as_str());
        proof {
            if i > 0 {
                assert(clients@.take(i + 1)[latest as int] == clients@[latest as int]);
            }
        }
        if i == 0 || key >= latest_key {
            latest = i;
            latest_key = key;
        }
        i = i + 1;
    }
    assert(clients@.take(i as int) == clients@);
    let latest_seen_at = if clients.len() == 0 {
        None
    } else {
        Some(copy_string(&clients[latest].last_seen_at))
    };
    let port = crate::text::decimal_chars(SDK_INGESTION_PORT as u64);
    let mut ios = chars_of("http://127.0.0.1:");
    crate::text::extend_chars(&mut ios, &port);
    let mut android = chars_of("http://10.0.2.2:");
    crate::text::extend_chars(&mut android, &port);
    SdkSetupInfo {
        port: SDK_INGESTION_PORT,
        ios_base_url: string_of(&ios),
        android_base_url: string_of(&android),
        event_path: owned(SDK_EVENT_PATH),
        health_path: owned(SDK_HEALTH_PATH),
        correlation_header: owned(SDK_CORRELATION_HEADER),
        ingestion_reachable,
        active_client_count: active,
        known_client_count: clients.len(),
        latest_seen_at,
    }
}

// ---------------------------------------------------------------------------
// Correlating flows and SDK events
// ---------------------------------------------------------------------------

/// The value of the first header named `name`, without regard to ASCII case.
pub open spec fn header_value(headers: Seq<HeaderValue>, name: Seq<char>) -> Option<Seq<char>>
    decreases headers.len(),
{
    if headers.len() == 0 {
        None
    } else if seq_lower(headers[0].name@) == seq_lower(name) {
        Some(headers[0].value@)
    } else {
        header_value(headers.drop_first(), name)
    }
}

/// The SDK request id a captured request carries in its correlation header.
pub open spec fn correlation_of(detail: Option<FlowDetail>) -> Option<Seq<char>> {
    match detail {
        Some(d) => match d.request {
            Some(req) => header_value(req.headers@, SDK_CORRELATION_HEADER@),
            None => None,
        },
        None => None,
    }
}

fn find_header(headers: &Vec<HeaderValue>, name: &str) -> (r: Option<String>)
    ensures
        match r {
            Some(v) => header_value(headers@, name@) == Some(v@),
            None => header_value(headers@, name@) is None,
        },
{
    let mut i: usize = 0;
    assert(headers@.skip(0) == headers@);
    while i < headers.len()
        invariant
            i <= headers@.len(),
            header_value(headers@, name@) == header_value(headers@.skip(i as int), name@),
        decreases headers@.len() - i,
    {
        assert(headers@.skip(i as int)[0] == headers@[i as int]);
        assert(headers@.skip(i as int).drop_first() == headers@.skip(i + 1));
        if crate::text::eq_ignore_case(headers[i].name.as_str(), name) {
            return Some(copy_string(&headers[i].value));
        }
        i = i + 1;
    }
    None
}

/// The SDK request id of a captured flow, if its request carries one.
pub fn correlation_id(detail: &Option<FlowDetail>) -> (r: Option<String>)
    ensures
        match r {
            Some(v) => correlation_of(*detail) == Some(v@),
            None => correlation_of(*detail) is None,
        },
{
    match detail {
        Some(d) => match &d.request {
            Some(req) => find_header(&req.headers, SDK_CORRELATION_HEADER),
            None => None,
        },
        None => None,
    }
}

/// The event is a network event of the request `id`.
pub open spec fn reports(e: SdkEnvelope, id: Seq<char>) -> bool {
    e.event matches SdkEvent::Network(n) && n.request_id@ == id
}

/// The request ids that SDK events report.
pub open spec fn reported_request_ids(events: Seq<SdkEnvelope>) -> Set<Seq<char>> {
    Set::new(|id: Seq<char>| exists|i: int| 0 <= i < events.len() && reports(#[trigger] events[i], id))
}

/// The flows, scanned in order, whose correlation id is one of `ids`; the
/// scan stops once `cap` flows were found.
pub open spec fn matching_flows(flows: Seq<(Seq<char>, Option<Seq<char>>)>, ids: Set<Seq<char>>, cap: nat, found: Seq<Seq<char>>) -> Seq<Seq<char>>
    decreases flows.len(),
{
    if flows.len() == 0 {
        found
    } else {
        let next = match flows[0].1 {
            Some(rid) => if ids.contains(rid) { found.push(flows[0].0) } else { found },
            None => found,
        };
        if next.len() >= cap {
            next
        } else {
            matching_flows(flows.drop_first(), ids, cap, next)
        }
    }
}

pub open spec fn flow_links(flows: Seq<(String, Option<String>)>) -> Seq<(Seq<char>, Option<Seq<char>>)> {
    flows.map_values(|f: (String, Option<String>)| (f.0@, crate::devices::opt_view(f.1)))
}

fn reports_request(events: &Vec<SdkEnvelope>, id: &String) -> (r: bool)
    ensures
        r == reported_request_ids(events@).contains(id@),
{
    let mut i: usize = 0;
    while i < events.len()
        invariant
            i <= events@.len(),
            forall|j: int| 0 <= j < i ==> !reports(#[trigger] events@[j], id@),
        decreases events@.len() - i,
    {
        match &events[i].event {
            SdkEvent::Network(n) => {
                if crate::text::str_eq(n.request_id.as_str(), id.as_str()) {
                    return true;
                }
            },
            _ => {},
        }
        i = i + 1;
    }
    false
}

/// The captured flows that SDK events found by a text search refer to.
/// `events` are the events the search found, `flows` the recorded flows,
/// newest first, each with its correlation id (`correlation_id`). A blank
/// search finds nothing; at most `limit` flows (1000 where none is given,
/// never more than 10000) are returned.
pub fn sdk_flow_ids_matching(
    text: &str,
    events: &Vec<SdkEnvelope>,
    flows: &Vec<(String, Option<String>)>,
    limit: Option<usize>,
) -> (r: Vec<String>)
    ensures
        trim(text@).len() == 0 ==> r@.len() == 0,
        trim(text@).len() > 0 ==> r@.map_values(|s: String| s@) == matching_flows(
            flow_links(flows@),
            reported_request_ids(events@),
            (match limit {
                Some(l) => if l < 10000 { l } else { 10000 },
                None => 1000,
            }) as nat,
            seq![],
        ),
{
    let mut r: Vec<String> = Vec::new();
    if crate::text::is_blank(text) {
        return r;
    }
    let cap: usize = match limit {
        Some(l) => if l < 10000 { l } else { 10000 },
        None => 1000,
    };
    let ghost ids = reported_request_ids(events@);
    let ghost links = flow_links(flows@);
    let mut i: usize = 0;
    assert(links.skip(0) == links);
    assert(r@.map_values(|s: String| s@) =~= Seq::<Seq<char>>::empty());
    while i < flows.len()
        invariant
            i <= flows@.len(),
            trim(text@).len() > 0,
            links == flow_links(flows@),
            links.len() == flows@.len(),
            ids == reported_request_ids(events@),
            i == 0 ==> r@.len() == 0,
            i > 0 ==> r@.len() < cap,
            cap == (match limit {
                Some(l) => if l < 10000 { l } else { 10000 },
                None => 1000,
            }),
            matching_flows(links, ids, cap as nat, seq![]) == matching_flows(
                links.skip(i as int),
                ids,
                cap as nat,
                r@.map_values(|s: String| s@),
            ),
        decreases flows@.len() - i,
    {
        let ghost found = r@.map_values(|s: String| s@);
        assert(links.skip(i as int)[0] == links[i as int]);
        assert(links[i as int] == (flows@[i as int].0@, crate::devices::opt_view(flows@[i as int].1)));
        assert(links.skip(i as int).drop_first() == links.skip(i + 1));
        match &flows[i].1 {
            Some(rid) => {
                if reports_request(events, rid) {
                    r.push(copy_string(&flows[i].0));
                    assert(r@.map_values(|s: String| s@) == found.push(flows@[i as int].0@));
                }
            },
            None => {},
        }
        assert(matching_flows(links.skip(i as int), ids, cap as nat, found) == if r@.map_values(|s: String| s@).len()
            >= cap {
            r@.map_values(|s: String| s@)
        } else {
            matching_flows(links.skip(i + 1), ids, cap as nat, r@.map_values(|s: String| s@))
        });
        assert(r@.map_values(|s: String| s@).len() == r@.len());
        if r.len() >= cap {
            assert(matching_flows(links, ids, cap as nat, seq![]) == r@.map_values(|s: String| s@));
            return r;
        }
        i = i + 1;
    }
    assert(links.skip(i as int).len() == 0);
    r
}

/// Where the events an app sent around a flow are read from: the client
/// that reported the flow's first SDK event, and the flow's start time,
/// where it is a positive number of milliseconds.
pub open spec fn nearby_source(summary: FlowSummary, request_events: Seq<SdkEnvelope>) -> Option<(Seq<char>, u128)> {
    if request_events.len() == 0 {
        None
    } else {
        match parse_u128(summary.started_at@) {
            Some(around) => if around > 0 {
                Some((crate::sdk::event_client_id(request_events[0].event), around))
            } else {
                None
            },
            None => None,
        }
    }
}

/// The client and the moment around which to read a flow's nearby SDK
/// events, if any.
pub fn nearby_events_source(summary: &FlowSummary, request_events: &Vec<SdkEnvelope>) -> (r: Option<(String, u128)>)
    ensures
        match r {
            Some((c, t)) => nearby_source(*summary, request_events@) == Some((c@, t)),
            None => nearby_source(*summary, request_events@) is None,
        },
{
    if request_events.len() == 0 {
        return None;
    }
    let around = parse_or_zero(summary.started_at.as_str());
    if around > 0 {
        Some((owned(request_events[0].event.client_id()), around))
    } else {
        None
    }
}

// ---------------------------------------------------------------------------
// The SDK commands
// ---------------------------------------------------------------------------

/// The query of the client listing.
pub fn list_sdk_clients(database: &SdkDatabase) -> (st: SqlStatement)
    ensures
        runs(st, LIST_CLIENTS_SQL, seq![]),
{
    database.list_clients()
}

/// How many events a listing asks for: the given count, or 250.
pub open spec fn client_events_wanted(limit: Option<usize>) -> usize {
    match limit {
        Some(n) => n,
        None => 250,
    }
}

/// The query for a client's newest events.
pub fn list_sdk_events(database: &SdkDatabase, client_id: &str, limit: Option<usize>) -> (st: SqlStatement)
    ensures
        runs(st, EVENTS_FOR_CLIENT_SQL, seq![text_param(client_id@), SqlParam::Integer(event_page(client_events_wanted(limit)))]),
{
    let n = match limit {
        Some(n) => n,
        None => 250,
    };
    database.events_for_client(client_id, n)
}

/// How many events a search asks for: the given count, or 500.
pub open spec fn searched_events_wanted(limit: Option<usize>) -> usize {
    match limit {
        Some(n) => n,
        None => 500,
    }
}

/// The query of an event search; a blank text finds nothing and runs no
/// query.
pub fn search_sdk_events(database: &SdkDatabase, text: &str, limit: Option<usize>) -> (r: Option<SqlStatement>)
    ensures
        trim(text@).len() == 0 <==> r is None,
        r matches Some(st) ==> runs(
            st,
            SEARCH_EVENTS_SQL,
            seq![text_param("%"@ + trim(text@) + "%"@), SqlParam::Integer(event_page(searched_events_wanted(limit)))],
        ),
{
    if crate::text::is_blank(text) {
        return None;
    }
    let n = match limit {
        Some(n) => n,
        None => 500,
    };
    Some(database.search_events(text, n))
}

/// What the SDK reported about a captured flow, given what the stores
/// returned: the flow's detail, the events of its correlation id, the
/// client of the first of them and the events near the flow's start. A
/// flow without a detail is reported; one whose request carries no
/// correlation id has nothing reported about it.
pub fn sdk_enrichment_for_flow(
    detail: Option<FlowDetail>,
    request_events: Vec<SdkEnvelope>,
    client: Option<SdkClientRecord>,
    nearby_events: Vec<SdkEnvelope>,
) -> (r: Result<FlowSdkEnrichment, AppError>)
    ensures
        detail is None ==> (r matches Err(e) && e.code@ == "sdk_flow_missing"@ && e.message@ == "Flow details were not found."@),
        detail is Some && correlation_of(detail) is None ==> (r matches Ok(x) && x.request_id is None && x.client is None
            && x.request_events@.len() == 0 && x.nearby_events@.len() == 0),
        detail is Some && correlation_of(detail) is Some ==> (r matches Ok(x) && x.request_id is Some
            && Some(x.request_id->0@) == correlation_of(detail) && x.client == client && x.request_events == request_events
            && x.nearby_events == nearby_events),
{
    if detail.is_none() {
        return Err(AppError::new("sdk_flow_missing", "Flow details were not found.", true));
    }
    match correlation_id(&detail) {
        None => Ok(FlowSdkEnrichment { request_id: None, client: None, request_events: Vec::new(), nearby_events: Vec::new() }),
        Some(id) => Ok(FlowSdkEnrichment { request_id: Some(id), client, request_events, nearby_events }),
    }
}

// ---------------------------------------------------------------------------
// App context of a flow
// ---------------------------------------------------------------------------

/// The position of the last network event among some events.
pub open spec fn last_network(events: Seq<SdkEnvelope>) -> Option<int>
    decreases events.len(),
{
    if events.len() == 0 {
        None
    } else if events.last().event is Network {
        Some(events.len() - 1)
    } else {
        last_network(events.drop_last())
    }
}

proof fn lemma_last_network(events: Seq<SdkEnvelope>)
    ensures
        last_network(events) matches Some(i) ==> 0 <= i < events.len() && events[i].event is Network,
    decreases events.len(),
{
    if events.len() > 0 && !(events.last().event is Network) {
        lemma_last_network(events.drop_last());
    }
}

/// The last network event among the events of a request, whose client the
/// caller reads for the flow's app context.
pub fn last_network_event(events: &Vec<SdkEnvelope>) -> (r: Option<usize>)
    ensures
        match r {
            Some(i) => last_network(events@) == Some(i as int),
            None => last_network(events@) is None,
        },
{
    let mut j = events.len();
    assert(events@.take(j as int) == events@);
    while j > 0
        invariant
            j <= events@.len(),
            last_network(events@) == last_network(events@.take(j as int)),
        decreases j,
    {
        assert(events@.take(j as int).last() == events@[j - 1]);
        assert(events@.take(j as int).drop_last() == events@.take(j - 1));
        match &events[j - 1].event {
            SdkEvent::Network(_) => {
                return Some(j - 1);
            },
            _ => {},
        }
        j = j - 1;
    }
    None
}

/// What the app said about the request of a network event, with the app
/// it came from where that client is known.
pub open spec fn evidence_of(n: crate::sdk::SdkNetworkEvent, client: Option<SdkClientRecord>, e: crate::compare::AppContextEvidence) -> bool {
    &&& e.app_id == (match client {
        Some(c) => Some(c.app_id),
        None => None,
    })
    &&& e.app_name == (match client {
        Some(c) => Some(c.app_name),
        None => None,
    })
    &&& crate::devices::opt_view(e.platform) == (match client {
        Some(c) => Some(crate::sdk::platform_name_of(c.platform)),
        None => None,
    })
    &&& e.screen == n.context.screen
    &&& e.feature == n.context.feature
    &&& e.source_file == (match n.context.source {
        Some(s) => s.file,
        None => None,
    })
    &&& e.source_function == (match n.context.source {
        Some(s) => s.function,
        None => None,
    })
    &&& e.source_line == (match n.context.source {
        Some(s) => s.line,
        None => None,
    })
}

/// The app context of a captured flow: none unless its request carries a
/// correlation id and the SDK reported a network event for it; otherwise
/// that of the last such event (`events` are those of the correlation id,
/// `client` the stored client of the last network event).
pub fn sdk_context_for_detail(detail: &FlowDetail, events: &Vec<SdkEnvelope>, client: Option<SdkClientRecord>) -> (r: Option<crate::compare::AppContextEvidence>)
    ensures
        correlation_of(Some(*detail)) is None ==> r is None,
        correlation_of(Some(*detail)) is Some ==> match last_network(events@) {
            None => r is None,
            Some(i) => r matches Some(e) && evidence_of(events@[i].event->Network_0, client, e),
        },
{
    let request_id = match &detail.request {
        Some(req) => find_header(&req.headers, SDK_CORRELATION_HEADER),
        None => None,
    };
    if request_id.is_none() {
        return None;
    }
    let i = match last_network_event(events) {
        Some(i) => i,
        None => {
            return None;
        },
    };
    proof {
        lemma_last_network(events@);
    }
    let network = match &events[i].event {
        SdkEvent::Network(n) => n,
        _ => {
            return None;
        },
    };
    let (app_id, app_name, platform) = match &client {
        Some(c) => (Some(copy_string(&c.app_id)), Some(copy_string(&c.app_name)), Some(owned(crate::sdk::platform_string(&c.platform)))),
        None => (None, None, None),
    };
    let (source_file, source_function, source_line) = match &network.context.source {
        Some(s) => (crate::text::copy_opt_string(&s.file), crate::text::copy_opt_string(&s.function), s.line),
        None => (None, None, None),
    };
    Some(crate::compare::AppContextEvidence {
        app_id,
        app_name,
        platform,
        screen: crate::text::copy_opt_string(&network.context.screen),
        feature: crate::text::copy_opt_string(&network.context.feature),
        source_file,
        source_function,
        source_line,
    })
}

} // verus!
