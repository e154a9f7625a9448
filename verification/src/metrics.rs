//! The metrics facade: per-application integer counters and gauges, updated
//! exactly, and their rendering in the Prometheus text format. The exporter
//! that serves them over HTTP lives outside.

use vstd::prelude::*;
use vstd::string::StringSliceAdditionalSpecFns;

use crate::frames::{dec_of, push_dec, push_lit};
use crate::horizontal::sat_add64;
use crate::session::bytes_of;
use crate::strmap::StrMap;

verus! {

/// The counters kept for one application.
#[derive(Clone, Copy)]
pub struct AppMetrics {
    pub connected_sockets: u64,
    pub new_connections_total: u64,
    pub new_disconnections_total: u64,
    pub socket_bytes_received: u64,
    pub socket_bytes_transmitted: u64,
    pub ws_messages_received: u64,
    pub ws_messages_sent: u64,
    pub http_bytes_received: u64,
    pub http_bytes_transmitted: u64,
    pub http_calls_received: u64,
    pub horizontal_adapter_resolve_time_total: u64,
    pub horizontal_adapter_resolve_time_count: u64,
    pub horizontal_adapter_resolved_promises: u64,
    pub horizontal_adapter_uncomplete_promises: u64,
    pub horizontal_adapter_sent_requests: u64,
    pub horizontal_adapter_received_requests: u64,
    pub horizontal_adapter_received_responses: u64,
}

/// All counters at zero.
pub open spec fn zero_metrics() -> AppMetrics {
    AppMetrics {
        connected_sockets: 0,
        new_connections_total: 0,
        new_disconnections_total: 0,
        socket_bytes_received: 0,
        socket_bytes_transmitted: 0,
        ws_messages_received: 0,
        ws_messages_sent: 0,
        http_bytes_received: 0,
        http_bytes_transmitted: 0,
        http_calls_received: 0,
        horizontal_adapter_resolve_time_total: 0,
        horizontal_adapter_resolve_time_count: 0,
        horizontal_adapter_resolved_promises: 0,
        horizontal_adapter_uncomplete_promises: 0,
        horizontal_adapter_sent_requests: 0,
        horizontal_adapter_received_requests: 0,
        horizontal_adapter_received_responses: 0,
    }
}

fn new_zero_metrics() -> (r: AppMetrics)
    ensures
        r == zero_metrics(),
{
    AppMetrics {
        connected_sockets: 0,
        new_connections_total: 0,
        new_disconnections_total: 0,
        socket_bytes_received: 0,
        socket_bytes_transmitted: 0,
        ws_messages_received: 0,
        ws_messages_sent: 0,
        http_bytes_received: 0,
        http_bytes_transmitted: 0,
        http_calls_received: 0,
        horizontal_adapter_resolve_time_total: 0,
        horizontal_adapter_resolve_time_count: 0,
        horizontal_adapter_resolved_promises: 0,
        horizontal_adapter_uncomplete_promises: 0,
        horizontal_adapter_sent_requests: 0,
        horizontal_adapter_received_requests: 0,
        horizontal_adapter_received_responses: 0,
    }
}

/// Increase, capped at the top of `u64`.
fn sat_inc(a: u64, b: u64) -> (r: u64)
    ensures
        r as nat == sat_add64(a as nat, b as nat),
{
    if a <= u64::MAX - b {
        a + b
    } else {
        u64::MAX
    }
}

/// The query of the metrics endpoint: whether JSON output is wanted in
/// place of the plain text format.
pub struct PrometheusQuery {
    pub json: Option<bool>,
}

/// Deployment labels attached to every exported sample: plain key/value
/// text.
pub struct InfraMetadata {
    pub data: Vec<(String, String)>,
}

/// The labels one application's samples carry.
pub struct NamespaceTags {
    pub app_id: String,
    pub data: Vec<(String, String)>,
}

/// The per-application metrics of one node.
pub struct MetricsRegistry {
    apps: StrMap<AppMetrics>,
    infra_metadata: InfraMetadata,
}

impl View for MetricsRegistry {
    type V = Map<Seq<char>, AppMetrics>;

    closed spec fn view(&self) -> Map<Seq<char>, AppMetrics> {
        self.apps@
    }
}

/// The counters an application shows, zero until something was marked.
pub open spec fn metrics_of(m: Map<Seq<char>, AppMetrics>, app: Seq<char>) -> AppMetrics {
    if m.dom().contains(app) {
        m[app]
    } else {
        zero_metrics()
    }
}

impl MetricsRegistry {
    pub fn new() -> (r: Self)
        ensures
            r@ == Map::<Seq<char>, AppMetrics>::empty(),
            r.infra_view().len() == 0,
    {
        MetricsRegistry { apps: StrMap::new(), infra_metadata: InfraMetadata { data: Vec::new() } }
    }

    /// The deployment labels, as key/value views.
    pub closed spec fn infra_view(&self) -> Seq<(Seq<char>, Seq<char>)> {
        self.infra_metadata.data@.map_values(|p: (String, String)| (p.0@, p.1@))
    }

    /// The labels one application's samples carry: the app id and the
    /// node's deployment labels.
    pub fn get_tags(&self, app_id: String) -> (r: NamespaceTags)
        ensures
            r.app_id@ == app_id@,
            r.data@.map_values(|p: (String, String)| (p.0@, p.1@)) == self.infra_view(),
    {
        let n = self.infra_metadata.data.len();
        let mut data: Vec<(String, String)> = Vec::new();
        let mut i: usize = 0;
        while i < n
            invariant
                i <= n,
                n == self.infra_metadata.data@.len(),
                data@.len() == i,
                forall|j: int|
                    0 <= j < i ==> ((#[trigger] data@[j]).0@ == (self.infra_metadata.data@[j]).0@
                        && (data@[j]).1@ == (self.infra_metadata.data@[j]).1@),
            decreases n - i,
        {
            data.push((self.infra_metadata.data[i].0.clone(), self.infra_metadata.data[i].1.clone()));
            i = i + 1;
        }
        proof {
            assert(data@.map_values(|p: (String, String)| (p.0@, p.1@)) =~= self.infra_view());
        }
        NamespaceTags { app_id, data }
    }

    fn take_app(&mut self, app_id: &str) -> (m: AppMetrics)
        ensures
            m == metrics_of(old(self)@, app_id@),
            final(self)@ == old(self)@.remove(app_id@),
    {
        match self.apps.remove(app_id) {
            Some(m) => m,
            None => new_zero_metrics(),
        }
    }

    /// One more socket connected to the application.
    pub fn mark_new_connection(&mut self, app_id: &str)
        ensures
            final(self)@ == old(self)@.insert(
                app_id@,
                AppMetrics {
                    connected_sockets: sat_add64(
                        metrics_of(old(self)@, app_id@).connected_sockets as nat,
                        1,
                    ) as u64,
                    new_connections_total: sat_add64(
                        metrics_of(old(self)@, app_id@).new_connections_total as nat,
                        1,
                    ) as u64,
                    ..metrics_of(old(self)@, app_id@)
                },
            ),
    {
        let mut m = self.take_app(app_id);
        m.connected_sockets = sat_inc(m.connected_sockets, 1);
        m.new_connections_total = sat_inc(m.new_connections_total, 1);
        self.apps.insert(app_id.to_owned(), m);
    }

    /// One socket disconnected from the application.
    pub fn mark_disconnection(&mut self, app_id: &str)
        ensures
            final(self)@ == old(self)@.insert(
                app_id@,
                AppMetrics {
                    connected_sockets: if metrics_of(old(self)@, app_id@).connected_sockets > 0 {
                        (metrics_of(old(self)@, app_id@).connected_sockets - 1) as u64
                    } else {
                        0
                    },
                    new_disconnections_total: sat_add64(
                        metrics_of(old(self)@, app_id@).new_disconnections_total as nat,
                        1,
                    ) as u64,
                    ..metrics_of(old(self)@, app_id@)
                },
            ),
    {
        let mut m = self.take_app(app_id);
        m.connected_sockets = if m.connected_sockets > 0 {
            m.connected_sockets - 1
        } else {
            0
        };
        m.new_disconnections_total = sat_inc(m.new_disconnections_total, 1);
        self.apps.insert(app_id.to_owned(), m);
    }

    /// One HTTP API call: the bytes it brought, the bytes it sent back.
    pub fn mark_api_message(&mut self, app_id: &str, incoming_bytes: u64, sent_bytes: u64)
        ensures
            final(self)@ == old(self)@.insert(
                app_id@,
                AppMetrics {
                    http_bytes_received: sat_add64(
                        metrics_of(old(self)@, app_id@).http_bytes_received as nat,
                        incoming_bytes as nat,
                    ) as u64,
                    http_bytes_transmitted: sat_add64(
                        metrics_of(old(self)@, app_id@).http_bytes_transmitted as nat,
                        sent_bytes as nat,
                    ) as u64,
                    http_calls_received: sat_add64(
                        metrics_of(old(self)@, app_id@).http_calls_received as nat,
                        1,
                    ) as u64,
                    ..metrics_of(old(self)@, app_id@)
                },
            ),
    {
        let mut m = self.take_app(app_id);
        m.http_bytes_received = sat_inc(m.http_bytes_received, incoming_bytes);
        m.http_bytes_transmitted = sat_inc(m.http_bytes_transmitted, sent_bytes);
        m.http_calls_received = sat_inc(m.http_calls_received, 1);
        self.apps.insert(app_id.to_owned(), m);
    }

    /// One frame sent to a socket, with its size.
    pub fn mark_ws_message_sent(&mut self, app_id: &str, sent_bytes: u64)
        ensures
            final(self)@ == old(self)@.insert(
                app_id@,
                AppMetrics {
                    socket_bytes_transmitted: sat_add64(
                        metrics_of(old(self)@, app_id@).socket_bytes_transmitted as nat,
                        sent_bytes as nat,
                    ) as u64,
                    ws_messages_sent: sat_add64(
                        metrics_of(old(self)@, app_id@).ws_messages_sent as nat,
                        1,
                    ) as u64,
                    ..metrics_of(old(self)@, app_id@)
                },
            ),
    {
        let mut m = self.take_app(app_id);
        m.socket_bytes_transmitted = sat_inc(m.socket_bytes_transmitted, sent_bytes);
        m.ws_messages_sent = sat_inc(m.ws_messages_sent, 1);
        self.apps.insert(app_id.to_owned(), m);
    }

    /// One frame received from a socket, with its size.
    pub fn mark_ws_message_received(&mut self, app_id: &str, received_bytes: u64)
        ensures
            final(self)@ == old(self)@.insert(
                app_id@,
                AppMetrics {
                    socket_bytes_received: sat_add64(
                        metrics_of(old(self)@, app_id@).socket_bytes_received as nat,
                        received_bytes as nat,
                    ) as u64,
                    ws_messages_received: sat_add64(
                        metrics_of(old(self)@, app_id@).ws_messages_received as nat,
                        1,
                    ) as u64,
                    ..metrics_of(old(self)@, app_id@)
                },
            ),
    {
        let mut m = self.take_app(app_id);
        m.socket_bytes_received = sat_inc(m.socket_bytes_received, received_bytes);
        m.ws_messages_received = sat_inc(m.ws_messages_received, 1);
        self.apps.insert(app_id.to_owned(), m);
    }

    /// How long one horizontal request took to resolve.
    pub fn track_horizontal_adapter_resolve_time(&mut self, app_id: &str, time_ms: u64)
        ensures
            final(self)@ == old(self)@.insert(
                app_id@,
                AppMetrics {
                    horizontal_adapter_resolve_time_total: sat_add64(
                        metrics_of(
                            old(self)@,
                            app_id@,
                        ).horizontal_adapter_resolve_time_total as nat,
                        time_ms as nat,
                    ) as u64,
                    horizontal_adapter_resolve_time_count: sat_add64(
                        metrics_of(
                            old(self)@,
                            app_id@,
                        ).horizontal_adapter_resolve_time_count as nat,
                        1,
                    ) as u64,
                    ..metrics_of(old(self)@, app_id@)
                },
            ),
    {
        let mut m = self.take_app(app_id);
        m.horizontal_adapter_resolve_time_total = sat_inc(
            m.horizontal_adapter_resolve_time_total,
            time_ms,
        );
        m.horizontal_adapter_resolve_time_count = sat_inc(
            m.horizontal_adapter_resolve_time_count,
            1,
        );
        self.apps.insert(app_id.to_owned(), m);
    }

    /// One horizontal request came to its end: fully answered, or given up
    /// at the deadline.
    pub fn track_horizontal_adapter_resolved_promises(&mut self, app_id: &str, resolved: bool)
        ensures
            resolved ==> final(self)@ == old(self)@.insert(
                app_id@,
                AppMetrics {
                    horizontal_adapter_resolved_promises: sat_add64(
                        metrics_of(
                            old(self)@,
                            app_id@,
                        ).horizontal_adapter_resolved_promises as nat,
                        1,
                    ) as u64,
                    ..metrics_of(old(self)@, app_id@)
                },
            ),
            !resolved ==> final(self)@ == old(self)@.insert(
                app_id@,
                AppMetrics {
                    horizontal_adapter_uncomplete_promises: sat_add64(
                        metrics_of(
                            old(self)@,
                            app_id@,
                        ).horizontal_adapter_uncomplete_promises as nat,
                        1,
                    ) as u64,
                    ..metrics_of(old(self)@, app_id@)
                },
            ),
    {
        let mut m = self.take_app(app_id);
        if resolved {
            m.horizontal_adapter_resolved_promises = sat_inc(
                m.horizontal_adapter_resolved_promises,
                1,
            );
        } else {
            m.horizontal_adapter_uncomplete_promises = sat_inc(
                m.horizontal_adapter_uncomplete_promises,
                1,
            );
        }
        self.apps.insert(app_id.to_owned(), m);
    }

    /// One horizontal request published to the peers.
    pub fn mark_horizontal_adapter_request_sent(&mut self, app_id: &str)
        ensures
            final(self)@ == old(self)@.insert(
                app_id@,
                AppMetrics {
                    horizontal_adapter_sent_requests: sat_add64(
                        metrics_of(old(self)@, app_id@).horizontal_adapter_sent_requests as nat,
                        1,
                    ) as u64,
                    ..metrics_of(old(self)@, app_id@)
                },
            ),
    {
        let mut m = self.take_app(app_id);
        m.horizontal_adapter_sent_requests = sat_inc(m.horizontal_adapter_sent_requests, 1);
        self.apps.insert(app_id.to_owned(), m);
    }

    /// One peer's request received from the bus.
    pub fn mark_horizontal_adapter_request_received(&mut self, app_id: &str)
        ensures
            final(self)@ == old(self)@.insert(
                app_id@,
                AppMetrics {
                    horizontal_adapter_received_requests: sat_add64(
                        metrics_of(
                            old(self)@,
                            app_id@,
                        ).horizontal_adapter_received_requests as nat,
                        1,
                    ) as u64,
                    ..metrics_of(old(self)@, app_id@)
                },
            ),
    {
        let mut m = self.take_app(app_id);
        m.horizontal_adapter_received_requests = sat_inc(
            m.horizontal_adapter_received_requests,
            1,
        );
        self.apps.insert(app_id.to_owned(), m);
    }

    /// One reply to this node's request received from the bus.
    pub fn mark_horizontal_adapter_response_received(&mut self, app_id: &str)
        ensures
            final(self)@ == old(self)@.insert(
                app_id@,
                AppMetrics {
                    horizontal_adapter_received_responses: sat_add64(
                        metrics_of(
                            old(self)@,
                            app_id@,
                        ).horizontal_adapter_received_responses as nat,
                        1,
                    ) as u64,
                    ..metrics_of(old(self)@, app_id@)
                },
            ),
    {
        let mut m = self.take_app(app_id);
        m.horizontal_adapter_received_responses = sat_inc(
            m.horizontal_adapter_received_responses,
            1,
        );
        self.apps.insert(app_id.to_owned(), m);
    }

    /// The counters an application currently shows.
    pub fn get_app_metrics(&self, app_id: &str) -> (m: AppMetrics)
        ensures
            m == metrics_of(self@, app_id@),
    {
        match self.apps.get(app_id) {
            Some(m) => AppMetrics { ..*m },
            None => new_zero_metrics(),
        }
    }

    /// Forget every counter.
    pub fn clear(&mut self)
        ensures
            final(self)@ == Map::<Seq<char>, AppMetrics>::empty(),
    {
        self.apps.clear();
    }

    /// The counters in the Prometheus text format, one family at a time,
    /// one sample per application.
    pub fn get_metrics_as_plaintext(&self) -> (r: Vec<u8>)
        ensures
            exists|apps: Seq<(String, AppMetrics)>|
                apps_enumerate_metrics(apps, self@) && r@ == spec_render_metrics(apps),
    {
        let es = self.apps.entries();
        let n = es.len();
        let mut apps: Vec<(String, AppMetrics)> = Vec::new();
        let mut i: usize = 0;
        while i < n
            invariant
                i <= n,
                n == es@.len(),
                apps@.len() == i,
                forall|j: int|
                    0 <= j < n ==> self@.dom().contains((#[trigger] es@[j]).0@) && self@[(
                    es@[j]).0@] == (es@[j]).1,
                forall|k: Seq<char>|
                    self@.dom().contains(k) ==> exists|j: int|
                        0 <= j < n && (#[trigger] es@[j]).0@ == k,
                forall|j1: int, j2: int| 0 <= j1 < j2 < n ==> (es@[j1]).0@ != (es@[j2]).0@,
                forall|j: int| 0 <= j < i ==> (#[trigger] apps@[j]) == es@[j],
            decreases n - i,
        {
            apps.push((es[i].0.clone(), es[i].1));
            i = i + 1;
        }
        proof {
            assert(apps@ =~= es@);
            assert(apps_enumerate_metrics(apps@, self@)) by {
                assert forall|k: Seq<char>| self@.dom().contains(k) implies exists|j: int|
                    0 <= j < apps@.len() && (#[trigger] apps@[j]).0@ == k by {
                    let j = choose|j: int| 0 <= j < es@.len() && (#[trigger] es@[j]).0@ == k;
                    assert((apps@[j]).0@ == k);
                }
            }
        }
        let mut out: Vec<u8> = Vec::new();
        render_family(&mut out, "connected_sockets", &apps, MetricField::ConnectedSockets);
        render_family(&mut out, "new_connections_total", &apps, MetricField::NewConnectionsTotal);
        render_family(
            &mut out,
            "new_disconnections_total",
            &apps,
            MetricField::NewDisconnectionsTotal,
        );
        render_family(&mut out, "socket_bytes_received", &apps, MetricField::SocketBytesReceived);
        render_family(
            &mut out,
            "socket_bytes_transmitted",
            &apps,
            MetricField::SocketBytesTransmitted,
        );
        render_family(&mut out, "ws_messages_received", &apps, MetricField::WsMessagesReceived);
        render_family(&mut out, "ws_messages_sent", &apps, MetricField::WsMessagesSent);
        render_family(&mut out, "http_bytes_received", &apps, MetricField::HttpBytesReceived);
        render_family(&mut out, "http_bytes_transmitted", &apps, MetricField::HttpBytesTransmitted);
        render_family(&mut out, "http_calls_received", &apps, MetricField::HttpCallsReceived);
        render_family(
            &mut out,
            "horizontal_adapter_resolve_time_total",
            &apps,
            MetricField::HorizontalResolveTimeTotal,
        );
        render_family(
            &mut out,
            "horizontal_adapter_resolve_time_count",
            &apps,
            MetricField::HorizontalResolveTimeCount,
        );
        render_family(
            &mut out,
            "horizontal_adapter_resolved_promises",
            &apps,
            MetricField::HorizontalResolvedPromises,
        );
        render_family(
            &mut out,
            "horizontal_adapter_uncomplete_promises",
            &apps,
            MetricField::HorizontalUncompletePromises,
        );
        render_family(
            &mut out,
            "horizontal_adapter_sent_requests",
            &apps,
            MetricField::HorizontalSentRequests,
        );
        render_family(
            &mut out,
            "horizontal_adapter_received_requests",
            &apps,
            MetricField::HorizontalReceivedRequests,
        );
        render_family(
            &mut out,
            "horizontal_adapter_received_responses",
            &apps,
            MetricField::HorizontalReceivedResponses,
        );
        proof {
            assert(out@ =~= spec_render_metrics(apps@));
        }
        out
    }
}

/// Which counter of `AppMetrics` a rendering step reads.
#[derive(Clone, Copy, Debug, PartialEq, Eq, Structural)]
pub enum MetricField {
    ConnectedSockets,
    NewConnectionsTotal,
    NewDisconnectionsTotal,
    SocketBytesReceived,
    SocketBytesTransmitted,
    WsMessagesReceived,
    WsMessagesSent,
    HttpBytesReceived,
    HttpBytesTransmitted,
    HttpCallsReceived,
    HorizontalResolveTimeTotal,
    HorizontalResolveTimeCount,
    HorizontalResolvedPromises,
    HorizontalUncompletePromises,
    HorizontalSentRequests,
    HorizontalReceivedRequests,
    HorizontalReceivedResponses,
}

/// The counter a field names.
pub open spec fn spec_field_of(m: AppMetrics, f: MetricField) -> u64 {
    match f {
        MetricField::ConnectedSockets => m.connected_sockets,
        MetricField::NewConnectionsTotal => m.new_connections_total,
        MetricField::NewDisconnectionsTotal => m.new_disconnections_total,
        MetricField::SocketBytesReceived => m.socket_bytes_received,
        MetricField::SocketBytesTransmitted => m.socket_bytes_transmitted,
        MetricField::WsMessagesReceived => m.ws_messages_received,
        MetricField::WsMessagesSent => m.ws_messages_sent,
        MetricField::HttpBytesReceived => m.http_bytes_received,
        MetricField::HttpBytesTransmitted => m.http_bytes_transmitted,
        MetricField::HttpCallsReceived => m.http_calls_received,
        MetricField::HorizontalResolveTimeTotal => m.horizontal_adapter_resolve_time_total,
        MetricField::HorizontalResolveTimeCount => m.horizontal_adapter_resolve_time_count,
        MetricField::HorizontalResolvedPromises => m.horizontal_adapter_resolved_promises,
        MetricField::HorizontalUncompletePromises => m.horizontal_adapter_uncomplete_promises,
        MetricField::HorizontalSentRequests => m.horizontal_adapter_sent_requests,
        MetricField::HorizontalReceivedRequests => m.horizontal_adapter_received_requests,
        MetricField::HorizontalReceivedResponses => m.horizontal_adapter_received_responses,
    }
}

fn field_of(m: &AppMetrics, f: MetricField) -> (r: u64)
    ensures
        r == spec_field_of(*m, f),
{
    match f {
        MetricField::ConnectedSockets => m.connected_sockets,
        MetricField::NewConnectionsTotal => m.new_connections_total,
        MetricField::NewDisconnectionsTotal => m.new_disconnections_total,
        MetricField::SocketBytesReceived => m.socket_bytes_received,
        MetricField::SocketBytesTransmitted => m.socket_bytes_transmitted,
        MetricField::WsMessagesReceived => m.ws_messages_received,
        MetricField::WsMessagesSent => m.ws_messages_sent,
        MetricField::HttpBytesReceived => m.http_bytes_received,
        MetricField::HttpBytesTransmitted => m.http_bytes_transmitted,
        MetricField::HttpCallsReceived => m.http_calls_received,
        MetricField::HorizontalResolveTimeTotal => m.horizontal_adapter_resolve_time_total,
        MetricField::HorizontalResolveTimeCount => m.horizontal_adapter_resolve_time_count,
        MetricField::HorizontalResolvedPromises => m.horizontal_adapter_resolved_promises,
        MetricField::HorizontalUncompletePromises => m.horizontal_adapter_uncomplete_promises,
        MetricField::HorizontalSentRequests => m.horizontal_adapter_sent_requests,
        MetricField::HorizontalReceivedRequests => m.horizontal_adapter_received_requests,
        MetricField::HorizontalReceivedResponses => m.horizontal_adapter_received_responses,
    }
}

/// One sample line: `<name>{app_id="<app>"} <value>\n`.
pub open spec fn spec_sample_line(name: Seq<char>, app: Seq<char>, value: u64) -> Seq<u8> {
    bytes_of(name) + ("{app_id=\"").spec_bytes() + bytes_of(app) + ("\"} ").spec_bytes() + dec_of(
        value as nat,
    ) + ("\n").spec_bytes()
}

/// The sample lines of one family over a run of applications.
pub open spec fn spec_family_lines(
    name: Seq<char>,
    apps: Seq<(String, AppMetrics)>,
    f: MetricField,
) -> Seq<u8>
    decreases apps.len(),
{
    if apps.len() == 0 {
        Seq::empty()
    } else {
        spec_family_lines(name, apps.drop_last(), f) + spec_sample_line(
            name,
            (apps.last().0)@,
            spec_field_of(apps.last().1, f),
        )
    }
}

/// One family: its TYPE header and its samples.
pub open spec fn spec_family(
    name: Seq<char>,
    apps: Seq<(String, AppMetrics)>,
    f: MetricField,
) -> Seq<u8> {
    ("# TYPE ").spec_bytes() + bytes_of(name) + (" counter\n").spec_bytes() + spec_family_lines(
        name,
        apps,
        f,
    )
}

/// `apps` lists each application's counters exactly once.
pub open spec fn apps_enumerate_metrics(
    apps: Seq<(String, AppMetrics)>,
    m: Map<Seq<char>, AppMetrics>,
) -> bool {
    &&& apps.len() == m.dom().len()
    &&& forall|i: int|
        0 <= i < apps.len() ==> m.dom().contains((#[trigger] apps[i]).0@) && m[(apps[i]).0@] == (
        apps[i]).1
    &&& forall|k: Seq<char>|
        m.dom().contains(k) ==> exists|i: int| 0 <= i < apps.len() && (#[trigger] apps[i]).0@ == k
    &&& forall|i: int, j: int| 0 <= i < j < apps.len() ==> (apps[i]).0@ != (apps[j]).0@
}

/// The full text: every family in a fixed order.
pub open spec fn spec_render_metrics(apps: Seq<(String, AppMetrics)>) -> Seq<u8> {
    spec_family(("connected_sockets")@, apps, MetricField::ConnectedSockets) + spec_family(
        ("new_connections_total")@,
        apps,
        MetricField::NewConnectionsTotal,
    ) + spec_family(("new_disconnections_total")@, apps, MetricField::NewDisconnectionsTotal)
        + spec_family(("socket_bytes_received")@, apps, MetricField::SocketBytesReceived)
        + spec_family(("socket_bytes_transmitted")@, apps, MetricField::SocketBytesTransmitted)
        + spec_family(("ws_messages_received")@, apps, MetricField::WsMessagesReceived)
        + spec_family(("ws_messages_sent")@, apps, MetricField::WsMessagesSent) + spec_family(
        ("http_bytes_received")@,
        apps,
        MetricField::HttpBytesReceived,
    ) + spec_family(("http_bytes_transmitted")@, apps, MetricField::HttpBytesTransmitted)
        + spec_family(("http_calls_received")@, apps, MetricField::HttpCallsReceived)
        + spec_family(
        ("horizontal_adapter_resolve_time_total")@,
        apps,
        MetricField::HorizontalResolveTimeTotal,
    ) + spec_family(
        ("horizontal_adapter_resolve_time_count")@,
        apps,
        MetricField::HorizontalResolveTimeCount,
    ) + spec_family(
        ("horizontal_adapter_resolved_promises")@,
        apps,
        MetricField::HorizontalResolvedPromises,
    ) + spec_family(
        ("horizontal_adapter_uncomplete_promises")@,
        apps,
        MetricField::HorizontalUncompletePromises,
    ) + spec_family(
        ("horizontal_adapter_sent_requests")@,
        apps,
        MetricField::HorizontalSentRequests,
    ) + spec_family(
        ("horizontal_adapter_received_requests")@,
        apps,
        MetricField::HorizontalReceivedRequests,
    ) + spec_family(
        ("horizontal_adapter_received_responses")@,
        apps,
        MetricField::HorizontalReceivedResponses,
    )
}

/// Append one family's header and samples.
fn render_family(out: &mut Vec<u8>, name: &str, apps: &Vec<(String, AppMetrics)>, f: MetricField)
    ensures
        final(out)@ == old(out)@ + spec_family(name@, apps@, f),
{
    push_lit(out, "# TYPE ");
    push_str_bytes(out, name);
    push_lit(out, " counter\n");
    let ghost header_done = out@;
    let n = apps.len();
    let mut i: usize = 0;
    while i < n
        invariant
            i <= n,
            n == apps@.len(),
            out@ == header_done + spec_family_lines(name@, apps@.subrange(0, i as int), f),
        decreases n - i,
    {
        let ghost pre = apps@.subrange(0, i as int);
        push_str_bytes(out, name);
        push_lit(out, "{app_id=\"");
        push_str_bytes(out, apps[i].0.as_str());
        push_lit(out, "\"} ");
        push_dec(out, field_of(&apps[i].1, f));
        push_lit(out, "\n");
        proof {
            assert(apps@.subrange(0, i + 1).drop_last() =~= pre);
            assert(apps@.subrange(0, i + 1).last() == apps@[i as int]);
            assert(out@ =~= header_done + spec_family_lines(name@, apps@.subrange(0, i + 1), f));
        }
        i = i + 1;
    }
    proof {
        assert(apps@.subrange(0, n as int) =~= apps@);
        assert(out@ =~= old(out)@ + spec_family(name@, apps@, f));
    }
}

/// Append the UTF-8 bytes of `s` as they stand.
fn push_str_bytes(out: &mut Vec<u8>, s: &str)
    ensures
        final(out)@ == old(out)@ + bytes_of(s@),
{
    push_lit(out, s);
}

/// One counter as a JSON member: `"<name>":<value>`.
pub open spec fn spec_json_counter(name: Seq<char>, value: u64) -> Seq<u8> {
    ("\"").spec_bytes() + bytes_of(name) + ("\":").spec_bytes() + dec_of(value as nat)
}

/// One application's counters as a JSON object member:
/// `"<app>":{"connected_sockets":<n>,...}`.
pub open spec fn spec_json_app(app: Seq<char>, m: AppMetrics) -> Seq<u8> {
    ("\"").spec_bytes() + bytes_of(app) + ("\":{").spec_bytes() + spec_json_counter(
        ("connected_sockets")@,
        m.connected_sockets,
    ) + (",").spec_bytes() + spec_json_counter(("new_connections_total")@, m.new_connections_total)
        + (",").spec_bytes() + spec_json_counter(
        ("new_disconnections_total")@,
        m.new_disconnections_total,
    ) + (",").spec_bytes() + spec_json_counter(("ws_messages_received")@, m.ws_messages_received)
        + (",").spec_bytes() + spec_json_counter(("ws_messages_sent")@, m.ws_messages_sent) + (
    ",").spec_bytes() + spec_json_counter(("http_calls_received")@, m.http_calls_received) + (
    "}").spec_bytes()
}

/// The counters of every application as one JSON object, in the run's
/// order.
pub open spec fn spec_json_metrics(apps: Seq<(String, AppMetrics)>) -> Seq<u8>
    decreases apps.len(),
{
    if apps.len() == 0 {
        Seq::empty()
    } else if apps.len() == 1 {
        spec_json_app((apps[0].0)@, apps[0].1)
    } else {
        spec_json_metrics(apps.drop_last()) + (",").spec_bytes() + spec_json_app(
            (apps.last().0)@,
            apps.last().1,
        )
    }
}

fn push_json_counter(out: &mut Vec<u8>, name: &str, value: u64)
    ensures
        final(out)@ == old(out)@ + spec_json_counter(name@, value),
{
    push_lit(out, "\"");
    push_str_bytes(out, name);
    push_lit(out, "\":");
    push_dec(out, value);
    proof {
        assert(out@ =~= old(out)@ + spec_json_counter(name@, value));
    }
}

fn push_json_app(out: &mut Vec<u8>, app: &str, m: &AppMetrics)
    ensures
        final(out)@ == old(out)@ + spec_json_app(app@, *m),
{
    push_lit(out, "\"");
    push_str_bytes(out, app);
    push_lit(out, "\":{");
    push_json_counter(out, "connected_sockets", m.connected_sockets);
    push_lit(out, ",");
    push_json_counter(out, "new_connections_total", m.new_connections_total);
    push_lit(out, ",");
    push_json_counter(out, "new_disconnections_total", m.new_disconnections_total);
    push_lit(out, ",");
    push_json_counter(out, "ws_messages_received", m.ws_messages_received);
    push_lit(out, ",");
    push_json_counter(out, "ws_messages_sent", m.ws_messages_sent);
    push_lit(out, ",");
    push_json_counter(out, "http_calls_received", m.http_calls_received);
    push_lit(out, "}");
    proof {
        assert(out@ =~= old(out)@ + spec_json_app(app@, *m));
    }
}

impl MetricsRegistry {
    /// The headline counters as one JSON object keyed by application.
    pub fn get_metrics_as_json(&self) -> (r: Vec<u8>)
        ensures
            exists|apps: Seq<(String, AppMetrics)>|
                apps_enumerate_metrics(apps, self@) && r@ == ("{").spec_bytes()
                    + spec_json_metrics(apps) + ("}").spec_bytes(),
    {
        let es = self.apps.entries();
        let n = es.len();
        let mut out: Vec<u8> = Vec::new();
        push_lit(&mut out, "{");
        let mut i: usize = 0;
        while i < n
            invariant
                i <= n,
                n == es@.len(),
                forall|j: int|
                    0 <= j < n ==> self@.dom().contains((#[trigger] es@[j]).0@) && self@[(
                    es@[j]).0@] == (es@[j]).1,
                forall|k: Seq<char>|
                    self@.dom().contains(k) ==> exists|j: int|
                        0 <= j < n && (#[trigger] es@[j]).0@ == k,
                forall|j1: int, j2: int| 0 <= j1 < j2 < n ==> (es@[j1]).0@ != (es@[j2]).0@,
                n == self@.dom().len(),
                out@ == ("{").spec_bytes() + spec_json_metrics(es@.subrange(0, i as int)),
            decreases n - i,
        {
            let ghost pre = es@.subrange(0, i as int);
            if i > 0 {
                push_lit(&mut out, ",");
            }
            push_json_app(&mut out, es[i].0.as_str(), &es[i].1);
            proof {
                assert(es@.subrange(0, i + 1).drop_last() =~= pre);
                assert(es@.subrange(0, i + 1).last() == es@[i as int]);
                assert(out@ =~= ("{").spec_bytes() + spec_json_metrics(es@.subrange(0, i + 1)));
            }
            i = i + 1;
        }
        push_lit(&mut out, "}");
        proof {
            assert(es@.subrange(0, n as int) =~= es@);
            assert(apps_enumerate_metrics(es@, self@));
            assert(out@ =~= ("{").spec_bytes() + spec_json_metrics(es@) + ("}").spec_bytes());
        }
        out
    }
}

} // verus!
