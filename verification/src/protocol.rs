//! What the two hosts of the bench say to each other, and what they know of their interfaces.
use vstd::prelude::*;
use vstd::string::*;
use crate::json::{json_string, string_json};
use crate::number::Double;
use crate::text::{
    cat2, cat3, cat5, decimal, decimal_text, group_views, opt_text, opt_view, owned, told, views,
};

verus! {

/// The capability of an agent that keeps leases, owners and idempotent requests.
pub const RELIABLE_LIFECYCLE_CAPABILITY: &'static str = "reliable_lifecycle_v1";

/// The capability of an agent that reports interface rates while a test runs.
pub const LIVE_NIC_PROGRESS_CAPABILITY: &'static str = "live_nic_progress_v1";

/// One network interface.
#[derive(Debug, Default)]
pub struct NicInfo {
    /// The name of the connection or device.
    pub name: String,
    /// What the driver calls the device.
    pub description: String,
    /// SGMII1G, SGMII2.5G, RNDIS, WIFI5G, WIFI2.4G, WIFI or UNKNOWN, among others.
    pub role: String,
    pub ipv4: String,
    /// The default gateway of the IPv4 address; empty where there is none.
    pub gateway_v4: String,
    /// The link-local IPv6 address, without a zone.
    pub ipv6_ll: String,
    pub ipv6_global: String,
    /// The zone of the link-local address.
    pub zone: String,
    /// The negotiated speed; zero where it is unknown.
    pub speed_mbps: u64,
    pub is_wifi: bool,
    /// `2.4GHz`, `5GHz`, `6GHz` or empty.
    pub wifi_band: String,
    pub ifindex: u32,
}

/// What a [`NicInfo`] holds.
pub ghost struct NicInfoView {
    pub name: Seq<char>,
    pub description: Seq<char>,
    pub role: Seq<char>,
    pub ipv4: Seq<char>,
    pub gateway_v4: Seq<char>,
    pub ipv6_ll: Seq<char>,
    pub ipv6_global: Seq<char>,
    pub zone: Seq<char>,
    pub speed_mbps: u64,
    pub is_wifi: bool,
    pub wifi_band: Seq<char>,
    pub ifindex: u32,
}

impl View for NicInfo {
    type V = NicInfoView;

    open spec fn view(&self) -> NicInfoView {
        NicInfoView {
            name: self.name@,
            description: self.description@,
            role: self.role@,
            ipv4: self.ipv4@,
            gateway_v4: self.gateway_v4@,
            ipv6_ll: self.ipv6_ll@,
            ipv6_global: self.ipv6_global@,
            zone: self.zone@,
            speed_mbps: self.speed_mbps,
            is_wifi: self.is_wifi,
            wifi_band: self.wifi_band@,
            ifindex: self.ifindex,
        }
    }
}

impl Clone for NicInfo {
    fn clone(&self) -> (r: NicInfo)
        ensures
            r@ == self@,
    {
        NicInfo {
            name: self.name.clone(),
            description: self.description.clone(),
            role: self.role.clone(),
            ipv4: self.ipv4.clone(),
            gateway_v4: self.gateway_v4.clone(),
            ipv6_ll: self.ipv6_ll.clone(),
            ipv6_global: self.ipv6_global.clone(),
            zone: self.zone.clone(),
            speed_mbps: self.speed_mbps,
            is_wifi: self.is_wifi,
            wifi_band: self.wifi_band.clone(),
            ifindex: self.ifindex,
        }
    }
}

/// A copy of a list.
pub fn copy_nic_infos(v: &Vec<NicInfo>) -> (r: Vec<NicInfo>)
    ensures
        views(r@) == views(v@),
{
    broadcast use group_views;

    let mut r: Vec<NicInfo> = Vec::new();
    let mut i: usize = 0;
    while i < v.len()
        invariant
            i <= v@.len(),
            views(r@) == views(v@).take(i as int),
        decreases v@.len() - i,
    {
        r.push(v[i].clone());
        assert(views(v@).take(i as int).push(v@[i as int]@) =~= views(v@).take(i + 1));
        i += 1;
    }
    assert(views(v@).take(i as int) =~= views(v@));
    r
}

impl NicInfo {
    /// The part of the brief text that follows the address.
    pub open spec fn brief_extra(self) -> Seq<char> {
        let speed = if self.speed_mbps > 0 {
            ", "@ + decimal(self.speed_mbps as nat) + "Mbps"@
        } else {
            Seq::empty()
        };
        let band = if self.wifi_band@.len() > 0 {
            ", "@ + self.wifi_band@
        } else {
            Seq::empty()
        };
        speed + band
    }

    /// The interface in short: name and address, with speed and band where they are known.
    pub fn brief(&self) -> (r: String)
        ensures
            r@ == self.name@ + "("@ + self.ipv4@ + self.brief_extra() + ")"@,
    {
        let speed = if self.speed_mbps > 0 {
            let digits = decimal_text(self.speed_mbps);
            cat3(", ", digits.as_str(), "Mbps")
        } else {
            String::new()
        };
        let band = if !self.wifi_band.as_str().is_empty() {
            cat2(", ", self.wifi_band.as_str())
        } else {
            String::new()
        };
        let extra = cat2(speed.as_str(), band.as_str());
        cat5(self.name.as_str(), "(", self.ipv4.as_str(), extra.as_str(), ")")
    }
}

/// One host and its interfaces.
#[derive(Debug, Default)]
pub struct HostInfo {
    pub hostname: String,
    pub os: String,
    pub interfaces: Vec<NicInfo>,
}

/// What a [`HostInfo`] holds.
pub ghost struct HostInfoView {
    pub hostname: Seq<char>,
    pub os: Seq<char>,
    pub interfaces: Seq<NicInfoView>,
}

impl View for HostInfo {
    type V = HostInfoView;

    open spec fn view(&self) -> HostInfoView {
        HostInfoView {
            hostname: self.hostname@,
            os: self.os@,
            interfaces: views(self.interfaces@),
        }
    }
}

impl Clone for HostInfo {
    fn clone(&self) -> (r: HostInfo)
        ensures
            r@ == self@,
    {
        HostInfo {
            hostname: self.hostname.clone(),
            os: self.os.clone(),
            interfaces: copy_nic_infos(&self.interfaces),
        }
    }
}

/// The wrapper of every reply.
#[derive(Clone, Debug, Default)]
pub struct Resp<T> {
    pub ok: bool,
    pub error: Option<String>,
    pub data: Option<T>,
}

/// A request for what a host knows of itself.
#[derive(Clone, Debug, Default)]
pub struct InfoReq {
    /// Only interfaces whose address starts with one of these; all where empty.
    pub ipv4_prefixes: Vec<String>,
}

/// A request for a ping.
#[derive(Clone, Debug, Default)]
pub struct PingReq {
    pub dst: String,
    pub src: String,
    pub count: u32,
    /// Payload in bytes.
    pub payload: u32,
    pub v6: bool,
}

/// What came of a ping.
#[derive(Debug, Default)]
pub struct PingOut {
    pub ok: bool,
    pub sent: u32,
    pub received: u32,
    pub lost: u32,
    /// Round-trip times in milliseconds, as they are spelled.
    pub rtt_min: Option<String>,
    pub rtt_avg: Option<String>,
    pub rtt_max: Option<String>,
    pub cmd: String,
    /// The output, with a mark behind it where the command itself failed.
    pub raw: String,
}

/// What a [`PingOut`] holds.
pub ghost struct PingOutView {
    pub ok: bool,
    pub sent: u32,
    pub received: u32,
    pub lost: u32,
    pub rtt_min: Option<Seq<char>>,
    pub rtt_avg: Option<Seq<char>>,
    pub rtt_max: Option<Seq<char>>,
    pub cmd: Seq<char>,
    pub raw: Seq<char>,
}

impl View for PingOut {
    type V = PingOutView;

    open spec fn view(&self) -> PingOutView {
        PingOutView {
            ok: self.ok,
            sent: self.sent,
            received: self.received,
            lost: self.lost,
            rtt_min: opt_text(self.rtt_min),
            rtt_avg: opt_text(self.rtt_avg),
            rtt_max: opt_text(self.rtt_max),
            cmd: self.cmd@,
            raw: self.raw@,
        }
    }
}

/// A request to start a server.
#[derive(Clone, Debug, Default)]
pub struct IperfServerStartReq {
    pub bind_ip: String,
    pub port: u16,
    pub v6: bool,
    /// The idempotency key of one life of the server.
    pub request_id: String,
    /// The run that owns the server.
    pub owner_id: String,
    pub lease_secs: u64,
}

/// The reply to a server start.
#[derive(Clone, Debug, Default)]
pub struct IperfServerStartOut {
    pub cmd: String,
}

/// A request to stop a server.
#[derive(Clone, Debug, Default)]
pub struct IperfServerStopReq {
    pub port: u16,
    pub wait_secs: u64,
    pub request_id: String,
}

/// The reply to a server stop.
#[derive(Clone, Debug, Default)]
pub struct IperfServerStopOut {
    pub existed: bool,
    pub terminated: bool,
    pub output: String,
}

/// A request to run a client.
#[derive(Clone, Debug, Default)]
pub struct IperfClientReq {
    pub dst: String,
    pub bind_ip: String,
    pub port: u16,
    pub duration: u64,
    pub udp: bool,
    pub v6: bool,
    /// Further arguments.
    pub extra: Vec<String>,
}

/// What a client run gave.
#[derive(Clone, Debug, Default)]
pub struct IperfClientOut {
    pub ok: bool,
    pub timed_out: bool,
    pub cancelled: bool,
    pub cmd: String,
    pub output: String,
}

/// What happened in a client run.
#[derive(Clone, Copy, Debug, Default, PartialEq, Eq, Structural)]
pub enum IperfEventKind {
    #[default]
    Started,
    Connected,
    Traffic,
    Retry,
    Error,
    Ended,
}

/// One event of a client run; times count from the start of the job.
#[derive(Clone, Debug, Default)]
pub struct IperfFlowEvent {
    pub kind: IperfEventKind,
    pub elapsed_ms: u64,
    pub mbps: Option<Double>,
    pub line: String,
}

/// A request to start a client job.
#[derive(Clone, Debug, Default)]
pub struct IperfClientStartReq {
    pub request: IperfClientReq,
    pub request_id: String,
    pub owner_id: String,
    pub lease_secs: u64,
}

/// The reply to a client start.
#[derive(Clone, Debug, Default)]
pub struct IperfClientStartOut {
    pub id: String,
    pub elapsed_ms: u64,
}

/// A request for the state of a client job.
#[derive(Clone, Debug, Default)]
pub struct IperfClientStatusReq {
    pub id: String,
    /// The first event to report.
    pub cursor: usize,
}

/// The state of a client job.
#[derive(Clone, Debug, Default)]
pub struct IperfClientStatusOut {
    pub id: String,
    pub done: bool,
    pub next_cursor: usize,
    pub events: Vec<IperfFlowEvent>,
    pub result: Option<IperfClientOut>,
}

/// A request to stop a client job.
#[derive(Clone, Debug, Default)]
pub struct IperfClientStopReq {
    pub id: String,
    pub wait_secs: u64,
}

/// The reply to a client stop.
#[derive(Clone, Debug, Default)]
pub struct IperfClientStopOut {
    pub existed: bool,
    pub was_done: bool,
    pub terminated: bool,
}

/// A request to clean up everything that one run left behind.
#[derive(Clone, Debug, Default)]
pub struct ResourceCleanupReq {
    pub owner_id: String,
    pub wait_secs: u64,
}

/// What a clean-up found.
#[derive(Clone, Debug, Default)]
pub struct ResourceCleanupOut {
    pub servers: usize,
    pub clients: usize,
    pub monitors: usize,
    pub errors: Vec<String>,
}

/// A request to monitor an interface.
#[derive(Clone, Debug, Default)]
pub struct MonitorStartReq {
    pub iface: String,
    pub interval_ms: u64,
    pub owner_id: String,
    pub lease_secs: u64,
}

/// The sampling interval where a request gives none.
pub fn default_monitor_interval_ms() -> (r: u64)
    ensures
        r == 1000,
{
    1000
}

/// The reply to a monitor start.
#[derive(Clone, Debug, Default)]
pub struct MonitorStartOut {
    pub id: String,
}

/// A request for the state of a monitor.
#[derive(Clone, Debug, Default)]
pub struct MonitorStatusReq {
    pub id: String,
}

/// A request to stop a monitor.
#[derive(Clone, Debug, Default)]
pub struct MonitorStopReq {
    pub id: String,
}

/// One sample of an interface's counters.
#[derive(Debug, Default)]
pub struct MonitorSample {
    /// Milliseconds since the monitor started.
    pub elapsed_ms: u64,
    /// Milliseconds that the sample covers, at least one.
    pub interval_ms: u64,
    pub rx_bytes: u64,
    pub tx_bytes: u64,
    pub rx_delta_bytes: u64,
    pub tx_delta_bytes: u64,
    /// Nanoseconds by which a rate divides the bytes of the sample; zero where none were read.
    pub rate_nanos: u64,
    pub valid: bool,
    pub error: String,
}

/// What a [`MonitorSample`] holds.
pub ghost struct MonitorSampleView {
    pub elapsed_ms: u64,
    pub interval_ms: u64,
    pub rx_bytes: u64,
    pub tx_bytes: u64,
    pub rx_delta_bytes: u64,
    pub tx_delta_bytes: u64,
    pub rate_nanos: u64,
    pub valid: bool,
    pub error: Seq<char>,
}

impl View for MonitorSample {
    type V = MonitorSampleView;

    open spec fn view(&self) -> MonitorSampleView {
        MonitorSampleView {
            elapsed_ms: self.elapsed_ms,
            interval_ms: self.interval_ms,
            rx_bytes: self.rx_bytes,
            tx_bytes: self.tx_bytes,
            rx_delta_bytes: self.rx_delta_bytes,
            tx_delta_bytes: self.tx_delta_bytes,
            rate_nanos: self.rate_nanos,
            valid: self.valid,
            error: self.error@,
        }
    }
}

impl Clone for MonitorSample {
    fn clone(&self) -> (r: MonitorSample)
        ensures
            r@ == self@,
    {
        MonitorSample {
            elapsed_ms: self.elapsed_ms,
            interval_ms: self.interval_ms,
            rx_bytes: self.rx_bytes,
            tx_bytes: self.tx_bytes,
            rx_delta_bytes: self.rx_delta_bytes,
            tx_delta_bytes: self.tx_delta_bytes,
            rate_nanos: self.rate_nanos,
            valid: self.valid,
            error: self.error.clone(),
        }
    }
}

/// The state of a running monitor.
#[derive(Debug, Default)]
pub struct MonitorStatusOut {
    pub id: String,
    pub iface: String,
    pub sample_count: usize,
    pub latest_sample: Option<MonitorSample>,
    pub error_count: usize,
    pub latest_error: String,
}

/// What a [`MonitorStatusOut`] holds.
pub ghost struct MonitorStatusOutView {
    pub id: Seq<char>,
    pub iface: Seq<char>,
    pub sample_count: usize,
    pub latest_sample: Option<MonitorSampleView>,
    pub error_count: usize,
    pub latest_error: Seq<char>,
}

impl View for MonitorStatusOut {
    type V = MonitorStatusOutView;

    open spec fn view(&self) -> MonitorStatusOutView {
        MonitorStatusOutView {
            id: self.id@,
            iface: self.iface@,
            sample_count: self.sample_count,
            latest_sample: opt_view(self.latest_sample),
            error_count: self.error_count,
            latest_error: self.latest_error@,
        }
    }
}

/// What a monitor found until it was stopped.
#[derive(Debug, Default)]
pub struct MonitorStopOut {
    /// Nanoseconds that the monitor ran, at least a millisecond.
    pub nanos: u64,
    /// Bytes received.
    pub bytes: u64,
    /// Bytes sent.
    pub tx_bytes: u64,
    pub samples: Vec<MonitorSample>,
    pub errors: Vec<String>,
}

/// What a [`MonitorStopOut`] holds.
pub ghost struct MonitorStopOutView {
    pub nanos: u64,
    pub bytes: u64,
    pub tx_bytes: u64,
    pub samples: Seq<MonitorSampleView>,
    pub errors: Seq<Seq<char>>,
}

impl View for MonitorStopOut {
    type V = MonitorStopOutView;

    open spec fn view(&self) -> MonitorStopOutView {
        MonitorStopOutView {
            nanos: self.nanos,
            bytes: self.bytes,
            tx_bytes: self.tx_bytes,
            samples: views(self.samples@),
            errors: views(self.errors@),
        }
    }
}

/// A request for a screenshot.
#[derive(Clone, Debug, Default)]
pub struct ScreenshotReq {
    pub label: String,
}

/// A screenshot.
#[derive(Clone, Debug, Default)]
pub struct ScreenshotOut {
    pub image_b64: String,
    pub format: String,
}

/// What a host says of its health.
#[derive(Clone, Debug, Default)]
pub struct HealthOut {
    pub hostname: String,
    pub os: String,
    pub version: String,
    pub iperf3: Option<String>,
    pub capabilities: Vec<String>,
}

// ---------------------------------------------------------------------------
// Replies
// ---------------------------------------------------------------------------

/// A reply that says what went wrong.
pub open spec fn error_reply(msg: Seq<char>) -> Seq<char> {
    "{\"ok\":false,\"error\":"@ + json_string(msg) + ",\"data\":null}"@
}

/// A reply that says what went wrong.
pub fn err_json(msg: &str) -> (r: String)
    ensures
        r@ == error_reply(msg@),
{
    let text = match string_json(msg) {
        Some(text) => text,
        None => owned("\"error\""),
    };
    cat3("{\"ok\":false,\"error\":", text.as_str(), ",\"data\":null}")
}

/// A reply with data, which is JSON already; where it could not be made, a reply that says why.
pub open spec fn data_reply(data: Result<Seq<char>, Seq<char>>) -> Seq<char> {
    match data {
        Ok(json) => "{\"ok\":true,\"error\":null,\"data\":"@ + json + "}"@,
        Err(e) => error_reply("序列化失败: "@ + e),
    }
}

/// A reply with data, which is JSON already; where it could not be made, a reply that says why.
pub fn ok_json(data: Result<String, String>) -> (r: String)
    ensures
        r@ == data_reply(
            match data {
                Ok(json) => Ok(json@),
                Err(e) => Err(e@),
            },
        ),
{
    match data {
        Ok(json) => cat3("{\"ok\":true,\"error\":null,\"data\":", json.as_str(), "}"),
        Err(e) => {
            let msg = cat2("序列化失败: ", e.as_str());
            err_json(msg.as_str())
        },
    }
}

/// What an agent's reply amounts to: its data, or why there is none. `reply` is the body as read, or
/// why it could not be read; it counts only where the status is good.
pub open spec fn reply_told<T>(status: u16, reply: Result<Resp<T>, String>) -> Result<T, Seq<char>> {
    if status == 401 {
        Err("agent 返回 401：已启用令牌认证，请填写相同的 token"@)
    } else if status != 200 {
        Err("HTTP "@ + decimal(status as nat))
    } else {
        match reply {
            Err(e) => Err("响应解析失败: "@ + e@),
            Ok(resp) => if !resp.ok {
                match resp.error {
                    Some(e) => Err(e@),
                    None => Err("未知错误"@),
                }
            } else {
                match resp.data {
                    Some(data) => Ok(data),
                    None => Err("响应缺 data"@),
                }
            },
        }
    }
}

/// What an agent's reply amounts to: its data, or why there is none.
pub fn accept_reply<T>(status: u16, reply: Result<Resp<T>, String>) -> (r: Result<T, String>)
    ensures
        told(r) == reply_told(status, reply),
{
    if status == 401 {
        return Err(owned("agent 返回 401：已启用令牌认证，请填写相同的 token"));
    }
    if status != 200 {
        let number = decimal_text(status as u64);
        return Err(cat2("HTTP ", number.as_str()));
    }
    match reply {
        Err(e) => Err(cat2("响应解析失败: ", e.as_str())),
        Ok(resp) => if !resp.ok {
            match resp.error {
                Some(e) => Err(e),
                None => Err(owned("未知错误")),
            }
        } else {
            match resp.data {
                Some(data) => Ok(data),
                None => Err(owned("响应缺 data")),
            }
        },
    }
}

} // verus!
