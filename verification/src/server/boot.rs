//! What the server says and decides while it boots, accepts and shuts down.
use crate::clock;
use crate::hex;
use crate::logging;
use crate::logging::{format_error, format_info, format_warn};
use crate::server::limits;
use crate::text;
use crate::text::{cat2, cat3, cat4, cat5, dec_text, join_strings, own, own_list, same, split};
use crate::words;
use vstd::prelude::*;

verus! {

broadcast use crate::text::group_views;

// ── Log lines ───────────────────────────────────────────────────────────
#[derive(Debug, Clone, Copy, PartialEq, Eq, Structural)]
pub enum Level {
    Info,
    Warn,
    Error,
    /// Goes to the console as it is.
    Console,
}

/// A line for the log.
#[derive(Debug)]
pub struct LogLine {
    pub level: Level,
    pub event: &'static str,
    pub message: String,
}

#[verifier::ext_equal]
pub struct LineV {
    pub level: Level,
    pub event: Seq<char>,
    pub message: Seq<char>,
}

impl View for LogLine {
    type V = LineV;

    open spec fn view(&self) -> LineV {
        LineV { level: self.level, event: self.event@, message: self.message@ }
    }
}

pub open spec fn line(level: Level, event: Seq<char>, message: Seq<char>) -> LineV {
    LineV { level, event, message }
}

pub open spec fn opt_line(o: Option<LogLine>) -> Option<LineV> {
    match o {
        Some(l) => Some(l@),
        None => None,
    }
}

impl LogLine {
    pub fn new(level: Level, event: &'static str, message: String) -> (r: LogLine)
        ensures
            r@ == line(level, event@, message@),
    {
        LogLine { level, event, message }
    }

    /// The line as it is written.
    pub fn render(&self, json: bool, color: bool) -> (r: String)
        ensures
            match self.level {
                Level::Info => if json {
                    logging::is_json_event(r@, "info"@, self@.event, self@.message)
                } else {
                    r@ == self@.message
                },
                Level::Warn => if json {
                    logging::is_json_event(r@, "warn"@, self@.event, self@.message)
                } else {
                    r@ == logging::warn_text(color, self@.message)
                },
                Level::Error => if json {
                    logging::is_json_event(r@, "error"@, self@.event, self@.message)
                } else {
                    r@ == logging::error_text(color, self@.message)
                },
                Level::Console => r@ == self@.message,
            },
    {
        match self.level {
            Level::Info => format_info(json, self.event, self.message.as_str()),
            Level::Warn => format_warn(json, color, self.event, self.message.as_str()),
            Level::Error => format_error(json, color, self.event, self.message.as_str()),
            Level::Console => own(self.message.as_str()),
        }
    }
}

// ── Settings from more than one place ───────────────────────────────────
/// The configured text, else the one from the environment, else the default.
pub open spec fn preferred(
    configured: Seq<char>,
    env: Option<Seq<char>>,
    default: Seq<char>,
) -> Seq<char> {
    if configured.len() > 0 {
        configured
    } else {
        match env {
            Some(e) => e,
            None => default,
        }
    }
}

pub fn prefer(configured: &str, env: &Option<String>, default: &str) -> (r: String)
    ensures
        r@ == preferred(configured@, text::opt(*env), default@),
{
    proof {
        reveal_strlit("");
        assert("".view() =~= Seq::<char>::empty());
    }
    if !same(configured, "") {
        assert(configured@.len() > 0) by {
            if configured@.len() == 0 {
                assert(configured@ =~= ""@);
            }
        }
        own(configured)
    } else {
        match env {
            Some(e) => own(e.as_str()),
            None => own(default),
        }
    }
}

/// The texts that are not empty, of the first `n`.
pub open spec fn filled(s: Seq<Seq<char>>, n: nat) -> Seq<Seq<char>>
    decreases n,
{
    if n == 0 {
        seq![]
    } else {
        let before = filled(s, (n - 1) as nat);
        if s[n - 1].len() > 0 {
            before.push(s[n - 1])
        } else {
            before
        }
    }
}

/// The addresses of the peers: those that are configured, else those that the
/// environment lists.
pub open spec fn peers_of(configured: Seq<Seq<char>>, env: Seq<char>) -> Seq<Seq<char>> {
    if configured.len() > 0 {
        configured
    } else {
        let parts = text::split_of(env, ',');
        filled(parts, parts.len())
    }
}

pub fn mesh_peers(configured: &Vec<String>, env: &str) -> (r: Vec<String>)
    ensures
        text::views(r@) == peers_of(text::views(configured@), env@),
{
    if configured.len() > 0 {
        return own_list(configured);
    }
    let parts = split(env, ',');
    let ghost pv = text::views(parts@);
    let mut out: Vec<String> = Vec::new();
    proof {
        reveal_strlit("");
    }
    for p in it: parts
        invariant
            it.seq() == parts@,
            pv == text::views(parts@),
            ""@ =~= Seq::<char>::empty(),
            text::views(out@) == filled(pv, it.index() as nat),
    {
        assert(pv[it.index() as int] == p@);
        if !same(p.as_str(), "") {
            assert(p@.len() > 0) by {
                if p@.len() == 0 {
                    assert(p@ =~= ""@);
                }
            }
            out.push(p);
        }
    }
    out
}

/// The mesh control plane runs when either source asks for it.
pub fn mesh_enabled(configured: bool, env: &Option<String>) -> (r: bool)
    ensures
        r == (configured || text::opt(*env) == Some("1"@)),
{
    if configured {
        return true;
    }
    match env {
        Some(e) => same(e.as_str(), "1"),
        None => false,
    }
}

/// A byte in two hexadecimal digits.
pub open spec fn byte_text(b: u8) -> Seq<char> {
    hex::chars_of(hex::hex_of(seq![b]))
}

fn text_of_byte(b: u8) -> (r: String)
    ensures
        r@ == byte_text(b),
{
    let src: [u8; 1] = [b];
    let mut digits: [u8; 2] = [0u8; 2];
    hex::write_hex(&src, &mut digits);
    assert(src@ =~= seq![b]);
    hex::to_text(&digits)
}

/// The mesh control plane is up: the first bytes of the node's identity, where
/// it listens, and whether it knows no reputation yet.
pub open spec fn mesh_up_text(node: Seq<u8>, listen: Seq<char>, empty: bool) -> Seq<char> {
    "  AIMP control plane up: node_id[0..4]=["@ + byte_text(node[0]) + ", "@ + byte_text(node[1])
        + ", "@ + byte_text(node[2]) + ", "@ + byte_text(node[3]) + "] listen="@ + listen
        + " peers="@ + (if empty {
        "1"@
    } else {
        "0"@
    })
}

/// What became of starting the mesh control plane. The server goes on without
/// it where that failed.
pub fn mesh_line(started: &Result<([u8; 4], bool), String>, listen: &str) -> (r: LogLine)
    ensures
        r@ == (match started {
            Ok((node, empty)) => line(
                Level::Console,
                "aimp_cp"@,
                mesh_up_text(node@, listen@, *empty),
            ),
            Err(e) => line(
                Level::Warn,
                "aimp_cp"@,
                "bootstrap failed: "@ + e@ + " — continuing without AIMP"@,
            ),
        }),
{
    match started {
        Ok((node, empty)) => {
            let a = text_of_byte(node[0]);
            let b = text_of_byte(node[1]);
            let c = text_of_byte(node[2]);
            let d = text_of_byte(node[3]);
            let mut m = own("  AIMP control plane up: node_id[0..4]=[");
            m.append(a.as_str());
            m.append(", ");
            m.append(b.as_str());
            m.append(", ");
            m.append(c.as_str());
            m.append(", ");
            m.append(d.as_str());
            m.append("] listen=");
            m.append(listen);
            m.append(" peers=");
            m.append(
                if *empty {
                    "1"
                } else {
                    "0"
                },
            );
            LogLine::new(Level::Console, "aimp_cp", m)
        },
        Err(e) => LogLine::new(
            Level::Warn,
            "aimp_cp",
            cat3("bootstrap failed: ", e.as_str(), " — continuing without AIMP"),
        ),
    }
}

/// The configuration was read.
pub fn config_loaded(path: &str) -> (r: LogLine)
    ensures
        r@ == line(Level::Info, "config"@, "loaded from "@ + path@),
{
    LogLine::new(Level::Info, "config", cat2("loaded from ", path))
}

/// Where the configuration is read from.
pub fn config_path(env: &Option<String>) -> (r: String)
    ensures
        r@ == (match text::opt(*env) {
            Some(p) => p,
            None => "zion.toml"@,
        }),
{
    match env {
        Some(p) => own(p.as_str()),
        None => own("zion.toml"),
    }
}

// ── Listeners ───────────────────────────────────────────────────────────
/// The admin listener is spawned only where its gate is enforced.
pub open spec fn admin_refusal(auth: Seq<char>, bad_listen: Option<Seq<char>>) -> Option<LineV> {
    match bad_listen {
        Some(why) => Some(line(Level::Error, "admin"@, "admin.listen invalid: "@ + why)),
        None => if auth == "internal-ip"@ {
            None
        } else {
            Some(
                line(
                    Level::Error,
                    "admin"@,
                    "admin.auth = '"@ + auth
                        + "' is not yet enforced (mTLS lands in #26 Phase 4) — admin API NOT spawned"@,
                ),
            )
        },
    }
}

/// Why the admin listener is not spawned; `None` where it is. `bad_listen` says
/// what is wrong with its address.
pub fn admin_listener(auth: &str, bad_listen: &Option<String>) -> (r: Option<LogLine>)
    ensures
        opt_line(r) == admin_refusal(auth@, text::opt(*bad_listen)),
{
    match bad_listen {
        Some(why) => Some(
            LogLine::new(Level::Error, "admin", cat2("admin.listen invalid: ", why.as_str())),
        ),
        None => if same(auth, "internal-ip") {
            None
        } else {
            Some(
                LogLine::new(
                    Level::Error,
                    "admin",
                    cat3(
                        "admin.auth = '",
                        auth,
                        "' is not yet enforced (mTLS lands in #26 Phase 4) — admin API NOT spawned",
                    ),
                ),
            )
        },
    }
}

pub open spec fn http_bound_line(addr: Seq<char>, failure: Option<Seq<char>>) -> LineV {
    line(
        Level::Console,
        "listener"@,
        match failure {
            None => "  listening HTTP  on "@ + addr,
            Some(why) => "  warning: HTTP listener on "@ + addr + " unavailable: "@ + why,
        },
    )
}

/// The first bind of the plain listener: the server goes on without it.
pub fn http_bound(addr: &str, failure: &Option<String>) -> (r: LogLine)
    ensures
        r@ == http_bound_line(addr@, text::opt(*failure)),
{
    let message = match failure {
        None => cat2("  listening HTTP  on ", addr),
        Some(why) => cat4("  warning: HTTP listener on ", addr, " unavailable: ", why.as_str()),
    };
    LogLine::new(Level::Console, "listener", message)
}

/// The first bind of the TLS listener: without it the server does not start,
/// and this says why.
pub fn https_bound(addr: &str, failure: &Option<String>) -> (r: Result<LogLine, String>)
    ensures
        match text::opt(*failure) {
            None => r matches Ok(l) && l@ == line(
                Level::Console,
                "listener"@,
                "  listening HTTPS on "@ + addr@,
            ),
            Some(why) => r matches Err(e) && e@ == "HTTPS bind "@ + addr@ + ": "@ + why,
        },
{
    match failure {
        None => Ok(LogLine::new(Level::Console, "listener", cat2("  listening HTTPS on ", addr))),
        Some(why) => Err(cat4("HTTPS bind ", addr, ": ", why.as_str())),
    }
}

// ── Accepting ───────────────────────────────────────────────────────────
/// What becomes of a connection that comes in.
#[derive(Debug, Clone, Copy, PartialEq, Eq, Structural)]
pub enum Admission {
    Accept,
    /// The server holds as many connections as it may.
    Full,
    /// The client holds as many connections as it may.
    ClientFull,
}

/// The global ceiling is asked first: a connection that it turns away does not
/// count against its client.
pub fn admission(permit: bool, client_slot: bool) -> (r: Admission)
    ensures
        r == (if !permit {
            Admission::Full
        } else if !client_slot {
            Admission::ClientFull
        } else {
            Admission::Accept
        }),
{
    if !permit {
        Admission::Full
    } else if !client_slot {
        Admission::ClientFull
    } else {
        Admission::Accept
    }
}

/// Whether `gap` has passed since the last line; a clock that went back has not
/// moved.
pub open spec fn due_again(last: u64, now: u64, gap: u64) -> bool {
    now >= last && now - last >= gap
}

fn throttle(last: &mut u64, now: u64, gap: u64) -> (r: bool)
    requires
        gap > 0,
    ensures
        r == due_again(*old(last), now, gap),
        *final(last) == (if r {
            now
        } else {
            *old(last)
        }),
{
    if now >= *last && now - *last >= gap {
        *last = now;
        true
    } else {
        false
    }
}

/// Whether a failed handshake is logged at a time in milliseconds: about one in
/// a second is, however many fail.
pub fn handshake_log_due(last_ms: &mut u64, now_ms: u64) -> (r: bool)
    ensures
        r == due_again(*old(last_ms), now_ms, 1_000),
        *final(last_ms) == (if r {
            now_ms
        } else {
            *old(last_ms)
        }),
{
    throttle(last_ms, now_ms, 1_000)
}

/// `handshake_log_due` by the clock.
pub fn tls_handshake_log_allowed(last_ms: &mut u64) -> (r: bool)
    ensures
        exists|reading: Option<u128>|
            r == due_again(
                *old(last_ms),
                #[trigger] clock::in_units(reading, 1_000) as u64,
                1_000,
            ) && *final(last_ms) == (if r {
                clock::in_units(reading, 1_000)
            } else {
                *old(last_ms) as int
            }),
{
    let now_ms: u64 = clock::unix_millis();
    let ghost reading = choose|reading: Option<u128>|
        now_ms == #[trigger] clock::in_units(reading, 1_000);
    let r = handshake_log_due(last_ms, now_ms);
    assert(clock::in_units(reading, 1_000) as u64 == now_ms);
    r
}

/// Whether a failed accept is logged: the first is, and then about one in a
/// second. Times are microseconds of a clock that does not go back.
pub fn accept_error_log_due(last_us: &mut Option<u64>, now_us: u64) -> (r: bool)
    ensures
        r == (match *old(last_us) {
            Some(last) => due_again(last, now_us, 1_000_000),
            None => true,
        }),
        *final(last_us) == (if r {
            Some(now_us)
        } else {
            *old(last_us)
        }),
{
    match *last_us {
        None => {
            *last_us = Some(now_us);
            true
        },
        Some(last) => if now_us >= last && now_us - last >= 1_000_000 {
            *last_us = Some(now_us);
            true
        } else {
            false
        },
    }
}

/// The line for a handshake that failed, or that took too long.
pub fn handshake_failed(remote: &str, why: &Option<String>) -> (r: LogLine)
    ensures
        r@ == line(
            Level::Console,
            "tls"@,
            match text::opt(*why) {
                Some(w) => "  tls handshake failed from "@ + remote@ + ": "@ + w,
                None => "  tls handshake timed out (10s) from "@ + remote@,
            },
        ),
{
    let message = match why {
        Some(w) => cat4("  tls handshake failed from ", remote, ": ", w.as_str()),
        None => cat2("  tls handshake timed out (10s) from ", remote),
    };
    LogLine::new(Level::Console, "tls", message)
}

/// The core to which the `idx`-th worker is pinned, of `cores`.
pub fn core_of_worker(idx: usize, cores: usize) -> (r: Option<usize>)
    ensures
        r == (if cores == 0 {
            None
        } else {
            Some((idx % cores) as usize)
        }),
{
    if cores == 0 {
        None
    } else {
        Some(idx % cores)
    }
}

// ── Kernel features ─────────────────────────────────────────────────────
/// Whether the kernel reads and writes through io_uring.
pub fn io_uring_line(supported: bool) -> (r: LogLine)
    ensures
        r@ == (if supported {
            line(
                Level::Info,
                "io_uring_rw"@,
                "kernel supports vectored rw (>= 5.19) — feature ready, runtime adapter pending follow-up"@,
            )
        } else {
            line(
                Level::Warn,
                "io_uring_rw"@,
                "kernel does NOT support vectored rw (need >= 5.19) — feature compiled in but auto-disabled"@,
            )
        }),
{
    if supported {
        LogLine::new(
            Level::Info,
            "io_uring_rw",
            own(
                "kernel supports vectored rw (>= 5.19) — feature ready, runtime adapter pending follow-up",
            ),
        )
    } else {
        LogLine::new(
            Level::Warn,
            "io_uring_rw",
            own(
                "kernel does NOT support vectored rw (need >= 5.19) — feature compiled in but auto-disabled",
            ),
        )
    }
}

/// Whether a program can spread the connections of a port over its listeners.
#[derive(Debug)]
pub enum DemuxReadiness {
    Ready,
    KernelTooOld { release: String },
    MissingCapability,
    NotLinux,
}

pub open spec fn demux_told(d: DemuxReadiness) -> Option<LineV> {
    match d {
        DemuxReadiness::Ready => Some(
            line(
                Level::Info,
                "bpf_demux"@,
                "kernel + capabilities ready (>= 5.7, CAP_BPF or CAP_SYS_ADMIN) — listener wire-up pending follow-up"@,
            ),
        ),
        DemuxReadiness::KernelTooOld { release } => Some(
            line(
                Level::Warn,
                "bpf_demux"@,
                "kernel "@ + release@
                    + " < 5.7 — SO_ATTACH_REUSEPORT_EBPF + UDP support unavailable; default reuseport hash will be used"@,
            ),
        ),
        DemuxReadiness::MissingCapability => Some(
            line(
                Level::Warn,
                "bpf_demux"@,
                "kernel ready but process lacks CAP_BPF/CAP_SYS_ADMIN — grant with `setcap cap_bpf+ep` or run as root"@,
            ),
        ),
        DemuxReadiness::NotLinux => None,
    }
}

pub fn demux_line(d: &DemuxReadiness) -> (r: Option<LogLine>)
    ensures
        opt_line(r) == demux_told(*d),
{
    match d {
        DemuxReadiness::Ready => Some(
            LogLine::new(
                Level::Info,
                "bpf_demux",
                own(
                    "kernel + capabilities ready (>= 5.7, CAP_BPF or CAP_SYS_ADMIN) — listener wire-up pending follow-up",
                ),
            ),
        ),
        DemuxReadiness::KernelTooOld { release } => Some(
            LogLine::new(
                Level::Warn,
                "bpf_demux",
                cat3(
                    "kernel ",
                    release.as_str(),
                    " < 5.7 — SO_ATTACH_REUSEPORT_EBPF + UDP support unavailable; default reuseport hash will be used",
                ),
            ),
        ),
        DemuxReadiness::MissingCapability => Some(
            LogLine::new(
                Level::Warn,
                "bpf_demux",
                own(
                    "kernel ready but process lacks CAP_BPF/CAP_SYS_ADMIN — grant with `setcap cap_bpf+ep` or run as root",
                ),
            ),
        ),
        DemuxReadiness::NotLinux => None,
    }
}

/// Whether the kernel frames TLS records.
pub fn ktls_line(supported: bool) -> (r: LogLine)
    ensures
        r@ == (if supported {
            line(
                Level::Info,
                "ktls"@,
                "kernel supports kTLS (TCP_ULP=tls) — handshake corker active, sendfile path pending follow-up"@,
            )
        } else {
            line(
                Level::Warn,
                "ktls"@,
                "kernel does NOT advertise kTLS support — try_upgrade will fail and the connection will close"@,
            )
        }),
{
    if supported {
        LogLine::new(
            Level::Info,
            "ktls",
            own(
                "kernel supports kTLS (TCP_ULP=tls) — handshake corker active, sendfile path pending follow-up",
            ),
        )
    } else {
        LogLine::new(
            Level::Warn,
            "ktls",
            own(
                "kernel does NOT advertise kTLS support — try_upgrade will fail and the connection will close",
            ),
        )
    }
}

// ── Background work ─────────────────────────────────────────────────────
pub open spec fn renewal_text(domains: Seq<Seq<char>>) -> Seq<char> {
    "auto-renewal enabled for: "@ + text::join(domains, ", "@)
}

pub fn renewal_line(domains: &Vec<String>) -> (r: LogLine)
    ensures
        r@ == line(Level::Info, "acme"@, renewal_text(text::views(domains@))),
{
    let names = join_strings(domains, ", ");
    LogLine::new(Level::Info, "acme", cat2("auto-renewal enabled for: ", names.as_str()))
}

/// The window by which stale clients are scavenged: at least a second.
pub fn scavenge_window(window: u64) -> (r: u64)
    ensures
        r == (if window == 0 {
            1
        } else {
            window
        }),
{
    if window == 0 {
        1
    } else {
        window
    }
}

/// The line of a scavenge, where it removed anything.
pub fn scavenged_line(removed: usize, known: usize) -> (r: Option<LogLine>)
    ensures
        opt_line(r) == (if removed > 0 {
            Some(
                line(
                    Level::Info,
                    "rate_limit"@,
                    "scavenged "@ + text::dec(removed as nat) + " stale IPs ("@ + text::dec(
                        known as nat,
                    ) + " tracked)"@,
                ),
            )
        } else {
            None
        }),
{
    if removed == 0 {
        return None;
    }
    let n = dec_text(removed as u64);
    let m = dec_text(known as u64);
    let message = cat5("scavenged ", n.as_str(), " stale IPs (", m.as_str(), " tracked)");
    Some(LogLine::new(Level::Info, "rate_limit", message))
}

// ── Shutdown ────────────────────────────────────────────────────────────
/// How many permits stand for all connections; what does not fit is cut.
pub fn drain_permits(max: usize) -> (r: u32)
    ensures
        r as int == (if max <= u32::MAX {
            max as int
        } else {
            u32::MAX as int
        }),
{
    if max > u32::MAX as usize {
        u32::MAX
    } else {
        max as u32
    }
}

/// The line at the start of the drain, where connections are in flight.
pub fn drain_start(max: usize, available: usize) -> (r: Option<LogLine>)
    requires
        available <= max,
    ensures
        opt_line(r) == (if available < max {
            Some(
                line(
                    Level::Info,
                    "shutdown"@,
                    "draining "@ + text::dec((max - available) as nat)
                        + " in-flight connections (timeout "@ + text::dec(
                        limits::DRAIN_TIMEOUT_SECS as nat,
                    ) + "s)..."@,
                ),
            )
        } else {
            None
        }),
{
    let in_flight: usize = max - available;
    if in_flight == 0 {
        return None;
    }
    let n = dec_text(in_flight as u64);
    let t = dec_text(limits::DRAIN_TIMEOUT_SECS);
    let message = cat5(
        "draining ",
        n.as_str(),
        " in-flight connections (timeout ",
        t.as_str(),
        "s)...",
    );
    Some(LogLine::new(Level::Info, "shutdown", message))
}

/// The line at the end of the drain: it was clean, or it ran out of time.
pub fn drain_end(clean: bool, max: usize, available: usize) -> (r: LogLine)
    requires
        available <= max,
    ensures
        r@ == (if clean {
            line(Level::Info, "shutdown"@, "all connections drained cleanly"@)
        } else {
            line(
                Level::Warn,
                "shutdown"@,
                "drain timeout ("@ + text::dec(limits::DRAIN_TIMEOUT_SECS as nat)
                    + "s), "@ + text::dec((max - available) as nat)
                    + " connections still active, forcing exit"@,
            )
        }),
{
    if clean {
        return LogLine::new(Level::Info, "shutdown", own("all connections drained cleanly"));
    }
    let n = dec_text((max - available) as u64);
    let t = dec_text(limits::DRAIN_TIMEOUT_SECS);
    let message = cat5(
        "drain timeout (",
        t.as_str(),
        "s), ",
        n.as_str(),
        " connections still active, forcing exit",
    );
    LogLine::new(Level::Warn, "shutdown", message)
}

// ── Laws ────────────────────────────────────────────────────────────────
/// Of two handshake failures that are both logged, the later comes at least a
/// second after the earlier, whatever failed in between.
pub proof fn law_logged_lines_are_apart(last: u64, now: u64, gap: u64)
    requires
        due_again(last, now, gap),
    ensures
        now >= last + gap,
        gap > 0 ==> !due_again(now, now, gap),
{
}

/// A configured value is never overridden by the environment.
pub proof fn law_configuration_wins(
    configured: Seq<char>,
    env: Option<Seq<char>>,
    default: Seq<char>,
)
    requires
        configured.len() > 0,
    ensures
        preferred(configured, env, default) == configured,
{
}

proof fn lemma_filled(s: Seq<Seq<char>>, n: nat)
    requires
        n <= s.len(),
    ensures
        forall|i: int| 0 <= i < filled(s, n).len() ==> (#[trigger] filled(s, n)[i]).len() > 0,
    decreases n,
{
    if n > 0 {
        let before = filled(s, (n - 1) as nat);
        lemma_filled(s, (n - 1) as nat);
        assert forall|i: int| 0 <= i < filled(s, n).len() implies (#[trigger] filled(s, n)[i]).len()
            > 0 by {
            if i < before.len() {
                assert(filled(s, n)[i] == before[i]);
            }
        }
    }
}

/// No peer from the environment is empty.
pub proof fn law_env_peers_are_filled(env: Seq<char>)
    ensures
        forall|i: int|
            0 <= i < peers_of(seq![], env).len() ==> (#[trigger] peers_of(seq![], env)[i]).len()
                > 0,
{
    lemma_filled(text::split_of(env, ','), text::split_of(env, ',').len());
}

/// Where nothing is configured the environment decides, and without it the
/// default.
pub proof fn law_environment_comes_before_the_default(e: Seq<char>, default: Seq<char>)
    ensures
        preferred(seq![], Some(e), default) == e,
        preferred(seq![], None, default) == default,
{
}

proof fn lemma_filled_keeps(s: Seq<Seq<char>>, n: nat, i: int)
    requires
        0 <= i < n <= s.len(),
        s[i].len() > 0,
    ensures
        filled(s, n).contains(s[i]),
    decreases n,
{
    let before = filled(s, (n - 1) as nat);
    if i == n - 1 {
        assert(filled(s, n)[before.len() as int] == s[i]);
    } else {
        lemma_filled_keeps(s, (n - 1) as nat, i);
        let j = choose|j: int| 0 <= j < before.len() && before[j] == s[i];
        assert(filled(s, n)[j] == s[i]);
    }
}

/// Configured peers are taken as they are. Else every part of the environment's
/// list that is not empty is a peer.
pub proof fn law_every_listed_peer_is_taken(
    configured: Seq<Seq<char>>,
    env: Seq<char>,
    parts: Seq<Seq<char>>,
    i: int,
)
    requires
        parts == text::split_of(env, ','),
        0 <= i < parts.len(),
    ensures
        configured.len() > 0 ==> peers_of(configured, env) == configured,
        text::join(parts, seq![',']) == env,
        parts[i].len() > 0 ==> peers_of(seq![], env).contains(parts[i]),
{
    words::law_split_joins(env, ',');
    if parts[i].len() > 0 {
        lemma_filled_keeps(parts, parts.len(), i);
    }
}

/// The admin listener is spawned exactly where its address can be bound and its
/// gate is by the internal address.
pub proof fn law_admin_needs_its_gate(auth: Seq<char>, bad_listen: Option<Seq<char>>)
    ensures
        admin_refusal(auth, bad_listen) is None <==> bad_listen is None && auth == "internal-ip"@,
        admin_refusal(auth, bad_listen) matches Some(l) ==> l.level == Level::Error,
        bad_listen matches Some(why) ==> admin_refusal(auth, bad_listen) matches Some(l)
            && text::holds(l.message, why),
        bad_listen is None && auth != "internal-ip"@ ==> (admin_refusal(auth, bad_listen) matches Some(
            l,
        ) && text::holds(l.message, auth)),
{
    let a = "admin.listen invalid: "@;
    if let Some(why) = bad_listen {
        words::law_parts_of_a_text(a, why, seq![]);
        assert(a + why + Seq::<char>::empty() =~= a + why);
    } else {
        let b = "admin.auth = '"@;
        let c = "' is not yet enforced (mTLS lands in #26 Phase 4) — admin API NOT spawned"@;
        words::law_parts_of_a_text(b, auth, c);
    }
}

/// A listener that failed is told as such, with its address and why; one that
/// did not is told with its address.
pub proof fn law_bound_listener_is_told(addr: Seq<char>, why: Seq<char>)
    ensures
        text::holds(http_bound_line(addr, None).message, addr),
        text::holds(http_bound_line(addr, None).message, "listening HTTP "@),
        text::holds(http_bound_line(addr, Some(why)).message, addr),
        text::holds(http_bound_line(addr, Some(why)).message, why),
        text::holds(http_bound_line(addr, Some(why)).message, "unavailable"@),
{
    let none = Seq::<char>::empty();
    let up = "  listening HTTP  on "@;
    let a = "  warning: HTTP listener on "@;
    let b = " unavailable: "@;
    words::law_parts_of_a_text(up, addr, none);
    assert(up + addr + none =~= up + addr);
    lemma_up(addr);
    words::law_parts_of_a_text(a, addr, b + why);
    assert(a + addr + (b + why) =~= a + addr + b + why);
    words::law_parts_of_a_text(a + addr + b, why, none);
    assert(a + addr + b + why + none =~= a + addr + b + why);
    lemma_down(a + addr, why);
}

proof fn lemma_up(addr: Seq<char>)
    ensures
        text::holds("  listening HTTP  on "@ + addr, "listening HTTP "@),
{
    let up = "  listening HTTP  on "@;
    assert(up =~= "  "@ + "listening HTTP "@ + " on "@) by {
        reveal_strlit("  listening HTTP  on ");
        reveal_strlit("listening HTTP ");
        reveal_strlit("  ");
        reveal_strlit(" on ");
    }
    words::law_parts_of_a_text("  "@, "listening HTTP "@, " on "@ + addr);
    assert("  "@ + "listening HTTP "@ + (" on "@ + addr) =~= up + addr);
}

proof fn lemma_down(a: Seq<char>, why: Seq<char>)
    ensures
        text::holds(a + " unavailable: "@ + why, "unavailable"@),
{
    let b = " unavailable: "@;
    assert(b =~= " "@ + "unavailable"@ + ": "@) by {
        reveal_strlit(" unavailable: ");
        reveal_strlit("unavailable");
        reveal_strlit(" ");
        reveal_strlit(": ");
    }
    words::law_parts_of_a_text(a + " "@, "unavailable"@, ": "@ + why);
    assert(a + " "@ + "unavailable"@ + (": "@ + why) =~= a + b + why);
}

} // verus!
