//! The configuration file that `zion init` writes.
use super::date;
use super::date::ymd_today;
use super::{is_named, InitV, ResolvedInit};
use crate::init;
use crate::text;
use crate::text::{dec_text, own, same};
use vstd::prelude::*;

verus! {

/// The upstream of the catch-all route: `frontend`, else the first.
pub open spec fn catchall_of(ps: Seq<(Seq<char>, Seq<char>)>) -> Seq<char> {
    if init::named(ps, "frontend"@) {
        "frontend"@
    } else {
        ps[0].0
    }
}

/// The upstream of an API route of its own: `api`, else `backend`, where it is
/// not that of the catch-all.
pub open spec fn api_of(ps: Seq<(Seq<char>, Seq<char>)>) -> Option<Seq<char>> {
    let api = if init::named(ps, "api"@) {
        Some("api"@)
    } else if init::named(ps, "backend"@) {
        Some("backend"@)
    } else {
        None
    };
    match api {
        Some(n) if n != catchall_of(ps) => Some(n),
        _ => None,
    }
}

pub open spec fn head_text(r: InitV, date: Seq<char>) -> Seq<char> {
    "# zion.toml — generated by `zion init` on "@ + date + "\n# Hostname: "@ + r.hostname
        + "\n# Edit freely. See zion.example.toml for the full reference.\n\n[server]\nlisten_http  = \"0.0.0.0:"@
        + text::dec(r.http_port as nat) + "\"\nlisten_https = \"0.0.0.0:"@ + text::dec(
        r.https_port as nat,
    ) + "\"\n\n[tls]\ncert_path = \""@ + r.cert_path + "\"\nkey_path  = \""@ + r.key_path
        + "\"\nhot_reload  = true\nmin_version = \"1.3\"\nalpn        = [\"h2\", \"http/1.1\"]\n\n"@
        + "# ── Upstreams ────────────────────────────────────────────\n"@
}

/// The first `n` upstreams, behind `acc`.
pub open spec fn upstreams_text(acc: Seq<char>, ps: Seq<(Seq<char>, Seq<char>)>, n: nat) -> Seq<char>
    decreases n,
{
    if n == 0 {
        acc
    } else {
        upstreams_text(acc, ps, (n - 1) as nat) + "[upstream."@ + ps[n - 1].0
            + "]\nurl                = \"http://"@ + ps[n - 1].1
            + "\"\nconnect_timeout_ms = 3000\nkeepalive          = 32\n\n"@
    }
}

/// The firewall profile, where a route uses it.
pub open spec fn waf_text(acc: Seq<char>, r: InitV) -> Seq<char> {
    if r.with_waf && api_of(r.upstreams) is Some {
        acc + "# ── WAF profile ──────────────────────────────────────────\n"@
            + "[waf_profile.strict]\nmax_body_mb                = 10\nmax_depth                  = 10\nmax_string_len             = 1048576\ndeny_unknown_content_types = true\nallowed_content_types      = [\"application/json\", \"multipart/form-data\"]\n\n"@
    } else {
        acc
    }
}

/// The routes: one for the API where its upstream is not the catch-all's, and
/// the catch-all.
pub open spec fn routes_text(acc: Seq<char>, r: InitV) -> Seq<char> {
    let head = acc + "# ── Routes (matched via radix tree, ~30 ns lookup) ──────\n"@;
    let api = match api_of(r.upstreams) {
        Some(name) => {
            let route = head + "[[route]]\npath     = \"/api/{*rest}\"\nupstream = \""@ + name
                + "\"\n"@;
            (if r.with_waf {
                route + "waf_profile = \"strict\"\n"@
            } else {
                route
            }) + "\n"@
        },
        None => head,
    };
    api + "[[route]]\npath     = \"/{*rest}\"\nupstream = \""@ + catchall_of(r.upstreams) + "\"\n"@
}

/// The configuration file.
pub open spec fn toml_text(r: InitV, date: Seq<char>) -> Seq<char> {
    let ups = upstreams_text(head_text(r, date), r.upstreams, r.upstreams.len());
    routes_text(waf_text(ups, r), r)
}

fn catchall(r: &ResolvedInit) -> (s: String)
    requires
        r.upstreams@.len() > 0,
    ensures
        s@ == catchall_of(r@.upstreams),
{
    if is_named(&r.upstreams, "frontend") {
        own("frontend")
    } else {
        own(r.upstreams[0].0.as_str())
    }
}

fn api_upstream(r: &ResolvedInit) -> (s: Option<String>)
    requires
        r.upstreams@.len() > 0,
    ensures
        text::opt(s) == api_of(r@.upstreams),
{
    let name: &str = if is_named(&r.upstreams, "api") {
        "api"
    } else if is_named(&r.upstreams, "backend") {
        "backend"
    } else {
        return None;
    };
    if same(name, catchall(r).as_str()) {
        None
    } else {
        Some(own(name))
    }
}

fn put_head(out: &mut String, r: &ResolvedInit, date: &str)
    requires
        old(out)@ == Seq::<char>::empty(),
    ensures
        final(out)@ == head_text(r@, date@),
{
    out.append("# zion.toml — generated by `zion init` on ");
    assert(out@ =~= "# zion.toml — generated by `zion init` on "@);
    out.append(date);
    out.append("\n# Hostname: ");
    out.append(r.hostname.as_str());
    out.append(
        "\n# Edit freely. See zion.example.toml for the full reference.\n\n[server]\nlisten_http  = \"0.0.0.0:",
    );
    out.append(dec_text(r.http_port as u64).as_str());
    out.append("\"\nlisten_https = \"0.0.0.0:");
    out.append(dec_text(r.https_port as u64).as_str());
    out.append("\"\n\n[tls]\ncert_path = \"");
    out.append(r.cert_path.as_str());
    out.append("\"\nkey_path  = \"");
    out.append(r.key_path.as_str());
    out.append(
        "\"\nhot_reload  = true\nmin_version = \"1.3\"\nalpn        = [\"h2\", \"http/1.1\"]\n\n",
    );
    out.append("# ── Upstreams ────────────────────────────────────────────\n");
}

fn put_upstreams(out: &mut String, r: &ResolvedInit)
    ensures
        final(out)@ == upstreams_text(old(out)@, r@.upstreams, r@.upstreams.len()),
{
    let ghost acc = out@;
    let mut i: usize = 0;
    while i < r.upstreams.len()
        invariant
            i <= r.upstreams.len(),
            out@ == upstreams_text(acc, r@.upstreams, i as nat),
        decreases r.upstreams.len() - i,
    {
        let (name, target) = &r.upstreams[i];
        out.append("[upstream.");
        out.append(name.as_str());
        out.append("]\nurl                = \"http://");
        out.append(target.as_str());
        out.append("\"\nconnect_timeout_ms = 3000\nkeepalive          = 32\n\n");
        i += 1;
    }
}

/// Renders the configuration file with a given date.
pub fn render_toml_on(r: &ResolvedInit, date: &str) -> (s: String)
    requires
        r.upstreams@.len() > 0,
    ensures
        s@ == toml_text(r@, date@),
{
    let mut out = String::new();
    assert(out@ =~= Seq::<char>::empty());
    put_head(&mut out, r, date);
    put_upstreams(&mut out, r);
    let api = api_upstream(r);
    if r.with_waf && api.is_some() {
        out.append("# ── WAF profile ──────────────────────────────────────────\n");
        out.append(
            "[waf_profile.strict]\nmax_body_mb                = 10\nmax_depth                  = 10\nmax_string_len             = 1048576\ndeny_unknown_content_types = true\nallowed_content_types      = [\"application/json\", \"multipart/form-data\"]\n\n",
        );
    }
    out.append("# ── Routes (matched via radix tree, ~30 ns lookup) ──────\n");
    if let Some(name) = api {
        out.append("[[route]]\npath     = \"/api/{*rest}\"\nupstream = \"");
        out.append(name.as_str());
        out.append("\"\n");
        if r.with_waf {
            out.append("waf_profile = \"strict\"\n");
        }
        out.append("\n");
    }
    out.append("[[route]]\npath     = \"/{*rest}\"\nupstream = \"");
    out.append(catchall(r).as_str());
    out.append("\"\n");
    out
}

/// Renders the configuration file with today's date.
pub fn render_toml(r: &ResolvedInit) -> (s: String)
    requires
        r.upstreams@.len() > 0,
    ensures
        exists|date: Seq<char>, secs: nat|
            date::dates(date, secs) && s@ == #[trigger] toml_text(r@, date)
                && #[trigger] date::dates(date, secs),
{
    let today = ymd_today();
    let s = render_toml_on(r, today.as_str());
    proof {
        let secs = choose|secs: nat| #[trigger] date::dates(today@, secs);
        assert(date::dates(today@, secs) && s@ == toml_text(r@, today@));
    }
    s
}

// ── Auto mode ───────────────────────────────────────────────────────────
/// What `zion auto` runs with.
#[derive(Debug)]
pub struct AutoOpts {
    pub hostname: String,
    pub http_port: u16,
    pub https_port: u16,
    /// `host:port` of the one upstream.
    pub upstream: String,
}

/// The configuration file of a one-shot run.
pub open spec fn auto_text(
    pid: nat,
    http_port: nat,
    https_port: nat,
    cert: Seq<char>,
    key: Seq<char>,
    upstream: Seq<char>,
) -> Seq<char> {
    "# zion auto-mode — generated for one-shot dev / demo use.\n# Tied to PID "@ + text::dec(pid)
        + "; regenerated on every `zion auto` invocation.\n\n[server]\nlisten_http  = \"0.0.0.0:"@
        + text::dec(http_port) + "\"\nlisten_https = \"0.0.0.0:"@ + text::dec(https_port)
        + "\"\n\n[tls]\ncert_path = \""@ + cert + "\"\nkey_path  = \""@ + key
        + "\"\nhot_reload  = false\nmin_version = \"1.3\"\nalpn        = [\"h2\", \"http/1.1\"]\n\n[upstream.backend]\nurl                = \"http://"@
        + upstream
        + "\"\nconnect_timeout_ms = 3000\nkeepalive          = 32\n\n[[route]]\npath     = \"/{*rest}\"\nupstream = \"backend\"\n"@
}

/// Renders the configuration file of a one-shot run, for certificate files that
/// are in place.
pub fn render_auto_toml(pid: u32, opts: &AutoOpts, cert: &str, key: &str) -> (s: String)
    ensures
        s@ == auto_text(
            pid as nat,
            opts.http_port as nat,
            opts.https_port as nat,
            cert@,
            key@,
            opts.upstream@,
        ),
{
    let mut out = own(
        "# zion auto-mode — generated for one-shot dev / demo use.\n# Tied to PID ",
    );
    out.append(dec_text(pid as u64).as_str());
    out.append(
        "; regenerated on every `zion auto` invocation.\n\n[server]\nlisten_http  = \"0.0.0.0:",
    );
    out.append(dec_text(opts.http_port as u64).as_str());
    out.append("\"\nlisten_https = \"0.0.0.0:");
    out.append(dec_text(opts.https_port as u64).as_str());
    out.append("\"\n\n[tls]\ncert_path = \"");
    out.append(cert);
    out.append("\"\nkey_path  = \"");
    out.append(key);
    out.append(
        "\"\nhot_reload  = false\nmin_version = \"1.3\"\nalpn        = [\"h2\", \"http/1.1\"]\n\n[upstream.backend]\nurl                = \"http://",
    );
    out.append(opts.upstream.as_str());
    out.append(
        "\"\nconnect_timeout_ms = 3000\nkeepalive          = 32\n\n[[route]]\npath     = \"/{*rest}\"\nupstream = \"backend\"\n",
    );
    out
}

} // verus!
