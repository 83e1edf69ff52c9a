//! What `zion init` shows on the terminal.
use super::{DetectedService, ResolvedInit, ServiceV};
use crate::text;
use crate::text::{cat2, dec_text};
use crate::words;
use vstd::prelude::*;

verus! {

/// Whether output is coloured.
#[derive(Clone, Copy)]
pub struct Style {
    pub color: bool,
}

/// A terminal code, where output is coloured.
pub open spec fn code(s: Style, c: Seq<char>) -> Seq<char> {
    if s.color {
        c
    } else {
        ""@
    }
}

fn coded(s: Style, c: &'static str) -> (r: &'static str)
    ensures
        r@ == code(s, c@),
{
    if s.color {
        c
    } else {
        ""
    }
}

impl Style {
    /// Output is coloured on a terminal, unless the environment asks for plain.
    pub fn detect(plain: bool, terminal: bool) -> (r: Style)
        ensures
            r.color == (!plain && terminal),
    {
        Style { color: !plain && terminal }
    }

    pub fn bold(&self) -> (r: &'static str)
        ensures
            r@ == code(*self, "\x1b[1m"@),
    {
        coded(*self, "\x1b[1m")
    }

    pub fn dim(&self) -> (r: &'static str)
        ensures
            r@ == code(*self, "\x1b[2m"@),
    {
        coded(*self, "\x1b[2m")
    }

    pub fn reset(&self) -> (r: &'static str)
        ensures
            r@ == code(*self, "\x1b[0m"@),
    {
        coded(*self, "\x1b[0m")
    }

    pub fn green(&self) -> (r: &'static str)
        ensures
            r@ == code(*self, "\x1b[38;5;46m"@),
    {
        coded(*self, "\x1b[38;5;46m")
    }

    pub fn amber(&self) -> (r: &'static str)
        ensures
            r@ == code(*self, "\x1b[38;5;220m"@),
    {
        coded(*self, "\x1b[38;5;220m")
    }

    pub fn red(&self) -> (r: &'static str)
        ensures
            r@ == code(*self, "\x1b[38;5;196m"@),
    {
        coded(*self, "\x1b[38;5;196m")
    }

    pub fn cyan(&self) -> (r: &'static str)
        ensures
            r@ == code(*self, "\x1b[38;5;51m"@),
    {
        coded(*self, "\x1b[38;5;51m")
    }
}

pub open spec fn reset(s: Style) -> Seq<char> {
    code(s, "\x1b[0m"@)
}

pub open spec fn dim(s: Style) -> Seq<char> {
    code(s, "\x1b[2m"@)
}

pub open spec fn green(s: Style) -> Seq<char> {
    code(s, "\x1b[38;5;46m"@)
}

pub open spec fn red(s: Style) -> Seq<char> {
    code(s, "\x1b[38;5;196m"@)
}

pub open spec fn cyan(s: Style) -> Seq<char> {
    code(s, "\x1b[38;5;51m"@)
}

pub open spec fn header_text(s: Style) -> Seq<char> {
    "\n  "@ + code(s, "\x1b[1m"@) + cyan(s) + "ZION init"@ + reset(s) + reset(s)
        + " — let's get you running\n"@
}

pub fn header_screen(s: &Style) -> (r: String)
    ensures
        r@ == header_text(*s),
{
    let mut out = cat2("\n  ", s.bold());
    out.append(s.cyan());
    out.append("ZION init");
    out.append(s.reset());
    out.append(s.reset());
    out.append(" — let's get you running\n");
    out
}

pub open spec fn platform_text(os: Seq<char>, arch: Seq<char>, cores: nat, ram_mb: nat, s: Style) -> Seq<
    char,
> {
    "  "@ + green(s) + "✓"@ + reset(s) + " detected: "@ + dim(s) + os + " / "@ + arch + " · "@
        + text::dec(cores) + " cores · "@ + text::dec(ram_mb) + " MB RAM"@ + reset(s) + "\n"@
}

pub fn platform_screen(os: &str, arch: &str, cores: u64, ram_mb: u64, s: &Style) -> (r: String)
    ensures
        r@ == platform_text(os@, arch@, cores as nat, ram_mb as nat, *s),
{
    let mut out = cat2("  ", s.green());
    out.append("✓");
    out.append(s.reset());
    out.append(" detected: ");
    out.append(s.dim());
    out.append(os);
    out.append(" / ");
    out.append(arch);
    out.append(" · ");
    out.append(dec_text(cores).as_str());
    out.append(" cores · ");
    out.append(dec_text(ram_mb).as_str());
    out.append(" MB RAM");
    out.append(s.reset());
    out.append("\n");
    out
}

/// What fills a port up to five columns.
pub open spec fn port_fill(port: u16) -> Seq<char> {
    if port < 10 {
        "    "@
    } else if port < 100 {
        "   "@
    } else if port < 1_000 {
        "  "@
    } else if port < 10_000 {
        " "@
    } else {
        ""@
    }
}

fn fill_port(port: u16) -> (r: &'static str)
    ensures
        r@ == port_fill(port),
{
    if port < 10 {
        "    "
    } else if port < 100 {
        "   "
    } else if port < 1_000 {
        "  "
    } else if port < 10_000 {
        " "
    } else {
        ""
    }
}

pub open spec fn services_text(acc: Seq<char>, ds: Seq<ServiceV>, n: nat, s: Style) -> Seq<char>
    decreases n,
{
    if n == 0 {
        acc
    } else {
        services_text(acc, ds, (n - 1) as nat, s) + "    "@ + green(s) + "●"@ + reset(s) + " :"@
            + text::dec(ds[n - 1].port as nat) + port_fill(ds[n - 1].port) + " "@ + dim(s) + "("@
            + ds[n - 1].hint + ")\n"@
    }
}

pub open spec fn scan_text(ds: Seq<ServiceV>, s: Style) -> Seq<char> {
    if ds.len() == 0 {
        "\n  "@ + dim(s) + "no listening services detected on common dev ports"@ + reset(s) + "\n"@
    } else {
        services_text(
            "\n  "@ + dim(s) + "detected listening services on common dev ports:"@ + reset(s)
                + "\n"@,
            ds,
            ds.len(),
            s,
        )
    }
}

pub fn scan_screen(detected: &Vec<DetectedService>, s: &Style) -> (r: String)
    ensures
        r@ == scan_text(text::views(detected@), *s),
{
    let ghost dv = text::views(detected@);
    let mut out = cat2("\n  ", s.dim());
    if detected.len() == 0 {
        out.append("no listening services detected on common dev ports");
        out.append(s.reset());
        out.append("\n");
        return out;
    }
    out.append("detected listening services on common dev ports:");
    out.append(s.reset());
    out.append("\n");
    let ghost acc = out@;
    let mut i: usize = 0;
    while i < detected.len()
        invariant
            i <= detected.len(),
            dv == text::views(detected@),
            out@ == services_text(acc, dv, i as nat, *s),
        decreases detected.len() - i,
    {
        let d = &detected[i];
        assert(dv[i as int] == d@);
        out.append("    ");
        out.append(s.green());
        out.append("●");
        out.append(s.reset());
        out.append(" :");
        out.append(dec_text(d.port as u64).as_str());
        out.append(fill_port(d.port));
        out.append(" ");
        out.append(s.dim());
        out.append("(");
        out.append(d.hint);
        out.append(")\n");
        i += 1;
    }
    out
}

/// What stands above the questions on the services that were found.
pub open spec fn offer_text(s: Style) -> Seq<char> {
    "\n  "@ + dim(s) + "for each detected port, accept it?"@ + reset(s) + "\n"@
}

pub fn offer_screen(s: &Style) -> (r: String)
    ensures
        r@ == offer_text(*s),
{
    let mut out = cat2("\n  ", s.dim());
    out.append("for each detected port, accept it?");
    out.append(s.reset());
    out.append("\n");
    out
}

/// What stands above the question for an upstream where none was chosen.
pub open spec fn none_chosen_text(s: Style) -> Seq<char> {
    "\n  "@ + code(s, "\x1b[38;5;220m"@)
        + "no upstreams chosen — need at least one to write a working config"@ + reset(s) + "\n"@
}

pub fn none_chosen_screen(s: &Style) -> (r: String)
    ensures
        r@ == none_chosen_text(*s),
{
    let mut out = cat2("\n  ", s.amber());
    out.append("no upstreams chosen — need at least one to write a working config");
    out.append(s.reset());
    out.append("\n");
    out
}

pub open spec fn next_steps_text(output: Seq<char>, s: Style) -> Seq<char> {
    "\n  "@ + code(s, "\x1b[1m"@) + "done."@ + reset(s) + " run with:\n    "@ + cyan(s)
        + "ZION_CONFIG="@ + output + " ./zion"@ + reset(s) + "\n\n  also available:\n    "@ + cyan(s)
        + "./zion top"@ + reset(s) + "     "@ + dim(s) + "— live dashboard"@ + reset(s)
        + "\n    "@ + cyan(s) + "./zion doctor"@ + reset(s) + "  "@ + dim(s)
        + "— environment check"@ + reset(s) + "\n\n"@
}

pub fn next_steps_screen(output: &str, s: &Style) -> (r: String)
    ensures
        r@ == next_steps_text(output@, *s),
{
    let mut out = cat2("\n  ", s.bold());
    out.append("done.");
    out.append(s.reset());
    out.append(" run with:\n    ");
    out.append(s.cyan());
    out.append("ZION_CONFIG=");
    out.append(output);
    out.append(" ./zion");
    out.append(s.reset());
    out.append("\n\n  also available:\n    ");
    out.append(s.cyan());
    out.append("./zion top");
    out.append(s.reset());
    out.append("     ");
    out.append(s.dim());
    out.append("— live dashboard");
    out.append(s.reset());
    out.append("\n    ");
    out.append(s.cyan());
    out.append("./zion doctor");
    out.append(s.reset());
    out.append("  ");
    out.append(s.dim());
    out.append("— environment check");
    out.append(s.reset());
    out.append("\n\n");
    out
}

/// How to make the certificate by hand.
pub open spec fn openssl_text(key: Seq<char>, cert: Seq<char>, hostname: Seq<char>, s: Style) -> Seq<
    char,
> {
    "\n  "@ + code(s, "\x1b[38;5;220m"@) + "!"@ + reset(s)
        + " self-signed cert generation requires `--features init`\n    rebuild zion with: cargo build --release --features init\n    or generate the cert externally:\n      "@
        + dim(s)
        + "mkdir -p tls && openssl req -x509 -newkey rsa:2048 -nodes -sha256 -days 365 \\\n        -keyout "@
        + key + " -out "@ + cert + " \\\n        -subj \"/CN="@ + hostname
        + "\" -addext \"subjectAltName=DNS:"@ + hostname + ",DNS:localhost,IP:127.0.0.1\""@ + reset(
        s,
    ) + "\n"@
}

pub fn openssl_screen(r: &ResolvedInit, s: &Style) -> (out: String)
    ensures
        out@ == openssl_text(r@.key_path, r@.cert_path, r@.hostname, *s),
{
    let mut out = cat2("\n  ", s.amber());
    out.append("!");
    out.append(s.reset());
    out.append(
        " self-signed cert generation requires `--features init`\n    rebuild zion with: cargo build --release --features init\n    or generate the cert externally:\n      ",
    );
    out.append(s.dim());
    out.append(
        "mkdir -p tls && openssl req -x509 -newkey rsa:2048 -nodes -sha256 -days 365 \\\n        -keyout ",
    );
    out.append(r.key_path.as_str());
    out.append(" -out ");
    out.append(r.cert_path.as_str());
    out.append(" \\\n        -subj \"/CN=");
    out.append(r.hostname.as_str());
    out.append("\" -addext \"subjectAltName=DNS:");
    out.append(r.hostname.as_str());
    out.append(",DNS:localhost,IP:127.0.0.1\"");
    out.append(s.reset());
    out.append("\n");
    out
}

/// The line that tells what was written.
pub open spec fn wrote_text(output: Seq<char>, lines: nat, s: Style) -> Seq<char> {
    "  "@ + green(s) + "✓"@ + reset(s) + " wrote "@ + output + " ("@ + text::dec(lines)
        + " lines)\n"@
}

pub fn wrote_screen(output: &str, lines: u64, s: &Style) -> (r: String)
    ensures
        r@ == wrote_text(output@, lines as nat, *s),
{
    let mut out = cat2("  ", s.green());
    out.append("✓");
    out.append(s.reset());
    out.append(" wrote ");
    out.append(output);
    out.append(" (");
    out.append(dec_text(lines).as_str());
    out.append(" lines)\n");
    out
}

// ── Laws ────────────────────────────────────────────────────────────────
/// The text holds the port of the service and what it may be.
pub open spec fn shows(t: Seq<char>, d: ServiceV) -> bool {
    &&& text::holds(t, " :"@ + text::dec(d.port as nat))
    &&& text::holds(t, "("@ + d.hint + ")\n"@)
}

proof fn lemma_shows_on(t: Seq<char>, d: ServiceV, more: Seq<char>)
    requires
        shows(t, d),
    ensures
        shows(t + more, d),
{
    words::lemma_holds_on(t, " :"@ + text::dec(d.port as nat), more);
    words::lemma_holds_on(t, "("@ + d.hint + ")\n"@, more);
}

proof fn lemma_row_shows(a: Seq<char>, d: ServiceV, s: Style)
    ensures
        shows(
            a + " :"@ + text::dec(d.port as nat) + port_fill(d.port) + " "@ + dim(s) + "("@ + d.hint
                + ")\n"@,
            d,
        ),
{
    let none = Seq::<char>::empty();
    let port = text::dec(d.port as nat);
    let m = " :"@ + port;
    let x = a + " :"@ + port;
    let y = x + port_fill(d.port) + " "@ + dim(s);
    words::lemma_holds_last(a, " :"@, port, none, none);
    words::lemma_holds_on(x, m, port_fill(d.port));
    words::lemma_holds_on(x + port_fill(d.port), m, " "@);
    words::lemma_holds_on(x + port_fill(d.port) + " "@, m, dim(s));
    words::lemma_holds_on(y, m, "("@);
    words::lemma_holds_on(y + "("@, m, d.hint);
    words::lemma_holds_on(y + "("@ + d.hint, m, ")\n"@);
    words::lemma_holds_last(y, "("@, d.hint, ")\n"@, none);
}

proof fn lemma_service_shown(acc: Seq<char>, ds: Seq<ServiceV>, n: nat, s: Style, i: int)
    requires
        0 <= i < n <= ds.len(),
    ensures
        shows(services_text(acc, ds, n, s), ds[i]),
    decreases n,
{
    let p = services_text(acc, ds, (n - 1) as nat, s);
    let d = ds[n - 1];
    let a = p + "    "@ + green(s) + "●"@ + reset(s);
    if i == n - 1 {
        lemma_row_shows(a, d, s);
    } else {
        lemma_service_shown(acc, ds, (n - 1) as nat, s, i);
        let x = ds[i];
        lemma_shows_on(p, x, "    "@);
        lemma_shows_on(p + "    "@, x, green(s));
        lemma_shows_on(p + "    "@ + green(s), x, "●"@);
        lemma_shows_on(p + "    "@ + green(s) + "●"@, x, reset(s));
        let port = text::dec(d.port as nat);
        lemma_shows_on(a, x, " :"@);
        lemma_shows_on(a + " :"@, x, port);
        let b = a + " :"@ + port;
        lemma_shows_on(b, x, port_fill(d.port));
        lemma_shows_on(b + port_fill(d.port), x, " "@);
        let c = b + port_fill(d.port) + " "@;
        lemma_shows_on(c, x, dim(s));
        lemma_shows_on(c + dim(s), x, "("@);
        lemma_shows_on(c + dim(s) + "("@, x, d.hint);
        lemma_shows_on(c + dim(s) + "("@ + d.hint, x, ")\n"@);
    }
}

/// The scan shows every service that answered, by its port and what it may be.
pub proof fn law_scan_shows_every_service(ds: Seq<ServiceV>, s: Style, i: int)
    requires
        0 <= i < ds.len(),
    ensures
        text::holds(scan_text(ds, s), " :"@ + text::dec(ds[i].port as nat)),
        text::holds(scan_text(ds, s), "("@ + ds[i].hint + ")\n"@),
{
    let acc = "\n  "@ + dim(s) + "detected listening services on common dev ports:"@ + reset(s)
        + "\n"@;
    lemma_service_shown(acc, ds, ds.len(), s, i);
}

/// What was written is told with its name and its number of lines.
pub proof fn law_written_file_is_told(output: Seq<char>, lines: nat, s: Style)
    ensures
        text::holds(wrote_text(output, lines, s), " wrote "@ + output + " ("@ + text::dec(lines)),
{
    let a = "  "@ + green(s) + "✓"@ + reset(s);
    words::lemma_holds_last(a, " wrote "@, output, " ("@, text::dec(lines));
    words::lemma_holds_on(
        a + " wrote "@ + output + " ("@ + text::dec(lines),
        " wrote "@ + output + " ("@ + text::dec(lines),
        " lines)\n"@,
    );
}

} // verus!
