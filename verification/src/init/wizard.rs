//! How a run of `zion init` ends.
use super::screen;
use super::screen::{openssl_screen, wrote_screen, Style};
use super::ResolvedInit;
use crate::text;
use crate::text::{cat2, cat4, lines};
use vstd::prelude::*;

verus! {

broadcast use crate::text::group_views;

/// What came of making a certificate.
#[derive(Debug)]
pub enum CertOutcome {
    Generated,
    /// The program was built without the means to make one.
    FeatureMissing,
    Failed(String),
}

/// How a run ends.
#[derive(Debug, Clone, Copy, PartialEq, Eq, Structural)]
pub enum InitEnd {
    /// The configuration was written.
    Written,
    /// A file in its place was left alone.
    Refused,
    /// Something could not be read or written.
    Failed,
}

impl InitEnd {
    pub fn exit_code(self) -> (r: i32)
        ensures
            r == (match self {
                InitEnd::Written => 0i32,
                InitEnd::Refused => 1i32,
                InitEnd::Failed => 2i32,
            }),
    {
        match self {
            InitEnd::Written => 0,
            InitEnd::Refused => 1,
            InitEnd::Failed => 2,
        }
    }
}

/// A file in the place of the configuration is overwritten only by `--force`.
pub open spec fn refusal_of(
    output: Seq<char>,
    exists: bool,
    force: bool,
    s: Style,
) -> Option<Seq<char>> {
    if exists && !force {
        Some(
            "\n  "@ + screen::red(s) + "error:"@ + screen::reset(s) + " "@ + output
                + " already exists — pass --force to overwrite\n"@,
        )
    } else {
        None
    }
}

/// Why the configuration is not written; `None` where it may be.
pub fn overwrite_refusal(r: &ResolvedInit, exists: bool, s: &Style) -> (t: Option<String>)
    ensures
        text::opt(t) == refusal_of(r@.output, exists, r@.force, *s),
{
    if exists && !r.force {
        let mut out = cat2("\n  ", s.red());
        out.append("error:");
        out.append(s.reset());
        out.append(" ");
        out.append(r.output.as_str());
        out.append(" already exists — pass --force to overwrite\n");
        Some(out)
    } else {
        None
    }
}

/// What the operator reads of the certificate. Where there is none, how to make
/// it by hand.
pub open spec fn cert_text(
    o: CertOutcome,
    cert: Seq<char>,
    key: Seq<char>,
    hostname: Seq<char>,
    s: Style,
) -> Seq<char> {
    match o {
        CertOutcome::Generated => "  "@ + screen::green(s) + "✓"@ + screen::reset(s) + " wrote "@
            + cert + " + "@ + key + " (self-signed, valid 365 days, CN="@ + hostname + ")\n"@,
        CertOutcome::FeatureMissing => screen::openssl_text(key, cert, hostname, s),
        CertOutcome::Failed(e) => "  "@ + screen::red(s) + "✗ cert generation failed:"@
            + screen::reset(s) + " "@ + e@ + "\n"@ + screen::openssl_text(key, cert, hostname, s),
    }
}

pub fn cert_screen(o: &CertOutcome, r: &ResolvedInit, s: &Style) -> (t: String)
    ensures
        t@ == cert_text(*o, r@.cert_path, r@.key_path, r@.hostname, *s),
{
    match o {
        CertOutcome::Generated => {
            let mut out = cat2("  ", s.green());
            out.append("✓");
            out.append(s.reset());
            out.append(" wrote ");
            out.append(r.cert_path.as_str());
            out.append(" + ");
            out.append(r.key_path.as_str());
            out.append(" (self-signed, valid 365 days, CN=");
            out.append(r.hostname.as_str());
            out.append(")\n");
            out
        },
        CertOutcome::FeatureMissing => openssl_screen(r, s),
        CertOutcome::Failed(e) => {
            let mut out = cat2("  ", s.red());
            out.append("✗ cert generation failed:");
            out.append(s.reset());
            out.append(" ");
            out.append(e.as_str());
            out.append("\n");
            let hint = openssl_screen(r, s);
            let ghost head = out@;
            out.append(hint.as_str());
            assert(out@ =~= head + hint@);
            out
        },
    }
}

/// What the operator reads once the configuration was written, or was not, and
/// how the run ends.
pub fn written_screen(r: &ResolvedInit, toml: &str, failure: &Option<String>, s: &Style) -> (t: (
    String,
    InitEnd,
))
    ensures
        match text::opt(*failure) {
            None => t.1 == InitEnd::Written && t.0@ == screen::wrote_text(
                r@.output,
                text::lines_of(toml@).len(),
                *s,
            ),
            Some(why) => t.1 == InitEnd::Failed && t.0@ == "error: failed to write "@ + r@.output
                + ": "@ + why,
        },
{
    match failure {
        None => {
            let n: usize = lines(toml).len();
            (wrote_screen(r.output.as_str(), n as u64, s), InitEnd::Written)
        },
        Some(why) => (
            cat4("error: failed to write ", r.output.as_str(), ": ", why.as_str()),
            InitEnd::Failed,
        ),
    }
}

} // verus!
