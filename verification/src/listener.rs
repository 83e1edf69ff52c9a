//! Keeping the listeners in line with the configuration.
//!
//! When a listen address changes, the new one is bound first; only when that
//! succeeded is the old listener retired. A bind that fails, or an address that
//! is missing, leaves the listener as it is.
use crate::text;
use crate::text::{cat7, own, own_opt, same};
use crate::words;
use vstd::prelude::*;

verus! {

#[derive(Clone, Copy, Debug, PartialEq, Eq, Structural)]
pub enum ListenerKind {
    Http,
    Https,
}

pub open spec fn kind_label(k: ListenerKind) -> Seq<char> {
    match k {
        ListenerKind::Http => "HTTP"@,
        ListenerKind::Https => "HTTPS"@,
    }
}

impl ListenerKind {
    pub fn label(self) -> (r: &'static str)
        ensures
            r@ == kind_label(self),
    {
        match self {
            ListenerKind::Http => "HTTP",
            ListenerKind::Https => "HTTPS",
        }
    }
}

// ── Differences ─────────────────────────────────────────────────────────
/// How the wanted address differs from the current one.
#[derive(Debug, PartialEq, Eq)]
pub enum ListenerDiff {
    Same,
    Rebind { from: String, to: String },
    Add(String),
    Remove(String),
}

#[verifier::ext_equal]
pub enum DiffV {
    Same,
    Rebind(Seq<char>, Seq<char>),
    Add(Seq<char>),
    Remove(Seq<char>),
}

impl View for ListenerDiff {
    type V = DiffV;

    open spec fn view(&self) -> DiffV {
        match self {
            ListenerDiff::Same => DiffV::Same,
            ListenerDiff::Rebind { from, to } => DiffV::Rebind(from@, to@),
            ListenerDiff::Add(a) => DiffV::Add(a@),
            ListenerDiff::Remove(a) => DiffV::Remove(a@),
        }
    }
}

pub open spec fn diff_of(current: Option<Seq<char>>, desired: Option<Seq<char>>) -> DiffV {
    match (current, desired) {
        (None, None) => DiffV::Same,
        (Some(c), Some(d)) => if c == d {
            DiffV::Same
        } else {
            DiffV::Rebind(c, d)
        },
        (None, Some(d)) => DiffV::Add(d),
        (Some(c), None) => DiffV::Remove(c),
    }
}

pub fn diff(current: Option<String>, desired: Option<String>) -> (r: ListenerDiff)
    ensures
        r@ == diff_of(text::opt(current), text::opt(desired)),
{
    match (current, desired) {
        (None, None) => ListenerDiff::Same,
        (Some(c), Some(d)) => if same(c.as_str(), d.as_str()) {
            ListenerDiff::Same
        } else {
            ListenerDiff::Rebind { from: c, to: d }
        },
        (None, Some(d)) => ListenerDiff::Add(d),
        (Some(c), None) => ListenerDiff::Remove(c),
    }
}

// ── Supervisor ──────────────────────────────────────────────────────────
/// The addresses that are bound, each as it prints.
#[derive(Debug)]
pub struct ListenerSupervisor {
    pub http: Option<String>,
    pub https: Option<String>,
}

#[verifier::ext_equal]
pub struct BoundV {
    pub http: Option<Seq<char>>,
    pub https: Option<Seq<char>>,
}

impl View for ListenerSupervisor {
    type V = BoundV;

    open spec fn view(&self) -> BoundV {
        BoundV { http: text::opt(self.http), https: text::opt(self.https) }
    }
}

pub open spec fn slot_of(b: BoundV, k: ListenerKind) -> Option<Seq<char>> {
    match k {
        ListenerKind::Http => b.http,
        ListenerKind::Https => b.https,
    }
}

pub open spec fn with_slot(b: BoundV, k: ListenerKind, addr: Seq<char>) -> BoundV {
    match k {
        ListenerKind::Http => BoundV { http: Some(addr), ..b },
        ListenerKind::Https => BoundV { https: Some(addr), ..b },
    }
}

/// The address to bind, where one is wanted that is not bound yet.
pub open spec fn bind_wanted(b: BoundV, k: ListenerKind, want: Option<Seq<char>>) -> Option<Seq<char>> {
    match want {
        Some(a) => if slot_of(b, k) == Some(a) {
            None
        } else {
            Some(a)
        },
        None => None,
    }
}

pub open spec fn shown(a: Option<Seq<char>>) -> Seq<char> {
    match a {
        Some(s) => s,
        None => "(none)"@,
    }
}

pub open spec fn failed_text(k: ListenerKind, kept: Option<Seq<char>>, want: Seq<char>, why: Seq<char>) -> Seq<
    char,
> {
    "rebind "@ + kind_label(k) + " "@ + shown(kept) + " → "@ + want + " failed: "@ + why
        + " (keeping "@ + shown(kept) + ")"@
}

pub open spec fn rebound_text(k: ListenerKind, from: Option<Seq<char>>, want: Seq<char>) -> Seq<char> {
    "rebound "@ + kind_label(k) + " "@ + shown(from) + " → "@ + want
        + " (old listener draining; live connections continue)"@
}

/// What a bind came to: what to log, and whether the old listener is retired.
#[derive(Debug)]
pub struct Rebind {
    pub warning: bool,
    pub message: String,
    pub retire_old: bool,
}

fn show(a: &Option<String>) -> (r: String)
    ensures
        r@ == shown(text::opt(*a)),
{
    match a {
        Some(s) => own(s.as_str()),
        None => own("(none)"),
    }
}

impl ListenerSupervisor {
    fn slot(&self, k: ListenerKind) -> (r: &Option<String>)
        ensures
            text::opt(*r) == slot_of(self@, k),
    {
        match k {
            ListenerKind::Http => &self.http,
            ListenerKind::Https => &self.https,
        }
    }

    /// The address to bind for one listener, where there is anything to do.
    pub fn reconcile_one(&self, k: ListenerKind, want: &Option<String>) -> (r: Option<String>)
        ensures
            text::opt(r) == bind_wanted(self@, k, text::opt(*want)),
    {
        let a = match want {
            Some(a) => a,
            None => {
                return None;
            },
        };
        match self.slot(k) {
            Some(c) => if same(c.as_str(), a.as_str()) {
                return None;
            },
            None => {},
        }
        Some(own(a.as_str()))
    }

    /// What to bind for a configuration, HTTPS first: a mistake in the HTTP
    /// address must not keep the more important change from taking place.
    pub fn reconcile(&self, http: &Option<String>, https: &Option<String>) -> (r: Vec<
        (ListenerKind, String),
    >)
        ensures
            binds_view(r@) == binds_of(self@, text::opt(*http), text::opt(*https)),
    {
        let mut out: Vec<(ListenerKind, String)> = Vec::new();
        let ghost h = bind_wanted(self@, ListenerKind::Https, text::opt(*https));
        let ghost p = bind_wanted(self@, ListenerKind::Http, text::opt(*http));
        if let Some(a) = self.reconcile_one(ListenerKind::Https, https) {
            out.push((ListenerKind::Https, a));
        }
        if let Some(a) = self.reconcile_one(ListenerKind::Http, http) {
            out.push((ListenerKind::Http, a));
        }
        assert(binds_view(out@) =~= binds_of(self@, text::opt(*http), text::opt(*https)));
        out
    }

    /// Takes note of what a bind came to.
    pub fn settle(&mut self, k: ListenerKind, want: &str, failure: Option<&str>) -> (r: Rebind)
        ensures
            match failure {
                Some(why) => {
                    &&& final(self)@ == old(self)@
                    &&& r.warning && !r.retire_old
                    &&& r.message@ == failed_text(k, slot_of(old(self)@, k), want@, why@)
                },
                None => {
                    &&& final(self)@ == with_slot(old(self)@, k, want@)
                    &&& !r.warning && r.retire_old == (slot_of(old(self)@, k) is Some)
                    &&& r.message@ == rebound_text(k, slot_of(old(self)@, k), want@)
                },
            },
    {
        let old_addr = own_opt(self.slot(k));
        let from = show(&old_addr);
        match failure {
            Some(why) => {
                let mut message = cat7(
                    "rebind ",
                    k.label(),
                    " ",
                    from.as_str(),
                    " → ",
                    want,
                    " failed: ",
                );
                message.append(why);
                message.append(" (keeping ");
                message.append(from.as_str());
                message.append(")");
                Rebind { warning: true, message, retire_old: false }
            },
            None => {
                let message = cat7(
                    "rebound ",
                    k.label(),
                    " ",
                    from.as_str(),
                    " → ",
                    want,
                    " (old listener draining; live connections continue)",
                );
                match k {
                    ListenerKind::Http => {
                        self.http = Some(own(want));
                    },
                    ListenerKind::Https => {
                        self.https = Some(own(want));
                    },
                }
                Rebind { warning: false, message, retire_old: old_addr.is_some() }
            },
        }
    }
}

pub open spec fn binds_view(s: Seq<(ListenerKind, String)>) -> Seq<(ListenerKind, Seq<char>)> {
    Seq::new(s.len(), |i: int| (s[i].0, s[i].1@))
}

pub open spec fn one_bind(k: ListenerKind, a: Option<Seq<char>>) -> Seq<(ListenerKind, Seq<char>)> {
    match a {
        Some(a) => seq![(k, a)],
        None => seq![],
    }
}

pub open spec fn binds_of(b: BoundV, http: Option<Seq<char>>, https: Option<Seq<char>>) -> Seq<
    (ListenerKind, Seq<char>),
> {
    one_bind(ListenerKind::Https, bind_wanted(b, ListenerKind::Https, https)) + one_bind(
        ListenerKind::Http,
        bind_wanted(b, ListenerKind::Http, http),
    )
}

// ── Laws ────────────────────────────────────────────────────────────────
/// Once a wanted address is bound, nothing is left to do for it, and the other
/// listener is as it was.
pub proof fn law_settled_listener_stays(b: BoundV, k: ListenerKind, want: Seq<char>)
    ensures
        bind_wanted(with_slot(b, k, want), k, Some(want)) is None,
        k == ListenerKind::Http ==> with_slot(b, k, want).https == b.https,
        k == ListenerKind::Https ==> with_slot(b, k, want).http == b.http,
{
}

/// A configuration without listen addresses changes nothing, and one with the
/// addresses that are bound changes nothing either.
pub proof fn law_nothing_to_bind(b: BoundV)
    ensures
        binds_of(b, None, None) == Seq::<(ListenerKind, Seq<char>)>::empty(),
        binds_of(b, b.http, b.https) == Seq::<(ListenerKind, Seq<char>)>::empty(),
{
    assert(binds_of(b, None, None) =~= seq![]);
    assert(binds_of(b, b.http, b.https) =~= seq![]);
}

/// A bind is due exactly where the difference is an addition or a change.
pub proof fn law_bind_follows_diff(b: BoundV, k: ListenerKind, want: Option<Seq<char>>)
    ensures
        bind_wanted(b, k, want) == (match diff_of(slot_of(b, k), want) {
            DiffV::Add(a) => Some(a),
            DiffV::Rebind(_, a) => Some(a),
            _ => None,
        }),
{
}

/// Each listener is bound at the address that is wanted for it, where that is not
/// the one that it has, and at no other.
pub proof fn law_listeners_are_bound_where_they_are_wanted(
    b: BoundV,
    http: Option<Seq<char>>,
    https: Option<Seq<char>>,
    a: Seq<char>,
)
    ensures
        binds_of(b, http, https).contains((ListenerKind::Http, a)) <==> http == Some(a) && b.http
            != Some(a),
        binds_of(b, http, https).contains((ListenerKind::Https, a)) <==> https == Some(a)
            && b.https != Some(a),
{
    let s = binds_of(b, http, https);
    let first = one_bind(ListenerKind::Https, bind_wanted(b, ListenerKind::Https, https));
    if https == Some(a) && b.https != Some(a) {
        assert(s[0] == (ListenerKind::Https, a));
    }
    if http == Some(a) && b.http != Some(a) {
        assert(s[first.len() as int] == (ListenerKind::Http, a));
    }
}

/// A bound listener is at its address, and the other where it was.
pub proof fn law_bound_listener_is_at_its_address(b: BoundV, a: Seq<char>)
    ensures
        with_slot(b, ListenerKind::Http, a).http == Some(a),
        with_slot(b, ListenerKind::Http, a).https == b.https,
        with_slot(b, ListenerKind::Https, a).https == Some(a),
        with_slot(b, ListenerKind::Https, a).http == b.http,
{
}

/// What is told of a listener that moved names where it was and where it is, in
/// this order; of one that could not, where it stays, where it was to go and why.
pub proof fn law_move_of_a_listener_is_told(
    k: ListenerKind,
    from: Seq<char>,
    want: Seq<char>,
    why: Seq<char>,
)
    ensures
        text::holds(rebound_text(k, Some(from), want), from + " → "@ + want),
        text::holds(failed_text(k, Some(from), want, why), from + " → "@ + want),
        text::holds(failed_text(k, Some(from), want, why), " failed: "@ + why),
        text::holds(failed_text(k, Some(from), want, why), " (keeping "@ + from + ")"@),
{
    let none = Seq::<char>::empty();
    let m = from + " → "@ + want;
    let a = "rebound "@ + kind_label(k) + " "@;
    words::lemma_holds_last(a, from, " → "@, want, none);
    words::lemma_holds_on(
        a + from + " → "@ + want,
        m,
        " (old listener draining; live connections continue)"@,
    );
    let c = "rebind "@ + kind_label(k) + " "@;
    let x = c + from + " → "@ + want;
    let y = x + " failed: "@ + why;
    words::lemma_holds_last(c, from, " → "@, want, none);
    words::lemma_holds_on(x, m, " failed: "@);
    words::lemma_holds_on(x + " failed: "@, m, why);
    words::lemma_holds_on(y, m, " (keeping "@);
    words::lemma_holds_on(y + " (keeping "@, m, from);
    words::lemma_holds_on(y + " (keeping "@ + from, m, ")"@);
    words::lemma_holds_last(x, " failed: "@, why, none, none);
    let n = " failed: "@ + why;
    words::lemma_holds_on(y, n, " (keeping "@);
    words::lemma_holds_on(y + " (keeping "@, n, from);
    words::lemma_holds_on(y + " (keeping "@ + from, n, ")"@);
    words::lemma_holds_last(y, " (keeping "@, from, ")"@, none);
}

} // verus!
