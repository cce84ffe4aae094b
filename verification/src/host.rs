//! The host record: one remote endpoint found in one source file.
use crate::conditions::{is_eligible, Condition, Conditions};
use crate::order::{
    compare_text, lemma_text_lt_total, lemma_text_lt_transitive, text_lt, Rank,
};
use std::cmp::Ordering;
use vstd::prelude::*;
use vstd::string::StringExecFns;

verus! {

/// One remote endpoint, as found in one source file.
#[derive(Debug, Clone, Ord)]
pub struct Host {
    name: String,
    protocol: String,
    from: String,
}

/// The mathematical content of a [`Host`].
pub struct HostView {
    /// The host name, alias or address as written in the source.
    pub name: Seq<char>,
    /// The protocol by which the host is reached.
    pub protocol: Seq<char>,
    /// The path of the file in which the entry was found.
    pub source: Seq<char>,
}

impl View for Host {
    type V = HostView;

    closed spec fn view(&self) -> HostView {
        HostView { name: self.name@, protocol: self.protocol@, source: self.from@ }
    }
}

/// The views of a sequence of hosts.
pub open spec fn host_views(hosts: Seq<Host>) -> Seq<HostView> {
    hosts.map_values(|h: Host| h@)
}

/// The protocol of an entry that names none.
pub open spec fn default_protocol() -> Seq<char> {
    "ssh"@
}

/// Whether `name` holds one of the wildcard characters `*` and `?`.
pub open spec fn has_wildcard(name: Seq<char>) -> bool {
    name.contains('*') || name.contains('?')
}

/// The host that a source file `source` declares under `name`, reached by the default protocol.
pub open spec fn named_host(name: Seq<char>, source: Seq<char>) -> HostView {
    HostView { name, protocol: default_protocol(), source }
}

/// Whether two hosts have the same name and protocol, and so the same bookmark.
pub open spec fn same_target(a: HostView, b: HostView) -> bool {
    a.name == b.name && a.protocol == b.protocol
}

/// Whether `a` precedes `b` by name and, among equal names, by protocol.
pub open spec fn target_lt(a: HostView, b: HostView) -> bool {
    text_lt(a.name, b.name) || (a.name == b.name && text_lt(a.protocol, b.protocol))
}

/// Whether `a` precedes `b` in the order of hosts: by name, then by protocol, then by
/// source.
pub open spec fn host_lt(a: HostView, b: HostView) -> bool {
    target_lt(a, b) || (same_target(a, b) && text_lt(a.source, b.source))
}

/// How `a` stands to `b` in the order of hosts.
pub open spec fn host_rank(a: HostView, b: HostView) -> Rank {
    if a == b {
        Rank::Same
    } else if host_lt(a, b) {
        Rank::Before
    } else {
        Rank::After
    }
}

/// Whether a host is left out: its name holds a wildcard, or the rules of its source
/// file do not let it in.
pub open spec fn is_ineligible(rules: Seq<(Seq<char>, Condition)>, host: HostView) -> bool {
    has_wildcard(host.name) || !is_eligible(rules, host)
}

impl Host {
    /// A host record. Nothing is checked: any name is accepted, also one with path
    /// separators or wildcard characters.
    pub fn new(name: &str, protocol: &str, from: &str) -> (host: Host)
        ensures
            host@ == (HostView { name: name@, protocol: protocol@, source: from@ }),
    {
        Host {
            name: String::from_str(name),
            protocol: String::from_str(protocol),
            from: String::from_str(from),
        }
    }

    /// A host record with the default protocol, `ssh`.
    pub fn named(name: &str, from: &str) -> (host: Host)
        ensures
            host@ == named_host(name@, from@),
    {
        Host {
            name: String::from_str(name),
            protocol: String::from_str("ssh"),
            from: String::from_str(from),
        }
    }

    /// The host's name.
    pub fn name(&self) -> (name: &str)
        ensures
            name@ == self@.name,
    {
        self.name.as_str()
    }

    /// The host's protocol.
    pub fn protocol(&self) -> (protocol: &str)
        ensures
            protocol@ == self@.protocol,
    {
        self.protocol.as_str()
    }

    /// The path of the file in which the host was found.
    pub fn source(&self) -> (source: &str)
        ensures
            source@ == self@.source,
    {
        self.from.as_str()
    }

    /// Whether the name holds a wildcard character. Such an entry stands for no single
    /// address and is never eligible.
    pub fn is_ineligible_by_pattern(&self) -> (veto: bool)
        ensures
            veto == has_wildcard(self@.name),
    {
        let v = crate::text::chars_of(self.name.as_str());
        let mut i: usize = 0;
        while i < v.len()
            invariant
                i <= v.len(),
                v@ == self@.name,
                forall|k: int| 0 <= k < i ==> v@[k] != '*' && v@[k] != '?',
            decreases v.len() - i,
        {
            if v[i] == '*' || v[i] == '?' {
                return true;
            }
            i += 1;
        }
        false
    }

    /// Whether the host is left out: its name holds a wildcard, or the rules of its
    /// source file do not let it in.
    pub fn ineligible(&self, conds: &Conditions) -> (out: bool)
        ensures
            out == is_ineligible(conds@, self@),
    {
        self.is_ineligible_by_pattern() || !conds.eligible(self)
    }

    /// Whether the host has the same name and protocol as `other`.
    pub fn has_target_of(&self, other: &Host) -> (same: bool)
        ensures
            same == same_target(self@, other@),
    {
        self.name == other.name && self.protocol == other.protocol
    }

    /// How the host stands to `other` in the order of hosts.
    pub fn rank(&self, other: &Host) -> (rank: Rank)
        ensures
            rank == host_rank(self@, other@),
            rank == Rank::Same <==> self@ == other@,
            rank == Rank::Before <==> host_lt(self@, other@),
            rank == Rank::After <==> host_lt(other@, self@),
    {
        proof {
            lemma_host_lt_total(self@, other@);
        }
        match compare_text(self.name.as_str(), other.name.as_str()) {
            Rank::Before => Rank::Before,
            Rank::After => Rank::After,
            Rank::Same => match compare_text(self.protocol.as_str(), other.protocol.as_str()) {
                Rank::Before => Rank::Before,
                Rank::After => Rank::After,
                Rank::Same => compare_text(self.from.as_str(), other.from.as_str()),
            },
        }
    }
}

/// Of two different hosts exactly one precedes the other, and no host precedes itself.
pub proof fn lemma_host_lt_total(a: HostView, b: HostView)
    ensures
        a != b ==> (host_lt(a, b) <==> !host_lt(b, a)),
        a == b ==> !host_lt(a, b),
        !same_target(a, b) ==> (target_lt(a, b) <==> !target_lt(b, a)),
        same_target(a, b) ==> !target_lt(a, b),
{
    lemma_text_lt_total(a.name, b.name);
    lemma_text_lt_total(a.protocol, b.protocol);
    lemma_text_lt_total(a.source, b.source);
}

/// The order of hosts is transitive, and so is the order of their targets.
pub proof fn lemma_host_lt_transitive(a: HostView, b: HostView, c: HostView)
    ensures
        host_lt(a, b) && host_lt(b, c) ==> host_lt(a, c),
        target_lt(a, b) && target_lt(b, c) ==> target_lt(a, c),
{
    lemma_text_lt_total(a.name, b.name);
    lemma_text_lt_total(b.name, c.name);
    lemma_text_lt_total(a.protocol, b.protocol);
    lemma_text_lt_total(b.protocol, c.protocol);
    if text_lt(a.name, b.name) && text_lt(b.name, c.name) {
        lemma_text_lt_transitive(a.name, b.name, c.name);
    }
    if text_lt(a.protocol, b.protocol) && text_lt(b.protocol, c.protocol) {
        lemma_text_lt_transitive(a.protocol, b.protocol, c.protocol);
    }
    if text_lt(a.source, b.source) && text_lt(b.source, c.source) {
        lemma_text_lt_transitive(a.source, b.source, c.source);
    }
}

/// A host whose name holds a wildcard is left out, whatever the rules.
pub proof fn lemma_wildcard_veto(rules: Seq<(Seq<char>, Condition)>, host: HostView)
    requires
        host.name.contains('*') || host.name.contains('?'),
    ensures
        is_ineligible(rules, host),
{
}

impl PartialEq for Host {
    fn eq(&self, other: &Host) -> (same: bool) {
        self.name == other.name && self.protocol == other.protocol && self.from == other.from
    }
}

impl vstd::std_specs::cmp::PartialEqSpecImpl for Host {
    open spec fn obeys_eq_spec() -> bool {
        true
    }

    open spec fn eq_spec(&self, other: &Host) -> bool {
        self@ == other@
    }
}

impl Eq for Host {

}

impl PartialOrd for Host {
    fn partial_cmp(&self, other: &Host) -> (r: Option<Ordering>) {
        match self.rank(other) {
            Rank::Before => Some(Ordering::Less),
            Rank::Same => Some(Ordering::Equal),
            Rank::After => Some(Ordering::Greater),
        }
    }
}

impl vstd::std_specs::cmp::PartialOrdSpecImpl for Host {
    open spec fn obeys_partial_cmp_spec() -> bool {
        true
    }

    open spec fn partial_cmp_spec(&self, other: &Host) -> Option<Ordering> {
        match host_rank(self@, other@) {
            Rank::Before => Some(Ordering::Less),
            Rank::Same => Some(Ordering::Equal),
            Rank::After => Some(Ordering::Greater),
        }
    }
}

} // verus!
