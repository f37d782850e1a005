//! The address-resolution cache: an ordered table of IP-to-link-address
//! bindings, a single `update` entry point with its conflict policy, and the
//! laws that policy obeys.
//!
//! `update` never performs a side effect itself: what it decided — the alert
//! to deliver and the binding to re-announce — comes back in an
//! [`UpdateOutcome`], so the caller can act on it after releasing its lock on
//! the cache.

use vstd::prelude::*;

use crate::addr::Ipv4Address;
use crate::addr::MacAddress;

verus! {

/// One observed IPv4-to-link-address binding. Immutable once built; equality
/// is structural.
#[derive(Debug, Clone, Copy, PartialEq, Eq, Structural)]
pub struct ArpEntry {
    pub ip: Ipv4Address,
    pub mac: MacAddress,
}

impl ArpEntry {
    pub fn new(ip: Ipv4Address, mac: MacAddress) -> (r: Self)
        ensures
            r == (ArpEntry { ip, mac }),
    {
        ArpEntry { ip, mac }
    }

    pub fn ip(&self) -> (r: &Ipv4Address)
        ensures
            r == self.ip,
    {
        &self.ip
    }

    pub fn mac(&self) -> (r: &MacAddress)
        ensures
            r == self.mac,
    {
        &self.mac
    }
}

/// How `update` classified the entry it was handed.
#[derive(Debug, Clone, Copy, PartialEq, Eq, Structural)]
pub enum ArpCacheUpdateResult {
    /// No binding for this IP was present; the entry was appended.
    NewEntry,
    /// The identical binding was already present; nothing changed.
    AlreadyExists,
    /// A binding for this IP with another link address was present.
    Diverged,
}

/// A notification for the alert sink.
#[derive(Debug, Clone, Copy, PartialEq, Eq, Structural)]
pub enum Alert {
    /// A binding for a previously unseen IP: "ip at mac".
    NewBinding { ip: Ipv4Address, mac: MacAddress },
    /// An IP's stored link address disagrees with the observed one:
    /// "was old_mac, now new_mac".
    BindingChanged { ip: Ipv4Address, old_mac: MacAddress, new_mac: MacAddress },
}

/// Everything one `update` call decided: its classification, the alert to
/// deliver (if any), and the previously trusted binding to re-announce (if
/// the re-announce policy asked for it).
#[derive(Debug, Clone, Copy, PartialEq, Eq)]
pub struct UpdateOutcome {
    pub result: ArpCacheUpdateResult,
    pub alert: Option<Alert>,
    pub rearp: Option<ArpEntry>,
}

/// The resolution cache: an ordered sequence of entries plus the two
/// runtime-toggleable policy flags.
pub struct ArpCache {
    table: Vec<ArpEntry>,
    /// Whether an observed changed binding overwrites the stored one.
    pub follow_update: bool,
    /// Whether a detected conflict asks for a re-announcement of the prior
    /// binding.
    pub rearp_enable: bool,
}

impl View for ArpCache {
    type V = Seq<ArpEntry>;

    closed spec fn view(&self) -> Seq<ArpEntry> {
        self.table@
    }
}

/// No two entries bind the same IP.
pub open spec fn distinct_ips(s: Seq<ArpEntry>) -> bool {
    forall|i: int, j: int| 0 <= i < j < s.len() ==> s[i].ip != s[j].ip
}

/// Index of the first entry binding `ip`, or -1 when none does.
pub open spec fn ip_index(s: Seq<ArpEntry>, ip: Ipv4Address) -> int
    decreases s.len(),
{
    if s.len() == 0 {
        -1
    } else if s[0].ip == ip {
        0
    } else {
        let r = ip_index(s.drop_first(), ip);
        if r == -1 {
            -1
        } else {
            r + 1
        }
    }
}

/// `ip_index` points at the first entry binding `ip` and is -1 exactly when
/// no entry does.
pub proof fn lemma_ip_index_props(s: Seq<ArpEntry>, ip: Ipv4Address)
    ensures
        -1 <= ip_index(s, ip) < s.len(),
        ip_index(s, ip) >= 0 ==> s[ip_index(s, ip)].ip == ip,
        forall|j: int| 0 <= j < s.len() && s[j].ip == ip ==> 0 <= ip_index(s, ip) <= j,
        forall|j: int| 0 <= j < ip_index(s, ip) ==> s[j].ip != ip,
    decreases s.len(),
{
    if s.len() == 0 {
    } else if s[0].ip == ip {
    } else {
        let t = s.drop_first();
        lemma_ip_index_props(t, ip);
        assert forall|j: int| 0 <= j < s.len() && s[j].ip == ip implies 0 <= ip_index(s, ip)
            <= j by {
            assert(j >= 1);
            assert(t[j - 1] == s[j]);
        }
        assert forall|j: int| 0 <= j < ip_index(s, ip) implies s[j].ip != ip by {
            if j >= 1 {
                assert(s[j] == t[j - 1]);
            }
        }
    }
}

/// A first match (one with no earlier match) is where `ip_index` points.
pub proof fn lemma_ip_index_first(s: Seq<ArpEntry>, ip: Ipv4Address, i: int)
    requires
        0 <= i < s.len(),
        s[i].ip == ip,
        forall|j: int| 0 <= j < i ==> s[j].ip != ip,
    ensures
        ip_index(s, ip) == i,
{
    lemma_ip_index_props(s, ip);
}

/// When no entry binds `ip`, `ip_index` is -1.
pub proof fn lemma_ip_index_none(s: Seq<ArpEntry>, ip: Ipv4Address)
    requires
        forall|j: int| 0 <= j < s.len() ==> s[j].ip != ip,
    ensures
        ip_index(s, ip) == -1,
{
    lemma_ip_index_props(s, ip);
}

/// The table after `update(s, e)` under follow policy `follow`.
pub open spec fn spec_update_entries(s: Seq<ArpEntry>, e: ArpEntry, follow: bool) -> Seq<
    ArpEntry,
> {
    let i = ip_index(s, e.ip);
    if i == -1 {
        s.push(e)
    } else if s[i].mac == e.mac {
        s
    } else if follow {
        s.remove(i).push(e)
    } else {
        s
    }
}

/// The decision `update(s, e)` reports under re-announce policy `rearp_on`.
pub open spec fn spec_update_outcome(s: Seq<ArpEntry>, e: ArpEntry, rearp_on: bool) -> UpdateOutcome {
    let i = ip_index(s, e.ip);
    if i == -1 {
        UpdateOutcome {
            result: ArpCacheUpdateResult::NewEntry,
            alert: Some(Alert::NewBinding { ip: e.ip, mac: e.mac }),
            rearp: None,
        }
    } else if s[i].mac == e.mac {
        UpdateOutcome { result: ArpCacheUpdateResult::AlreadyExists, alert: None, rearp: None }
    } else {
        UpdateOutcome {
            result: ArpCacheUpdateResult::Diverged,
            alert: Some(
                Alert::BindingChanged { ip: e.ip, old_mac: s[i].mac, new_mac: e.mac },
            ),
            rearp: if rearp_on {
                Some(s[i])
            } else {
                None
            },
        }
    }
}

impl ArpCache {
    /// The cache's invariant: consumers observe at most one binding per IP.
    pub open spec fn wf(&self) -> bool {
        distinct_ips(self@)
    }

    /// The follow policy flag, for contracts.
    pub closed spec fn spec_follow_update(&self) -> bool {
        self.follow_update
    }

    /// The re-announce policy flag, for contracts.
    pub closed spec fn spec_rearp_enable(&self) -> bool {
        self.rearp_enable
    }

    /// An empty cache with both policy flags off.
    pub fn new() -> (r: Self)
        ensures
            r@ == Seq::<ArpEntry>::empty(),
            r.spec_follow_update() == false,
            r.spec_rearp_enable() == false,
            r.wf(),
    {
        ArpCache { table: Vec::new(), follow_update: false, rearp_enable: false }
    }

    /// Sets the follow policy: whether a changed binding overwrites the
    /// stored one.
    pub fn follow_update(self, follow_update: bool) -> (r: Self)
        ensures
            r@ == self@,
            r.spec_follow_update() == follow_update,
            r.spec_rearp_enable() == self.spec_rearp_enable(),
    {
        ArpCache { follow_update, ..self }
    }

    /// Sets the re-announce policy: whether a detected conflict asks for a
    /// re-announcement of the prior binding.
    pub fn rearp(self, rearp: bool) -> (r: Self)
        ensures
            r@ == self@,
            r.spec_follow_update() == self.spec_follow_update(),
            r.spec_rearp_enable() == rearp,
    {
        ArpCache { rearp_enable: rearp, ..self }
    }

    /// Seeds the cache: appends each given entry whose IP is not yet bound,
    /// in order, skipping the rest. The first binding for an IP wins, which
    /// keeps the one-binding-per-IP invariant.
    pub fn with_entries(self, seed: Vec<ArpEntry>) -> (r: Self)
        requires
            self.wf(),
        ensures
            r@ == spec_seed_entries(self@, seed@),
            r.wf(),
            r.spec_follow_update() == self.spec_follow_update(),
            r.spec_rearp_enable() == self.spec_rearp_enable(),
    {
        let ghost s0 = self@;
        let ghost f0 = self.follow_update;
        let ghost r0 = self.rearp_enable;
        let mut cache = self;
        let mut k: usize = 0;
        while k < seed.len()
            invariant
                0 <= k <= seed.len(),
                cache@ == spec_seed_entries(s0, seed@.take(k as int)),
                cache.wf(),
                cache.follow_update == f0,
                cache.rearp_enable == r0,
            decreases seed.len() - k,
        {
            let e = seed[k];
            let ghost pre = cache@;
            let found = cache.position_of_ip(&e.ip);
            if found.is_none() {
                proof {
                    lemma_push_keeps_distinct(pre, e);
                }
                cache.table.push(e);
            }
            proof {
                assert(seed@.take(k as int + 1).drop_last() =~= seed@.take(k as int));
                assert(seed@.take(k as int + 1).last() == seed@[k as int]);
            }
            k = k + 1;
        }
        proof {
            assert(seed@.take(seed@.len() as int) =~= seed@);
        }
        cache
    }

    /// An independent snapshot of the table.
    pub fn entries(&self) -> (r: Vec<ArpEntry>)
        ensures
            r@ == self@,
    {
        let mut out: Vec<ArpEntry> = Vec::new();
        let mut k: usize = 0;
        while k < self.table.len()
            invariant
                0 <= k <= self.table.len(),
                out@ =~= self@.take(k as int),
            decreases self.table.len() - k,
        {
            out.push(self.table[k]);
            proof {
                assert(self@.take(k + 1) =~= self@.take(k as int).push(self@[k as int]));
            }
            k = k + 1;
        }
        proof {
            assert(self@.take(self@.len() as int) =~= self@);
        }
        out
    }

    /// Index of the entry binding `ip`, if one is present.
    fn position_of_ip(&self, ip: &Ipv4Address) -> (r: Option<usize>)
        ensures
            r is Some ==> r->0 < self@.len() && ip_index(self@, *ip) == r->0 as int,
            r is None ==> ip_index(self@, *ip) == -1,
    {
        let mut i: usize = 0;
        while i < self.table.len()
            invariant
                0 <= i <= self.table.len(),
                forall|j: int| 0 <= j < i ==> self@[j].ip != *ip,
            decreases self.table.len() - i,
        {
            if self.table[i].ip == *ip {
                proof {
                    lemma_ip_index_first(self@, *ip, i as int);
                }
                return Some(i);
            }
            i = i + 1;
        }
        proof {
            lemma_ip_index_none(self@, *ip);
        }
        None
    }

    /// The single mutation entry point. Scans for the entry's IP and applies
    /// the policy of the two flags; what it decided comes back in the
    /// outcome, including the alert to deliver and the binding to
    /// re-announce.
    pub fn update(&mut self, new_entry: ArpEntry) -> (r: UpdateOutcome)
        requires
            old(self).wf(),
        ensures
            final(self).wf(),
            final(self)@ == spec_update_entries(
                old(self)@,
                new_entry,
                old(self).spec_follow_update(),
            ),
            r == spec_update_outcome(old(self)@, new_entry, old(self).spec_rearp_enable()),
            final(self).spec_follow_update() == old(self).spec_follow_update(),
            final(self).spec_rearp_enable() == old(self).spec_rearp_enable(),
    {
        let ghost s = self@;
        match self.position_of_ip(&new_entry.ip) {
            None => {
                self.table.push(new_entry);
                proof {
                    lemma_push_keeps_distinct(s, new_entry);
                }
                UpdateOutcome {
                    result: ArpCacheUpdateResult::NewEntry,
                    alert: Some(Alert::NewBinding { ip: new_entry.ip, mac: new_entry.mac }),
                    rearp: None,
                }
            },
            Some(i) => {
                proof {
                    lemma_ip_index_props(s, new_entry.ip);
                }
                let old_entry = self.table[i];
                if old_entry.mac == new_entry.mac {
                    UpdateOutcome {
                        result: ArpCacheUpdateResult::AlreadyExists,
                        alert: None,
                        rearp: None,
                    }
                } else {
                    if self.follow_update {
                        self.table.remove(i);
                        self.table.push(new_entry);
                        proof {
                            lemma_replace_keeps_distinct(s, new_entry, i as int);
                        }
                    }
                    UpdateOutcome {
                        result: ArpCacheUpdateResult::Diverged,
                        alert: Some(
                            Alert::BindingChanged {
                                ip: new_entry.ip,
                                old_mac: old_entry.mac,
                                new_mac: new_entry.mac,
                            },
                        ),
                        rearp: if self.rearp_enable {
                            Some(old_entry)
                        } else {
                            None
                        },
                    }
                }
            },
        }
    }
}

/// The table after seeding `s` with `seed`, first binding per IP winning.
pub open spec fn spec_seed_entries(s: Seq<ArpEntry>, seed: Seq<ArpEntry>) -> Seq<ArpEntry>
    decreases seed.len(),
{
    if seed.len() == 0 {
        s
    } else {
        let pre = spec_seed_entries(s, seed.drop_last());
        if ip_index(pre, seed.last().ip) == -1 {
            pre.push(seed.last())
        } else {
            pre
        }
    }
}

/// Appending an entry for an unbound IP keeps IPs distinct.
proof fn lemma_push_keeps_distinct(s: Seq<ArpEntry>, e: ArpEntry)
    requires
        distinct_ips(s),
        ip_index(s, e.ip) == -1,
    ensures
        distinct_ips(s.push(e)),
{
    lemma_ip_index_props(s, e.ip);
}

/// Removing the one entry binding an IP and appending a new binding for that
/// IP keeps IPs distinct.
proof fn lemma_replace_keeps_distinct(s: Seq<ArpEntry>, e: ArpEntry, i: int)
    requires
        distinct_ips(s),
        0 <= i < s.len(),
        s[i].ip == e.ip,
    ensures
        distinct_ips(s.remove(i).push(e)),
{
    let t = s.remove(i).push(e);
    assert forall|p: int, q: int| 0 <= p < q < t.len() implies t[p].ip != t[q].ip by {
        if q < t.len() - 1 {
            // both from s, at positions p or p + 1, q or q + 1
            assert(s.remove(i)[p] == if p < i { s[p] } else { s[p + 1] });
            assert(s.remove(i)[q] == if q < i { s[q] } else { s[q + 1] });
        } else {
            // q is the appended entry; p survives from s at a position != i
            assert(t[q] == e);
            assert(s.remove(i)[p] == if p < i { s[p] } else { s[p + 1] });
        }
    }
}

/// Two identical updates for an unbound IP: the first registers the entry
/// (with its alert) and grows the table by exactly one; the second reports
/// that it already exists and changes nothing.
pub proof fn lemma_update_new_then_exists(
    s: Seq<ArpEntry>,
    e: ArpEntry,
    follow: bool,
    rearp_on: bool,
)
    requires
        ip_index(s, e.ip) == -1,
    ensures
        spec_update_outcome(s, e, rearp_on).result == ArpCacheUpdateResult::NewEntry,
        spec_update_outcome(s, e, rearp_on).alert == Some(
            Alert::NewBinding { ip: e.ip, mac: e.mac },
        ),
        spec_update_entries(s, e, follow) == s.push(e),
        spec_update_entries(s, e, follow).len() == s.len() + 1,
        spec_update_outcome(spec_update_entries(s, e, follow), e, rearp_on).result
            == ArpCacheUpdateResult::AlreadyExists,
        spec_update_outcome(spec_update_entries(s, e, follow), e, rearp_on).alert is None,
        spec_update_entries(spec_update_entries(s, e, follow), e, follow) == spec_update_entries(
            s,
            e,
            follow,
        ),
{
    lemma_ip_index_props(s, e.ip);
    let s1 = s.push(e);
    lemma_ip_index_first(s1, e.ip, s.len() as int);
}

/// An update whose IP is bound to another link address diverges: the stored
/// entry is replaced exactly when `follow` is set, and the alert names the
/// old and the new link address.
pub proof fn lemma_update_diverged(
    s: Seq<ArpEntry>,
    e: ArpEntry,
    i: int,
    follow: bool,
    rearp_on: bool,
)
    requires
        distinct_ips(s),
        0 <= i < s.len(),
        s[i].ip == e.ip,
        s[i].mac != e.mac,
    ensures
        spec_update_outcome(s, e, rearp_on).result == ArpCacheUpdateResult::Diverged,
        spec_update_outcome(s, e, rearp_on).alert == Some(
            Alert::BindingChanged { ip: e.ip, old_mac: s[i].mac, new_mac: e.mac },
        ),
        !follow ==> spec_update_entries(s, e, follow) == s,
        follow ==> spec_update_entries(s, e, follow) == s.remove(i).push(e),
        follow ==> ip_index(spec_update_entries(s, e, follow), e.ip) == s.len() - 1,
        follow ==> spec_update_entries(s, e, follow)[s.len() - 1] == e,
{
    lemma_first_is_only_match(s, e.ip, i);
    if follow {
        let t = s.remove(i).push(e);
        assert forall|j: int| 0 <= j < t.len() - 1 implies t[j].ip != e.ip by {
            assert(s.remove(i)[j] == if j < i { s[j] } else { s[j + 1] });
        }
        lemma_ip_index_first(t, e.ip, t.len() - 1);
    }
}

/// Under distinct IPs, a match is the first match.
proof fn lemma_first_is_only_match(s: Seq<ArpEntry>, ip: Ipv4Address, i: int)
    requires
        distinct_ips(s),
        0 <= i < s.len(),
        s[i].ip == ip,
    ensures
        ip_index(s, ip) == i,
{
    lemma_ip_index_first(s, ip, i);
}

/// A re-announcement is asked for exactly on a divergence with the policy
/// flag set, and it carries the old (pre-conflict) entry.
pub proof fn lemma_rearp_policy(s: Seq<ArpEntry>, e: ArpEntry, rearp_on: bool)
    ensures
        spec_update_outcome(s, e, rearp_on).rearp is Some <==> (spec_update_outcome(
            s,
            e,
            rearp_on,
        ).result == ArpCacheUpdateResult::Diverged && rearp_on),
        spec_update_outcome(s, e, rearp_on).rearp is Some ==> spec_update_outcome(
            s,
            e,
            rearp_on,
        ).rearp == Some(s[ip_index(s, e.ip)]),
{
    lemma_ip_index_props(s, e.ip);
}

} // verus!
