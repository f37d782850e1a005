//! Per-frame processing of the receive loop: decode the link-layer envelope,
//! decode the ARP body, classify, and feed authoritative binding assertions
//! to the cache. A malformed or irrelevant frame changes nothing.
//!
//! The loop itself — awaiting the next inbound frame on the raw channel —
//! lives outside this crate and calls [`process_frame`] once per frame.

use vstd::prelude::*;

use crate::cache::ArpCache;
use crate::cache::ArpEntry;
use crate::cache::UpdateOutcome;
use crate::cache::spec_update_entries;
use crate::cache::spec_update_outcome;
use crate::frame::ArpMessage;
use crate::frame::OPERATION_REPLY;
use crate::frame::OPERATION_REQUEST;
use crate::frame::parse_frame;
use crate::frame::spec_parse_frame;

verus! {

/// The binding a message authoritatively asserts, if any: a reply, or a
/// request whose sender and target protocol addresses are equal (a
/// self-announcement), asserts its sender's binding. Anything else is
/// ignored.
pub open spec fn spec_asserted_binding(m: ArpMessage) -> Option<ArpEntry> {
    if m.operation == OPERATION_REPLY {
        Some(ArpEntry { ip: m.sender_ip, mac: m.sender_mac })
    } else if m.operation == OPERATION_REQUEST && m.sender_ip == m.target_ip {
        Some(ArpEntry { ip: m.sender_ip, mac: m.sender_mac })
    } else {
        None
    }
}

/// Classifies one decoded message as an authoritative binding assertion or
/// as noise.
pub fn asserted_binding(m: &ArpMessage) -> (r: Option<ArpEntry>)
    ensures
        r == spec_asserted_binding(*m),
{
    if m.operation == OPERATION_REPLY {
        Some(ArpEntry::new(m.sender_ip, m.sender_mac))
    } else if m.operation == OPERATION_REQUEST && m.sender_ip == m.target_ip {
        Some(ArpEntry::new(m.sender_ip, m.sender_mac))
    } else {
        None
    }
}

/// What processing one frame leaves of the cache: undecodable or non-ARP or
/// unauthoritative frames leave it exactly as it was; an asserted binding
/// goes through the cache's single `update` entry point.
pub open spec fn spec_processed_entries(s: Seq<ArpEntry>, bytes: Seq<u8>, follow: bool) -> Seq<
    ArpEntry,
> {
    match spec_parse_frame(bytes) {
        None => s,
        Some(m) => match spec_asserted_binding(m) {
            None => s,
            Some(e) => spec_update_entries(s, e, follow),
        },
    }
}

/// The outcome processing one frame reports: `None` for every frame that was
/// discarded, the update's outcome otherwise.
pub open spec fn spec_processed_outcome(s: Seq<ArpEntry>, bytes: Seq<u8>, rearp_on: bool) -> Option<
    UpdateOutcome,
> {
    match spec_parse_frame(bytes) {
        None => None,
        Some(m) => match spec_asserted_binding(m) {
            None => None,
            Some(e) => Some(spec_update_outcome(s, e, rearp_on)),
        },
    }
}

/// A frame that is not typed ARP, or whose body is truncated, is discarded:
/// it leaves the cache exactly as it was and reports nothing, whatever the
/// cache held and whatever else the frame contains.
pub proof fn lemma_junk_frame_changes_nothing(
    s: Seq<ArpEntry>,
    bytes: Seq<u8>,
    follow: bool,
    rearp_on: bool,
)
    requires
        bytes.len() < crate::frame::ETHERNET_HEADER_LEN + crate::frame::ARP_BODY_LEN
            || crate::frame::be16_value(bytes[12], bytes[13]) != crate::frame::ETHERTYPE_ARP,
    ensures
        spec_processed_entries(s, bytes, follow) == s,
        spec_processed_outcome(s, bytes, rearp_on) is None,
{
}

/// An authoritative frame reaches the cache: processing the frame built for
/// a reply, or for a self-announcement, changes the table exactly as one
/// `update` with the sender's binding would, and reports that update's
/// outcome.
pub proof fn lemma_authoritative_frame_updates_cache(
    s: Seq<ArpEntry>,
    dest: crate::addr::MacAddress,
    src: crate::addr::MacAddress,
    m: ArpMessage,
    follow: bool,
    rearp_on: bool,
)
    requires
        m.operation == OPERATION_REPLY || (m.operation == OPERATION_REQUEST && m.sender_ip
            == m.target_ip),
    ensures
        spec_processed_entries(s, crate::frame::frame_bytes(dest, src, m), follow)
            == spec_update_entries(s, ArpEntry { ip: m.sender_ip, mac: m.sender_mac }, follow),
        spec_processed_outcome(s, crate::frame::frame_bytes(dest, src, m), rearp_on) == Some(
            spec_update_outcome(s, ArpEntry { ip: m.sender_ip, mac: m.sender_mac }, rearp_on),
        ),
{
    crate::frame::lemma_frame_round_trip(dest, src, m);
}

/// One step of the receive loop. Never fails: a malformed individual frame
/// is discarded and the loop can go on.
pub fn process_frame(cache: &mut ArpCache, bytes: &[u8]) -> (r: Option<UpdateOutcome>)
    requires
        old(cache).wf(),
    ensures
        final(cache).wf(),
        final(cache)@ == spec_processed_entries(
            old(cache)@,
            bytes@,
            old(cache).spec_follow_update(),
        ),
        r == spec_processed_outcome(old(cache)@, bytes@, old(cache).spec_rearp_enable()),
        final(cache).spec_follow_update() == old(cache).spec_follow_update(),
        final(cache).spec_rearp_enable() == old(cache).spec_rearp_enable(),
{
    match parse_frame(bytes) {
        None => None,
        Some(m) => match asserted_binding(&m) {
            None => None,
            Some(entry) => Some(cache.update(entry)),
        },
    }
}

} // verus!
