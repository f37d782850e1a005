//! Interface selection at startup: an exact name match when a name is given,
//! else the first non-loopback interface; and the extraction of the
//! transmitter's binding from the chosen interface. Failing either is a
//! fatal startup error naming the missing resource.
//!
//! Enumerating the machine's interfaces is the caller's business; this
//! module decides, on their plain descriptions.

use vstd::prelude::*;

use crate::addr::Ipv4Address;
use crate::addr::MacAddress;
use crate::sender::NetArpSender;
use crate::subnet::Subnet;
use vstd::arithmetic::power2::pow2;

verus! {

/// An interface's IPv4 network: the interface's own address and the prefix
/// length.
#[derive(Debug, Clone, Copy, PartialEq, Eq, Structural)]
pub struct InterfaceAddr {
    pub ip: Ipv4Address,
    pub prefix: u8,
}

/// What the selection reads of one interface.
#[derive(Debug)]
pub struct InterfaceInfo {
    pub name: String,
    pub is_loopback: bool,
    pub mac: Option<MacAddress>,
    pub addr: Option<InterfaceAddr>,
}

/// A fatal startup failure, naming the missing resource.
#[derive(Debug, Clone, Copy, PartialEq, Eq, Structural)]
pub enum WatchError {
    /// No interface bears the requested name.
    NoSuchInterface,
    /// Every interface is a loopback (or there is none).
    NoUsableInterface,
    /// The chosen interface has no IPv4 network.
    MissingIpv4Network,
    /// The chosen interface has no link-layer address.
    MissingLinkAddress,
    /// The interface's prefix length does not fit IPv4.
    InvalidPrefix,
}

/// Index of the first interface named `name`, or -1.
pub open spec fn spec_name_index(ifaces: Seq<InterfaceInfo>, name: Seq<char>) -> int
    decreases ifaces.len(),
{
    if ifaces.len() == 0 {
        -1
    } else if ifaces[0].name@ == name {
        0
    } else {
        let r = spec_name_index(ifaces.drop_first(), name);
        if r == -1 {
            -1
        } else {
            r + 1
        }
    }
}

/// Index of the first non-loopback interface, or -1.
pub open spec fn spec_non_loopback_index(ifaces: Seq<InterfaceInfo>) -> int
    decreases ifaces.len(),
{
    if ifaces.len() == 0 {
        -1
    } else if !ifaces[0].is_loopback {
        0
    } else {
        let r = spec_non_loopback_index(ifaces.drop_first());
        if r == -1 {
            -1
        } else {
            r + 1
        }
    }
}

/// `spec_name_index` points at the first interface with that name and is -1
/// exactly when none bears it.
pub proof fn lemma_name_index_props(ifaces: Seq<InterfaceInfo>, name: Seq<char>)
    ensures
        -1 <= spec_name_index(ifaces, name) < ifaces.len(),
        spec_name_index(ifaces, name) >= 0 ==> ifaces[spec_name_index(ifaces, name)].name@
            == name,
        forall|j: int|
            0 <= j < ifaces.len() && ifaces[j].name@ == name ==> 0 <= spec_name_index(
                ifaces,
                name,
            ) <= j,
    decreases ifaces.len(),
{
    if ifaces.len() == 0 {
    } else if ifaces[0].name@ == name {
    } else {
        let t = ifaces.drop_first();
        lemma_name_index_props(t, name);
        assert forall|j: int|
            0 <= j < ifaces.len() && ifaces[j].name@ == name implies 0 <= spec_name_index(
            ifaces,
            name,
        ) <= j by {
            assert(j >= 1);
            assert(t[j - 1] == ifaces[j]);
        }
    }
}

/// `spec_non_loopback_index` points at the first non-loopback interface and
/// is -1 exactly when all are loopbacks.
pub proof fn lemma_non_loopback_index_props(ifaces: Seq<InterfaceInfo>)
    ensures
        -1 <= spec_non_loopback_index(ifaces) < ifaces.len(),
        spec_non_loopback_index(ifaces) >= 0 ==> !ifaces[spec_non_loopback_index(
            ifaces,
        )].is_loopback,
        forall|j: int|
            0 <= j < ifaces.len() && !ifaces[j].is_loopback ==> 0 <= spec_non_loopback_index(
                ifaces,
            ) <= j,
    decreases ifaces.len(),
{
    if ifaces.len() == 0 {
    } else if !ifaces[0].is_loopback {
    } else {
        let t = ifaces.drop_first();
        lemma_non_loopback_index_props(t);
        assert forall|j: int|
            0 <= j < ifaces.len() && !ifaces[j].is_loopback implies 0 <= spec_non_loopback_index(
            ifaces,
        ) <= j by {
            assert(j >= 1);
            assert(t[j - 1] == ifaces[j]);
        }
    }
}

/// Picks the interface to bind: an exact name match when a name was given,
/// else the first non-loopback interface. Fails, naming what is missing,
/// exactly when no interface qualifies.
pub fn select_interface(requested: Option<String>, ifaces: &Vec<InterfaceInfo>) -> (r: Result<
    usize,
    WatchError,
>)
    ensures
        requested is Some ==> (r is Ok <==> spec_name_index(ifaces@, requested->0@) >= 0),
        requested is Some && r is Ok ==> r->Ok_0 == spec_name_index(ifaces@, requested->0@),
        requested is Some && r is Err ==> r->Err_0 == WatchError::NoSuchInterface,
        requested is None ==> (r is Ok <==> spec_non_loopback_index(ifaces@) >= 0),
        requested is None && r is Ok ==> r->Ok_0 == spec_non_loopback_index(ifaces@),
        requested is None && r is Err ==> r->Err_0 == WatchError::NoUsableInterface,
{
    match requested {
        Some(name) => {
            let mut i: usize = 0;
            while i < ifaces.len()
                invariant
                    requested == Some(name),
                    0 <= i <= ifaces.len(),
                    forall|j: int| 0 <= j < i ==> ifaces@[j].name@ != name@,
                decreases ifaces.len() - i,
            {
                if ifaces[i].name == name {
                    proof {
                        lemma_name_index_props(ifaces@, name@);
                    }
                    return Ok(i);
                }
                i = i + 1;
            }
            proof {
                lemma_name_index_props(ifaces@, name@);
            }
            Err(WatchError::NoSuchInterface)
        },
        None => {
            let mut i: usize = 0;
            while i < ifaces.len()
                invariant
                    requested is None,
                    0 <= i <= ifaces.len(),
                    forall|j: int| 0 <= j < i ==> ifaces@[j].is_loopback,
                decreases ifaces.len() - i,
            {
                if !ifaces[i].is_loopback {
                    proof {
                        lemma_non_loopback_index_props(ifaces@);
                    }
                    return Ok(i);
                }
                i = i + 1;
            }
            proof {
                lemma_non_loopback_index_props(ifaces@);
            }
            Err(WatchError::NoUsableInterface)
        },
    }
}

/// The transmitter's binding read off the chosen interface: its IPv4 network
/// first, then its link-layer address — each missing resource is named. The
/// subnet is the interface's network, host bits cleared.
pub fn sender_for_interface(iface: &InterfaceInfo) -> (r: Result<NetArpSender, WatchError>)
    ensures
        iface.addr is None ==> r == Err::<NetArpSender, WatchError>(
            WatchError::MissingIpv4Network,
        ),
        iface.addr is Some && iface.mac is None ==> r == Err::<NetArpSender, WatchError>(
            WatchError::MissingLinkAddress,
        ),
        iface.addr is Some && iface.mac is Some && (iface.addr->0).prefix > 32 ==> r
            == Err::<NetArpSender, WatchError>(WatchError::InvalidPrefix),
        iface.addr is Some && iface.mac is Some && (iface.addr->0).prefix <= 32 ==> {
            &&& r is Ok
            &&& (r->Ok_0).wf()
            &&& (r->Ok_0).source_mac == iface.mac->0
            &&& (r->Ok_0).source_ip == (iface.addr->0).ip
            &&& (r->Ok_0).network.prefix == (iface.addr->0).prefix
            &&& (r->Ok_0).network.base.value() == (iface.addr->0).ip.value() - (
            iface.addr->0).ip.value() % (pow2((32 - (iface.addr->0).prefix) as nat) as int)
        },
{
    let addr = match &iface.addr {
        None => {
            return Err(WatchError::MissingIpv4Network);
        },
        Some(a) => *a,
    };
    let mac = match &iface.mac {
        None => {
            return Err(WatchError::MissingLinkAddress);
        },
        Some(m) => *m,
    };
    match Subnet::new(addr.ip, addr.prefix) {
        None => Err(WatchError::InvalidPrefix),
        Some(network) => Ok(NetArpSender::new(mac, addr.ip, network)),
    }
}

} // verus!
