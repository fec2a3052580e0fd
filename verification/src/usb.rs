//! Choosing the USB device and endpoint to read a keyboard from, given what
//! the devices describe of themselves.
use vstd::prelude::*;

verus! {

/// The transfer type of an endpoint.
#[derive(Clone, Copy, Debug, PartialEq, Eq, Structural)]
pub enum TransferKind {
    Control,
    Isochronous,
    Bulk,
    Interrupt,
}

/// What one endpoint descriptor says, with the configuration, interface and
/// alternate setting it belongs to.
#[derive(Clone, Copy, Debug, PartialEq, Eq, Structural)]
pub struct EndpointInfo {
    pub config: u8,
    pub iface: u8,
    pub setting: u8,
    pub address: u8,
    pub direction_in: bool,
    pub transfer: TransferKind,
}

/// An endpoint to read from.
#[derive(Clone, Copy, Debug, PartialEq, Eq, Structural)]
pub struct Endpoint {
    pub config: u8,
    pub iface: u8,
    pub setting: u8,
    pub address: u8,
}

/// An endpoint that data can be read from with the given transfer type.
pub open spec fn readable(e: EndpointInfo, transfer: TransferKind) -> bool {
    e.direction_in && e.transfer == transfer
}

pub open spec fn endpoint_of(e: EndpointInfo) -> Endpoint {
    Endpoint { config: e.config, iface: e.iface, setting: e.setting, address: e.address }
}

/// The first endpoint, in descriptor order, that reads with the given
/// transfer type; `None` if there is none.
pub fn find_readable_endpoint(endpoints: &Vec<EndpointInfo>, transfer: TransferKind) -> (r: Option<Endpoint>)
    ensures
        match r {
            Some(e) => exists|k: int|
                0 <= k < endpoints@.len() && readable(#[trigger] endpoints@[k], transfer) && e == endpoint_of(endpoints@[k])
                    && forall|m: int| 0 <= m < k ==> !readable(#[trigger] endpoints@[m], transfer),
            None => forall|k: int| 0 <= k < endpoints@.len() ==> !readable(#[trigger] endpoints@[k], transfer),
        },
{
    let mut k: usize = 0;
    while k < endpoints.len()
        invariant
            k <= endpoints@.len(),
            forall|m: int| 0 <= m < k ==> !readable(#[trigger] endpoints@[m], transfer),
        decreases endpoints@.len() - k,
    {
        let e = endpoints[k];
        if e.direction_in && e.transfer == transfer {
            return Some(Endpoint { config: e.config, iface: e.iface, setting: e.setting, address: e.address });
        }
        k = k + 1;
    }
    None
}

/// The index of the first device whose descriptor could be read and names
/// the given vendor and product; `None` if there is none.
pub fn find_device(ids: &Vec<Option<(u16, u16)>>, vid: u16, pid: u16) -> (r: Option<usize>)
    ensures
        match r {
            Some(k) => k < ids@.len() && ids@[k as int] == Some((vid, pid))
                && forall|m: int| 0 <= m < k ==> #[trigger] ids@[m] != Some((vid, pid)),
            None => forall|m: int| 0 <= m < ids@.len() ==> #[trigger] ids@[m] != Some((vid, pid)),
        },
{
    let mut k: usize = 0;
    while k < ids.len()
        invariant
            k <= ids@.len(),
            forall|m: int| 0 <= m < k ==> #[trigger] ids@[m] != Some((vid, pid)),
        decreases ids@.len() - k,
    {
        match ids[k] {
            Some((v, p)) => {
                if v == vid && p == pid {
                    return Some(k);
                }
            },
            None => {},
        }
        k = k + 1;
    }
    None
}

} // verus!
