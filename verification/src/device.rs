//! The devices to wake, as a configuration names them, and what is
//! reported of each.

use vstd::prelude::*;
use crate::error::SendOutcome;

verus! {

/// One device of the list: a name for reports, the hardware address as
/// text, and the host to send to. The hardware address is checked when the
/// packet is built, the host by the transport.
#[derive(Debug, PartialEq, Eq)]
pub struct DeviceTarget {
    /// The name under which the device is reported.
    pub name: String,
    /// The hardware address, as six colon-separated pairs of hexadecimal
    /// digits.
    pub mac_addr: String,
    /// The IPv4 host or broadcast address that the packet is sent to.
    pub ip_addr: String,
}

impl DeviceTarget {
    /// A device with the given name, hardware address and host.
    pub fn new(name: String, mac_addr: String, ip_addr: String) -> (device: DeviceTarget)
        ensures
            device == (DeviceTarget { name, mac_addr, ip_addr }),
    {
        DeviceTarget { name, mac_addr, ip_addr }
    }
}

impl Clone for DeviceTarget {
    /// A copy of this device.
    fn clone(&self) -> (copy: DeviceTarget)
        ensures
            copy == *self,
    {
        DeviceTarget {
            name: self.name.clone(),
            mac_addr: self.mac_addr.clone(),
            ip_addr: self.ip_addr.clone(),
        }
    }
}

/// What is reported of one device once it has been dealt with.
#[derive(Debug, PartialEq, Eq)]
pub struct DeviceReport {
    /// The device's name.
    pub name: String,
    /// The hardware address as it was given.
    pub mac_addr: String,
    /// The host as it was given.
    pub ip_addr: String,
    /// What became of the attempt to wake the device.
    pub outcome: SendOutcome,
}

/// The report that joins `device` and `outcome`.
pub open spec fn report_of(device: DeviceTarget, outcome: SendOutcome) -> DeviceReport {
    DeviceReport {
        name: device.name,
        mac_addr: device.mac_addr,
        ip_addr: device.ip_addr,
        outcome,
    }
}

impl DeviceReport {
    /// The report of `outcome` for `device`.
    pub fn new(device: &DeviceTarget, outcome: &SendOutcome) -> (report: DeviceReport)
        ensures
            report == report_of(*device, *outcome),
    {
        DeviceReport {
            name: device.name.clone(),
            mac_addr: device.mac_addr.clone(),
            ip_addr: device.ip_addr.clone(),
            outcome: outcome.clone(),
        }
    }
}

} // verus!
