//! Programmers: the programmer interface, USB bridge command builders,
//! simulated programmers, and the choice of the programmer to open.

pub mod ch341a;
pub mod ch347;
pub mod device_database;
pub mod frames;
pub mod ftdi;
pub mod mock;
pub mod serial;
pub mod simulator;
pub mod spidev;
pub mod traits;
pub mod usb;

pub use device_database::{DeviceCompatibility, DeviceInfo, WchDeviceDatabase};
pub use traits::Programmer;

use vstd::prelude::*;

use device_database::{device_info, UsbDeviceId, PID_CH341A_SPI, WCH_VID};

verus! {

/// The USB programmers this library can drive.
#[derive(Debug, Clone, Copy, PartialEq, Eq)]
pub enum ProgrammerKind {
    Ch341a,
    Ch347,
}

/// What a scan of the USB devices found.
#[derive(Debug, Clone, Copy, PartialEq, Eq)]
pub enum Discovery {
    /// The device at `index` of the scan is a supported programmer of `kind`.
    Found { index: usize, kind: ProgrammerKind },
    /// No USB devices at all.
    NoUsbDevices,
    /// WCH devices were present, none of them in a supported mode.
    WchNotSupported,
    /// Only other devices (`others` of them) were present.
    NoWchProgrammer { others: usize },
}

/// The database reports `id` as a supported programmer.
pub open spec fn is_supported(id: UsbDeviceId) -> bool {
    device_info(id.vendor_id, id.product_id).compatibility == DeviceCompatibility::Supported
}

/// Number of WCH devices among `ids`.
pub open spec fn wch_count(ids: Seq<UsbDeviceId>) -> nat
    decreases ids.len(),
{
    if ids.len() == 0 {
        0
    } else {
        wch_count(ids.drop_last()) + if ids.last().vendor_id == WCH_VID {
            1nat
        } else {
            0nat
        }
    }
}

/// Choose the programmer to open among the USB devices `devices` found by a
/// scan: the first one the device database reports as supported (a CH341A
/// in SPI mode or a CH347), or the reason why none can be used.
pub fn discover(devices: &[UsbDeviceId]) -> (d: Discovery)
    ensures
        d matches Discovery::Found { index, kind } ==> {
            &&& index < devices@.len()
            &&& is_supported(devices@[index as int])
            &&& forall|j: int| 0 <= j < index ==> !#[trigger] is_supported(devices@[j])
            &&& kind == if devices@[index as int].product_id == PID_CH341A_SPI {
                ProgrammerKind::Ch341a
            } else {
                ProgrammerKind::Ch347
            }
        },
        !(d is Found) ==> forall|j: int| 0 <= j < devices@.len() ==> !#[trigger] is_supported(devices@[j]),
        d is NoUsbDevices <==> devices@.len() == 0,
        d is WchNotSupported <==> (!(d is Found) && wch_count(devices@) > 0),
        d matches Discovery::NoWchProgrammer { others } ==> others == devices@.len() && wch_count(devices@) == 0,
{
    let mut i: usize = 0;
    let mut wch: usize = 0;
    while i < devices.len()
        invariant
            i <= devices@.len(),
            wch == wch_count(devices@.take(i as int)),
            wch <= i,
            forall|j: int| 0 <= j < i ==> !#[trigger] is_supported(devices@[j]),
        decreases devices@.len() - i,
    {
        let id = devices[i];
        assert(devices@.take(i + 1).drop_last() =~= devices@.take(i as int));
        let info = WchDeviceDatabase::identify(id.vendor_id, id.product_id);
        if matches!(info.compatibility, DeviceCompatibility::Supported) {
            let kind = if id.product_id == PID_CH341A_SPI {
                ProgrammerKind::Ch341a
            } else {
                ProgrammerKind::Ch347
            };
            return Discovery::Found { index: i, kind };
        }
        if id.vendor_id == WCH_VID {
            wch = wch + 1;
        }
        i = i + 1;
    }
    assert(devices@.take(i as int) =~= devices@);
    if devices.len() == 0 {
        Discovery::NoUsbDevices
    } else if wch > 0 {
        Discovery::WchNotSupported
    } else {
        Discovery::NoWchProgrammer { others: devices.len() }
    }
}

} // verus!
