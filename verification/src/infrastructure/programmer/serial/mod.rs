//! Serial/UART support for the console: which USB device serves as the
//! serial port, and the register settings of the CH340 UART.
//!
//! The USB transport lives with the application.

pub mod ch340;
pub mod ch347;

use vstd::prelude::*;

use crate::infrastructure::programmer::device_database::UsbDeviceId;

verus! {

/// WCH vendor ID of the CH340 family.
pub const CH340_VID: u16 = 0x1A86;

/// CH340/CH340G product ID.
pub const CH340_PID: u16 = 0x7523;

/// CH340K product ID.
pub const CH340K_PID: u16 = 0x5523;

/// CH340N product ID.
pub const CH340N_PID: u16 = 0x5584;

/// CH341 in UART mode.
pub const CH341_UART_PID: u16 = 0x5523;

/// WCH vendor ID of the CH347.
pub const CH347_VID: u16 = 0x1A86;

/// CH347 product ID.
pub const CH347_PID: u16 = 0x55DB;

/// The serial port drivers.
#[derive(Debug, Clone, Copy, PartialEq, Eq)]
pub enum SerialKind {
    /// CH347 UART (interface 0).
    Ch347,
    /// CH340 family, and the CH341 in UART mode.
    Ch340,
}

/// `id` is a CH347.
pub open spec fn is_ch347(id: UsbDeviceId) -> bool {
    id.vendor_id == CH347_VID && id.product_id == CH347_PID
}

/// `id` is a CH340 (G, K or N).
pub open spec fn is_ch340(id: UsbDeviceId) -> bool {
    id.vendor_id == CH340_VID && (id.product_id == CH340_PID || id.product_id == CH340K_PID
        || id.product_id == CH340N_PID)
}

/// `id` is a CH341 in UART mode.
pub open spec fn is_ch341_uart(id: UsbDeviceId) -> bool {
    id.vendor_id == CH340_VID && id.product_id == CH341_UART_PID
}

/// The three kinds of device looked for, in order of preference.
#[derive(Debug, Clone, Copy, PartialEq, Eq)]
pub enum SerialModel {
    Ch347,
    Ch340,
    Ch341Uart,
}

/// `id` is a device of `model`.
pub open spec fn is_model(model: SerialModel, id: UsbDeviceId) -> bool {
    match model {
        SerialModel::Ch347 => is_ch347(id),
        SerialModel::Ch340 => is_ch340(id),
        SerialModel::Ch341Uart => is_ch341_uart(id),
    }
}

/// `i` is the first index of `ids` holding a device of `model`.
pub open spec fn first_of(ids: Seq<UsbDeviceId>, model: SerialModel, i: int) -> bool {
    &&& 0 <= i < ids.len()
    &&& is_model(model, ids[i])
    &&& forall|j: int| 0 <= j < i ==> !is_model(model, #[trigger] ids[j])
}

/// No device of `ids` is of `model`.
pub open spec fn none_of(ids: Seq<UsbDeviceId>, model: SerialModel) -> bool {
    forall|j: int| 0 <= j < ids.len() ==> !is_model(model, #[trigger] ids[j])
}

/// Index of the first device of `ids` of `model`.
fn find_first(ids: &[UsbDeviceId], model: SerialModel) -> (r: Option<usize>)
    ensures
        r matches Some(i) ==> first_of(ids@, model, i as int),
        r is None ==> none_of(ids@, model),
{
    let mut i: usize = 0;
    while i < ids.len()
        invariant
            i <= ids@.len(),
            forall|j: int| 0 <= j < i ==> !is_model(model, #[trigger] ids@[j]),
        decreases ids@.len() - i,
    {
        let id = ids[i];
        let hit = match model {
            SerialModel::Ch347 => id.vendor_id == CH347_VID && id.product_id == CH347_PID,
            SerialModel::Ch340 => id.vendor_id == CH340_VID && (id.product_id == CH340_PID
                || id.product_id == CH340K_PID || id.product_id == CH340N_PID),
            SerialModel::Ch341Uart => id.vendor_id == CH340_VID && id.product_id == CH341_UART_PID,
        };
        if hit {
            return Some(i);
        }
        i = i + 1;
    }
    None
}

/// Choose the serial device among the USB devices `devices` found by a scan:
/// the first CH347, else the first CH340, else the first CH341 in UART mode
/// (which the CH340 driver serves).
pub fn discover_serial(devices: &[UsbDeviceId]) -> (r: Option<(usize, SerialKind)>)
    ensures
        r matches Some((i, k)) ==> match k {
            SerialKind::Ch347 => first_of(devices@, SerialModel::Ch347, i as int),
            SerialKind::Ch340 => none_of(devices@, SerialModel::Ch347) && (first_of(
                devices@,
                SerialModel::Ch340,
                i as int,
            ) || (none_of(devices@, SerialModel::Ch340) && first_of(
                devices@,
                SerialModel::Ch341Uart,
                i as int,
            ))),
        },
        r is None <==> (none_of(devices@, SerialModel::Ch347) && none_of(
            devices@,
            SerialModel::Ch340,
        ) && none_of(devices@, SerialModel::Ch341Uart)),
{
    if let Some(i) = find_first(devices, SerialModel::Ch347) {
        return Some((i, SerialKind::Ch347));
    }
    if let Some(i) = find_first(devices, SerialModel::Ch340) {
        return Some((i, SerialKind::Ch340));
    }
    if let Some(i) = find_first(devices, SerialModel::Ch341Uart) {
        return Some((i, SerialKind::Ch340));
    }
    None
}

} // verus!
