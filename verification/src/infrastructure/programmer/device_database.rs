//! USB Device Database and Recognition System
//!
//! A database of known USB devices (especially WCH/QinHeng chips) that tells
//! a supported programmer from a chip in the wrong mode or an unrelated
//! device, with guidance for the user.

use vstd::prelude::*;

verus! {

/// USB Device Identification
#[derive(Debug, Clone, Copy, PartialEq, Eq)]
pub struct UsbDeviceId {
    pub vendor_id: u16,
    pub product_id: u16,
}

impl UsbDeviceId {
    pub fn new(vid: u16, pid: u16) -> (id: Self)
        ensures
            id == (UsbDeviceId { vendor_id: vid, product_id: pid }),
    {
        Self { vendor_id: vid, product_id: pid }
    }
}

/// Device compatibility status
#[derive(Debug, Clone, Copy, PartialEq, Eq)]
pub enum DeviceCompatibility {
    /// Fully supported and ready to use
    Supported,
    /// Device exists but in wrong mode (e.g., UART instead of SPI)
    WrongMode,
    /// Device from same manufacturer but different model
    RelatedDevice,
    /// Planned for future support
    PlannedSupport,
    /// Unknown device
    Unknown,
}

/// Device information entry
#[derive(Debug, Clone, Copy)]
pub struct DeviceInfo {
    pub id: UsbDeviceId,
    pub name: &'static str,
    pub description: &'static str,
    pub compatibility: DeviceCompatibility,
    pub help_message: Option<&'static str>,
}

/// The status indicator of a compatibility status.
pub open spec fn indicator_of(c: DeviceCompatibility) -> &'static str {
    match c {
        DeviceCompatibility::Supported => "✓",
        DeviceCompatibility::WrongMode => "⚠",
        DeviceCompatibility::RelatedDevice => "ℹ",
        DeviceCompatibility::PlannedSupport => "◐",
        DeviceCompatibility::Unknown => "?",
    }
}

/// The status text of a compatibility status.
pub open spec fn status_text(c: DeviceCompatibility) -> &'static str {
    match c {
        DeviceCompatibility::Supported => "Supported",
        DeviceCompatibility::WrongMode => "Wrong Mode",
        DeviceCompatibility::RelatedDevice => "Related Device",
        DeviceCompatibility::PlannedSupport => "Planned",
        DeviceCompatibility::Unknown => "Unknown",
    }
}

impl DeviceInfo {
    /// Get a user-friendly status indicator
    pub fn status_indicator(&self) -> (s: &'static str)
        ensures
            s == indicator_of(self.compatibility),
    {
        match self.compatibility {
            DeviceCompatibility::Supported => "✓",
            DeviceCompatibility::WrongMode => "⚠",
            DeviceCompatibility::RelatedDevice => "ℹ",
            DeviceCompatibility::PlannedSupport => "◐",
            DeviceCompatibility::Unknown => "?",
        }
    }

    /// Get the status text for terminal output
    pub fn status_description(&self) -> (s: String)
        ensures
            s@ == status_text(self.compatibility)@,
    {
        match self.compatibility {
            DeviceCompatibility::Supported => "Supported".to_string(),
            DeviceCompatibility::WrongMode => "Wrong Mode".to_string(),
            DeviceCompatibility::RelatedDevice => "Related Device".to_string(),
            DeviceCompatibility::PlannedSupport => "Planned".to_string(),
            DeviceCompatibility::Unknown => "Unknown".to_string(),
        }
    }
}

/// VID for WinChipHead / QinHeng Electronics
pub const WCH_VID: u16 = 0x1A86;

/// PID of a CH341A in SPI (programmer) mode.
pub const PID_CH341A_SPI: u16 = 0x5512;

/// PID of a CH347 in SPI mode.
pub const PID_CH347_SPI: u16 = 0x55DB;

/// What the database knows of the device `vid:pid`.
pub open spec fn device_info(vid: u16, pid: u16) -> DeviceInfo {
    let id = UsbDeviceId { vendor_id: vid, product_id: pid };
    if vid != WCH_VID {
        DeviceInfo {
            id,
            name: "Unknown Device",
            description: "Not a WCH/QinHeng device",
            compatibility: DeviceCompatibility::Unknown,
            help_message: None,
        }
    } else if pid == 0x5512 {
        DeviceInfo {
            id,
            name: "CH341A",
            description: "USB to SPI/I2C Bridge (Programmer Mode)",
            compatibility: DeviceCompatibility::Supported,
            help_message: Some("This is the correct mode for flash programming!"),
        }
    } else if pid == 0x5523 {
        DeviceInfo {
            id,
            name: "CH341",
            description: "USB to Serial Adapter (UART Mode)",
            compatibility: DeviceCompatibility::WrongMode,
            help_message: Some(CH341_UART_HELP),
        }
    } else if pid == 0x7523 {
        DeviceInfo {
            id,
            name: "CH340",
            description: "USB to Serial Adapter",
            compatibility: DeviceCompatibility::RelatedDevice,
            help_message: Some(CH340_HELP),
        }
    } else if pid == 0x55DB {
        DeviceInfo {
            id,
            name: "CH347",
            description: "USB to UART/I2C/SPI Bridge (High-Speed)",
            compatibility: DeviceCompatibility::Supported,
            help_message: Some(CH347_HELP),
        }
    } else if pid == 0x55DD {
        DeviceInfo {
            id,
            name: "CH347F",
            description: "USB to JTAG/SWD/UART Bridge",
            compatibility: DeviceCompatibility::RelatedDevice,
            help_message: Some(CH347F_HELP),
        }
    } else if pid == 0x55D2 || pid == 0x55D3 {
        DeviceInfo {
            id,
            name: "CH348",
            description: "USB to Multi-Serial Port",
            compatibility: DeviceCompatibility::RelatedDevice,
            help_message: Some(CH348_HELP),
        }
    } else if pid == 0x55D4 {
        DeviceInfo {
            id,
            name: "CH9102",
            description: "USB to Serial (Type-C)",
            compatibility: DeviceCompatibility::RelatedDevice,
            help_message: Some("CH9102 is a serial adapter, not a flash programmer."),
        }
    } else {
        DeviceInfo {
            id,
            name: "Unknown WCH Device",
            description: "WCH/QinHeng device with unknown PID",
            compatibility: DeviceCompatibility::Unknown,
            help_message: Some(UNKNOWN_WCH_HELP),
        }
    }
}

/// Help for a CH341 in UART mode.
pub const CH341_UART_HELP: &'static str =
    "⚠ Device is in UART mode, not SPI mode.\nSolutions:\n1. Check hardware jumper/switch on your CH341A board (look for SPI/UART or 0/1)\n2. Some boards require shorting specific pins to enter SPI mode\n3. Unplug device, change jumper, then replug USB\n4. After switching, the device should appear as PID 0x5512";

/// Help for a CH340.
pub const CH340_HELP: &'static str =
    "CH340 is a serial adapter, not a flash programmer.\nYou need a CH341A device in SPI mode (PID 0x5512).";

/// Help for a CH347.
pub const CH347_HELP: &'static str =
    "High-speed SPI bridge (up to 60MHz). This is the correct mode for flash programming!";

/// Help for a CH347F.
pub const CH347F_HELP: &'static str =
    "CH347F is primarily for JTAG/SWD debugging.\nFor flash programming, use CH341A (0x5512) or CH347 (0x55DB).";

/// Help for a CH348.
pub const CH348_HELP: &'static str =
    "CH348 is a multi-port serial adapter, not a flash programmer.\nYou need a CH341A (0x5512) or CH347 (0x55DB) for SPI flash operations.";

/// Help for a WCH device the database does not know.
pub const UNKNOWN_WCH_HELP: &'static str =
    "This is a WCH device, but not recognized by nander-rs.\nPlease report this on our GitHub issues with the device model.";

/// The programmers this tool drives.
pub open spec fn supported_ids() -> Seq<UsbDeviceId> {
    seq![
        UsbDeviceId { vendor_id: WCH_VID, product_id: PID_CH341A_SPI },
        UsbDeviceId { vendor_id: WCH_VID, product_id: PID_CH347_SPI },
    ]
}

/// WCH/QinHeng Device Database
pub struct WchDeviceDatabase;

impl WchDeviceDatabase {
    /// Get device information by VID:PID
    pub fn identify(vid: u16, pid: u16) -> (info: DeviceInfo)
        ensures
            info == device_info(vid, pid),
    {
        let id = UsbDeviceId::new(vid, pid);
        // Only handle WCH devices
        if vid != WCH_VID {
            return DeviceInfo {
                id,
                name: "Unknown Device",
                description: "Not a WCH/QinHeng device",
                compatibility: DeviceCompatibility::Unknown,
                help_message: None,
            };
        }
        // Match against known WCH PIDs

        if pid == 0x5512 {
            // ===== CH341 Series =====
            DeviceInfo {
                id,
                name: "CH341A",
                description: "USB to SPI/I2C Bridge (Programmer Mode)",
                compatibility: DeviceCompatibility::Supported,
                help_message: Some("This is the correct mode for flash programming!"),
            }
        } else if pid == 0x5523 {
            DeviceInfo {
                id,
                name: "CH341",
                description: "USB to Serial Adapter (UART Mode)",
                compatibility: DeviceCompatibility::WrongMode,
                help_message: Some(CH341_UART_HELP),
            }
        } else if pid == 0x7523 {
            DeviceInfo {
                id,
                name: "CH340",
                description: "USB to Serial Adapter",
                compatibility: DeviceCompatibility::RelatedDevice,
                help_message: Some(CH340_HELP),
            }
        } else if pid == 0x55DB {
            // ===== CH347 Series (High-Speed) =====
            DeviceInfo {
                id,
                name: "CH347",
                description: "USB to UART/I2C/SPI Bridge (High-Speed)",
                compatibility: DeviceCompatibility::Supported,
                help_message: Some(CH347_HELP),
            }
        } else if pid == 0x55DD {
            DeviceInfo {
                id,
                name: "CH347F",
                description: "USB to JTAG/SWD/UART Bridge",
                compatibility: DeviceCompatibility::RelatedDevice,
                help_message: Some(CH347F_HELP),
            }
        } else if pid == 0x55D2 || pid == 0x55D3 {
            // ===== CH348 Series =====
            DeviceInfo {
                id,
                name: "CH348",
                description: "USB to Multi-Serial Port",
                compatibility: DeviceCompatibility::RelatedDevice,
                help_message: Some(CH348_HELP),
            }
        } else if pid == 0x55D4 {
            // ===== CH9102/CH9103 Series (Modern Serial) =====
            DeviceInfo {
                id,
                name: "CH9102",
                description: "USB to Serial (Type-C)",
                compatibility: DeviceCompatibility::RelatedDevice,
                help_message: Some("CH9102 is a serial adapter, not a flash programmer."),
            }
        } else {
            // ===== Unknown WCH Device =====
            DeviceInfo {
                id,
                name: "Unknown WCH Device",
                description: "WCH/QinHeng device with unknown PID",
                compatibility: DeviceCompatibility::Unknown,
                help_message: Some(UNKNOWN_WCH_HELP),
            }
        }
    }

    /// Check if a device is a supported programmer
    pub fn is_supported_programmer(vid: u16, pid: u16) -> (b: bool)
        ensures
            b == (device_info(vid, pid).compatibility == DeviceCompatibility::Supported),
    {
        let info = Self::identify(vid, pid);
        matches!(info.compatibility, DeviceCompatibility::Supported)
    }

    /// Get all supported programmer IDs
    pub fn supported_programmers() -> (ids: Vec<UsbDeviceId>)
        ensures
            ids@ == supported_ids(),
    {
        let ids = vec![
            UsbDeviceId::new(WCH_VID, PID_CH341A_SPI),  // CH341A SPI Mode
            UsbDeviceId::new(WCH_VID, PID_CH347_SPI),  // CH347 SPI Mode
        ];
        assert(ids@ =~= supported_ids());
        ids
    }
}

/// A device is reported as a supported programmer exactly when its id is in
/// the list of supported programmers.
pub proof fn lemma_supported_iff_listed(vid: u16, pid: u16)
    ensures
        (device_info(vid, pid).compatibility == DeviceCompatibility::Supported) <==> supported_ids().contains(
            UsbDeviceId { vendor_id: vid, product_id: pid },
        ),
{
    let id = UsbDeviceId { vendor_id: vid, product_id: pid };
    if supported_ids().contains(id) {
        let i = choose|i: int| 0 <= i < supported_ids().len() && supported_ids()[i] == id;
        assert(i == 0 || i == 1);
    }
    if device_info(vid, pid).compatibility == DeviceCompatibility::Supported {
        if pid == PID_CH341A_SPI {
            assert(supported_ids()[0] == id);
        } else {
            assert(supported_ids()[1] == id);
        }
    }
}

/// The database describes every device by the id it was asked about.
pub proof fn lemma_identify_keeps_id(vid: u16, pid: u16)
    ensures
        device_info(vid, pid).id == (UsbDeviceId { vendor_id: vid, product_id: pid }),
{
}

} // verus!
