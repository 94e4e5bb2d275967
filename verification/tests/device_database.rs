use nander_rs::infrastructure::programmer::device_database::{
    DeviceCompatibility, WchDeviceDatabase,
};

#[test]
fn test_ch341a_spi_mode() {
    let info = WchDeviceDatabase::identify(0x1A86, 0x5512);
    assert_eq!(info.compatibility, DeviceCompatibility::Supported);
    assert_eq!(info.name, "CH341A");
}

#[test]
fn test_ch341_uart_mode() {
    let info = WchDeviceDatabase::identify(0x1A86, 0x5523);
    assert_eq!(info.compatibility, DeviceCompatibility::WrongMode);
    assert!(info.help_message.is_some());
}

#[test]
fn test_ch347_supported() {
    let info = WchDeviceDatabase::identify(0x1A86, 0x55DB);
    assert_eq!(info.compatibility, DeviceCompatibility::Supported);
    assert_eq!(info.name, "CH347");
}

#[test]
fn test_non_wch_device() {
    let info = WchDeviceDatabase::identify(0x0000, 0x0000);
    assert_eq!(info.compatibility, DeviceCompatibility::Unknown);
}

#[test]
fn supported_exactly_when_listed() {
    let listed = WchDeviceDatabase::supported_programmers();
    assert_eq!(listed.len(), 2);
    for (vid, pid) in [(0x1A86u16, 0x5512u16), (0x1A86, 0x55DB), (0x1A86, 0x5523), (0x1A86, 0x7523), (0x0403, 0x6014), (0, 0)] {
        let in_list = listed.iter().any(|id| id.vendor_id == vid && id.product_id == pid);
        assert_eq!(WchDeviceDatabase::is_supported_programmer(vid, pid), in_list);
        let info = WchDeviceDatabase::identify(vid, pid);
        assert_eq!((info.id.vendor_id, info.id.product_id), (vid, pid));
    }
}
