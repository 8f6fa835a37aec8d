//! The device resolver on synthetic registries.

use usbreset::error::UsbError;
use usbreset::ident::UsbDeviceIdentifier;
use usbreset::registry::{find_device, sysfs_attr, RegistryEntry, UsbDevFsEntry};

fn entry(
    busnum: Option<&str>,
    devnum: Option<&str>,
    id_vendor: Option<&str>,
    id_product: Option<&str>,
    product: Option<&str>,
) -> RegistryEntry {
    RegistryEntry {
        busnum: busnum.map(|s| s.as_bytes().to_vec()),
        devnum: devnum.map(|s| s.as_bytes().to_vec()),
        id_vendor: id_vendor.map(|s| s.as_bytes().to_vec()),
        id_product: id_product.map(|s| s.as_bytes().to_vec()),
        product: product.map(|s| s.as_bytes().to_vec()),
    }
}

#[test]
fn attr_trims_trailing_newline() {
    assert_eq!(sysfs_attr(b"5\n"), Some(5));
    assert_eq!(sysfs_attr(b"5\n\n"), Some(5));
    assert_eq!(sysfs_attr(b"12 \t\n"), Some(12));
}

#[test]
fn attr_rejects_other_shapes() {
    assert_eq!(sysfs_attr(b""), None);
    assert_eq!(sysfs_attr(b"\n"), None);
    assert_eq!(sysfs_attr(b" 5"), None);
    assert_eq!(sysfs_attr(b"5x"), None);
    assert_eq!(sysfs_attr(b"65536"), None);
    assert_eq!(sysfs_attr(b"65535"), Some(65535));
}

#[test]
fn bus_dev_first_match_skips_incomplete_entries() {
    let entries = vec![
        entry(None, None, None, None, None),
        entry(Some("2\n"), None, None, None, None),
        entry(Some("bad\n"), Some("5\n"), None, None, None),
        entry(Some("2\n"), Some("5\n"), None, None, Some("First\n")),
        entry(Some("2\n"), Some("5\n"), None, None, Some("Second\n")),
    ];
    let id = UsbDeviceIdentifier::BusDev { bus: 2, dev: 5 };
    assert_eq!(find_device(&id, &entries), Ok(UsbDevFsEntry { bus: 2, dev: 5 }));
}

#[test]
fn bus_dev_enumeration_order_not_numeric() {
    let entries = vec![
        entry(Some("3"), Some("7"), None, None, None),
        entry(Some("1"), Some("4"), None, None, None),
    ];
    let id = UsbDeviceIdentifier::BusDev { bus: 1, dev: 4 };
    assert_eq!(find_device(&id, &entries), Ok(UsbDevFsEntry { bus: 1, dev: 4 }));
}

#[test]
fn vendor_product_end_to_end() {
    let entries = vec![
        entry(Some("9"), Some("9"), None, None, None),
        entry(Some("2\n"), Some("5\n"), Some("1a2b\n"), Some("3c4d\n"), None),
    ];
    let id = UsbDeviceIdentifier::VendorProduct { vid: 0x1a2b, pid: 0x3c4d };
    assert_eq!(find_device(&id, &entries), Ok(UsbDevFsEntry { bus: 2, dev: 5 }));
}

#[test]
fn vendor_product_malformed_attribute_aborts() {
    let entries = vec![
        entry(Some("2"), Some("5"), Some("not-hex\n"), Some("3c4d\n"), None),
        entry(Some("3"), Some("6"), Some("1a2b\n"), Some("3c4d\n"), None),
    ];
    let id = UsbDeviceIdentifier::VendorProduct { vid: 0x1a2b, pid: 0x3c4d };
    assert_eq!(find_device(&id, &entries), Err(UsbError::InvalidData));
}

#[test]
fn vendor_product_missing_attribute_skips() {
    let entries = vec![
        entry(Some("2"), Some("5"), None, Some("3c4d"), None),
        entry(Some("3"), Some("6"), Some("1a2b"), Some("3c4d"), None),
    ];
    let id = UsbDeviceIdentifier::VendorProduct { vid: 0x1a2b, pid: 0x3c4d };
    assert_eq!(find_device(&id, &entries), Ok(UsbDevFsEntry { bus: 3, dev: 6 }));
}

#[test]
fn product_name_end_to_end() {
    let entries = vec![
        entry(Some("1"), Some("2"), None, None, None),
        entry(Some("4"), Some("9"), None, None, Some("MyWidget\n")),
    ];
    let id = UsbDeviceIdentifier::ProductName(b"MyWidget".to_vec());
    assert_eq!(find_device(&id, &entries), Ok(UsbDevFsEntry { bus: 4, dev: 9 }));
}

#[test]
fn product_name_no_match_is_not_found() {
    let entries = vec![
        entry(Some("1"), Some("2"), None, None, Some("OtherWidget\n")),
        entry(Some("4"), Some("9"), None, None, None),
    ];
    let id = UsbDeviceIdentifier::ProductName(b"MyWidget".to_vec());
    assert_eq!(find_device(&id, &entries), Err(UsbError::NotFound));
}

#[test]
fn no_matching_entry_is_not_found() {
    let entries = vec![
        entry(Some("1"), Some("2"), Some("1111"), Some("2222"), Some("A")),
        entry(Some("3"), Some("4"), Some("3333"), Some("4444"), Some("B")),
    ];
    let id = UsbDeviceIdentifier::BusDev { bus: 7, dev: 7 };
    assert_eq!(find_device(&id, &entries), Err(UsbError::NotFound));
}

#[test]
fn empty_registry_is_not_found() {
    let id = UsbDeviceIdentifier::BusDev { bus: 1, dev: 1 };
    assert_eq!(find_device(&id, &[]), Err(UsbError::NotFound));
}
