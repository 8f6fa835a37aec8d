//! The reset invoker's computable parts on concrete values.

use usbreset::error::UsbError;
use usbreset::registry::{RegistryEntry, UsbDevFsEntry};
use usbreset::reset::{control_path, reset_outcome, USBDEVFS_RESET};

#[test]
fn reset_code_matches_fixed_encoding() {
    // 'U' (85) in bits 8..16 and command number 20 in the low bits.
    assert_eq!(USBDEVFS_RESET, 0x5514);
}

#[test]
fn control_path_is_zero_padded() {
    let d = UsbDevFsEntry { bus: 2, dev: 5 };
    assert_eq!(control_path(&d), b"/dev/bus/usb/002/005".to_vec());
}

#[test]
fn control_path_wide_numbers() {
    let d = UsbDevFsEntry { bus: 123, dev: 4567 };
    assert_eq!(control_path(&d), b"/dev/bus/usb/123/4567".to_vec());
    let d = UsbDevFsEntry { bus: 65535, dev: 0 };
    assert_eq!(control_path(&d), b"/dev/bus/usb/65535/000".to_vec());
}

#[test]
fn resolved_device_to_control_path() {
    // An identifier resolved against the registry leads to the control
    // node of exactly that entry's bus and device numbers.
    let entries = vec![RegistryEntry {
        busnum: Some(b"2\n".to_vec()),
        devnum: Some(b"5\n".to_vec()),
        id_vendor: Some(b"1a2b\n".to_vec()),
        id_product: Some(b"3c4d\n".to_vec()),
        product: None,
    }];
    let id = usbreset::ident::UsbDeviceIdentifier::VendorProduct { vid: 0x1a2b, pid: 0x3c4d };
    let dev = usbreset::registry::find_device(&id, &entries).unwrap();
    assert_eq!(dev, UsbDevFsEntry { bus: 2, dev: 5 });
    assert_eq!(control_path(&dev), b"/dev/bus/usb/002/005".to_vec());
}

#[test]
fn reset_status_zero_succeeds() {
    assert_eq!(reset_outcome(0), Ok(()));
}

#[test]
fn reset_status_nonzero_carries_value() {
    assert_eq!(reset_outcome(-1), Err(UsbError::Other(-1)));
    assert_eq!(reset_outcome(16), Err(UsbError::Other(16)));
}
