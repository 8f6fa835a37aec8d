//! The identifier parser on concrete arguments.

use usbreset::error::UsbError;
use usbreset::ident::{parse_args, parse_identifier, UsbDeviceIdentifier};

fn parse(s: &str) -> Result<UsbDeviceIdentifier, UsbError> {
    parse_identifier(s.as_bytes())
}

#[test]
fn bus_dev_plain() {
    assert_eq!(parse("2/5"), Ok(UsbDeviceIdentifier::BusDev { bus: 2, dev: 5 }));
}

#[test]
fn bus_dev_multi_digit() {
    assert_eq!(parse("12/345"), Ok(UsbDeviceIdentifier::BusDev { bus: 12, dev: 345 }));
}

#[test]
fn bus_dev_largest() {
    assert_eq!(
        parse("65535/65535"),
        Ok(UsbDeviceIdentifier::BusDev { bus: 65535, dev: 65535 })
    );
}

#[test]
fn bus_dev_too_large_is_name() {
    assert_eq!(
        parse("65536/1"),
        Ok(UsbDeviceIdentifier::ProductName(b"65536/1".to_vec()))
    );
    assert_eq!(
        parse("1/70000"),
        Ok(UsbDeviceIdentifier::ProductName(b"1/70000".to_vec()))
    );
}

#[test]
fn bus_dev_non_numeric_is_name() {
    assert_eq!(parse("a/b"), Ok(UsbDeviceIdentifier::ProductName(b"a/b".to_vec())));
    assert_eq!(
        parse("1/2/3"),
        Ok(UsbDeviceIdentifier::ProductName(b"1/2/3".to_vec()))
    );
    assert_eq!(parse("5/"), Ok(UsbDeviceIdentifier::ProductName(b"5/".to_vec())));
    assert_eq!(parse("/5"), Ok(UsbDeviceIdentifier::ProductName(b"/5".to_vec())));
}

#[test]
fn vendor_product_plain() {
    assert_eq!(
        parse("1a2b:3c4d"),
        Ok(UsbDeviceIdentifier::VendorProduct { vid: 0x1a2b, pid: 0x3c4d })
    );
}

#[test]
fn vendor_product_upper_case() {
    assert_eq!(
        parse("1A2B:3C4D"),
        Ok(UsbDeviceIdentifier::VendorProduct { vid: 0x1a2b, pid: 0x3c4d })
    );
}

#[test]
fn vendor_product_short_segments() {
    assert_eq!(
        parse("5:f"),
        Ok(UsbDeviceIdentifier::VendorProduct { vid: 5, pid: 15 })
    );
}

#[test]
fn vendor_product_non_hex_fails() {
    assert_eq!(parse("zz:11"), Err(UsbError::InvalidData));
    assert_eq!(parse("11:zz"), Err(UsbError::InvalidData));
}

#[test]
fn vendor_product_too_large_fails() {
    assert_eq!(parse("12345:1"), Err(UsbError::InvalidData));
}

#[test]
fn vendor_product_second_colon_in_half_fails() {
    assert_eq!(parse("a:b:c"), Err(UsbError::InvalidData));
}

#[test]
fn product_name_plain() {
    assert_eq!(
        parse("MyWidget"),
        Ok(UsbDeviceIdentifier::ProductName(b"MyWidget".to_vec()))
    );
}

#[test]
fn product_name_with_edge_colon() {
    assert_eq!(
        parse(":abc"),
        Ok(UsbDeviceIdentifier::ProductName(b":abc".to_vec()))
    );
    assert_eq!(
        parse("abc:"),
        Ok(UsbDeviceIdentifier::ProductName(b"abc:".to_vec()))
    );
}

#[test]
fn product_name_empty() {
    assert_eq!(parse(""), Ok(UsbDeviceIdentifier::ProductName(Vec::new())));
}

#[test]
fn no_argument_is_invalid_input() {
    assert_eq!(parse_args(&Vec::new()), Err(UsbError::InvalidInput));
}

#[test]
fn first_argument_is_parsed() {
    let args = vec![b"2/5".to_vec(), b"ignored".to_vec()];
    assert_eq!(
        parse_args(&args),
        Ok(UsbDeviceIdentifier::BusDev { bus: 2, dev: 5 })
    );
}
