//! The identifier parser: a raw argument names a device either by bus and
//! device number (`bus/dev`, decimal), by vendor and product ID
//! (`vid:pid`, hexadecimal), or, failing both, by its literal product
//! name.
//!
//! The matching order is a precedence policy: the `bus/dev` shape is
//! tried first, then the `vid:pid` shape, and only a string that fits
//! neither is taken as a product name. Each shape splits at the first
//! occurrence of its separator and asks for two non-empty halves; the
//! numeric segments are bare digit runs, with no sign and no blanks. A
//! `bus/dev` candidate whose halves are not both decimal 16-bit numbers
//! simply falls through to the next shape, while a `vid:pid` candidate
//! whose halves are not both hexadecimal 16-bit numbers is an error, not
//! a product name.

use vstd::prelude::*;

use crate::error::UsbError;
use crate::text::{
    all_dec_digits, dec_val, find_byte, find_first, hex_val, is_dec_digit, is_dec_u16, is_hex_digit,
    is_hex_u16, parse_u16_dec, parse_u16_hex,
};
use vstd::slice::{slice_subrange, slice_to_vec};

verus! {

/// The byte `'/'`, separating bus from device number.
pub const SLASH_BYTE: u8 = 47;

/// The byte `':'`, separating vendor from product ID.
pub const COLON_BYTE: u8 = 58;

/// A parsed device identifier; exactly one of the three shapes.
#[derive(Debug, PartialEq, Eq)]
pub enum UsbDeviceIdentifier {
    /// Enumeration-assigned bus and device numbers.
    BusDev { bus: u16, dev: u16 },
    /// USB vendor and product IDs.
    VendorProduct { vid: u16, pid: u16 },
    /// The advertised product-name string, matched literally.
    ProductName(Vec<u8>),
}

/// The mathematical shape of an identifier, with the name as a byte
/// sequence.
pub enum IdentView {
    BusDev { bus: u16, dev: u16 },
    VendorProduct { vid: u16, pid: u16 },
    ProductName(Seq<u8>),
}

impl View for UsbDeviceIdentifier {
    type V = IdentView;

    open spec fn view(&self) -> IdentView {
        match self {
            UsbDeviceIdentifier::BusDev { bus, dev } => IdentView::BusDev { bus: *bus, dev: *dev },
            UsbDeviceIdentifier::VendorProduct { vid, pid } => IdentView::VendorProduct {
                vid: *vid,
                pid: *pid,
            },
            UsbDeviceIdentifier::ProductName(name) => IdentView::ProductName(name@),
        }
    }
}

/// Whether `s` fits the `bus/dev` shape: split at the first `'/'`, both
/// halves decimal 16-bit numbers.
pub open spec fn bus_dev_match(s: Seq<u8>) -> bool {
    match find_byte(s, SLASH_BYTE) {
        Some(i) => is_dec_u16(s.take(i)) && is_dec_u16(s.skip(i + 1)),
        None => false,
    }
}

/// Where the `vid:pid` shape splits `s`: at the first `':'`, and only
/// with a non-empty half on each side.
pub open spec fn colon_split(s: Seq<u8>) -> Option<int> {
    match find_byte(s, COLON_BYTE) {
        Some(i) => if 0 < i && i + 1 < s.len() {
            Some(i)
        } else {
            None
        },
        None => None,
    }
}

/// What parsing yields once the `bus/dev` shape has failed: a vendor and
/// product ID when the `vid:pid` shape fits, an error when it fits in
/// outline but a half is not hexadecimal, and otherwise the whole string
/// as a product name.
pub open spec fn parse_colon_or_name(s: Seq<u8>) -> Result<IdentView, UsbError> {
    match colon_split(s) {
        Some(i) => if is_hex_u16(s.take(i)) && is_hex_u16(s.skip(i + 1)) {
            Ok(
                IdentView::VendorProduct {
                    vid: hex_val(s.take(i)) as u16,
                    pid: hex_val(s.skip(i + 1)) as u16,
                },
            )
        } else {
            Err(UsbError::InvalidData)
        },
        None => Ok(IdentView::ProductName(s)),
    }
}

/// What parsing the raw argument `s` yields.
pub open spec fn parse_ident(s: Seq<u8>) -> Result<IdentView, UsbError> {
    match find_byte(s, SLASH_BYTE) {
        Some(i) => if is_dec_u16(s.take(i)) && is_dec_u16(s.skip(i + 1)) {
            Ok(
                IdentView::BusDev {
                    bus: dec_val(s.take(i)) as u16,
                    dev: dec_val(s.skip(i + 1)) as u16,
                },
            )
        } else {
            parse_colon_or_name(s)
        },
        None => parse_colon_or_name(s),
    }
}

/// Parse a raw argument into a device identifier.
pub fn parse_identifier(arg: &[u8]) -> (r: Result<UsbDeviceIdentifier, UsbError>)
    ensures
        match r {
            Ok(id) => parse_ident(arg@) == Ok::<IdentView, UsbError>(id@),
            Err(e) => parse_ident(arg@) == Err::<IdentView, UsbError>(e),
        },
{
    let n = arg.len();
    if let Some(i) = find_first(arg, SLASH_BYTE) {
        proof {
            crate::text::lemma_find_byte(arg@, SLASH_BYTE);
        }
        assert(i < n);
        let left = parse_u16_dec(slice_subrange(arg, 0, i));
        let right = parse_u16_dec(slice_subrange(arg, i + 1, n));
        if let (Some(bus), Some(dev)) = (left, right) {
            return Ok(UsbDeviceIdentifier::BusDev { bus, dev });
        }
    }
    if let Some(i) = find_first(arg, COLON_BYTE) {
        proof {
            crate::text::lemma_find_byte(arg@, COLON_BYTE);
        }
        assert(i < n);
        if 0 < i && i + 1 < n {
            let left = parse_u16_hex(slice_subrange(arg, 0, i));
            let right = parse_u16_hex(slice_subrange(arg, i + 1, n));
            return match (left, right) {
                (Some(vid), Some(pid)) => Ok(UsbDeviceIdentifier::VendorProduct { vid, pid }),
                _ => Err(UsbError::InvalidData),
            };
        }
    }
    Ok(UsbDeviceIdentifier::ProductName(slice_to_vec(arg)))
}

/// Every well-formed `bus/dev` string parses to exactly those two
/// numbers: two decimal 16-bit halves around a `'/'` yield `BusDev`.
pub proof fn lemma_parse_bus_dev(s1: Seq<u8>, s2: Seq<u8>)
    requires
        is_dec_u16(s1),
        is_dec_u16(s2),
    ensures
        parse_ident(s1 + seq![SLASH_BYTE] + s2) == Ok::<IdentView, UsbError>(
            IdentView::BusDev { bus: dec_val(s1) as u16, dev: dec_val(s2) as u16 },
        ),
{
    let s = s1 + seq![SLASH_BYTE] + s2;
    crate::text::lemma_find_byte_concat(s1, s2, SLASH_BYTE);
    assert(s.take(s1.len() as int) =~= s1);
    assert(s.skip(s1.len() as int + 1) =~= s2);
}

/// A `bus/dev`-shaped string whose halves are digits but do not both fit
/// in 16 bits does not parse as `BusDev`; it falls through and is taken
/// as a product name.
pub proof fn lemma_parse_bus_dev_too_large(s1: Seq<u8>, s2: Seq<u8>)
    requires
        s1.len() > 0,
        s2.len() > 0,
        all_dec_digits(s1),
        all_dec_digits(s2),
        dec_val(s1) > 0xFFFF || dec_val(s2) > 0xFFFF,
    ensures
        parse_ident(s1 + seq![SLASH_BYTE] + s2) == Ok::<IdentView, UsbError>(
            IdentView::ProductName(s1 + seq![SLASH_BYTE] + s2),
        ),
{
    let s = s1 + seq![SLASH_BYTE] + s2;
    crate::text::lemma_find_byte_concat(s1, s2, SLASH_BYTE);
    assert(s.take(s1.len() as int) =~= s1);
    assert(s.skip(s1.len() as int + 1) =~= s2);
    assert forall|i: int| 0 <= i < s.len() implies s[i] != COLON_BYTE by {
        if i < s1.len() {
            assert(is_dec_digit(s1[i]));
        } else if i > s1.len() {
            assert(s[i] == s2[i - s1.len() - 1]);
            assert(is_dec_digit(s2[i - s1.len() - 1]));
        }
    }
    crate::text::lemma_find_byte_absent(s, COLON_BYTE);
}

/// Every well-formed `vid:pid` string parses to exactly those two
/// numbers: two hexadecimal 16-bit halves around a `':'` yield
/// `VendorProduct`.
pub proof fn lemma_parse_vendor_product(s1: Seq<u8>, s2: Seq<u8>)
    requires
        is_hex_u16(s1),
        is_hex_u16(s2),
    ensures
        parse_ident(s1 + seq![COLON_BYTE] + s2) == Ok::<IdentView, UsbError>(
            IdentView::VendorProduct { vid: hex_val(s1) as u16, pid: hex_val(s2) as u16 },
        ),
{
    let s = s1 + seq![COLON_BYTE] + s2;
    assert forall|i: int| 0 <= i < s.len() implies s[i] != SLASH_BYTE by {
        if i < s1.len() {
            assert(is_hex_digit(s1[i]));
        } else if i > s1.len() {
            assert(s[i] == s2[i - s1.len() - 1]);
            assert(is_hex_digit(s2[i - s1.len() - 1]));
        }
    }
    crate::text::lemma_find_byte_absent(s, SLASH_BYTE);
    assert forall|i: int| 0 <= i < s1.len() implies s1[i] != COLON_BYTE by {
        assert(is_hex_digit(s1[i]));
    }
    crate::text::lemma_find_byte_concat(s1, s2, COLON_BYTE);
    assert(s.take(s1.len() as int) =~= s1);
    assert(s.skip(s1.len() as int + 1) =~= s2);
}

/// A `vid:pid`-shaped string with two non-empty halves, either of which
/// is not a hexadecimal 16-bit number, is an error, not a product name.
pub proof fn lemma_parse_vendor_product_bad_hex(s1: Seq<u8>, s2: Seq<u8>)
    requires
        s1.len() > 0,
        s2.len() > 0,
        forall|i: int| 0 <= i < s1.len() ==> s1[i] != SLASH_BYTE && s1[i] != COLON_BYTE,
        forall|i: int| 0 <= i < s2.len() ==> s2[i] != SLASH_BYTE,
        !(is_hex_u16(s1) && is_hex_u16(s2)),
    ensures
        parse_ident(s1 + seq![COLON_BYTE] + s2) == Err::<IdentView, UsbError>(
            UsbError::InvalidData,
        ),
{
    let s = s1 + seq![COLON_BYTE] + s2;
    assert forall|i: int| 0 <= i < s.len() implies s[i] != SLASH_BYTE by {
        if i > s1.len() {
            assert(s[i] == s2[i - s1.len() - 1]);
        }
    }
    crate::text::lemma_find_byte_absent(s, SLASH_BYTE);
    crate::text::lemma_find_byte_concat(s1, s2, COLON_BYTE);
    assert(s.take(s1.len() as int) =~= s1);
    assert(s.skip(s1.len() as int + 1) =~= s2);
}

/// A string that fits neither the `bus/dev` shape nor the `vid:pid`
/// outline is taken whole as a literal product name.
pub proof fn lemma_parse_product_name(s: Seq<u8>)
    requires
        !bus_dev_match(s),
        colon_split(s) == None::<int>,
    ensures
        parse_ident(s) == Ok::<IdentView, UsbError>(IdentView::ProductName(s)),
{
}

/// Parse the argument list: the first argument is the identifier, and an
/// empty list is refused.
pub fn parse_args(args: &Vec<Vec<u8>>) -> (r: Result<UsbDeviceIdentifier, UsbError>)
    ensures
        args@.len() == 0 ==> r == Err::<UsbDeviceIdentifier, UsbError>(UsbError::InvalidInput),
        args@.len() > 0 ==> match r {
            Ok(id) => parse_ident(args@[0]@) == Ok::<IdentView, UsbError>(id@),
            Err(e) => parse_ident(args@[0]@) == Err::<IdentView, UsbError>(e),
        },
{
    if args.len() == 0 {
        return Err(UsbError::InvalidInput);
    }
    parse_identifier(args[0].as_slice())
}

} // verus!
