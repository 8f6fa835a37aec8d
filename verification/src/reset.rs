//! The reset invoker's computable parts: the fixed reset command code
//! and the control-node path for a resolved device. Opening that node
//! and issuing the command are operating-system calls and stay with the
//! surrounding program; the verdict on the returned status is decided
//! here.

use vstd::prelude::*;

use crate::error::UsbError;
use crate::registry::UsbDevFsEntry;
use crate::text::{all_dec_digits, dec_digit_val, dec_val};

verus! {

/// The fixed reset control command, a 32-bit ioctl encoding: direction
/// "no data transfer" (0) in the two top bits, a zero size field in bits
/// 16..30, the command family tag `'U'` (ASCII 85) in bits 8..16, and
/// command number 20 in the low bits.
pub const USBDEVFS_RESET: u32 = (0u32 << 30) | (0u32 << 16) | (85u32 << 8) | (20u32 << 0);

/// The device-control root `"/dev/bus/usb/"`, as bytes.
pub open spec fn dev_root() -> Seq<u8> {
    seq![47u8, 100, 101, 118, 47, 98, 117, 115, 47, 117, 115, 98, 47]
}

/// The decimal digit byte of rank `p` in `n`: `p` is 1, 10, 100 and so
/// on.
pub open spec fn digit_at(n: u16, p: u16) -> u8 {
    (48 + (n / p) % 10) as u8
}

/// `n` written in decimal, zero-padded on the left to at least three
/// digits.
pub open spec fn padded3(n: u16) -> Seq<u8> {
    if n >= 10000 {
        seq![
            digit_at(n, 10000),
            digit_at(n, 1000),
            digit_at(n, 100),
            digit_at(n, 10),
            digit_at(n, 1),
        ]
    } else if n >= 1000 {
        seq![digit_at(n, 1000), digit_at(n, 100), digit_at(n, 10), digit_at(n, 1)]
    } else {
        seq![digit_at(n, 100), digit_at(n, 10), digit_at(n, 1)]
    }
}

/// The control-node path of a device: the three-digit bus and device
/// numbers under the device-control root.
pub open spec fn control_path_of(bus: u16, dev: u16) -> Seq<u8> {
    dev_root() + padded3(bus) + seq![47u8] + padded3(dev)
}

fn push_padded3(out: &mut Vec<u8>, n: u16)
    ensures
        final(out)@ == old(out)@ + padded3(n),
{
    if n >= 10000 {
        out.push(48 + ((n / 10000) % 10) as u8);
    }
    if n >= 1000 {
        out.push(48 + ((n / 1000) % 10) as u8);
    }
    out.push(48 + ((n / 100) % 10) as u8);
    out.push(48 + ((n / 10) % 10) as u8);
    out.push(48 + (n % 10) as u8);
    proof {
        assert(out@ =~= old(out)@ + padded3(n));
    }
}

/// The path of the device's control node, as bytes.
pub fn control_path(usbdev: &UsbDevFsEntry) -> (r: Vec<u8>)
    ensures
        r@ == control_path_of(usbdev.bus, usbdev.dev),
{
    let mut out: Vec<u8> = Vec::new();
    // "/dev/bus/usb/"
    out.push(47);
    out.push(100);
    out.push(101);
    out.push(118);
    out.push(47);
    out.push(98);
    out.push(117);
    out.push(115);
    out.push(47);
    out.push(117);
    out.push(115);
    out.push(98);
    out.push(47);
    proof {
        assert(out@ =~= dev_root());
    }
    push_padded3(&mut out, usbdev.bus);
    out.push(47);
    push_padded3(&mut out, usbdev.dev);
    proof {
        assert(out@ =~= control_path_of(usbdev.bus, usbdev.dev));
    }
    out
}

/// The verdict on the status the reset control call returned: zero is
/// success, and any other status is surfaced with its raw value.
pub fn reset_outcome(status: i32) -> (r: Result<(), UsbError>)
    ensures
        status == 0 ==> r == Ok::<(), UsbError>(()),
        status != 0 ==> r == Err::<(), UsbError>(UsbError::Other(status)),
{
    if status == 0 {
        Ok(())
    } else {
        Err(UsbError::Other(status))
    }
}

proof fn lemma_dec_val3(a: u8, b: u8, c: u8)
    ensures
        dec_val(seq![a, b, c]) == dec_digit_val(a) * 100 + dec_digit_val(b) * 10 + dec_digit_val(
            c,
        ),
{
    assert(seq![a].drop_last() =~= Seq::<u8>::empty());
    assert(seq![a, b].drop_last() =~= seq![a]);
    assert(seq![a, b, c].drop_last() =~= seq![a, b]);
    assert(dec_val(Seq::<u8>::empty()) == 0);
    assert(dec_val(seq![a]) == dec_digit_val(a));
    assert(dec_val(seq![a, b]) == dec_digit_val(a) * 10 + dec_digit_val(b));
}

proof fn lemma_dec_val4(a: u8, b: u8, c: u8, d: u8)
    ensures
        dec_val(seq![a, b, c, d]) == dec_digit_val(a) * 1000 + dec_digit_val(b) * 100
            + dec_digit_val(c) * 10 + dec_digit_val(d),
{
    lemma_dec_val3(a, b, c);
    assert(seq![a, b, c, d].drop_last() =~= seq![a, b, c]);
}

proof fn lemma_dec_val5(a: u8, b: u8, c: u8, d: u8, e: u8)
    ensures
        dec_val(seq![a, b, c, d, e]) == dec_digit_val(a) * 10000 + dec_digit_val(b) * 1000
            + dec_digit_val(c) * 100 + dec_digit_val(d) * 10 + dec_digit_val(e),
{
    lemma_dec_val4(a, b, c, d);
    assert(seq![a, b, c, d, e].drop_last() =~= seq![a, b, c, d]);
}

/// The digit of rank `p` is a digit byte, and its numeric value is the
/// expected quotient.
proof fn lemma_digit_at(n: u16, p: u16)
    requires
        p > 0,
    ensures
        crate::text::is_dec_digit(digit_at(n, p)),
        dec_digit_val(digit_at(n, p)) == (n / p) % 10,
{
    assert(0 <= (n / p) % 10 < 10) by (nonlinear_arith)
        requires
            p > 0,
    ;
}

/// The padded form really writes `n`: its bytes are decimal digits, it
/// is at least three digits long, and reading it back as a decimal
/// number yields `n` again.
pub proof fn lemma_padded3_value(n: u16)
    ensures
        all_dec_digits(padded3(n)),
        padded3(n).len() >= 3,
        dec_val(padded3(n)) == n,
{
    lemma_digit_at(n, 10000);
    lemma_digit_at(n, 1000);
    lemma_digit_at(n, 100);
    lemma_digit_at(n, 10);
    lemma_digit_at(n, 1);
    let s = padded3(n);
    assert forall|i: int| 0 <= i < s.len() implies crate::text::is_dec_digit(s[i]) by {
        if n >= 10000 {
            assert(s =~= seq![
                digit_at(n, 10000),
                digit_at(n, 1000),
                digit_at(n, 100),
                digit_at(n, 10),
                digit_at(n, 1),
            ]);
        } else if n >= 1000 {
            assert(s =~= seq![digit_at(n, 1000), digit_at(n, 100), digit_at(n, 10), digit_at(n, 1)]);
        } else {
            assert(s =~= seq![digit_at(n, 100), digit_at(n, 10), digit_at(n, 1)]);
        }
    }
    if n >= 10000 {
        lemma_dec_val5(digit_at(n, 10000), digit_at(n, 1000), digit_at(n, 100), digit_at(n, 10), digit_at(n, 1));
        assert((n / 10000) % 10 * 10000 + (n / 1000) % 10 * 1000 + (n / 100) % 10 * 100 + (n / 10)
            % 10 * 10 + n % 10 == n) by (nonlinear_arith)
            requires
                n <= 65535,
        ;
    } else if n >= 1000 {
        lemma_dec_val4(digit_at(n, 1000), digit_at(n, 100), digit_at(n, 10), digit_at(n, 1));
        assert((n / 1000) % 10 * 1000 + (n / 100) % 10 * 100 + (n / 10) % 10 * 10 + n % 10 == n)
            by (nonlinear_arith)
            requires
                n < 10000,
        ;
    } else {
        lemma_dec_val3(digit_at(n, 100), digit_at(n, 10), digit_at(n, 1));
        assert((n / 100) % 10 * 100 + (n / 10) % 10 * 10 + n % 10 == n) by (nonlinear_arith)
            requires
                n < 1000,
        ;
    }
}

} // verus!
