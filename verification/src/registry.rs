//! The device resolver: walk a snapshot of the device registry, read the
//! per-device attribute values, and return the first entry that matches
//! the identifier.
//!
//! An entry whose bus or device number is missing or unreadable is
//! silently skipped: such entries are not real device nodes. A vendor or
//! product ID that is present but not hexadecimal on an entry being
//! compared aborts the whole resolution instead: that is corrupt state
//! worth surfacing. Entries are taken in the order given, which is
//! whatever order the operating system listed them in; the first match
//! wins.

use vstd::prelude::*;

use crate::error::UsbError;
use crate::ident::{IdentView, UsbDeviceIdentifier};
use crate::text::{bytes_eq, dec_u16, hex_u16, parse_u16_hex, trimmed, trimmed_len};
use vstd::slice::slice_subrange;

verus! {

/// One registry entry: the raw contents of its attribute files, with
/// `None` for a file that is missing or unreadable.
#[derive(Debug)]
pub struct RegistryEntry {
    pub busnum: Option<Vec<u8>>,
    pub devnum: Option<Vec<u8>>,
    pub id_vendor: Option<Vec<u8>>,
    pub id_product: Option<Vec<u8>>,
    pub product: Option<Vec<u8>>,
}

/// The mathematical shape of a registry entry.
pub struct EntryView {
    pub busnum: Option<Seq<u8>>,
    pub devnum: Option<Seq<u8>>,
    pub id_vendor: Option<Seq<u8>>,
    pub id_product: Option<Seq<u8>>,
    pub product: Option<Seq<u8>>,
}

impl View for RegistryEntry {
    type V = EntryView;

    open spec fn view(&self) -> EntryView {
        EntryView {
            busnum: match self.busnum {
                Some(v) => Some(v@),
                None => None,
            },
            devnum: match self.devnum {
                Some(v) => Some(v@),
                None => None,
            },
            id_vendor: match self.id_vendor {
                Some(v) => Some(v@),
                None => None,
            },
            id_product: match self.id_product {
                Some(v) => Some(v@),
                None => None,
            },
            product: match self.product {
                Some(v) => Some(v@),
                None => None,
            },
        }
    }
}

/// A resolved device: nothing but its bus and device numbers.
#[derive(Debug, Clone, Copy, PartialEq, Eq, Structural)]
pub struct UsbDevFsEntry {
    pub bus: u16,
    pub dev: u16,
}

/// What reading an attribute value as a decimal 16-bit number yields:
/// the trailing whitespace run is trimmed first.
pub open spec fn attr_u16(s: Seq<u8>) -> Option<u16> {
    dec_u16(trimmed(s))
}

/// What reading an attribute value as a hexadecimal 16-bit number
/// yields: the trailing whitespace run is trimmed first.
pub open spec fn attr_hex_u16(s: Seq<u8>) -> Option<u16> {
    hex_u16(trimmed(s))
}

/// Parse a sysfs attribute value as a decimal 16-bit number, trimming
/// the trailing whitespace run first.
pub fn sysfs_attr(raw: &[u8]) -> (r: Option<u16>)
    ensures
        r == attr_u16(raw@),
{
    let end = trimmed_len(raw);
    crate::text::parse_u16_dec(slice_subrange(raw, 0, end))
}

/// Parse a sysfs attribute value as a hexadecimal 16-bit number,
/// trimming the trailing whitespace run first.
pub fn sysfs_attr_hex(raw: &[u8]) -> (r: Option<u16>)
    ensures
        r == attr_hex_u16(raw@),
{
    let end = trimmed_len(raw);
    parse_u16_hex(slice_subrange(raw, 0, end))
}

/// The bus and device numbers of an entry, when both attributes are
/// present and readable.
pub open spec fn entry_bus_dev(e: EntryView) -> Option<(u16, u16)> {
    match (e.busnum, e.devnum) {
        (Some(b), Some(d)) => match (attr_u16(b), attr_u16(d)) {
            (Some(bus), Some(dev)) => Some((bus, dev)),
            _ => None,
        },
        _ => None,
    }
}

/// What the scan does with one entry.
pub enum EntryOutcome {
    /// The entry matches; resolution returns this device.
    Matched(UsbDevFsEntry),
    /// The entry is skipped or does not match; the scan goes on.
    Passed,
    /// A vendor or product ID is present but malformed; resolution
    /// aborts.
    Abort,
}

/// How one entry is judged against the identifier.
pub open spec fn entry_outcome(id: IdentView, e: EntryView) -> EntryOutcome {
    match entry_bus_dev(e) {
        None => EntryOutcome::Passed,
        Some((bus, dev)) => match id {
            IdentView::BusDev { bus: tbus, dev: tdev } => if bus == tbus && dev == tdev {
                EntryOutcome::Matched(UsbDevFsEntry { bus, dev })
            } else {
                EntryOutcome::Passed
            },
            IdentView::VendorProduct { vid, pid } => match (e.id_vendor, e.id_product) {
                (Some(vraw), Some(praw)) => match (attr_hex_u16(vraw), attr_hex_u16(praw)) {
                    (Some(v), Some(p)) => if v == vid && p == pid {
                        EntryOutcome::Matched(UsbDevFsEntry { bus, dev })
                    } else {
                        EntryOutcome::Passed
                    },
                    _ => EntryOutcome::Abort,
                },
                _ => EntryOutcome::Passed,
            },
            IdentView::ProductName(name) => match e.product {
                Some(praw) => if trimmed(praw) == name {
                    EntryOutcome::Matched(UsbDevFsEntry { bus, dev })
                } else {
                    EntryOutcome::Passed
                },
                None => EntryOutcome::Passed,
            },
        },
    }
}

/// What resolving the identifier against the entries, in order, yields.
pub open spec fn resolve(id: IdentView, entries: Seq<EntryView>) -> Result<UsbDevFsEntry, UsbError>
    decreases entries.len(),
{
    if entries.len() == 0 {
        Err(UsbError::NotFound)
    } else {
        match entry_outcome(id, entries[0]) {
            EntryOutcome::Matched(d) => Ok(d),
            EntryOutcome::Abort => Err(UsbError::InvalidData),
            EntryOutcome::Passed => resolve(id, entries.drop_first()),
        }
    }
}

/// The entries as mathematical values.
pub open spec fn entry_views(entries: Seq<RegistryEntry>) -> Seq<EntryView> {
    entries.map_values(|e: RegistryEntry| e@)
}

/// One passed-over entry does not change what resolution yields.
proof fn lemma_resolve_skip(id: IdentView, s: Seq<EntryView>, i: int)
    requires
        0 <= i < s.len(),
        entry_outcome(id, s[i]) is Passed,
    ensures
        resolve(id, s.skip(i)) == resolve(id, s.skip(i + 1)),
{
    assert(s.skip(i)[0] == s[i]);
    assert(s.skip(i).drop_first() =~= s.skip(i + 1));
}

/// Trailing whitespace in an attribute file does not change what the
/// attribute reads as: the run is trimmed before parsing.
pub proof fn lemma_attr_append_ws(s: Seq<u8>, w: Seq<u8>)
    requires
        forall|i: int| 0 <= i < w.len() ==> crate::text::is_ws(w[i]),
    ensures
        attr_u16(s + w) == attr_u16(s),
        attr_hex_u16(s + w) == attr_hex_u16(s),
{
    crate::text::lemma_trimmed_append_ws(s, w);
}

/// An entry whose bus or device number is missing or unreadable is
/// passed over, whatever the identifier.
pub proof fn lemma_no_bus_dev_passed(id: IdentView, e: EntryView)
    requires
        entry_bus_dev(e) == None::<(u16, u16)>,
    ensures
        entry_outcome(id, e) is Passed,
{
}

/// A vendor or product ID that is present but malformed on a comparable
/// entry aborts the scan rather than passing the entry over.
pub proof fn lemma_malformed_id_aborts(vid: u16, pid: u16, e: EntryView)
    requires
        entry_bus_dev(e) is Some,
        e.id_vendor is Some,
        e.id_product is Some,
        attr_hex_u16(e.id_vendor->0) is None || attr_hex_u16(e.id_product->0) is None,
    ensures
        entry_outcome(IdentView::VendorProduct { vid, pid }, e) is Abort,
{
}

/// First match wins: when every entry before `i` is passed over and
/// entry `i` matches as device `d`, resolution returns `d` — in the
/// order given, not in any sorted order.
pub proof fn lemma_resolve_first_match(
    id: IdentView,
    entries: Seq<EntryView>,
    i: int,
    d: UsbDevFsEntry,
)
    requires
        0 <= i < entries.len(),
        forall|j: int| 0 <= j < i ==> entry_outcome(id, #[trigger] entries[j]) is Passed,
        entry_outcome(id, entries[i]) == EntryOutcome::Matched(d),
    ensures
        resolve(id, entries) == Ok::<UsbDevFsEntry, UsbError>(d),
    decreases i,
{
    if i > 0 {
        assert(entry_outcome(id, entries[0]) is Passed);
        assert forall|j: int| 0 <= j < i - 1 implies entry_outcome(
            id,
            #[trigger] entries.drop_first()[j],
        ) is Passed by {
            assert(entries.drop_first()[j] == entries[j + 1]);
        }
        assert(entries.drop_first()[i - 1] == entries[i]);
        lemma_resolve_first_match(id, entries.drop_first(), i - 1, d);
    }
}

/// When every entry before `i` is passed over and entry `i` aborts,
/// resolution fails with the data error.
pub proof fn lemma_resolve_abort(id: IdentView, entries: Seq<EntryView>, i: int)
    requires
        0 <= i < entries.len(),
        forall|j: int| 0 <= j < i ==> entry_outcome(id, #[trigger] entries[j]) is Passed,
        entry_outcome(id, entries[i]) is Abort,
    ensures
        resolve(id, entries) == Err::<UsbDevFsEntry, UsbError>(UsbError::InvalidData),
    decreases i,
{
    if i > 0 {
        assert(entry_outcome(id, entries[0]) is Passed);
        assert forall|j: int| 0 <= j < i - 1 implies entry_outcome(
            id,
            #[trigger] entries.drop_first()[j],
        ) is Passed by {
            assert(entries.drop_first()[j] == entries[j + 1]);
        }
        assert(entries.drop_first()[i - 1] == entries[i]);
        lemma_resolve_abort(id, entries.drop_first(), i - 1);
    }
}

/// When every entry is passed over, resolution yields `NotFound`.
pub proof fn lemma_resolve_not_found(id: IdentView, entries: Seq<EntryView>)
    requires
        forall|j: int| 0 <= j < entries.len() ==> entry_outcome(id, #[trigger] entries[j]) is Passed,
    ensures
        resolve(id, entries) == Err::<UsbDevFsEntry, UsbError>(UsbError::NotFound),
    decreases entries.len(),
{
    if entries.len() > 0 {
        assert forall|j: int| 0 <= j < entries.drop_first().len() implies entry_outcome(
            id,
            #[trigger] entries.drop_first()[j],
        ) is Passed by {
            assert(entries.drop_first()[j] == entries[j + 1]);
        }
        lemma_resolve_not_found(id, entries.drop_first());
    }
}

/// Resolve the identifier against a snapshot of the device registry.
pub fn find_device(identifier: &UsbDeviceIdentifier, entries: &[RegistryEntry]) -> (r: Result<
    UsbDevFsEntry,
    UsbError,
>)
    ensures
        r == resolve(identifier@, entry_views(entries@)),
{
    let ghost evs = entry_views(entries@);
    let n = entries.len();
    let mut i: usize = 0;
    proof {
        assert(evs.skip(0) =~= evs);
    }
    while i < n
        invariant
            i <= n,
            n == entries@.len(),
            evs == entry_views(entries@),
            resolve(identifier@, evs) == resolve(identifier@, evs.skip(i as int)),
        decreases n - i,
    {
        let e = &entries[i];
        let ghost ev = evs[i as int];
        let bnum: Option<u16> = match &e.busnum {
            Some(v) => sysfs_attr(v.as_slice()),
            None => None,
        };
        let dnum: Option<u16> = match &e.devnum {
            Some(v) => sysfs_attr(v.as_slice()),
            None => None,
        };
        if let (Some(bus), Some(dev)) = (bnum, dnum) {
            assert(entry_bus_dev(ev) == Some((bus, dev)));
            match identifier {
                UsbDeviceIdentifier::BusDev { bus: tbus, dev: tdev } => {
                    if bus == *tbus && dev == *tdev {
                        assert(entry_outcome(identifier@, ev) == EntryOutcome::Matched(
                            UsbDevFsEntry { bus, dev },
                        ));
                        return Ok(UsbDevFsEntry { bus, dev });
                    }
                },
                UsbDeviceIdentifier::VendorProduct { vid, pid } => {
                    match (&e.id_vendor, &e.id_product) {
                        (Some(vraw), Some(praw)) => {
                            let v = sysfs_attr_hex(vraw.as_slice());
                            let p = sysfs_attr_hex(praw.as_slice());
                            match (v, p) {
                                (Some(cv), Some(cp)) => {
                                    if cv == *vid && cp == *pid {
                                        assert(entry_outcome(identifier@, ev)
                                            == EntryOutcome::Matched(UsbDevFsEntry { bus, dev }));
                                        return Ok(UsbDevFsEntry { bus, dev });
                                    }
                                },
                                _ => {
                                    assert(entry_outcome(identifier@, ev) is Abort);
                                    return Err(UsbError::InvalidData);
                                },
                            }
                        },
                        _ => {},
                    }
                },
                UsbDeviceIdentifier::ProductName(name) => {
                    match &e.product {
                        Some(praw) => {
                            let end = trimmed_len(praw.as_slice());
                            if bytes_eq(slice_subrange(praw.as_slice(), 0, end), name.as_slice()) {
                                assert(entry_outcome(identifier@, ev) == EntryOutcome::Matched(
                                    UsbDevFsEntry { bus, dev },
                                ));
                                return Ok(UsbDevFsEntry { bus, dev });
                            }
                        },
                        None => {},
                    }
                },
            }
        }
        proof {
            assert(entry_outcome(identifier@, ev) is Passed);
            lemma_resolve_skip(identifier@, evs, i as int);
        }
        i = i + 1;
    }
    proof {
        assert(evs.skip(n as int) =~= Seq::<EntryView>::empty());
    }
    Err(UsbError::NotFound)
}

} // verus!
