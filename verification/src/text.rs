//! Byte-level text helpers: trimming trailing whitespace from attribute
//! values, locating separator bytes, comparing byte strings, and reading
//! decimal or hexadecimal 16-bit numbers.

use vstd::prelude::*;

verus! {

/// A byte that counts as whitespace at the end of an attribute value:
/// newline, tab or space.
pub open spec fn is_ws(b: u8) -> bool {
    b == 10 || b == 9 || b == 32
}

/// The value with its trailing run of whitespace removed.
pub open spec fn trimmed(s: Seq<u8>) -> Seq<u8>
    decreases s.len(),
{
    if s.len() > 0 && is_ws(s[s.len() - 1]) {
        trimmed(s.drop_last())
    } else {
        s
    }
}

/// Appending whitespace to a value does not change what trimming yields.
pub proof fn lemma_trimmed_append_ws(s: Seq<u8>, w: Seq<u8>)
    requires
        forall|i: int| 0 <= i < w.len() ==> is_ws(w[i]),
    ensures
        trimmed(s + w) == trimmed(s),
    decreases w.len(),
{
    if w.len() == 0 {
        assert(s + w =~= s);
    } else {
        assert((s + w).drop_last() =~= s + w.drop_last());
        lemma_trimmed_append_ws(s, w.drop_last());
    }
}

fn ws_byte(b: u8) -> (r: bool)
    ensures
        r == is_ws(b),
{
    b == 10 || b == 9 || b == 32
}

/// Length of `s` once its trailing run of whitespace is removed;
/// `trimmed(s@)` is exactly the prefix of that length.
pub fn trimmed_len(s: &[u8]) -> (end: usize)
    ensures
        end <= s@.len(),
        s@.take(end as int) == trimmed(s@),
{
    let mut end: usize = s.len();
    proof {
        assert(s@.take(end as int) =~= s@);
    }
    while end > 0 && ws_byte(s[end - 1])
        invariant
            end <= s@.len(),
            trimmed(s@.take(end as int)) == trimmed(s@),
        decreases end,
    {
        proof {
            assert(s@.take(end as int).drop_last() =~= s@.take(end - 1));
        }
        end = end - 1;
    }
    proof {
        assert(s@.take(end as int) =~= trimmed(s@.take(end as int)));
    }
    end
}

/// Byte strings are equal exactly when they have the same bytes.
pub fn bytes_eq(a: &[u8], b: &[u8]) -> (r: bool)
    ensures
        r == (a@ == b@),
{
    if a.len() != b.len() {
        return false;
    }
    let mut i: usize = 0;
    while i < a.len()
        invariant
            i <= a@.len(),
            a@.len() == b@.len(),
            forall|j: int| 0 <= j < i ==> a@[j] == b@[j],
        decreases a@.len() - i,
    {
        if a[i] != b[i] {
            return false;
        }
        i = i + 1;
    }
    proof {
        assert(a@ =~= b@);
    }
    true
}

/// Index of the first occurrence of `c` in `s`, if any.
pub open spec fn find_byte(s: Seq<u8>, c: u8) -> Option<int>
    decreases s.len(),
{
    if s.len() == 0 {
        None
    } else if s[0] == c {
        Some(0)
    } else {
        match find_byte(s.drop_first(), c) {
            Some(i) => Some(i + 1),
            None => None,
        }
    }
}

/// `find_byte` names the least index holding `c`, and `None` means `c`
/// does not occur at all.
pub proof fn lemma_find_byte(s: Seq<u8>, c: u8)
    ensures
        match find_byte(s, c) {
            Some(i) => 0 <= i < s.len() && s[i] == c && (forall|j: int| 0 <= j < i ==> s[j] != c),
            None => forall|j: int| 0 <= j < s.len() ==> s[j] != c,
        },
    decreases s.len(),
{
    if s.len() > 0 && s[0] != c {
        lemma_find_byte(s.drop_first(), c);
        match find_byte(s.drop_first(), c) {
            Some(i) => {
                assert(s[i + 1] == s.drop_first()[i]);
                assert forall|j: int| 0 <= j < i + 1 implies s[j] != c by {
                    if j > 0 {
                        assert(s.drop_first()[j - 1] == s[j]);
                    }
                }
            },
            None => {
                assert forall|j: int| 0 <= j < s.len() implies s[j] != c by {
                    if j > 0 {
                        assert(s.drop_first()[j - 1] == s[j]);
                    }
                }
            },
        }
    }
}

/// A byte that occurs nowhere in `s` is not found.
pub proof fn lemma_find_byte_absent(s: Seq<u8>, c: u8)
    requires
        forall|i: int| 0 <= i < s.len() ==> s[i] != c,
    ensures
        find_byte(s, c) == None::<int>,
{
    lemma_find_byte(s, c);
    match find_byte(s, c) {
        Some(k) => {
            assert(s[k] != c);
        },
        None => {},
    }
}

/// When no byte of `s1` is `c`, the first occurrence of `c` in
/// `s1 + [c] + s2` is the one right after `s1`.
pub proof fn lemma_find_byte_concat(s1: Seq<u8>, s2: Seq<u8>, c: u8)
    requires
        forall|i: int| 0 <= i < s1.len() ==> s1[i] != c,
    ensures
        find_byte(s1 + seq![c] + s2, c) == Some(s1.len() as int),
{
    let s = s1 + seq![c] + s2;
    lemma_find_byte(s, c);
    assert(s[s1.len() as int] == c);
    match find_byte(s, c) {
        Some(k) => {
            if k < s1.len() {
                assert(s[k] == s1[k]);
            } else if k > s1.len() {
                assert(s[s1.len() as int] != c);
            }
        },
        None => {
            assert(s[s1.len() as int] != c);
        },
    }
}

/// First occurrence of `c` in `s`, scanning from the front.
pub fn find_first(s: &[u8], c: u8) -> (r: Option<usize>)
    ensures
        match r {
            Some(i) => find_byte(s@, c) == Some(i as int),
            None => find_byte(s@, c) == None::<int>,
        },
{
    proof {
        lemma_find_byte(s@, c);
    }
    let mut i: usize = 0;
    while i < s.len()
        invariant
            i <= s@.len(),
            forall|j: int| 0 <= j < i ==> s@[j] != c,
        decreases s@.len() - i,
    {
        if s[i] == c {
            proof {
                lemma_find_byte(s@, c);
            }
            return Some(i);
        }
        i = i + 1;
    }
    proof {
        lemma_find_byte(s@, c);
    }
    None
}

/// A decimal digit byte, `'0'` to `'9'`.
pub open spec fn is_dec_digit(b: u8) -> bool {
    48 <= b <= 57
}

/// The numeric value of a decimal digit byte.
pub open spec fn dec_digit_val(b: u8) -> nat {
    (b - 48) as nat
}

pub open spec fn all_dec_digits(s: Seq<u8>) -> bool {
    forall|i: int| 0 <= i < s.len() ==> is_dec_digit(s[i])
}

/// The number written in decimal by the digit bytes of `s`.
pub open spec fn dec_val(s: Seq<u8>) -> nat
    decreases s.len(),
{
    if s.len() == 0 {
        0
    } else {
        dec_val(s.drop_last()) * 10 + dec_digit_val(s.last())
    }
}

/// A non-empty, all-decimal string whose value fits in 16 bits.
pub open spec fn is_dec_u16(s: Seq<u8>) -> bool {
    s.len() > 0 && all_dec_digits(s) && dec_val(s) <= 0xFFFF
}

/// What reading `s` as a decimal 16-bit number yields.
pub open spec fn dec_u16(s: Seq<u8>) -> Option<u16> {
    if is_dec_u16(s) {
        Some(dec_val(s) as u16)
    } else {
        None
    }
}

/// A hexadecimal digit byte, upper or lower case.
pub open spec fn is_hex_digit(b: u8) -> bool {
    (48 <= b <= 57) || (97 <= b <= 102) || (65 <= b <= 70)
}

/// The numeric value of a hexadecimal digit byte.
pub open spec fn hex_digit_val(b: u8) -> nat {
    if 48 <= b <= 57 {
        (b - 48) as nat
    } else if 97 <= b <= 102 {
        (b - 87) as nat
    } else {
        (b - 55) as nat
    }
}

pub open spec fn all_hex_digits(s: Seq<u8>) -> bool {
    forall|i: int| 0 <= i < s.len() ==> is_hex_digit(s[i])
}

/// The number written in hexadecimal by the digit bytes of `s`.
pub open spec fn hex_val(s: Seq<u8>) -> nat
    decreases s.len(),
{
    if s.len() == 0 {
        0
    } else {
        hex_val(s.drop_last()) * 16 + hex_digit_val(s.last())
    }
}

/// A non-empty, all-hexadecimal string whose value fits in 16 bits.
pub open spec fn is_hex_u16(s: Seq<u8>) -> bool {
    s.len() > 0 && all_hex_digits(s) && hex_val(s) <= 0xFFFF
}

/// What reading `s` as a hexadecimal 16-bit number yields.
pub open spec fn hex_u16(s: Seq<u8>) -> Option<u16> {
    if is_hex_u16(s) {
        Some(hex_val(s) as u16)
    } else {
        None
    }
}

/// A longer prefix never writes a smaller number.
proof fn lemma_dec_val_prefix(s: Seq<u8>, i: int)
    requires
        0 <= i <= s.len(),
    ensures
        dec_val(s) >= dec_val(s.take(i)),
    decreases s.len() - i,
{
    if i < s.len() {
        assert(s.take(i + 1).drop_last() =~= s.take(i));
        lemma_dec_val_prefix(s, i + 1);
    } else {
        assert(s.take(i) =~= s);
    }
}

proof fn lemma_hex_val_prefix(s: Seq<u8>, i: int)
    requires
        0 <= i <= s.len(),
    ensures
        hex_val(s) >= hex_val(s.take(i)),
    decreases s.len() - i,
{
    if i < s.len() {
        assert(s.take(i + 1).drop_last() =~= s.take(i));
        lemma_hex_val_prefix(s, i + 1);
    } else {
        assert(s.take(i) =~= s);
    }
}

/// Read `s` as a decimal 16-bit number: digits only, no sign, value at
/// most 65535; anything else yields `None`.
pub fn parse_u16_dec(s: &[u8]) -> (r: Option<u16>)
    ensures
        r == dec_u16(s@),
{
    if s.len() == 0 {
        return None;
    }
    let mut val: u32 = 0;
    let mut i: usize = 0;
    while i < s.len()
        invariant
            i <= s@.len(),
            all_dec_digits(s@.take(i as int)),
            val == dec_val(s@.take(i as int)),
            val <= 0xFFFF,
        decreases s@.len() - i,
    {
        let b = s[i];
        if b < 48 || b > 57 {
            assert(!is_dec_digit(s@[i as int]));
            return None;
        }
        proof {
            assert(s@.take(i + 1).drop_last() =~= s@.take(i as int));
        }
        val = val * 10 + (b - 48) as u32;
        i = i + 1;
        if val > 0xFFFF {
            proof {
                lemma_dec_val_prefix(s@, i as int);
            }
            return None;
        }
    }
    proof {
        assert(s@.take(s@.len() as int) =~= s@);
    }
    Some(val as u16)
}

/// Read `s` as a hexadecimal 16-bit number: hex digits only (either
/// case), no sign, value at most 0xFFFF; anything else yields `None`.
pub fn parse_u16_hex(s: &[u8]) -> (r: Option<u16>)
    ensures
        r == hex_u16(s@),
{
    if s.len() == 0 {
        return None;
    }
    let mut val: u32 = 0;
    let mut i: usize = 0;
    while i < s.len()
        invariant
            i <= s@.len(),
            all_hex_digits(s@.take(i as int)),
            val == hex_val(s@.take(i as int)),
            val <= 0xFFFF,
        decreases s@.len() - i,
    {
        let b = s[i];
        let d: u32 = if b >= 48 && b <= 57 {
            (b - 48) as u32
        } else if b >= 97 && b <= 102 {
            (b - 87) as u32
        } else if b >= 65 && b <= 70 {
            (b - 55) as u32
        } else {
            assert(!is_hex_digit(s@[i as int]));
            return None;
        };
        proof {
            assert(s@.take(i + 1).drop_last() =~= s@.take(i as int));
        }
        val = val * 16 + d;
        i = i + 1;
        if val > 0xFFFF {
            proof {
                lemma_hex_val_prefix(s@, i as int);
            }
            return None;
        }
    }
    proof {
        assert(s@.take(s@.len() as int) =~= s@);
    }
    Some(val as u16)
}

} // verus!
