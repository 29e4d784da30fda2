//! Ethernet MAC addresses written as six hexadecimal octets separated by
//! colons ("aa:bb:cc:dd:ee:ff").

use vstd::prelude::*;
use vstd::string::StringSliceAdditionalSpecFns;

verus! {

/// Why a MAC address text is refused.
#[derive(Debug, Clone, Copy, PartialEq, Eq, Structural)]
pub enum MacParseError {
    /// A field is not a hexadecimal number from 0 to 255.
    InvalidOctet,
    /// The text does not have six fields.
    WrongLength,
}

/// Value of a hexadecimal digit (either case).
pub open spec fn hex_digit(c: u8) -> Option<u8> {
    if 0x30 <= c && c <= 0x39 {
        Some((c - 0x30) as u8)
    } else if 0x61 <= c && c <= 0x66 {
        Some((c - 0x61 + 10) as u8)
    } else if 0x41 <= c && c <= 0x46 {
        Some((c - 0x41 + 10) as u8)
    } else {
        None
    }
}

/// Every byte is a hexadecimal digit.
pub open spec fn all_hex(digits: Seq<u8>) -> bool {
    forall|i: int| 0 <= i < digits.len() ==> (#[trigger] hex_digit(digits[i])) is Some
}

/// Value of a sequence of hexadecimal digits.
pub open spec fn hex_value(digits: Seq<u8>) -> nat
    decreases digits.len(),
{
    if digits.len() == 0 {
        0
    } else {
        hex_value(digits.drop_last()) * 16 + match hex_digit(digits.last()) {
            Some(d) => d as nat,
            None => 0,
        }
    }
}

/// A field read as `u8::from_str_radix(field, 16)` reads it: an optional
/// '+', then at least one hexadecimal digit, of value at most 255.
pub open spec fn hex_octet(field: Seq<u8>) -> Option<u8> {
    let digits = if field.len() > 0 && field[0] == 0x2b {
        field.drop_first()
    } else {
        field
    };
    if digits.len() == 0 || !all_hex(digits) || hex_value(digits) > 255 {
        None
    } else {
        Some(hex_value(digits) as u8)
    }
}

/// The fields of a text split at every ':' (an empty text is one empty
/// field).
pub open spec fn colon_fields(b: Seq<u8>) -> Seq<Seq<u8>>
    decreases b.len(),
{
    if b.len() == 0 {
        seq![Seq::empty()]
    } else if b.last() == 0x3a {
        colon_fields(b.drop_last()).push(Seq::empty())
    } else {
        let f = colon_fields(b.drop_last());
        f.update(f.len() - 1, f.last().push(b.last()))
    }
}

/// A split has at least one field.
proof fn lemma_fields_nonempty(b: Seq<u8>)
    ensures
        colon_fields(b).len() >= 1,
    decreases b.len(),
{
    if b.len() > 0 {
        lemma_fields_nonempty(b.drop_last());
    }
}

/// The octets of a MAC address text, or why it is refused: an invalid
/// field is reported before a wrong number of fields.
pub open spec fn mac_from_text(b: Seq<u8>) -> Result<Seq<u8>, MacParseError> {
    let fs = colon_fields(b);
    if exists|i: int| 0 <= i < fs.len() && (#[trigger] hex_octet(fs[i])) is None {
        Err(MacParseError::InvalidOctet)
    } else if fs.len() != 6 {
        Err(MacParseError::WrongLength)
    } else {
        Ok(Seq::new(6, |i: int| hex_octet(fs[i])->0))
    }
}

fn digit_value(c: u8) -> (d: Option<u8>)
    ensures
        d == hex_digit(c),
{
    if c >= 0x30 && c <= 0x39 {
        Some(c - 0x30)
    } else if c >= 0x61 && c <= 0x66 {
        Some(c - 0x61 + 10)
    } else if c >= 0x41 && c <= 0x46 {
        Some(c - 0x41 + 10)
    } else {
        None
    }
}

/// Read one field as a hexadecimal octet (see `hex_octet`).
fn parse_hex_octet(field: &[u8]) -> (r: Option<u8>)
    ensures
        r == hex_octet(field@),
{
    let start: usize = if field.len() > 0 && field[0] == 0x2b {
        1
    } else {
        0
    };
    let ghost digits = if field@.len() > 0 && field@[0] == 0x2b {
        field@.drop_first()
    } else {
        field@
    };
    assert(digits =~= field@.subrange(start as int, field@.len() as int));
    if start == field.len() {
        return None;
    }
    let mut value: u32 = 0;
    let mut i: usize = start;
    while i < field.len()
        invariant
            start <= i <= field@.len(),
            digits == field@.subrange(start as int, field@.len() as int),
            digits == (if field@.len() > 0 && field@[0] == 0x2b {
                field@.drop_first()
            } else {
                field@
            }),
            all_hex(field@.subrange(start as int, i as int)),
            value == hex_value(field@.subrange(start as int, i as int)),
            value <= 255,
        decreases field.len() - i,
    {
        let ghost prefix = field@.subrange(start as int, i as int);
        let ghost next = field@.subrange(start as int, i + 1);
        assert(next.drop_last() =~= prefix);
        assert(next.last() == field@[i as int]);
        match digit_value(field[i]) {
            Some(d) => {
                let v = value * 16 + (d as u32);
                assert(hex_value(next) == v);
                assert(digits.subrange(0, (i + 1 - start) as int) =~= next);
                assert(all_hex(next)) by {
                    assert forall|k: int| 0 <= k < next.len() implies (#[trigger] hex_digit(next[k])) is Some by {
                        if k < prefix.len() {
                            assert(next[k] == prefix[k]);
                        }
                    }
                }
                if v > 255 {
                    proof {
                        lemma_value_stays_large(digits, (i + 1 - start) as int);
                    }
                    return None;
                }
                value = v;
            },
            None => {
                assert(!all_hex(digits)) by {
                    assert(digits[i - start] == field@[i as int]);
                }
                return None;
            },
        }
        i += 1;
    }
    assert(field@.subrange(start as int, i as int) =~= digits);
    Some(value as u8)
}

/// Once the value of a prefix of hexadecimal digits passes 255, the value
/// of any longer all-hex prefix does too.
proof fn lemma_value_stays_large(digits: Seq<u8>, n: int)
    requires
        0 < n <= digits.len(),
        all_hex(digits.subrange(0, n)),
        hex_value(digits.subrange(0, n)) > 255,
    ensures
        all_hex(digits) ==> hex_value(digits) > 255,
    decreases digits.len() - n,
{
    if n < digits.len() && all_hex(digits) {
        let p = digits.subrange(0, n + 1);
        assert(p.drop_last() =~= digits.subrange(0, n));
        assert(all_hex(p)) by {
            assert forall|k: int| 0 <= k < p.len() implies (#[trigger] hex_digit(p[k])) is Some by {
                assert(p[k] == digits[k]);
            }
        }
        lemma_value_stays_large(digits, n + 1);
    } else if n == digits.len() {
        assert(digits.subrange(0, n) =~= digits);
    }
}

/// Parse a MAC address written as six hexadecimal octets separated by ':'.
pub fn parse_mac(text: &str) -> (r: Result<[u8; 6], MacParseError>)
    ensures
        match mac_from_text(text.spec_bytes()) {
            Ok(octets) => r matches Ok(m) && m@ == octets,
            Err(e) => r == Err::<[u8; 6], MacParseError>(e),
        },
{
    let bytes = text.as_bytes();
    let ghost b = bytes@;
    let mut fields: Vec<Vec<u8>> = Vec::new();
    fields.push(Vec::new());
    assert(b.subrange(0, 0) =~= Seq::<u8>::empty());
    assert(fields@.map_values(|f: Vec<u8>| f@) =~= colon_fields(b.subrange(0, 0)));
    let mut i: usize = 0;
    while i < bytes.len()
        invariant
            i <= b.len(),
            b == bytes@,
            fields@.len() >= 1,
            fields@.map_values(|f: Vec<u8>| f@) == colon_fields(b.subrange(0, i as int)),
        decreases bytes.len() - i,
    {
        let ghost before = fields@.map_values(|f: Vec<u8>| f@);
        assert(b.subrange(0, i + 1).drop_last() =~= b.subrange(0, i as int));
        if bytes[i] == 0x3a {
            fields.push(Vec::new());
            assert(fields@.map_values(|f: Vec<u8>| f@) =~= before.push(Seq::empty()));
        } else {
            let last = fields.len() - 1;
            let mut current = fields.remove(last);
            current.push(bytes[i]);
            fields.push(current);
            assert(fields@.map_values(|f: Vec<u8>| f@) =~= before.update(
                before.len() - 1,
                before.last().push(b[i as int]),
            ));
        }
        i += 1;
    }
    assert(b.subrange(0, b.len() as int) =~= b);
    let ghost fs = colon_fields(b);
    let mut octets: Vec<u8> = Vec::new();
    let mut k: usize = 0;
    while k < fields.len()
        invariant
            k <= fs.len(),
            fs == colon_fields(text.spec_bytes()),
            fields@.map_values(|f: Vec<u8>| f@) == fs,
            octets@.len() == k,
            forall|j: int| 0 <= j < k ==> (#[trigger] hex_octet(fs[j])) == Some(octets@[j]),
        decreases fields.len() - k,
    {
        assert(fields@[k as int]@ == fs[k as int]);
        match parse_hex_octet(fields[k].as_slice()) {
            Some(v) => {
                octets.push(v);
            },
            None => {
                assert(hex_octet(fs[k as int]) is None);
                return Err(MacParseError::InvalidOctet);
            },
        }
        k += 1;
    }
    if octets.len() != 6 {
        return Err(MacParseError::WrongLength);
    }
    let mac: [u8; 6] = [octets[0], octets[1], octets[2], octets[3], octets[4], octets[5]];
    assert(mac@ =~= Seq::new(6, |i: int| hex_octet(fs[i])->0));
    Ok(mac)
}

} // verus!
