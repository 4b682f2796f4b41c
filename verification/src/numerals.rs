//! The two kinds of number that a message carries: a port in decimal and a
//! 128-bit correlation id in hyphenated hexadecimal.

use crate::text::HYPHEN;
use vstd::prelude::*;

verus! {

pub open spec fn is_digit(b: u8) -> bool {
    0x30 <= b <= 0x39
}

/// The decimal text of `n`: its digits, most significant first, with no
/// leading zero.
pub open spec fn decimal(n: nat) -> Seq<u8>
    decreases n,
{
    if n < 10 {
        seq![(0x30 + n) as u8]
    } else {
        decimal(n / 10).push((0x30 + n % 10) as u8)
    }
}

/// The number that a run of decimal digits denotes.
pub open spec fn decimal_value(t: Seq<u8>) -> nat
    decreases t.len(),
{
    if t.len() == 0 {
        0
    } else {
        10 * decimal_value(t.drop_last()) + (t.last() - 0x30) as nat
    }
}

/// A decimal text as JSON writes an unsigned integer: at least one digit,
/// only digits, and a leading zero only when it is the whole text.
pub open spec fn is_decimal(t: Seq<u8>) -> bool {
    &&& t.len() >= 1
    &&& forall|k: int| 0 <= k < t.len() ==> is_digit(#[trigger] t[k])
    &&& t.len() > 1 ==> t[0] != 0x30
}

/// The port that a value token denotes, if it is a decimal text of a number
/// that fits in 16 bits.
pub open spec fn port_of(t: Seq<u8>) -> Option<u16> {
    if is_decimal(t) && decimal_value(t) <= u16::MAX {
        Some(decimal_value(t) as u16)
    } else {
        None
    }
}

/// The decimal text of a number is a decimal text and denotes that number.
pub proof fn lemma_decimal_round_trip(n: nat)
    ensures
        is_decimal(decimal(n)),
        decimal_value(decimal(n)) == n,
        n > 0 ==> decimal(n)[0] != 0x30,
    decreases n,
{
    let t = decimal(n);
    if n < 10 {
        assert(t.drop_last() =~= Seq::<u8>::empty());
        assert(decimal_value(t.drop_last()) == 0);
    } else {
        let rest = decimal(n / 10);
        lemma_decimal_round_trip(n / 10);
        assert(t.drop_last() =~= rest);
        assert(t[0] == rest[0]);
        assert forall|k: int| 0 <= k < t.len() implies is_digit(#[trigger] t[k]) by {
            if k < rest.len() {
                assert(t[k] == rest[k]);
            }
        }
    }
}

/// Reads a port from a value token.
pub fn read_port(t: &[u8]) -> (r: Option<u16>)
    ensures
        r == port_of(t@),
{
    let len: usize = t.len();
    if len == 0 {
        return None;
    }
    if len > 1 && t[0] == 0x30 {
        return None;
    }
    // The value so far, held at 65536 once it has passed the largest port.
    let mut acc: u32 = 0;
    let mut i: usize = 0;
    while i < len
        invariant
            len == t@.len(),
            i <= len,
            forall|k: int| 0 <= k < i ==> is_digit(#[trigger] t@[k]),
            acc <= 65536,
            acc == if decimal_value(t@.subrange(0, i as int)) > 65535 {
                65536
            } else {
                decimal_value(t@.subrange(0, i as int))
            },
        decreases len - i,
    {
        let b: u8 = t[i];
        if b < 0x30 || b > 0x39 {
            return None;
        }
        let next: u32 = acc * 10 + (b - 0x30) as u32;
        proof {
            let upto = t@.subrange(0, i + 1);
            assert(upto.drop_last() =~= t@.subrange(0, i as int));
            assert(upto.last() == b);
        }
        acc = if next > 65535 {
            65536
        } else {
            next
        };
        i = i + 1;
    }
    assert(t@.subrange(0, len as int) =~= t@);
    if acc > 65535 {
        None
    } else {
        Some(acc as u16)
    }
}

/// Appends the decimal text of `n` to `out`.
pub fn write_port(out: &mut Vec<u8>, n: u16)
    ensures
        final(out)@ == old(out)@ + decimal(n as nat),
    decreases n,
{
    if n >= 10 {
        write_port(out, n / 10);
    }
    out.push(0x30 + (n % 10) as u8);
    assert(out@ =~= old(out)@ + decimal(n as nat));
}

/// The hexadecimal digit, in lower case, of a number below 16.
pub open spec fn hex_digit(n: u8) -> u8 {
    if n < 10 {
        (0x30 + n) as u8
    } else {
        (0x57 + n) as u8
    }
}

/// The number that a hexadecimal digit, in either case, denotes.
pub open spec fn hex_value(b: u8) -> Option<u8> {
    if 0x30 <= b <= 0x39 {
        Some((b - 0x30) as u8)
    } else if 0x61 <= b <= 0x66 {
        Some((b - 0x57) as u8)
    } else if 0x41 <= b <= 0x46 {
        Some((b - 0x37) as u8)
    } else {
        None
    }
}

/// Where the `k`-th of the 32 digits stands in the 36 bytes of a hyphenated
/// id: the groups hold 8, 4, 4, 4 and 12 digits.
pub open spec fn digit_at(k: int) -> int {
    if k < 8 {
        k
    } else if k < 12 {
        k + 1
    } else if k < 16 {
        k + 2
    } else if k < 20 {
        k + 3
    } else {
        k + 4
    }
}

/// Whether position `p` of a hyphenated id holds a hyphen.
pub open spec fn hyphen_at(p: int) -> bool {
    p == 8 || p == 13 || p == 18 || p == 23
}

/// The `k`-th group of four bits of `id`, counted from the most significant.
pub open spec fn nibble(id: u128, k: int) -> u8 {
    ((id >> ((4 * (31 - k)) as u128)) & 0xf) as u8
}

/// The hyphenated text of an id: 32 lower-case hexadecimal digits, most
/// significant first, in groups of 8, 4, 4, 4 and 12 with a hyphen between
/// them.
pub open spec fn hyphenated(id: u128) -> Seq<u8> {
    Seq::new(
        36,
        |p: int|
            if hyphen_at(p) {
                HYPHEN
            } else if p < 8 {
                hex_digit(nibble(id, p))
            } else if p < 13 {
                hex_digit(nibble(id, p - 1))
            } else if p < 18 {
                hex_digit(nibble(id, p - 2))
            } else if p < 23 {
                hex_digit(nibble(id, p - 3))
            } else {
                hex_digit(nibble(id, p - 4))
            },
    )
}

/// A text of 36 bytes with hyphens in the four places and hexadecimal
/// digits, of either case, everywhere else.
pub open spec fn is_hyphenated(t: Seq<u8>) -> bool {
    &&& t.len() == 36
    &&& forall|p: int| 0 <= p < 36 && hyphen_at(p) ==> #[trigger] t[p] == HYPHEN
    &&& forall|k: int| 0 <= k < 32 ==> hex_value(#[trigger] t[digit_at(k)]) is Some
}

/// The number that the first `n` digits of a hyphenated text denote.
pub open spec fn hex_fold(t: Seq<u8>, n: int) -> u128
    decreases n,
{
    if n <= 0 {
        0
    } else {
        (hex_fold(t, n - 1) << 4) | (hex_value(t[digit_at(n - 1)]).unwrap() as u128)
    }
}

/// The id that a hyphenated text denotes.
pub open spec fn id_of(t: Seq<u8>) -> Option<u128> {
    if is_hyphenated(t) {
        Some(hex_fold(t, 32))
    } else {
        None
    }
}

/// What `id` has above its lowest `32 - n` digits.
pub open spec fn leading(id: u128, n: int) -> u128 {
    if n <= 0 {
        0
    } else {
        id >> ((4 * (32 - n)) as u128)
    }
}

proof fn lemma_nibble_is_digit(id: u128, k: int)
    requires
        0 <= k < 32,
    ensures
        nibble(id, k) < 16,
        hex_value(hex_digit(nibble(id, k))) == Some(nibble(id, k)),
        nibble(id, k) as u128 == (id >> ((4 * (31 - k)) as u128)) & 0xf,
{
    let s: u128 = (4 * (31 - k)) as u128;
    assert(((id >> s) & 0xf) < 16) by (bit_vector);
}

proof fn lemma_fold_of_hyphenated(id: u128, n: int)
    requires
        0 <= n <= 32,
    ensures
        hex_fold(hyphenated(id), n) == leading(id, n),
    decreases n,
{
    let t = hyphenated(id);
    if n > 0 {
        let k = n - 1;
        lemma_fold_of_hyphenated(id, k);
        lemma_nibble_is_digit(id, k);
        assert(t[digit_at(k)] == hex_digit(nibble(id, k)));
        let s: u128 = (4 * (31 - k)) as u128;
        let low: u128 = (id >> s) & 0xf;
        assert(hex_fold(t, n) == (leading(id, k) << 4) | low);
        if k == 0 {
            assert(s == 124);
            assert((0u128 << 4) | ((id >> 124) & 0xf) == id >> 124) by (bit_vector);
        } else {
            let above: u128 = (s + 4) as u128;
            assert(leading(id, k) == id >> above);
            assert(((id >> above) << 4) | ((id >> s) & 0xf) == id >> s) by (bit_vector)
                requires
                    s <= 120,
                    above == s + 4,
            ;
        }
    }
}

/// The hyphenated text of an id is a hyphenated text and denotes that id.
pub proof fn lemma_id_round_trip(id: u128)
    ensures
        id_of(hyphenated(id)) == Some(id),
{
    let t = hyphenated(id);
    assert forall|k: int| 0 <= k < 32 implies hex_value(#[trigger] t[digit_at(k)]) is Some by {
        lemma_nibble_is_digit(id, k);
        assert(t[digit_at(k)] == hex_digit(nibble(id, k)));
    }
    lemma_fold_of_hyphenated(id, 32);
    assert(id >> 0 == id) by (bit_vector);
}

/// Every byte of a hyphenated text is a hyphen or a lower-case hexadecimal
/// digit.
pub proof fn lemma_hyphenated_bytes(id: u128, p: int)
    requires
        0 <= p < 36,
    ensures
        hyphenated(id)[p] == HYPHEN || 0x30 <= hyphenated(id)[p] <= 0x39 || 0x61 <= hyphenated(
            id,
        )[p] <= 0x66,
{
    if !hyphen_at(p) {
        let k = if p < 8 {
            p
        } else if p < 13 {
            p - 1
        } else if p < 18 {
            p - 2
        } else if p < 23 {
            p - 3
        } else {
            p - 4
        };
        lemma_nibble_is_digit(id, k);
    }
}

/// Every byte of a hyphenated text, of either case, is a hyphen or a
/// hexadecimal digit.
pub proof fn lemma_is_hyphenated_bytes(t: Seq<u8>, p: int)
    requires
        is_hyphenated(t),
        0 <= p < 36,
    ensures
        t[p] == HYPHEN || hex_value(t[p]) is Some,
{
    if !hyphen_at(p) {
        let k = if p < 8 {
            p
        } else if p < 13 {
            p - 1
        } else if p < 18 {
            p - 2
        } else if p < 23 {
            p - 3
        } else {
            p - 4
        };
        assert(digit_at(k) == p);
    }
}

fn hex_of(b: u8) -> (r: Option<u8>)
    ensures
        r == hex_value(b),
{
    if 0x30 <= b && b <= 0x39 {
        Some(b - 0x30)
    } else if 0x61 <= b && b <= 0x66 {
        Some(b - 0x57)
    } else if 0x41 <= b && b <= 0x46 {
        Some(b - 0x37)
    } else {
        None
    }
}

/// Reads an id from its hyphenated text.
pub fn read_id(t: &[u8]) -> (r: Option<u128>)
    ensures
        r == id_of(t@),
{
    if t.len() != 36 {
        return None;
    }
    if t[8] != HYPHEN || t[13] != HYPHEN || t[18] != HYPHEN || t[23] != HYPHEN {
        return None;
    }
    let mut acc: u128 = 0;
    let mut k: usize = 0;
    while k < 32
        invariant
            t@.len() == 36,
            k <= 32,
            forall|j: int| 0 <= j < k ==> hex_value(#[trigger] t@[digit_at(j)]) is Some,
            acc == hex_fold(t@, k as int),
        decreases 32 - k,
    {
        let p: usize = if k < 8 {
            k
        } else if k < 12 {
            k + 1
        } else if k < 16 {
            k + 2
        } else if k < 20 {
            k + 3
        } else {
            k + 4
        };
        match hex_of(t[p]) {
            Some(d) => {
                acc = (acc << 4) | (d as u128);
            },
            None => {
                assert(hex_value(t@[digit_at(k as int)]) is None);
                return None;
            },
        }
        k = k + 1;
    }
    Some(acc)
}

/// Appends the hyphenated text of `id` to `out`.
pub fn write_id(out: &mut Vec<u8>, id: u128)
    ensures
        final(out)@ == old(out)@ + hyphenated(id),
{
    let mut p: usize = 0;
    while p < 36
        invariant
            p <= 36,
            out@ == old(out)@ + hyphenated(id).subrange(0, p as int),
        decreases 36 - p,
    {
        if p == 8 || p == 13 || p == 18 || p == 23 {
            out.push(HYPHEN);
        } else {
            let k: usize = if p < 8 {
                p
            } else if p < 13 {
                p - 1
            } else if p < 18 {
                p - 2
            } else if p < 23 {
                p - 3
            } else {
                p - 4
            };
            let shift: u128 = (4 * (31 - k)) as u128;
            let n: u8 = ((id >> shift) & 0xf) as u8;
            proof {
                lemma_nibble_is_digit(id, k as int);
            }
            let b: u8 = if n < 10 {
                0x30 + n
            } else {
                0x57 + n
            };
            out.push(b);
        }
        p = p + 1;
        assert(out@ =~= old(out)@ + hyphenated(id).subrange(0, p as int));
    }
    assert(hyphenated(id).subrange(0, 36) =~= hyphenated(id));
}

} // verus!
