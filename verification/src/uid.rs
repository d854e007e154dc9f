//! 128-bit user identifiers, rendered as the hyphenated hexadecimal
//! form `xxxxxxxx-xxxx-xxxx-xxxx-xxxxxxxxxxxx`; decoding accepts both
//! letter cases, encoding emits lower case.
use vstd::prelude::*;
use vstd::arithmetic::div_mod::lemma_fundamental_div_mod;
use crate::bytes::{B_ZERO, B_NINE, B_MINUS, B_LOWER_A, B_LOWER_F, B_UPPER_A, B_UPPER_F};

verus! {

/// A 128-bit identifier held as its sixteen big-endian bytes.
#[derive(Debug, Clone, PartialEq, Eq)]
pub struct Uuid {
    pub bytes: Vec<u8>,
}

impl View for Uuid {
    type V = Seq<u8>;

    open spec fn view(&self) -> Seq<u8> {
        self.bytes@
    }
}

impl DeepView for Uuid {
    type V = Seq<u8>;

    open spec fn deep_view(&self) -> Seq<u8> {
        self.bytes@
    }
}

impl Uuid {
    /// Sixteen bytes make an identifier.
    pub open spec fn wf(&self) -> bool {
        self.bytes@.len() == 16
    }
}

pub open spec fn is_hex(b: u8) -> bool {
    (B_ZERO <= b <= B_NINE) || (B_LOWER_A <= b <= B_LOWER_F) || (B_UPPER_A <= b <= B_UPPER_F)
}

/// Numeric value of one hexadecimal digit byte.
pub open spec fn hex_val(b: u8) -> nat
    recommends
        is_hex(b),
{
    if B_ZERO <= b <= B_NINE {
        (b - B_ZERO) as nat
    } else if B_LOWER_A <= b <= B_LOWER_F {
        (b - B_LOWER_A + 10) as nat
    } else {
        (b - B_UPPER_A + 10) as nat
    }
}

/// The lower-case digit byte of a nibble.
pub open spec fn hex_lower(n: nat) -> u8
    recommends
        n < 16,
{
    if n < 10 {
        (n + B_ZERO) as u8
    } else {
        (n - 10 + B_LOWER_A) as u8
    }
}

/// Where the `k`-th of the 32 hexadecimal digits stands in the
/// hyphenated form.
pub open spec fn nib_pos(k: int) -> int {
    if k < 8 {
        k
    } else if k < 12 {
        k + 1
    } else if k < 16 {
        k + 2
    } else if k < 20 {
        k + 3
    } else {
        k + 4
    }
}

/// The byte at position `i` of the 36-byte hyphenated form.
pub open spec fn uuid_char(b: Seq<u8>, i: int) -> u8 {
    if i == 8 || i == 13 || i == 18 || i == 23 {
        B_MINUS
    } else {
        let k = if i < 8 {
            i
        } else if i < 13 {
            i - 1
        } else if i < 18 {
            i - 2
        } else if i < 23 {
            i - 3
        } else {
            i - 4
        };
        let by = b[k / 2];
        hex_lower(
            if k % 2 == 0 {
                (by / 16) as nat
            } else {
                (by % 16) as nat
            },
        )
    }
}

/// The canonical lower-case hyphenated rendering.
pub open spec fn uuid_bytes(b: Seq<u8>) -> Seq<u8> {
    Seq::new(36, |i: int| uuid_char(b, i))
}

/// What a hyphenated identifier text denotes; `None` on any other
/// shape.
pub open spec fn uuid_of_bytes(s: Seq<u8>) -> Option<Seq<u8>> {
    if s.len() != 36 {
        None
    } else if !(s[8] == B_MINUS && s[13] == B_MINUS && s[18] == B_MINUS && s[23] == B_MINUS) {
        None
    } else if !(forall|k: int| 0 <= k < 32 ==> is_hex(#[trigger] s[nib_pos(k)])) {
        None
    } else {
        Some(
            Seq::new(
                16,
                |j: int| (hex_val(s[nib_pos(2 * j)]) * 16 + hex_val(s[nib_pos(2 * j + 1)])) as u8,
            ),
        )
    }
}

/// Whether the byte is a hexadecimal digit.
fn is_hex_at(s: &[u8], i: usize) -> (r: bool)
    requires
        i < s@.len(),
    ensures
        r == is_hex(s@[i as int]),
{
    let b = s[i];
    (B_ZERO <= b && b <= B_NINE) || (B_LOWER_A <= b && b <= B_LOWER_F) || (B_UPPER_A <= b && b
        <= B_UPPER_F)
}

/// Reads one hexadecimal digit byte.
fn hex_val_at(s: &[u8], i: usize) -> (r: u8)
    requires
        i < s@.len(),
        is_hex(s@[i as int]),
    ensures
        r as nat == hex_val(s@[i as int]),
        r < 16,
{
    let b = s[i];
    if B_ZERO <= b && b <= B_NINE {
        b - B_ZERO
    } else if B_LOWER_A <= b && b <= B_LOWER_F {
        b - B_LOWER_A + 10
    } else {
        b - B_UPPER_A + 10
    }
}

/// The position of the `k`-th hexadecimal digit.
fn nib_pos_at(k: usize) -> (r: usize)
    requires
        k < 32,
    ensures
        r as int == nib_pos(k as int),
        r < 36,
{
    if k < 8 {
        k
    } else if k < 12 {
        k + 1
    } else if k < 16 {
        k + 2
    } else if k < 20 {
        k + 3
    } else {
        k + 4
    }
}

/// Appends the canonical hyphenated form of the identifier.
pub fn encode_uuid(u: &Uuid, out: &mut Vec<u8>)
    requires
        u.wf(),
    ensures
        final(out)@ == old(out)@ + uuid_bytes(u@),
{
    let b = &u.bytes;
    let mut i: usize = 0;
    while i < 36
        invariant
            i <= 36,
            b@.len() == 16,
            b@ == u@,
            out@ == old(out)@ + uuid_bytes(u@).take(i as int),
        decreases 36 - i,
    {
        if i == 8 || i == 13 || i == 18 || i == 23 {
            out.push(B_MINUS);
        } else {
            let k = if i < 8 {
                i
            } else if i < 13 {
                i - 1
            } else if i < 18 {
                i - 2
            } else if i < 23 {
                i - 3
            } else {
                i - 4
            };
            let by = b[k / 2];
            let n = if k % 2 == 0 {
                by / 16
            } else {
                by % 16
            };
            let c = if n < 10 {
                n + B_ZERO
            } else {
                n - 10 + B_LOWER_A
            };
            out.push(c);
        }
        proof {
            assert(out@ =~= old(out)@ + uuid_bytes(u@).take(i + 1));
        }
        i = i + 1;
    }
    proof {
        assert(uuid_bytes(u@).take(36) =~= uuid_bytes(u@));
    }
}

/// Reads a hyphenated identifier, as [`uuid_of_bytes`] describes it.
pub fn decode_uuid(s: &[u8]) -> (r: Option<Uuid>)
    ensures
        match r {
            Some(u) => uuid_of_bytes(s@) == Some(u@) && u.wf(),
            None => uuid_of_bytes(s@) is None,
        },
{
    if s.len() != 36 {
        return None;
    }
    if !(s[8] == B_MINUS && s[13] == B_MINUS && s[18] == B_MINUS && s[23] == B_MINUS) {
        return None;
    }
    let mut acc: Vec<u8> = Vec::new();
    let mut j: usize = 0;
    while j < 16
        invariant
            j <= 16,
            s@.len() == 36,
            acc@.len() == j,
            forall|k: int| 0 <= k < 2 * j ==> is_hex(#[trigger] s@[nib_pos(k)]),
            forall|m: int|
                0 <= m < j ==> acc@[m] == (hex_val(s@[nib_pos(2 * m)]) * 16 + hex_val(
                    s@[nib_pos(2 * m + 1)],
                )) as u8,
        decreases 16 - j,
    {
        let p0 = nib_pos_at(2 * j);
        let p1 = nib_pos_at(2 * j + 1);
        if !is_hex_at(s, p0) {
            proof {
                assert(!is_hex(s@[nib_pos(2 * j as int)]));
            }
            return None;
        }
        if !is_hex_at(s, p1) {
            proof {
                assert(!is_hex(s@[nib_pos(2 * j as int + 1)]));
            }
            return None;
        }
        let hi = hex_val_at(s, p0);
        let lo = hex_val_at(s, p1);
        acc.push(hi * 16 + lo);
        j = j + 1;
    }
    proof {
        assert(acc@ =~= Seq::new(
            16,
            |m: int| (hex_val(s@[nib_pos(2 * m)]) * 16 + hex_val(s@[nib_pos(2 * m + 1)])) as u8,
        ));
    }
    Some(Uuid { bytes: acc })
}

/// Every sixteen-byte identifier survives the trip through its
/// hyphenated text.
pub proof fn lemma_uuid_round_trip(b: Seq<u8>)
    requires
        b.len() == 16,
    ensures
        uuid_of_bytes(uuid_bytes(b)) == Some(b),
{
    let s = uuid_bytes(b);
    assert(s.len() == 36);
    assert(s[8] == B_MINUS && s[13] == B_MINUS && s[18] == B_MINUS && s[23] == B_MINUS);
    assert forall|k: int| 0 <= k < 32 implies is_hex(#[trigger] s[nib_pos(k)]) by {
        assert(s[nib_pos(k)] == uuid_char(b, nib_pos(k)));
    }
    let d = Seq::new(
        16,
        |j: int| (hex_val(s[nib_pos(2 * j)]) * 16 + hex_val(s[nib_pos(2 * j + 1)])) as u8,
    );
    assert forall|j: int| 0 <= j < 16 implies d[j] == b[j] by {
        let hi = (b[j] / 16) as nat;
        let lo = (b[j] % 16) as nat;
        assert(s[nib_pos(2 * j)] == uuid_char(b, nib_pos(2 * j)));
        assert(s[nib_pos(2 * j + 1)] == uuid_char(b, nib_pos(2 * j + 1)));
        assert(uuid_char(b, nib_pos(2 * j)) == hex_lower(hi));
        assert(uuid_char(b, nib_pos(2 * j + 1)) == hex_lower(lo));
        assert(hex_val(hex_lower(hi)) == hi);
        assert(hex_val(hex_lower(lo)) == lo);
        lemma_fundamental_div_mod(b[j] as int, 16);
    }
    assert(d =~= b);
}

} // verus!
