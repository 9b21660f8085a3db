//! Entity identifier: the 16 raw bytes of a DDS GUID, held as one 128-bit
//! value. A sentinel with all bits set marks endpoint slots that a node
//! manifest referenced but discovery has not resolved yet.

use vstd::prelude::*;

verus! {

/// Identifier of a participant, reader or writer: 16 raw bytes, big-endian.
#[derive(Clone, Copy, PartialEq, Eq, Structural, Debug, Hash)]
pub struct Gid {
    pub value: u128,
}

/// The sentinel identifier: all 16 bytes are `0xff`.
pub open spec fn not_discovered_gid() -> Gid {
    Gid { value: u128::MAX }
}

impl Gid {
    /// Builds an identifier from its 128-bit value.
    pub fn new(value: u128) -> (g: Gid)
        ensures
            g.value == value,
    {
        Gid { value }
    }

    /// The sentinel marking a slot whose endpoint is still awaited.
    pub fn not_discovered() -> (g: Gid)
        ensures
            g == not_discovered_gid(),
    {
        Gid { value: u128::MAX }
    }

    /// True iff this is the sentinel identifier.
    pub fn is_not_discovered(&self) -> (b: bool)
        ensures
            b == (*self == not_discovered_gid()),
    {
        self.value == u128::MAX
    }

    /// The display form: the 16 bytes as 32 lowercase hex digits.
    pub fn to_hex(&self) -> (r: String)
        ensures
            r@ == gid_hex(*self),
    {
        let mut out = String::new();
        let mut i: usize = 0;
        while i < 32
            invariant
                i <= 32,
                out@ =~= gid_hex(*self).take(i as int),
            decreases 32 - i,
        {
            let sh: u128 = (4 * (31 - i)) as u128;
            let nib: u8 = ((self.value >> sh) % 16) as u8;
            proof {
                assert(sh == (4 * (31 - i as int)) as u128);
                assert(nib == gid_nibble(self.value, i as int));
                assert(nib < 16);
            }
            out.append(hex_digit_str(nib));
            proof {
                assert(gid_hex(*self).take(i + 1).drop_last() =~= gid_hex(*self).take(i as int));
                assert(out@ =~= gid_hex(*self).take(i + 1));
            }
            i += 1;
        }
        proof {
            assert(gid_hex(*self).take(32) =~= gid_hex(*self));
        }
        out
    }
}

/// One nibble of the value, most significant first.
pub open spec fn gid_nibble(v: u128, i: int) -> u8 {
    ((v >> ((4 * (31 - i)) as u128)) % 16) as u8
}

/// The character for one hex digit.
pub open spec fn hex_digit(d: u8) -> char {
    if d == 0 {
        '0'
    } else if d == 1 {
        '1'
    } else if d == 2 {
        '2'
    } else if d == 3 {
        '3'
    } else if d == 4 {
        '4'
    } else if d == 5 {
        '5'
    } else if d == 6 {
        '6'
    } else if d == 7 {
        '7'
    } else if d == 8 {
        '8'
    } else if d == 9 {
        '9'
    } else if d == 10 {
        'a'
    } else if d == 11 {
        'b'
    } else if d == 12 {
        'c'
    } else if d == 13 {
        'd'
    } else if d == 14 {
        'e'
    } else {
        'f'
    }
}

/// The 32 hex digits of an identifier, most significant first.
pub open spec fn gid_hex(g: Gid) -> Seq<char> {
    Seq::new(32, |i: int| hex_digit(gid_nibble(g.value, i)))
}

/// One hex digit as a string slice.
fn hex_digit_str(d: u8) -> (r: &'static str)
    requires
        d < 16,
    ensures
        r@ == seq![hex_digit(d)],
{
    proof {
        reveal_strlit("0");
        reveal_strlit("1");
        reveal_strlit("2");
        reveal_strlit("3");
        reveal_strlit("4");
        reveal_strlit("5");
        reveal_strlit("6");
        reveal_strlit("7");
        reveal_strlit("8");
        reveal_strlit("9");
        reveal_strlit("a");
        reveal_strlit("b");
        reveal_strlit("c");
        reveal_strlit("d");
        reveal_strlit("e");
        reveal_strlit("f");
    }
    let r = if d == 0 {
        "0"
    } else if d == 1 {
        "1"
    } else if d == 2 {
        "2"
    } else if d == 3 {
        "3"
    } else if d == 4 {
        "4"
    } else if d == 5 {
        "5"
    } else if d == 6 {
        "6"
    } else if d == 7 {
        "7"
    } else if d == 8 {
        "8"
    } else if d == 9 {
        "9"
    } else if d == 10 {
        "a"
    } else if d == 11 {
        "b"
    } else if d == 12 {
        "c"
    } else if d == 13 {
        "d"
    } else if d == 14 {
        "e"
    } else {
        "f"
    };
    assert(r@ =~= seq![hex_digit(d)]);
    r
}

} // verus!
