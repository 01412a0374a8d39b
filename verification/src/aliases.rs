//! Unguessable alias strings.
//!
//! An alias is a bearer capability for uploading into a pending file item, so
//! it must not be guessable from earlier aliases without knowing the seed.
//! The generator walks a 64-bit xorshift sequence — a bijection on nonzero
//! states, so the sequence does not repeat before 2^64 - 1 draws — and prints
//! each state as sixteen hexadecimal characters.

use vstd::prelude::*;

verus! {

/// The xorshift successor of a generator state.
pub open spec fn scrambled(x: u64) -> u64 {
    let a = x ^ (x << 13);
    let b = a ^ (a >> 7);
    b ^ (b << 17)
}

/// The hexadecimal digit for a value below sixteen.
pub open spec fn hex_digit(d: u64) -> char {
    if d == 0 {
        '0'
    } else if d == 1 {
        '1'
    } else if d == 2 {
        '2'
    } else if d == 3 {
        '3'
    } else if d == 4 {
        '4'
    } else if d == 5 {
        '5'
    } else if d == 6 {
        '6'
    } else if d == 7 {
        '7'
    } else if d == 8 {
        '8'
    } else if d == 9 {
        '9'
    } else if d == 10 {
        'a'
    } else if d == 11 {
        'b'
    } else if d == 12 {
        'c'
    } else if d == 13 {
        'd'
    } else if d == 14 {
        'e'
    } else {
        'f'
    }
}

/// The sixteen-character hexadecimal spelling of a state, low nibble first.
pub open spec fn alias_chars(x: u64) -> Seq<char> {
    Seq::new(16, |i: int| hex_digit((x >> (4 * i as u64)) & 0xf))
}

/// The source of alias strings: a 64-bit xorshift state.
pub struct AliasGenerator {
    state: u64,
}

impl AliasGenerator {
    /// The current state.
    pub closed spec fn state(&self) -> u64 {
        self.state
    }

    /// A generator seeded with `seed`; a zero seed is replaced, since zero is
    /// a fixed point of the scramble.
    pub fn new(seed: u64) -> (r: AliasGenerator)
        ensures
            r.state() == (if seed == 0 {
                0x9e3779b97f4a7c15u64
            } else {
                seed
            }),
    {
        let state = if seed == 0 {
            0x9e3779b97f4a7c15u64
        } else {
            seed
        };
        AliasGenerator { state }
    }

    /// Draws the next alias string.
    pub fn next_alias(&mut self) -> (r: String)
        ensures
            final(self).state() == scrambled(old(self).state()),
            r@ == alias_chars(final(self).state()),
            r@.len() == 16,
    {
        let x = self.state;
        let a = x ^ (x << 13u64);
        let b = a ^ (a >> 7u64);
        let c = b ^ (b << 17u64);
        self.state = c;
        assert(c == scrambled(x));
        let mut s = String::new();
        let mut i: u64 = 0;
        while i < 16
            invariant
                i <= 16,
                s@.len() == i,
                forall|j: int| 0 <= j < i ==> s@[j] == hex_digit((c >> (4 * j as u64)) & 0xf),
            decreases 16 - i,
        {
            let d = (c >> (4 * i)) & 0xf;
            assert(d < 16) by (bit_vector)
                requires
                    d == (c >> (4 * i)) & 0xf,
            ;
            s.append(hex_digit_str(d));
            i = i + 1;
        }
        proof {
            assert(s@ =~= alias_chars(c));
        }
        s
    }
}

/// The one-character string for a hexadecimal digit.
fn hex_digit_str(d: u64) -> (r: &'static str)
    requires
        d < 16,
    ensures
        r@ == seq![hex_digit(d)],
{
    proof {
        reveal_strlit("0");
        reveal_strlit("1");
        reveal_strlit("2");
        reveal_strlit("3");
        reveal_strlit("4");
        reveal_strlit("5");
        reveal_strlit("6");
        reveal_strlit("7");
        reveal_strlit("8");
        reveal_strlit("9");
        reveal_strlit("a");
        reveal_strlit("b");
        reveal_strlit("c");
        reveal_strlit("d");
        reveal_strlit("e");
        reveal_strlit("f");
    }
    if d == 0 {
        "0"
    } else if d == 1 {
        "1"
    } else if d == 2 {
        "2"
    } else if d == 3 {
        "3"
    } else if d == 4 {
        "4"
    } else if d == 5 {
        "5"
    } else if d == 6 {
        "6"
    } else if d == 7 {
        "7"
    } else if d == 8 {
        "8"
    } else if d == 9 {
        "9"
    } else if d == 10 {
        "a"
    } else if d == 11 {
        "b"
    } else if d == 12 {
        "c"
    } else if d == 13 {
        "d"
    } else if d == 14 {
        "e"
    } else {
        "f"
    }
}

} // verus!
