use vstd::prelude::*;
use crate::text::push_char;

verus! {

/// The lowercase hexadecimal digit for a nibble.
pub open spec fn hex_digit(n: int) -> char {
    if 0 <= n < 10 {
        ((n + 48) as u8) as char
    } else {
        ((n - 10 + 97) as u8) as char
    }
}

/// Lowercase two-digits-per-byte hexadecimal rendering of a byte string.
pub open spec fn hex_of(bytes: Seq<u8>) -> Seq<char>
    decreases bytes.len(),
{
    if bytes.len() == 0 {
        Seq::empty()
    } else {
        hex_of(bytes.drop_last()).push(hex_digit(bytes.last() as int / 16)).push(
            hex_digit(bytes.last() as int % 16),
        )
    }
}

fn nibble_char(n: u8) -> (c: char)
    requires
        n < 16,
    ensures
        c == hex_digit(n as int),
{
    if n < 10 {
        (n + 48) as char
    } else {
        (n - 10 + 97) as char
    }
}

/// Lowercase hexadecimal of `bytes`, two digits per byte.
pub fn encode_hex(bytes: &[u8]) -> (s: String)
    ensures
        s@ == hex_of(bytes@),
{
    let mut s = String::new();
    let mut i: usize = 0;
    while i < bytes.len()
        invariant
            i <= bytes.len(),
            s@ == hex_of(bytes@.subrange(0, i as int)),
        decreases bytes.len() - i,
    {
        let b = bytes[i];
        push_char(&mut s, nibble_char(b / 16));
        push_char(&mut s, nibble_char(b % 16));
        proof {
            assert(bytes@.subrange(0, i + 1).drop_last() =~= bytes@.subrange(0, i as int));
        }
        i = i + 1;
    }
    proof {
        assert(bytes@.subrange(0, bytes.len() as int) =~= bytes@);
    }
    s
}

/// Each byte's two digits sit at positions `2i` and `2i + 1`.
pub proof fn lemma_hex_of_index(bytes: Seq<u8>)
    ensures
        hex_of(bytes).len() == 2 * bytes.len(),
        forall|j: int|
            0 <= j < bytes.len() ==> #[trigger] hex_of(bytes)[2 * j] == hex_digit(bytes[j] as int / 16)
                && hex_of(bytes)[2 * j + 1] == hex_digit(bytes[j] as int % 16),
    decreases bytes.len(),
{
    if bytes.len() > 0 {
        let d = bytes.drop_last();
        lemma_hex_of_index(d);
        assert forall|j: int| 0 <= j < bytes.len() implies #[trigger] hex_of(bytes)[2 * j] == hex_digit(
            bytes[j] as int / 16,
        ) && hex_of(bytes)[2 * j + 1] == hex_digit(bytes[j] as int % 16) by {
            if j < d.len() {
                assert(hex_of(d)[2 * j] == hex_digit(d[j] as int / 16));
                assert(d[j] == bytes[j]);
            }
        }
    }
}

} // verus!
