//! Lowercase hexadecimal rendering of byte sequences, used for digest output.

use vstd::prelude::*;
use vstd::string::StrSliceExecFns;
use vstd::string::StringExecFns;

verus! {

/// The lowercase hexadecimal digit for a value below 16.
pub open spec fn hex_digit(n: u8) -> char
    recommends
        n < 16,
{
    if n == 0 {
        '0'
    } else if n == 1 {
        '1'
    } else if n == 2 {
        '2'
    } else if n == 3 {
        '3'
    } else if n == 4 {
        '4'
    } else if n == 5 {
        '5'
    } else if n == 6 {
        '6'
    } else if n == 7 {
        '7'
    } else if n == 8 {
        '8'
    } else if n == 9 {
        '9'
    } else if n == 10 {
        'a'
    } else if n == 11 {
        'b'
    } else if n == 12 {
        'c'
    } else if n == 13 {
        'd'
    } else if n == 14 {
        'e'
    } else {
        'f'
    }
}

/// Two lowercase hexadecimal digits per byte, high nibble first.
pub open spec fn hex_of(data: Seq<u8>) -> Seq<char>
    decreases data.len(),
{
    if data.len() == 0 {
        Seq::empty()
    } else {
        hex_of(data.drop_last()) + seq![hex_digit(data.last() / 16), hex_digit(data.last() % 16)]
    }
}

pub proof fn lemma_hex_of_len(data: Seq<u8>)
    ensures
        hex_of(data).len() == 2 * data.len(),
    decreases data.len(),
{
    if data.len() > 0 {
        lemma_hex_of_len(data.drop_last());
    }
}

/// Every character a hexadecimal rendering can hold.
pub open spec fn is_hex_char(c: char) -> bool {
    ('0' <= c && c <= '9') || ('a' <= c && c <= 'f')
}

pub proof fn lemma_hex_of_chars(data: Seq<u8>)
    ensures
        forall|i: int| 0 <= i < hex_of(data).len() ==> is_hex_char(#[trigger] hex_of(data)[i]),
    decreases data.len(),
{
    if data.len() > 0 {
        lemma_hex_of_chars(data.drop_last());
        lemma_hex_of_len(data.drop_last());
        let prefix = hex_of(data.drop_last());
        assert forall|i: int| 0 <= i < hex_of(data).len() implies is_hex_char(
            #[trigger] hex_of(data)[i],
        ) by {
            if i < prefix.len() {
                assert(hex_of(data)[i] == prefix[i]);
            } else if i == prefix.len() {
                assert(hex_of(data)[i] == hex_digit(data.last() / 16));
            } else {
                assert(hex_of(data)[i] == hex_digit(data.last() % 16));
            }
        }
    }
}

/// Renders bytes as lowercase hexadecimal, two digits per byte.
pub fn to_hex(data: &Vec<u8>) -> (r: String)
    ensures
        r@ == hex_of(data@),
        r@.len() == 2 * data@.len(),
{
    let digits = "0123456789abcdef";
    proof {
        reveal_strlit("0123456789abcdef");
    }
    let mut r = String::new();
    let mut i: usize = 0;
    while i < data.len()
        invariant
            i <= data@.len(),
            r@ == hex_of(data@.take(i as int)),
            digits@.len() == 16,
            forall|k: int| 0 <= k < 16 ==> digits@[k] == hex_digit(k as u8),
        decreases data@.len() - i,
    {
        let b = data[i];
        let hi = b / 16;
        let lo = b % 16;
        r.append(digits.substring_char(hi as usize, hi as usize + 1));
        r.append(digits.substring_char(lo as usize, lo as usize + 1));
        proof {
            assert(data@.take(i + 1 as int).drop_last() =~= data@.take(i as int));
            assert(data@.take(i + 1 as int).last() == data@[i as int]);
            assert(digits@.subrange(hi as int, hi as int + 1) =~= seq![hex_digit(hi)]);
            assert(digits@.subrange(lo as int, lo as int + 1) =~= seq![hex_digit(lo)]);
            assert(r@ =~= hex_of(data@.take(i + 1 as int)));
        }
        i += 1;
    }
    proof {
        assert(data@.take(data@.len() as int) =~= data@);
        lemma_hex_of_len(data@);
    }
    r
}

} // verus!
