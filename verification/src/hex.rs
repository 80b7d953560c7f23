//! Lowercase hexadecimal rendering of a digest, as the report prints it.

use vstd::prelude::*;
use vstd::string::StringExecFns;

verus! {

/// The lowercase hexadecimal digit standing for a value below 16.
pub open spec fn hex_digit(n: int) -> char {
    if n == 0 {
        '0'
    } else if n == 1 {
        '1'
    } else if n == 2 {
        '2'
    } else if n == 3 {
        '3'
    } else if n == 4 {
        '4'
    } else if n == 5 {
        '5'
    } else if n == 6 {
        '6'
    } else if n == 7 {
        '7'
    } else if n == 8 {
        '8'
    } else if n == 9 {
        '9'
    } else if n == 10 {
        'a'
    } else if n == 11 {
        'b'
    } else if n == 12 {
        'c'
    } else if n == 13 {
        'd'
    } else if n == 14 {
        'e'
    } else {
        'f'
    }
}

/// The lowercase hexadecimal rendering of a byte sequence: two digits per
/// byte, high digit first.
pub open spec fn hex_of(data: Seq<u8>) -> Seq<char>
    decreases data.len(),
{
    if data.len() == 0 {
        Seq::empty()
    } else {
        hex_of(data.drop_last())
            + seq![hex_digit(data.last() as int / 16), hex_digit(data.last() as int % 16)]
    }
}

/// The one-character string for a value below 16.
fn digit_str(n: u8) -> (d: &'static str)
    requires
        n < 16,
    ensures
        d@ == seq![hex_digit(n as int)],
{
    proof {
        reveal_strlit("0");
        reveal_strlit("1");
        reveal_strlit("2");
        reveal_strlit("3");
        reveal_strlit("4");
        reveal_strlit("5");
        reveal_strlit("6");
        reveal_strlit("7");
        reveal_strlit("8");
        reveal_strlit("9");
        reveal_strlit("a");
        reveal_strlit("b");
        reveal_strlit("c");
        reveal_strlit("d");
        reveal_strlit("e");
        reveal_strlit("f");
    }
    let d = if n == 0 {
        "0"
    } else if n == 1 {
        "1"
    } else if n == 2 {
        "2"
    } else if n == 3 {
        "3"
    } else if n == 4 {
        "4"
    } else if n == 5 {
        "5"
    } else if n == 6 {
        "6"
    } else if n == 7 {
        "7"
    } else if n == 8 {
        "8"
    } else if n == 9 {
        "9"
    } else if n == 10 {
        "a"
    } else if n == 11 {
        "b"
    } else if n == 12 {
        "c"
    } else if n == 13 {
        "d"
    } else if n == 14 {
        "e"
    } else {
        "f"
    };
    proof {
        assert(d@ =~= seq![hex_digit(n as int)]);
    }
    d
}

/// Render a digest as a lowercase hexadecimal string.
pub fn to_hex(digest: &Vec<u8>) -> (s: String)
    ensures
        s@ == hex_of(digest@),
{
    let mut s = String::new();
    proof {
        assert(digest@.take(0) =~= Seq::<u8>::empty());
    }
    let mut i: usize = 0;
    while i < digest.len()
        invariant
            i <= digest.len(),
            s@ == hex_of(digest@.take(i as int)),
        decreases digest.len() - i,
    {
        let b = digest[i];
        let hi = b / 16;
        let lo = b % 16;
        s.append(digit_str(hi));
        s.append(digit_str(lo));
        proof {
            assert(digest@.take(i + 1).drop_last() =~= digest@.take(i as int));
            assert(digest@.take(i + 1).last() == digest@[i as int]);
            assert(s@ =~= hex_of(digest@.take(i + 1)));
        }
        i += 1;
    }
    proof {
        assert(digest@.take(digest@.len() as int) =~= digest@);
    }
    s
}

} // verus!
