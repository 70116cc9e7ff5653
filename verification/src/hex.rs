//! Lower-case hexadecimal text of byte strings, and the leading-zero test
//! that proof of work is stated in.
use vstd::prelude::*;
use vstd::string::StringExecFns;

verus! {

/// The hexadecimal digit of a value below sixteen.
pub open spec fn spec_hex_digit(n: int) -> char {
    if n == 0 {
        '0'
    } else if n == 1 {
        '1'
    } else if n == 2 {
        '2'
    } else if n == 3 {
        '3'
    } else if n == 4 {
        '4'
    } else if n == 5 {
        '5'
    } else if n == 6 {
        '6'
    } else if n == 7 {
        '7'
    } else if n == 8 {
        '8'
    } else if n == 9 {
        '9'
    } else if n == 10 {
        'a'
    } else if n == 11 {
        'b'
    } else if n == 12 {
        'c'
    } else if n == 13 {
        'd'
    } else if n == 14 {
        'e'
    } else {
        'f'
    }
}

/// The value below sixteen that digit `i` of the hexadecimal text of `bytes`
/// stands for: the high half of a byte comes first.
pub open spec fn spec_nibble(bytes: Seq<u8>, i: int) -> int {
    if i % 2 == 0 {
        bytes[i / 2] as int / 16
    } else {
        bytes[i / 2] as int % 16
    }
}

/// The hexadecimal text of `bytes`: two lower-case digits for each byte.
pub open spec fn spec_hex(bytes: Seq<u8>) -> Seq<char> {
    Seq::new(2 * bytes.len(), |i: int| spec_hex_digit(spec_nibble(bytes, i)))
}

/// Whether `text` starts with `difficulty` characters `'0'`.
pub open spec fn spec_leading_zeros(text: Seq<char>, difficulty: nat) -> bool {
    &&& difficulty <= text.len()
    &&& forall|i: int| 0 <= i < difficulty ==> text[i] == '0'
}

fn hex_digit_text(n: u8) -> (text: &'static str)
    requires
        n < 16,
    ensures
        text@ == seq![spec_hex_digit(n as int)],
{
    proof {
        reveal_strlit("0");
        reveal_strlit("1");
        reveal_strlit("2");
        reveal_strlit("3");
        reveal_strlit("4");
        reveal_strlit("5");
        reveal_strlit("6");
        reveal_strlit("7");
        reveal_strlit("8");
        reveal_strlit("9");
        reveal_strlit("a");
        reveal_strlit("b");
        reveal_strlit("c");
        reveal_strlit("d");
        reveal_strlit("e");
        reveal_strlit("f");
    }
    let text = if n == 0 {
        "0"
    } else if n == 1 {
        "1"
    } else if n == 2 {
        "2"
    } else if n == 3 {
        "3"
    } else if n == 4 {
        "4"
    } else if n == 5 {
        "5"
    } else if n == 6 {
        "6"
    } else if n == 7 {
        "7"
    } else if n == 8 {
        "8"
    } else if n == 9 {
        "9"
    } else if n == 10 {
        "a"
    } else if n == 11 {
        "b"
    } else if n == 12 {
        "c"
    } else if n == 13 {
        "d"
    } else if n == 14 {
        "e"
    } else {
        "f"
    };
    assert(text@ =~= seq![spec_hex_digit(n as int)]);
    text
}

/// Writes `bytes` as lower-case hexadecimal text.
pub fn to_hex(bytes: &[u8]) -> (text: String)
    ensures
        text@ == spec_hex(bytes@),
{
    let mut text = String::new();
    let mut i: usize = 0;
    while i < bytes.len()
        invariant
            i <= bytes.len(),
            text@.len() == 2 * i,
            forall|k: int| 0 <= k < 2 * i ==> text@[k] == spec_hex_digit(spec_nibble(bytes@, k)),
        decreases bytes.len() - i,
    {
        let b = bytes[i];
        let ghost before = text@;
        text.append(hex_digit_text(b / 16));
        text.append(hex_digit_text(b % 16));
        proof {
            assert(text@ =~= before.push(spec_hex_digit(b as int / 16)).push(
                spec_hex_digit(b as int % 16),
            ));
            assert forall|k: int| 0 <= k < 2 * (i + 1) implies text@[k] == spec_hex_digit(
                spec_nibble(bytes@, k),
            ) by {
                if k < 2 * i {
                    assert(text@[k] == before[k]);
                }
            }
        }
        i += 1;
    }
    assert(text@ =~= spec_hex(bytes@));
    text
}

/// Tells whether the hexadecimal text of `bytes` starts with `difficulty`
/// zero digits, without building the text.
pub fn has_leading_zeros(bytes: &[u8], difficulty: usize) -> (yes: bool)
    ensures
        yes == spec_leading_zeros(spec_hex(bytes@), difficulty as nat),
{
    if bytes.len() < difficulty / 2 || (difficulty % 2 == 1 && bytes.len() <= difficulty / 2) {
        return false;
    }
    let mut i: usize = 0;
    while i < difficulty
        invariant
            i <= difficulty,
            difficulty <= 2 * bytes.len(),
            forall|k: int| 0 <= k < i ==> spec_hex(bytes@)[k] == '0',
        decreases difficulty - i,
    {
        let b = bytes[i / 2];
        let nibble = if i % 2 == 0 {
            b / 16
        } else {
            b % 16
        };
        if nibble != 0 {
            assert(spec_hex(bytes@)[i as int] != '0');
            return false;
        }
        i += 1;
    }
    true
}

} // verus!
