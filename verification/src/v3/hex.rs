//! Lowercase hexadecimal text for byte strings.
use vstd::prelude::*;
use vstd::string::StringExecFns;

verus! {

/// The hexadecimal digit for a number below sixteen.
pub open spec fn digit(n: int) -> char {
    if n == 0 {
        '0'
    } else if n == 1 {
        '1'
    } else if n == 2 {
        '2'
    } else if n == 3 {
        '3'
    } else if n == 4 {
        '4'
    } else if n == 5 {
        '5'
    } else if n == 6 {
        '6'
    } else if n == 7 {
        '7'
    } else if n == 8 {
        '8'
    } else if n == 9 {
        '9'
    } else if n == 10 {
        'a'
    } else if n == 11 {
        'b'
    } else if n == 12 {
        'c'
    } else if n == 13 {
        'd'
    } else if n == 14 {
        'e'
    } else {
        'f'
    }
}

/// The two digits of a byte, the high one first.
pub open spec fn pair(byte: u8) -> Seq<char> {
    seq![digit(byte as int / 16), digit(byte as int % 16)]
}

/// The digits of a byte without a leading zero.
pub open spec fn short(byte: u8) -> Seq<char> {
    if byte < 16 {
        seq![digit(byte as int)]
    } else {
        pair(byte)
    }
}

/// The text of `bytes`: two digits for each byte, in order.
pub open spec fn text(bytes: Seq<u8>) -> Seq<char>
    decreases bytes.len(),
{
    if bytes.len() == 0 {
        Seq::empty()
    } else {
        text(bytes.drop_last()) + pair(bytes.last())
    }
}

/// The text of `bytes` as a list: each byte without a leading zero, the
/// bytes separated by a comma and a space, the whole in square brackets.
pub open spec fn list(bytes: Seq<u8>) -> Seq<char> {
    seq!['['] + items(bytes) + seq![']']
}

/// The inside of `list`.
pub open spec fn items(bytes: Seq<u8>) -> Seq<char>
    decreases bytes.len(),
{
    if bytes.len() == 0 {
        Seq::empty()
    } else if bytes.len() == 1 {
        short(bytes[0])
    } else {
        items(bytes.drop_last()) + seq![',', ' '] + short(bytes.last())
    }
}

/// The digit for `n`, as text.
fn digit_str(n: u8) -> (s: &'static str)
    requires
        n < 16,
    ensures
        s@ == seq![digit(n as int)],
{
    proof {
        reveal_strlit("0");
        reveal_strlit("1");
        reveal_strlit("2");
        reveal_strlit("3");
        reveal_strlit("4");
        reveal_strlit("5");
        reveal_strlit("6");
        reveal_strlit("7");
        reveal_strlit("8");
        reveal_strlit("9");
        reveal_strlit("a");
        reveal_strlit("b");
        reveal_strlit("c");
        reveal_strlit("d");
        reveal_strlit("e");
        reveal_strlit("f");
    }
    let s = match n {
        0 => "0",
        1 => "1",
        2 => "2",
        3 => "3",
        4 => "4",
        5 => "5",
        6 => "6",
        7 => "7",
        8 => "8",
        9 => "9",
        10 => "a",
        11 => "b",
        12 => "c",
        13 => "d",
        14 => "e",
        _ => "f",
    };
    assert(s@ =~= seq![digit(n as int)]);
    s
}

/// Writes `bytes` as lowercase hexadecimal digits, two for each byte.
pub fn to_hex(bytes: &[u8]) -> (s: String)
    ensures
        s@ == text(bytes@),
{
    let mut s = String::new();
    let mut i: usize = 0;
    while i < bytes.len()
        invariant
            i <= bytes.len(),
            s@ == text(bytes@.take(i as int)),
        decreases bytes.len() - i,
    {
        let byte = bytes[i];
        s.append(digit_str(byte / 16));
        s.append(digit_str(byte % 16));
        proof {
            assert(bytes@.take(i + 1).drop_last() =~= bytes@.take(i as int));
            assert(s@ =~= text(bytes@.take(i as int)) + pair(byte));
        }
        i += 1;
    }
    assert(bytes@.take(i as int) =~= bytes@);
    s
}

/// Writes `bytes` as a list of lowercase hexadecimal numbers.
pub fn to_hex_list(bytes: &[u8]) -> (s: String)
    ensures
        s@ == list(bytes@),
{
    proof {
        reveal_strlit("[");
        reveal_strlit("]");
        reveal_strlit(", ");
    }
    let mut s = String::new();
    s.append("[");
    let mut i: usize = 0;
    while i < bytes.len()
        invariant
            i <= bytes.len(),
            s@ == seq!['['] + items(bytes@.take(i as int)),
            ", "@ == seq![',', ' '],
        decreases bytes.len() - i,
    {
        let byte = bytes[i];
        let ghost before = s@;
        if i > 0 {
            s.append(", ");
        }
        if byte >= 16 {
            s.append(digit_str(byte / 16));
        }
        s.append(digit_str(byte % 16));
        proof {
            assert(bytes@.take(i + 1).drop_last() =~= bytes@.take(i as int));
            assert(bytes@.take(i + 1).last() == byte);
            if i == 0 {
                assert(bytes@.take(0) =~= Seq::<u8>::empty());
                assert(s@ =~= seq!['['] + short(byte));
            } else {
                assert(s@ =~= seq!['['] + (items(bytes@.take(i as int)) + seq![',', ' '] + short(
                    byte,
                )));
            }
        }
        i += 1;
    }
    s.append("]");
    assert(bytes@.take(i as int) =~= bytes@);
    assert(s@ =~= list(bytes@));
    s
}

} // verus!
