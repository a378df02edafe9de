use crate::error::Error;
use vstd::prelude::*;
use vstd::string::*;

verus! {

/// The lower-case hexadecimal digit for `n`, where `0 <= n < 16`.
pub open spec fn hex_digit(n: int) -> char
    recommends
        0 <= n < 16,
{
    if n < 10 {
        (48 + n) as char
    } else {
        (87 + n) as char
    }
}

/// The lower-case hexadecimal text of `bytes`: two digits for each byte,
/// the high half first.
pub open spec fn hex_of(bytes: Seq<u8>) -> Seq<char> {
    Seq::new(
        2 * bytes.len(),
        |i: int|
            if i % 2 == 0 {
                hex_digit(bytes[i / 2] as int / 16)
            } else {
                hex_digit(bytes[i / 2] as int % 16)
            },
    )
}

/// What a hexadecimal digit stands for; letters count in either case.
pub open spec fn hex_value(c: char) -> Option<int> {
    let v = c as int;
    if 48 <= v <= 57 {
        Some(v - 48)
    } else if 97 <= v <= 102 {
        Some(v - 87)
    } else if 65 <= v <= 70 {
        Some(v - 55)
    } else {
        None
    }
}

/// `s` is hexadecimal text for whole bytes: an even number of digits.
pub open spec fn is_hex(s: Seq<char>) -> bool {
    &&& s.len() % 2 == 0
    &&& forall|i: int| 0 <= i < s.len() ==> hex_value(#[trigger] s[i]) is Some
}

/// The bytes that the hexadecimal text `s` stands for.
pub open spec fn unhex(s: Seq<char>) -> Seq<u8>
    recommends
        is_hex(s),
{
    Seq::new(
        s.len() / 2,
        |i: int| (16 * hex_value(s[2 * i]).unwrap() + hex_value(s[2 * i + 1]).unwrap()) as u8,
    )
}

/// Decoding undoes encoding: the text of `bytes` is hexadecimal and stands
/// for `bytes`.
pub proof fn lemma_unhex_hex_of(bytes: Seq<u8>)
    ensures
        is_hex(hex_of(bytes)),
        unhex(hex_of(bytes)) == bytes,
        hex_of(bytes).len() == 2 * bytes.len(),
{
    let s = hex_of(bytes);
    assert forall|i: int| 0 <= i < s.len() implies hex_value(#[trigger] s[i]) is Some by {
        let b = bytes[i / 2] as int;
        assert(0 <= b / 16 < 16 && 0 <= b % 16 < 16);
    }
    assert forall|i: int| 0 <= i < bytes.len() implies unhex(s)[i] == bytes[i] by {
        let b = bytes[i] as int;
        assert((2 * i) / 2 == i && (2 * i + 1) / 2 == i);
        assert(hex_value(s[2 * i]) == Some(b / 16));
        assert(hex_value(s[2 * i + 1]) == Some(b % 16));
        assert(16 * (b / 16) + b % 16 == b);
    }
    assert(unhex(s) =~= bytes);
}

/// Encoding what was decoded gives the text back in lower case: each digit
/// of the result stands for what the digit of `s` in its place stands for.
pub proof fn lemma_hex_of_unhex(s: Seq<char>)
    requires
        is_hex(s),
    ensures
        hex_of(unhex(s)).len() == s.len(),
        forall|i: int|
            0 <= i < s.len() ==> hex_value(#[trigger] hex_of(unhex(s))[i]) == hex_value(s[i]),
{
    let t = hex_of(unhex(s));
    assert forall|i: int| 0 <= i < s.len() implies hex_value(#[trigger] t[i]) == hex_value(
        s[i],
    ) by {
        let k = i / 2;
        let hi = hex_value(s[2 * k]).unwrap();
        let lo = hex_value(s[2 * k + 1]).unwrap();
        assert(hex_value(s[2 * k]) is Some && hex_value(s[2 * k + 1]) is Some);
        assert(0 <= hi < 16 && 0 <= lo < 16);
        assert(unhex(s)[k] as int == 16 * hi + lo);
        assert((16 * hi + lo) / 16 == hi && (16 * hi + lo) % 16 == lo);
    }
}

/// One hexadecimal digit as text.
fn digit_text(n: u8) -> (s: &'static str)
    requires
        n < 16,
    ensures
        s@ == seq![hex_digit(n as int)],
{
    proof {
        reveal_strlit("0");
        reveal_strlit("1");
        reveal_strlit("2");
        reveal_strlit("3");
        reveal_strlit("4");
        reveal_strlit("5");
        reveal_strlit("6");
        reveal_strlit("7");
        reveal_strlit("8");
        reveal_strlit("9");
        reveal_strlit("a");
        reveal_strlit("b");
        reveal_strlit("c");
        reveal_strlit("d");
        reveal_strlit("e");
        reveal_strlit("f");
    }
    let s = match n {
        0 => "0",
        1 => "1",
        2 => "2",
        3 => "3",
        4 => "4",
        5 => "5",
        6 => "6",
        7 => "7",
        8 => "8",
        9 => "9",
        10 => "a",
        11 => "b",
        12 => "c",
        13 => "d",
        14 => "e",
        _ => "f",
    };
    assert(s@ =~= seq![hex_digit(n as int)]);
    s
}

/// Writes `bytes` as lower-case hexadecimal text.
pub fn encode_hex(bytes: &[u8]) -> (text: String)
    ensures
        text@ == hex_of(bytes@),
{
    let mut text = String::new();
    let mut i: usize = 0;
    while i < bytes.len()
        invariant
            i <= bytes.len(),
            text@ == hex_of(bytes@.take(i as int)),
        decreases bytes.len() - i,
    {
        let b = bytes[i];
        let ghost before = text@;
        text.append(digit_text(b / 16));
        text.append(digit_text(b % 16));
        proof {
            let done = bytes@.take(i as int);
            let next = bytes@.take(i + 1);
            assert(text@ == before + seq![hex_digit(b as int / 16)] + seq![
                hex_digit(b as int % 16),
            ]);
            assert forall|j: int| 0 <= j < 2 * (i + 1) implies text@[j] == hex_of(next)[j] by {
                if j < 2 * i {
                    assert(before[j] == hex_of(done)[j]);
                    assert(done[j / 2] == next[j / 2]);
                }
            }
            assert(text@ =~= hex_of(next));
        }
        i += 1;
    }
    assert(bytes@.take(i as int) =~= bytes@);
    text
}

/// What one byte of hexadecimal text stands for, if it is a digit.
fn nibble(b: u8) -> (r: Option<u8>)
    ensures
        match hex_value(b as char) {
            Some(v) => r == Some(v as u8) && v < 16,
            None => r is None,
        },
{
    if 48 <= b && b <= 57 {
        Some(b - 48)
    } else if 97 <= b && b <= 102 {
        Some(b - 87)
    } else if 65 <= b && b <= 70 {
        Some(b - 55)
    } else {
        None
    }
}

/// Reads hexadecimal text as bytes. The text must hold an even number of
/// digits and nothing else.
pub fn decode_hex(s: &str) -> (r: Result<Vec<u8>, Error>)
    ensures
        is_hex(s@) ==> (r matches Ok(v) && v@ == unhex(s@)),
        !is_hex(s@) ==> r == Err::<Vec<u8>, Error>(Error::InvalidArgument),
{
    if !s.is_ascii() {
        proof {
            let i = choose|i: int| 0 <= i < s@.len() && !('\0' <= #[trigger] s@[i] <= '\u{7f}');
            assert(hex_value(s@[i]) is None);
        }
        return Err(Error::InvalidArgument);
    }
    let bytes = s.as_bytes();
    proof {
        is_ascii_spec_bytes(s);
        vstd::utf8::is_ascii_chars_nat_bound(s@);
    }
    assert(bytes@.len() == s@.len());
    assert(forall|i: int| 0 <= i < s@.len() ==> bytes@[i] as char == #[trigger] s@[i]);
    let n = bytes.len();
    if n % 2 != 0 {
        return Err(Error::InvalidArgument);
    }
    let mut out: Vec<u8> = Vec::new();
    let mut i: usize = 0;
    while i < n / 2
        invariant
            n == bytes@.len(),
            n == s@.len(),
            n % 2 == 0,
            i <= n / 2,
            forall|k: int| 0 <= k < s@.len() ==> bytes@[k] as char == #[trigger] s@[k],
            forall|k: int| 0 <= k < 2 * i ==> hex_value(#[trigger] s@[k]) is Some,
            out@.len() == i,
            forall|k: int| 0 <= k < i ==> #[trigger] out@[k] == unhex(s@)[k],
        decreases n / 2 - i,
    {
        let hi = nibble(bytes[2 * i]);
        let lo = nibble(bytes[2 * i + 1]);
        match (hi, lo) {
            (Some(h), Some(l)) => {
                out.push(16 * h + l);
            },
            _ => {
                assert(hex_value(s@[2 * i]) is None || hex_value(s@[2 * i + 1]) is None);
                return Err(Error::InvalidArgument);
            },
        }
        i += 1;
    }
    assert(out@ =~= unhex(s@));
    Ok(out)
}

} // verus!
