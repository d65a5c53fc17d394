//! Operations on character strings: truncation to a bound, replacement of
//! dots by dashes, and decimal rendering.

use vstd::prelude::*;
use vstd::string::*;

verus! {

/// The first `limit` characters of `s`, or all of `s` where it has no more.
pub open spec fn truncated(s: Seq<char>, limit: nat) -> Seq<char> {
    if s.len() <= limit {
        s
    } else {
        s.subrange(0, limit as int)
    }
}

/// Cuts `value` down to at most `limit` characters, keeping its beginning.
pub fn truncate(value: &str, limit: usize) -> (out: String)
    ensures
        out@ == truncated(value@, limit as nat),
{
    let count = value.unicode_len();
    if count <= limit {
        String::from_str(value)
    } else {
        String::from_str(value.substring_char(0, limit))
    }
}

/// Truncation never lengthens, keeps short strings whole, and cuts a longer
/// one to exactly its first `limit` characters.
pub proof fn lemma_truncated(s: Seq<char>, limit: nat)
    ensures
        truncated(s, limit).len() <= limit,
        truncated(s, limit).is_prefix_of(s),
        s.len() <= limit ==> truncated(s, limit) == s,
        s.len() > limit ==> truncated(s, limit).len() == limit,
        truncated(truncated(s, limit), limit) == truncated(s, limit),
{
}

/// `c` with a dot turned into a dash.
pub open spec fn dashed(c: char) -> char {
    if c == '.' {
        '-'
    } else {
        c
    }
}

/// `s` with every dot replaced by a dash.
pub open spec fn dasherized(s: Seq<char>) -> Seq<char> {
    Seq::new(s.len(), |i: int| dashed(s[i]))
}

/// Replaces every dot of `value` by a dash.
pub fn dasherize(value: &str) -> (out: String)
    ensures
        out@ == dasherized(value@),
{
    let count = value.unicode_len();
    let mut out = String::new();
    let mut i: usize = 0;
    while i < count
        invariant
            count == value@.len(),
            i <= count,
            out@ == dasherized(value@.subrange(0, i as int)),
        decreases count - i,
    {
        let c = value.get_char(i);
        if c == '.' {
            proof {
                reveal_strlit("-");
            }
            out.append("-");
        } else {
            out.append(value.substring_char(i, i + 1));
        }
        assert(out@ =~= dasherized(value@.subrange(0, i + 1)));
        i = i + 1;
    }
    assert(value@.subrange(0, count as int) =~= value@);
    out
}

/// A dasherized string is as long as the string it was made of, holds no
/// dot, and differs from that string only where that has a dot.
pub proof fn lemma_dasherized(s: Seq<char>)
    ensures
        dasherized(s).len() == s.len(),
        !dasherized(s).contains('.'),
        forall|i: int| 0 <= i < s.len() && s[i] != '.' ==> dasherized(s)[i] == s[i],
        forall|i: int| 0 <= i < s.len() && s[i] == '.' ==> dasherized(s)[i] == '-',
        !s.contains('.') ==> dasherized(s) == s,
{
    if !s.contains('.') {
        assert(dasherized(s) =~= s);
    }
}

/// The character that writes the decimal digit `d`.
pub open spec fn digit(d: nat) -> char {
    if d == 0 {
        '0'
    } else if d == 1 {
        '1'
    } else if d == 2 {
        '2'
    } else if d == 3 {
        '3'
    } else if d == 4 {
        '4'
    } else if d == 5 {
        '5'
    } else if d == 6 {
        '6'
    } else if d == 7 {
        '7'
    } else if d == 8 {
        '8'
    } else {
        '9'
    }
}

/// `n` written in base ten, without leading zeros.
pub open spec fn decimal(n: nat) -> Seq<char>
    decreases n,
{
    if n < 10 {
        seq![digit(n)]
    } else {
        decimal(n / 10).push(digit(n % 10))
    }
}

pub(crate) fn digit_text(d: u32) -> (text: &'static str)
    requires
        d < 10,
    ensures
        text@ == seq![digit(d as nat)],
{
    proof {
        reveal_strlit("0");
        reveal_strlit("1");
        reveal_strlit("2");
        reveal_strlit("3");
        reveal_strlit("4");
        reveal_strlit("5");
        reveal_strlit("6");
        reveal_strlit("7");
        reveal_strlit("8");
        reveal_strlit("9");
    }
    let text = if d == 0 {
        "0"
    } else if d == 1 {
        "1"
    } else if d == 2 {
        "2"
    } else if d == 3 {
        "3"
    } else if d == 4 {
        "4"
    } else if d == 5 {
        "5"
    } else if d == 6 {
        "6"
    } else if d == 7 {
        "7"
    } else if d == 8 {
        "8"
    } else {
        "9"
    };
    assert(text@ =~= seq![digit(d as nat)]);
    text
}

/// Writes `n` in base ten.
pub fn render_decimal(n: u32) -> (out: String)
    ensures
        out@ == decimal(n as nat),
    decreases n,
{
    if n < 10 {
        String::from_str(digit_text(n))
    } else {
        let mut out = render_decimal(n / 10);
        out.append(digit_text(n % 10));
        assert(out@ =~= decimal(n as nat));
        out
    }
}

/// The character that writes the hexadecimal digit `d`, in lower case.
pub open spec fn hex_digit(d: nat) -> char {
    if d < 10 {
        digit(d)
    } else if d == 10 {
        'a'
    } else if d == 11 {
        'b'
    } else if d == 12 {
        'c'
    } else if d == 13 {
        'd'
    } else if d == 14 {
        'e'
    } else {
        'f'
    }
}

/// `bytes` written in hexadecimal, two digits a byte.
pub open spec fn hex(bytes: Seq<u8>) -> Seq<char>
    decreases bytes.len(),
{
    if bytes.len() == 0 {
        Seq::empty()
    } else {
        hex(bytes.drop_last()).push(hex_digit(bytes.last() as nat / 16)).push(
            hex_digit(bytes.last() as nat % 16),
        )
    }
}

fn hex_digit_text(d: u8) -> (text: &'static str)
    requires
        d < 16,
    ensures
        text@ == seq![hex_digit(d as nat)],
{
    if d < 10 {
        digit_text(d as u32)
    } else {
        proof {
            reveal_strlit("a");
            reveal_strlit("b");
            reveal_strlit("c");
            reveal_strlit("d");
            reveal_strlit("e");
            reveal_strlit("f");
        }
        let text = if d == 10 {
            "a"
        } else if d == 11 {
            "b"
        } else if d == 12 {
            "c"
        } else if d == 13 {
            "d"
        } else if d == 14 {
            "e"
        } else {
            "f"
        };
        assert(text@ =~= seq![hex_digit(d as nat)]);
        text
    }
}

/// Appends `bytes` in hexadecimal, two digits a byte.
pub fn append_hex(out: &mut String, bytes: &[u8])
    ensures
        final(out)@ == old(out)@ + hex(bytes@),
{
    let mut i: usize = 0;
    assert(bytes@.subrange(0, 0) =~= Seq::empty());
    assert(out@ =~= old(out)@ + hex(bytes@.subrange(0, 0)));
    while i < bytes.len()
        invariant
            i <= bytes.len(),
            out@ == old(out)@ + hex(bytes@.subrange(0, i as int)),
        decreases bytes.len() - i,
    {
        let b = bytes[i];
        out.append(hex_digit_text(b / 16));
        out.append(hex_digit_text(b % 16));
        proof {
            let next = bytes@.subrange(0, i + 1);
            assert(next.drop_last() =~= bytes@.subrange(0, i as int));
            assert(next.last() == b);
            assert(out@ =~= old(out)@ + hex(next));
        }
        i = i + 1;
    }
    assert(bytes@.subrange(0, bytes.len() as int) =~= bytes@);
}

/// Hexadecimal writes two characters a byte.
pub proof fn lemma_hex_len(bytes: Seq<u8>)
    ensures
        hex(bytes).len() == 2 * bytes.len(),
    decreases bytes.len(),
{
    if bytes.len() > 0 {
        lemma_hex_len(bytes.drop_last());
    }
}

} // verus!
