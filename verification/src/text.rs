use vstd::prelude::*;
use vstd::string::StringExecFns;

verus! {

/// A piece of text, as specifications see it.
pub type Text = Seq<char>;

/// The texts of a list of strings, in order.
pub open spec fn texts(list: Seq<String>) -> Seq<Text> {
    Seq::new(list.len(), |i: int| list[i]@)
}

/// Whether `s` is one of the strings of `list`.
pub fn contains_text(list: &Vec<String>, s: &String) -> (r: bool)
    ensures
        r == texts(list@).contains(s@),
{
    let mut i: usize = 0;
    while i < list.len()
        invariant
            i <= list.len(),
            forall|j: int| 0 <= j < i ==> texts(list@)[j] != s@,
        decreases list.len() - i,
    {
        if list[i] == *s {
            assert(texts(list@)[i as int] == s@);
            return true;
        }
        i += 1;
    }
    false
}

/// Whether `c` is one of the ten decimal digits.
pub open spec fn is_digit(c: char) -> bool {
    '0' <= c && c <= '9'
}

/// The number that the decimal digit `c` stands for.
pub open spec fn digit_value(c: char) -> nat {
    (c as nat - '0' as nat) as nat
}

/// Whether every character of `s` is a decimal digit.
pub open spec fn all_digits(s: Text) -> bool {
    forall|i: int| 0 <= i < s.len() ==> is_digit(#[trigger] s[i])
}

/// The number written by the digits of `s`, most significant first.
pub open spec fn digits_value(s: Text) -> nat
    decreases s.len(),
{
    if s.len() == 0 {
        0
    } else {
        digits_value(s.drop_last()) * 10 + digit_value(s.last())
    }
}

/// `s` without the one leading `+` that an unsigned number may carry.
pub open spec fn unsigned_body(s: Text) -> Text {
    if s.len() > 0 && s[0] == '+' {
        s.subrange(1, s.len() as int)
    } else {
        s
    }
}

/// The 64-bit unsigned number that `s` writes in decimal: an optional `+`, then
/// at least one digit and nothing else, the number fitting in 64 bits.
pub open spec fn parse_u64(s: Text) -> Option<u64> {
    let body = unsigned_body(s);
    if body.len() > 0 && all_digits(body) && digits_value(body) <= u64::MAX {
        Some(digits_value(body) as u64)
    } else {
        None
    }
}

/// What follows the last `/` of `s`; all of `s` where it holds none.
pub open spec fn last_segment(s: Text) -> Text
    decreases s.len(),
{
    if s.len() == 0 || s.last() == '/' {
        Seq::empty()
    } else {
        last_segment(s.drop_last()).push(s.last())
    }
}

/// The decimal digit for `d`.
pub open spec fn digit_char(d: nat) -> char
    recommends
        d < 10,
{
    (('0' as u8) + d as u8) as char
}

/// `n` written in decimal, without sign or leading zeros.
pub open spec fn decimal(n: nat) -> Text
    decreases n,
{
    if n < 10 {
        seq![digit_char(n)]
    } else {
        decimal(n / 10).push(digit_char(n % 10))
    }
}

/// The text that the scanner reads a number from: the whole of `s`, or its last
/// segment.
pub open spec fn scanned(s: Text, split: bool) -> Text {
    if split {
        last_segment(s)
    } else {
        s
    }
}

proof fn lemma_body_push(seg: Text, c: char)
    ensures
        seg.len() == 0 && c == '+' ==> unsigned_body(seg.push(c)) =~= Seq::<char>::empty(),
        seg.len() == 0 && c != '+' ==> unsigned_body(seg.push(c)) =~= seq![c],
        seg.len() > 0 ==> unsigned_body(seg.push(c)) =~= unsigned_body(seg).push(c),
{
    if seg.len() > 0 {
        assert(seg.push(c)[0] == seg[0]);
    } else {
        assert(seg.push(c)[0] == c);
    }
}

proof fn lemma_digits_push(body: Text, c: char)
    ensures
        digits_value(body.push(c)) == digits_value(body) * 10 + digit_value(c),
        all_digits(body.push(c)) == (all_digits(body) && is_digit(c)),
{
    let next = body.push(c);
    assert(next.drop_last() =~= body);
    assert(next.last() == c);
    if all_digits(body) && is_digit(c) {
        assert forall|i: int| 0 <= i < next.len() implies is_digit(#[trigger] next[i]) by {
            if i < body.len() {
                assert(next[i] == body[i]);
            }
        }
    }
    if all_digits(next) {
        assert(is_digit(next[body.len() as int]));
        assert forall|i: int| 0 <= i < body.len() implies is_digit(#[trigger] body[i]) by {
            assert(body[i] == next[i]);
        }
    }
}

/// Reads the decimal number that `s` writes (or, with `split`, that its last
/// segment writes) in one pass over its characters.
fn scan_number(s: &str, split: bool) -> (r: Option<u64>)
    ensures
        r == parse_u64(scanned(s@, split)),
{
    // What is known of the segment read so far.
    let mut empty: bool = true;  // no character yet
    let mut digits: bool = false;  // at least one character after the sign
    let mut valid: bool = true;  // only digits after the sign
    let mut fits: bool = true;  // the digits' value fits in 64 bits
    let mut value: u64 = 0;
    let ghost mut seg: Text = Seq::empty();
    proof {
        assert(s@.take(0) =~= Seq::<char>::empty());
    }
    for c in it: s.chars()
        invariant
            it.seq() == s@,
            seg == scanned(s@.take(it.index() as int), split),
            empty == (seg.len() == 0),
            digits == (unsigned_body(seg).len() > 0),
            valid == all_digits(unsigned_body(seg)),
            valid ==> fits == (digits_value(unsigned_body(seg)) <= u64::MAX),
            valid && fits ==> value == digits_value(unsigned_body(seg)),
    {
        let ghost before = s@.take(it.index() as int);
        let ghost after = s@.take(it.index() + 1);
        proof {
            assert(after.drop_last() =~= before);
            assert(after.last() == c);
        }
        if split && c == '/' {
            empty = true;
            digits = false;
            valid = true;
            fits = true;
            value = 0;
            proof {
                seg = Seq::empty();
            }
        } else {
            proof {
                lemma_body_push(seg, c);
                lemma_digits_push(unsigned_body(seg), c);
                lemma_digits_push(Seq::empty(), c);
                assert(Seq::<char>::empty().push(c) =~= seq![c]);
            }
            if empty && c == '+' {
                empty = false;
            } else {
                empty = false;
                digits = true;
                if c >= '0' && c <= '9' {
                    let d: u64 = (c as u64) - ('0' as u64);
                    if fits {
                        if value > (u64::MAX - d) / 10 {
                            fits = false;
                        } else {
                            value = value * 10 + d;
                        }
                    }
                } else {
                    valid = false;
                }
            }
            proof {
                seg = seg.push(c);
            }
        }
    }
    proof {
        assert(s@.take(s@.len() as int) =~= s@);
    }
    if digits && valid && fits {
        Some(value)
    } else {
        None
    }
}

/// Reads `s` as a 64-bit unsigned number in decimal.
pub fn read_u64(s: &str) -> (r: Option<u64>)
    ensures
        r == parse_u64(s@),
{
    scan_number(s, false)
}

/// Reads what follows the last `/` of `s` as a 64-bit unsigned number in decimal.
pub fn read_last_segment(s: &str) -> (r: Option<u64>)
    ensures
        r == parse_u64(last_segment(s@)),
{
    scan_number(s, true)
}

/// The one-character text of the decimal digit for `d`.
fn digit_text(d: u64) -> (s: &'static str)
    requires
        d < 10,
    ensures
        s@ == seq![digit_char(d as nat)],
{
    proof {
        reveal_strlit("0");
        reveal_strlit("1");
        reveal_strlit("2");
        reveal_strlit("3");
        reveal_strlit("4");
        reveal_strlit("5");
        reveal_strlit("6");
        reveal_strlit("7");
        reveal_strlit("8");
        reveal_strlit("9");
    }
    let s = if d == 0 {
        "0"
    } else if d == 1 {
        "1"
    } else if d == 2 {
        "2"
    } else if d == 3 {
        "3"
    } else if d == 4 {
        "4"
    } else if d == 5 {
        "5"
    } else if d == 6 {
        "6"
    } else if d == 7 {
        "7"
    } else if d == 8 {
        "8"
    } else {
        "9"
    };
    assert(s@ =~= seq![digit_char(d as nat)]);
    s
}

/// Writes `n` in decimal.
pub fn write_u64(n: u64) -> (s: String)
    ensures
        s@ == decimal(n as nat),
    decreases n,
{
    if n < 10 {
        String::from_str(digit_text(n))
    } else {
        let mut s = write_u64(n / 10);
        s.append(digit_text(n % 10));
        assert(s@ =~= decimal((n / 10) as nat).push(digit_char((n % 10) as nat)));
        s
    }
}

/// Writing a number and reading it back gives the number.
pub proof fn lemma_decimal_round_trip(n: nat)
    ensures
        decimal(n).len() > 0,
        all_digits(decimal(n)),
        digits_value(decimal(n)) == n,
        unsigned_body(decimal(n)) == decimal(n),
        n <= u64::MAX ==> parse_u64(decimal(n)) == Some(n as u64),
    decreases n,
{
    if n < 10 {
        let s = decimal(n);
        assert(s.drop_last() =~= Seq::<char>::empty());
        assert(digits_value(s.drop_last()) == 0);
        assert(is_digit(s[0]));
    } else {
        lemma_decimal_round_trip(n / 10);
        lemma_digits_push(decimal(n / 10), digit_char(n % 10));
        assert(decimal(n)[0] == decimal(n / 10)[0]);
    }
    assert(decimal(n)[0] != '+');
}

} // verus!
