use vstd::prelude::*;

verus! {

/// The character of a decimal digit.
pub open spec fn digit_char(d: int) -> char {
    if d == 0 { '0' }
    else if d == 1 { '1' }
    else if d == 2 { '2' }
    else if d == 3 { '3' }
    else if d == 4 { '4' }
    else if d == 5 { '5' }
    else if d == 6 { '6' }
    else if d == 7 { '7' }
    else if d == 8 { '8' }
    else { '9' }
}

pub open spec fn is_digit_char(c: char) -> bool {
    '0' <= c && c <= '9'
}

/// The value of a digit character.
pub open spec fn digit_value(c: char) -> int {
    (c as int) - ('0' as int)
}

/// The decimal representation of `n`, without leading zeros.
pub open spec fn decimal_text(n: nat) -> Seq<char>
    decreases n,
{
    if n < 10 {
        seq![digit_char(n as int)]
    } else {
        decimal_text(n / 10).push(digit_char((n % 10) as int))
    }
}

/// The number a string of digits denotes.
pub open spec fn digits_value(s: Seq<char>) -> nat
    decreases s.len(),
{
    if s.len() == 0 {
        0
    } else {
        (digits_value(s.drop_last()) * 10 + digit_value(s.last())) as nat
    }
}

pub open spec fn all_digits(s: Seq<char>) -> bool {
    forall|i: int| 0 <= i < s.len() ==> is_digit_char(#[trigger] s[i])
}

/// The digits of a number text: all after an optional leading `+`.
pub open spec fn unsigned_digits(s: Seq<char>) -> Seq<char> {
    if s.len() > 0 && s[0] == '+' {
        s.drop_first()
    } else {
        s
    }
}

/// How `str::parse::<u64>` reads a text: an optional `+` and then one or
/// more decimal digits whose value fits in a `u64`; anything else is
/// rejected.
pub open spec fn parsed_u64(s: Seq<char>) -> Option<u64> {
    let d = unsigned_digits(s);
    if d.len() > 0 && all_digits(d) && digits_value(d) <= u64::MAX {
        Some(digits_value(d) as u64)
    } else {
        None
    }
}

proof fn lemma_digit_char(d: int)
    requires
        0 <= d < 10,
    ensures
        is_digit_char(digit_char(d)),
        digit_value(digit_char(d)) == d,
{
}

proof fn lemma_decimal_text_value(n: nat)
    ensures
        decimal_text(n).len() > 0,
        all_digits(decimal_text(n)),
        decimal_text(n)[0] != '+',
        digits_value(decimal_text(n)) == n,
    decreases n,
{
    if n < 10 {
        lemma_digit_char(n as int);
        let t = decimal_text(n);
        assert(t.drop_last() =~= Seq::<char>::empty());
        assert(digits_value(t) == digits_value(t.drop_last()) * 10 + digit_value(t.last()));
    } else {
        lemma_digit_char((n % 10) as int);
        lemma_decimal_text_value(n / 10);
        let p = decimal_text(n / 10);
        let t = decimal_text(n);
        assert(t.drop_last() =~= p);
        assert(t.last() == digit_char((n % 10) as int));
        assert(digits_value(t) == digits_value(p) * 10 + digit_value(t.last()));
        assert(n == (n / 10) * 10 + n % 10);
        assert(t[0] == p[0]);
        assert forall|i: int| 0 <= i < t.len() implies is_digit_char(#[trigger] t[i]) by {
            if i < p.len() {
                assert(t[i] == p[i]);
            }
        }
    }
}

/// Reading the decimal text of a number gives the number back, so the
/// timeout field, left as shown, stores the timeout it showed.
pub proof fn lemma_decimal_roundtrip(n: u64)
    ensures
        parsed_u64(decimal_text(n as nat)) == Some(n),
{
    lemma_decimal_text_value(n as nat);
}

fn digit_str(d: u64) -> (s: &'static str)
    requires
        d < 10,
    ensures
        s@ == seq![digit_char(d as int)],
{
    proof {
        reveal_strlit("0");
        reveal_strlit("1");
        reveal_strlit("2");
        reveal_strlit("3");
        reveal_strlit("4");
        reveal_strlit("5");
        reveal_strlit("6");
        reveal_strlit("7");
        reveal_strlit("8");
        reveal_strlit("9");
    }
    let s = if d == 0 {
        "0"
    } else if d == 1 {
        "1"
    } else if d == 2 {
        "2"
    } else if d == 3 {
        "3"
    } else if d == 4 {
        "4"
    } else if d == 5 {
        "5"
    } else if d == 6 {
        "6"
    } else if d == 7 {
        "7"
    } else if d == 8 {
        "8"
    } else {
        "9"
    };
    assert(s@ =~= seq![digit_char(d as int)]);
    s
}

/// The decimal text of a number, as `u64::to_string` writes it.
pub fn decimal_string(n: u64) -> (res: String)
    ensures
        res@ == decimal_text(n as nat),
    decreases n,
{
    if n < 10 {
        String::from_str(digit_str(n))
    } else {
        let mut s = decimal_string(n / 10);
        s.append(digit_str(n % 10));
        s
    }
}

proof fn lemma_digits_value_grows(s: Seq<char>, i: int)
    requires
        0 <= i <= s.len(),
        all_digits(s),
    ensures
        digits_value(s.subrange(0, i)) <= digits_value(s),
    decreases s.len() - i,
{
    if i < s.len() {
        lemma_digits_value_grows(s, i + 1);
        let p = s.subrange(0, i + 1);
        assert(p.drop_last() =~= s.subrange(0, i));
        assert(is_digit_char(s[i]));
        assert(p.last() == s[i]);
    } else {
        assert(s.subrange(0, i) =~= s);
    }
}

/// Reads a number the way `str::parse::<u64>` does.
pub fn parse_u64(text: &str) -> (res: Option<u64>)
    ensures
        res == parsed_u64(text@),
{
    let n = text.unicode_len();
    let mut i: usize = 0;
    if n > 0 && text.get_char(0) == '+' {
        i = 1;
    }
    let ghost d = unsigned_digits(text@);
    proof {
        assert(d =~= text@.subrange(i as int, n as int));
    }
    if i == n {
        return None;
    }
    let start = i;
    let mut acc: u64 = 0;
    while i < n
        invariant
            n == text@.len(),
            start <= i <= n,
            start < n,
            d == text@.subrange(start as int, n as int),
            d == unsigned_digits(text@),
            acc == digits_value(d.subrange(0, i - start)),
            all_digits(d.subrange(0, i - start)),
        decreases n - i,
    {
        let c = text.get_char(i);
        proof {
            assert(d[i - start] == c);
        }
        if !('0' <= c && c <= '9') {
            proof {
                assert(!is_digit_char(d[i - start]));
                assert(!all_digits(d));
            }
            return None;
        }
        let v = (c as u32 - '0' as u32) as u64;
        let ghost p = d.subrange(0, i - start + 1);
        proof {
            assert(p.drop_last() =~= d.subrange(0, i - start));
            assert(p.last() == c);
            assert(all_digits(p));
        }
        match acc.checked_mul(10) {
            Some(m) => match m.checked_add(v) {
                Some(next) => {
                    acc = next;
                },
                None => {
                    proof {
                        if all_digits(d) {
                            lemma_digits_value_grows(d, i - start + 1);
                        }
                    }
                    return None;
                },
            },
            None => {
                proof {
                    if all_digits(d) {
                        lemma_digits_value_grows(d, i - start + 1);
                    }
                }
                return None;
            },
        }
        i = i + 1;
    }
    proof {
        assert(d.subrange(0, n - start) =~= d);
    }
    Some(acc)
}

} // verus!
