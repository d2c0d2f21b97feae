use vstd::prelude::*;

verus! {

pub open spec fn digit_value(c: char) -> nat {
    (c as u32 - 48) as nat
}

pub open spec fn digit_char(d: nat) -> char {
    ((d + 48) as u8) as char
}

pub open spec fn all_digits(s: Seq<char>) -> bool {
    forall|i: int| 0 <= i < s.len() ==> '0' <= #[trigger] s[i] <= '9'
}

/// The number that a run of decimal digits denotes.
pub open spec fn digits_value(s: Seq<char>) -> nat
    decreases s.len(),
{
    if s.len() == 0 {
        0
    } else {
        digits_value(s.drop_last()) * 10 + digit_value(s.last())
    }
}

/// The natural number that `s` writes in decimal: one or more digits.
pub open spec fn nat_of(s: Seq<char>) -> Option<nat> {
    if s.len() > 0 && all_digits(s) {
        Some(digits_value(s))
    } else {
        None
    }
}

/// The integer that `s` writes in decimal: an optional sign, then one or more digits.
pub open spec fn int_of(s: Seq<char>) -> Option<int> {
    if s.len() > 0 && s[0] == '-' {
        match nat_of(s.drop_first()) {
            Some(n) => Some(-n),
            None => None,
        }
    } else if s.len() > 0 && s[0] == '+' {
        match nat_of(s.drop_first()) {
            Some(n) => Some(n as int),
            None => None,
        }
    } else {
        match nat_of(s) {
            Some(n) => Some(n as int),
            None => None,
        }
    }
}

/// `n` in decimal, without leading zeros.
pub open spec fn nat_text(n: nat) -> Seq<char>
    decreases n,
{
    if n < 10 {
        seq![digit_char(n)]
    } else {
        nat_text(n / 10).push(digit_char(n % 10))
    }
}

/// `i` in decimal, without leading zeros, with a leading `-` when negative.
pub open spec fn int_text(i: int) -> Seq<char> {
    if i < 0 {
        seq!['-'] + nat_text((-i) as nat)
    } else {
        nat_text(i as nat)
    }
}

/// Reads the digits of `s` as a number, giving up once it passes `limit`.
fn read_digits(s: &[char], from: usize, limit: u64) -> (r: Option<u64>)
    requires
        from <= s@.len(),
        limit >= 9,
    ensures
        ({
            let d = s@.skip(from as int);
            match r {
                Some(v) => nat_of(d) == Some(v as nat) && v <= limit,
                None => nat_of(d) is None || digits_value(d) > limit,
            }
        }),
{
    let ghost d = s@.skip(from as int);
    if from >= s.len() {
        return None;
    }
    let mut acc: u64 = 0;
    let mut i: usize = from;
    while i < s.len()
        invariant
            from <= i <= s@.len(),
            from < s@.len(),
            d == s@.skip(from as int),
            acc <= limit,
            limit >= 9,
            all_digits(d.take(i - from)),
            acc == digits_value(d.take(i - from)),
        decreases s@.len() - i,
    {
        let c = s[i];
        if c < '0' || c > '9' {
            assert(d[i - from] == c);
            return None;
        }
        let v = (c as u32 - 48) as u64;
        assert(v <= 9);
        assert(d.take(i - from + 1).drop_last() =~= d.take(i - from));
        assert(d.take(i - from + 1).last() == c);
        if acc > (limit - v) / 10 {
            proof {
                lemma_digits_prefix_grows(d, (i - from + 1) as int);
                assert(digits_value(d.take(i - from + 1)) == acc * 10 + v);
                assert(acc * 10 + v > limit) by (nonlinear_arith)
                    requires
                        acc > (limit - v) / 10,
                        v <= 9,
                        v <= limit || acc * 10 + v > limit,
                ;
            }
            return None;
        }
        proof {
            assert(acc * 10 + v <= limit) by (nonlinear_arith)
                requires
                    acc <= (limit - v) / 10,
                    v <= limit,
            ;
        }
        acc = acc * 10 + v;
        i = i + 1;
    }
    assert(d.take(i - from) =~= d);
    Some(acc)
}

/// The value of a digit run never shrinks as the run goes on.
proof fn lemma_digits_prefix_grows(d: Seq<char>, k: int)
    requires
        0 <= k <= d.len(),
        all_digits(d.take(k)),
    ensures
        digits_value(d.take(k)) <= digits_value(d),
    decreases d.len() - k,
{
    if k < d.len() {
        assert(d.take(k + 1).drop_last() =~= d.take(k));
        if '0' <= d[k] <= '9' {
            lemma_digits_prefix_grows(d, k + 1);
        } else {
            lemma_digits_value_grows_past(d, k);
        }
    } else {
        assert(d.take(k) =~= d);
    }
}

proof fn lemma_digits_value_grows_past(d: Seq<char>, k: int)
    requires
        0 <= k < d.len(),
    ensures
        digits_value(d.take(k)) <= digits_value(d),
    decreases d.len() - k,
{
    assert(d.take(k + 1).drop_last() =~= d.take(k));
    assert(digits_value(d.take(k + 1)) >= digits_value(d.take(k)) * 10);
    if k + 1 < d.len() {
        lemma_digits_value_grows_past(d, k + 1);
    } else {
        assert(d.take(k + 1) =~= d);
    }
}

/// Parses a natural number written in decimal, as `usize::from_str` does for text
/// without a sign.
pub fn parse_usize(s: &[char]) -> (r: Option<usize>)
    ensures
        match r {
            Some(v) => nat_of(s@) == Some(v as nat),
            None => nat_of(s@) is None || nat_of(s@)->0 > usize::MAX,
        },
{
    assert(s@.skip(0) =~= s@);
    match read_digits(s, 0, usize::MAX as u64) {
        Some(v) => Some(v as usize),
        None => None,
    }
}

/// Parses a signed integer written in decimal, as `i64::from_str` does.
pub fn parse_i64(s: &[char]) -> (r: Option<i64>)
    ensures
        match int_of(s@) {
            Some(v) => if i64::MIN <= v <= i64::MAX {
                r == Some(v as i64)
            } else {
                r is None
            },
            None => r is None,
        },
{
    if s.len() > 0 && (s[0] == '-' || s[0] == '+') {
        assert(s@.skip(1) =~= s@.drop_first());
        let neg = s[0] == '-';
        let limit: u64 = if neg {
            9223372036854775808
        } else {
            9223372036854775807
        };
        match read_digits(s, 1, limit) {
            Some(v) => {
                if neg {
                    if v == 9223372036854775808 {
                        Some(i64::MIN)
                    } else {
                        Some(-(v as i64))
                    }
                } else {
                    Some(v as i64)
                }
            },
            None => None,
        }
    } else {
        assert(s@.skip(0) =~= s@);
        match read_digits(s, 0, 9223372036854775807) {
            Some(v) => Some(v as i64),
            None => None,
        }
    }
}

proof fn lemma_nat_text(n: nat)
    ensures
        all_digits(nat_text(n)),
        nat_text(n).len() > 0,
        digits_value(nat_text(n)) == n,
        nat_text(n)[0] != '-',
    decreases n,
{
    let d = if n < 10 { n } else { n % 10 };
    assert(d < 10);
    assert(digit_char(d) as u32 == d + 48);
    assert(digit_value(digit_char(d)) == d);
    if n >= 10 {
        lemma_nat_text(n / 10);
        let t = nat_text(n);
        assert(t.drop_last() =~= nat_text(n / 10));
        assert(t[0] == nat_text(n / 10)[0]);
        assert(t.last() == digit_char(d));
        assert(digits_value(t) == digits_value(t.drop_last()) * 10 + digit_value(t.last()));
        assert(n == (n / 10) * 10 + n % 10) by (nonlinear_arith);
    } else {
        let t = nat_text(n);
        assert(t.drop_last() =~= Seq::<char>::empty());
        assert(digits_value(t.drop_last()) == 0);
        assert(digits_value(t) == digits_value(t.drop_last()) * 10 + digit_value(t.last()));
    }
}

/// Decimal text round-trips: reading back the text of a number gives the number.
pub proof fn lemma_nat_of_nat_text(n: nat)
    ensures
        nat_of(nat_text(n)) == Some(n),
        nat_text(n).len() > 0,
        '0' <= nat_text(n)[0] <= '9',
{
    lemma_nat_text(n);
}

/// Writes a natural number in decimal.
pub fn usize_text(n: usize) -> (r: Vec<char>)
    ensures
        r@ == nat_text(n as nat),
    decreases n,
{
    let d = ((n % 10) as u8 + 48) as char;
    if n < 10 {
        vec![d]
    } else {
        let mut r = usize_text(n / 10);
        r.push(d);
        r
    }
}

/// Writes an integer in decimal.
pub fn i64_text(i: i64) -> (r: Vec<char>)
    ensures
        r@ == int_text(i as int),
{
    let mag: u64 = if i < 0 {
        if i == i64::MIN {
            9223372036854775808
        } else {
            (-i) as u64
        }
    } else {
        i as u64
    };
    let digits = u64_text(mag);
    if i < 0 {
        let mut r: Vec<char> = vec!['-'];
        let mut k: usize = 0;
        while k < digits.len()
            invariant
                k <= digits@.len(),
                r@ == seq!['-'] + digits@.take(k as int),
            decreases digits@.len() - k,
        {
            r.push(digits[k]);
            k = k + 1;
            assert(r@ =~= seq!['-'] + digits@.take(k as int));
        }
        assert(digits@.take(k as int) =~= digits@);
        r
    } else {
        digits
    }
}

fn u64_text(n: u64) -> (r: Vec<char>)
    ensures
        r@ == nat_text(n as nat),
    decreases n,
{
    let d = ((n % 10) as u8 + 48) as char;
    if n < 10 {
        vec![d]
    } else {
        let mut r = u64_text(n / 10);
        r.push(d);
        r
    }
}

} // verus!
