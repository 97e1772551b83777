use vstd::prelude::*;

verus! {

/// `c` is a digit in base `radix` (10 or 16), as `char::to_digit` accepts it.
pub open spec fn is_digit(c: char, radix: nat) -> bool {
    ||| ('0' <= c && c <= '9')
    ||| (radix == 16 && (('a' <= c && c <= 'f') || ('A' <= c && c <= 'F')))
}

/// The value of a digit accepted by `is_digit`.
pub open spec fn digit_val(c: char) -> nat {
    if '0' <= c && c <= '9' {
        (c as nat - '0' as nat) as nat
    } else if 'a' <= c && c <= 'f' {
        (c as nat - 'a' as nat + 10) as nat
    } else {
        (c as nat - 'A' as nat + 10) as nat
    }
}

/// The value of a string of digits, most significant first.
pub open spec fn digits_val(s: Seq<char>, radix: nat) -> nat
    decreases s.len(),
{
    if s.len() == 0 {
        0
    } else {
        digits_val(s.drop_last(), radix) * radix + digit_val(s.last())
    }
}

pub open spec fn all_digits(s: Seq<char>, radix: nat) -> bool {
    forall|i: int| 0 <= i < s.len() ==> is_digit(#[trigger] s[i], radix)
}

/// The digits of `s` once an optional leading `+` is removed.
pub open spec fn unsigned_body(s: Seq<char>) -> Seq<char> {
    if s.len() > 0 && s[0] == '+' {
        s.skip(1)
    } else {
        s
    }
}

/// The value that `from_str_radix` / `str::parse` gives an unsigned integer
/// type wide enough for it: an optional `+` and at least one digit.
pub open spec fn parse_unsigned(s: Seq<char>, radix: nat) -> Option<nat> {
    let b = unsigned_body(s);
    if b.len() > 0 && all_digits(b, radix) {
        Some(digits_val(b, radix))
    } else {
        None
    }
}

/// `parse_unsigned`, where a value above `max` is an overflow error.
pub open spec fn parse_bounded(s: Seq<char>, radix: nat, max: nat) -> Option<nat> {
    match parse_unsigned(s, radix) {
        Some(v) => if v <= max {
            Some(v)
        } else {
            None
        },
        None => None,
    }
}

proof fn lemma_digits_step(s: Seq<char>, radix: nat, k: int)
    requires
        0 <= k < s.len(),
        radix >= 1,
    ensures
        digits_val(s.take(k + 1), radix) == digits_val(s.take(k), radix) * radix + digit_val(s[k]),
        digits_val(s.take(k), radix) <= digits_val(s.take(k + 1), radix),
{
    assert(s.take(k + 1).drop_last() == s.take(k));
    let a = digits_val(s.take(k), radix);
    assert(a <= a * radix) by (nonlinear_arith)
        requires
            radix >= 1,
    ;
}

proof fn lemma_digits_mono(s: Seq<char>, radix: nat, j: int, k: int)
    requires
        0 <= j <= k <= s.len(),
        radix >= 1,
    ensures
        digits_val(s.take(j), radix) <= digits_val(s.take(k), radix),
    decreases k - j,
{
    if j < k {
        lemma_digits_mono(s, radix, j, k - 1);
        lemma_digits_step(s, radix, k - 1);
    }
}

fn digit_exec(c: char) -> (d: u64)
    requires
        is_digit(c, 16),
    ensures
        d == digit_val(c),
{
    if '0' <= c && c <= '9' {
        (c as u64) - ('0' as u64)
    } else if 'a' <= c && c <= 'f' {
        (c as u64) - ('a' as u64) + 10
    } else {
        (c as u64) - ('A' as u64) + 10
    }
}

fn is_digit_exec(c: char, radix: u64) -> (b: bool)
    ensures
        b == is_digit(c, radix as nat),
{
    ('0' <= c && c <= '9') || (radix == 16 && (('a' <= c && c <= 'f') || ('A' <= c && c
        <= 'F')))
}

/// Parses an unsigned number in base 10 or 16, failing on an empty string,
/// a stray character or a value above `max`.
pub fn parse_unsigned_chars(s: &[char], radix: u64, max: u64) -> (r: Option<u64>)
    requires
        radix == 10 || radix == 16,
    ensures
        r matches Some(v) ==> parse_bounded(s@, radix as nat, max as nat) == Some(v as nat),
        r is None ==> parse_bounded(s@, radix as nat, max as nat) is None,
{
    let start: usize = if s.len() > 0 && s[0] == '+' { 1 } else { 0 };
    let ghost b = unsigned_body(s@);
    assert(b == s@.skip(start as int));
    if start >= s.len() {
        return None;
    }
    let mut acc: u64 = 0;
    let mut i = start;
    assert(b.take(0) == Seq::<char>::empty());
    while i < s.len()
        invariant
            start <= i <= s.len(),
            b == s@.skip(start as int),
            b == unsigned_body(s@),
            b.len() == s.len() - start,
            radix == 10 || radix == 16,
            acc as nat == digits_val(b.take(i - start), radix as nat),
            acc <= max,
            all_digits(b.take(i - start), radix as nat),
        decreases s.len() - i,
    {
        let c = s[i];
        assert(b[i - start] == c);
        if !is_digit_exec(c, radix) {
            assert(!all_digits(b, radix as nat));
            return None;
        }
        let d = digit_exec(c);
        proof {
            lemma_digits_step(b, radix as nat, (i - start) as int);
        }
        assert(acc * radix + d <= u64::MAX * 16 + 15) by (nonlinear_arith)
            requires
                acc <= u64::MAX,
                radix <= 16,
                d <= 15,
        ;
        let next: u128 = (acc as u128) * (radix as u128) + (d as u128);
        if next > max as u128 {
            proof {
                lemma_digits_mono(b, radix as nat, (i - start + 1) as int, b.len() as int);
                assert(b.take(b.len() as int) == b);
            }
            return None;
        }
        proof {
            assert forall|k: int| 0 <= k < (i - start + 1) implies is_digit(
                #[trigger] b.take(i - start + 1)[k],
                radix as nat,
            ) by {
                if k < i - start {
                    assert(b.take(i - start + 1)[k] == b.take(i - start)[k]);
                }
            }
        }
        acc = next as u64;
        i += 1;
    }
    assert(b.take(b.len() as int) == b);
    Some(acc)
}

} // verus!
