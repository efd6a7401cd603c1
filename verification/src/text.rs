use vstd::prelude::*;

verus! {

/// The characters of a string slice, as a vector.
pub fn chars_of(s: &str) -> (r: Vec<char>)
    ensures
        r@ == s@,
{
    let n = s.unicode_len();
    let mut r: Vec<char> = Vec::new();
    let mut i: usize = 0;
    while i < n
        invariant
            i <= n,
            n == s@.len(),
            r@ == s@.subrange(0, i as int),
        decreases n - i,
    {
        let c = s.get_char(i);
        r.push(c);
        proof {
            assert(s@.subrange(0, (i + 1) as int) =~= s@.subrange(0, i as int) + seq![s@[i as int]]);
        }
        i = i + 1;
    }
    proof {
        assert(s@.subrange(0, n as int) =~= s@);
    }
    r
}

/// A copy of a character vector.
pub fn dup_chars(s: &Vec<char>) -> (r: Vec<char>)
    ensures
        r@ == s@,
{
    let mut r: Vec<char> = Vec::new();
    let mut i: usize = 0;
    while i < s.len()
        invariant
            i <= s@.len(),
            r@ == s@.subrange(0, i as int),
        decreases s@.len() - i,
    {
        r.push(s[i]);
        proof {
            assert(s@.subrange(0, (i + 1) as int) =~= s@.subrange(0, i as int) + seq![s@[i as int]]);
        }
        i = i + 1;
    }
    proof {
        assert(s@.subrange(0, s@.len() as int) =~= s@);
    }
    r
}

/// Appends every character of `s` to `out`.
pub fn push_chars(out: &mut Vec<char>, s: &Vec<char>)
    ensures
        final(out)@ == old(out)@ + s@,
{
    let mut i: usize = 0;
    while i < s.len()
        invariant
            i <= s@.len(),
            out@ == old(out)@ + s@.subrange(0, i as int),
        decreases s@.len() - i,
    {
        out.push(s[i]);
        proof {
            assert(old(out)@ + s@.subrange(0, (i + 1) as int) =~= (old(out)@ + s@.subrange(
                0,
                i as int,
            )).push(s@[i as int]));
        }
        i = i + 1;
    }
    proof {
        assert(old(out)@ + s@.subrange(0, s@.len() as int) =~= old(out)@ + s@);
    }
}

/// Appends every character of the string slice `s` to `out`.
pub fn push_str_chars(out: &mut Vec<char>, s: &str)
    ensures
        final(out)@ == old(out)@ + s@,
{
    let v = chars_of(s);
    push_chars(out, &v);
}

/// Whether two character vectors hold the same characters.
pub fn chars_eq(a: &Vec<char>, b: &Vec<char>) -> (r: bool)
    ensures
        r == (a@ == b@),
{
    if a.len() != b.len() {
        return false;
    }
    let mut i: usize = 0;
    while i < a.len()
        invariant
            i <= a@.len(),
            a@.len() == b@.len(),
            forall|j: int| 0 <= j < i ==> a@[j] == b@[j],
        decreases a@.len() - i,
    {
        if a[i] != b[i] {
            return false;
        }
        i = i + 1;
    }
    proof {
        assert(a@ =~= b@);
    }
    true
}

/// Whether the character vector `a` spells the string slice `lit`.
pub fn sym_is(a: &Vec<char>, lit: &str) -> (r: bool)
    ensures
        r == (a@ == lit@),
{
    let n = lit.unicode_len();
    if a.len() != n {
        return false;
    }
    let mut i: usize = 0;
    while i < n
        invariant
            i <= n,
            n == lit@.len(),
            a@.len() == n,
            forall|j: int| 0 <= j < i ==> a@[j] == lit@[j],
        decreases n - i,
    {
        if a[i] != lit.get_char(i) {
            return false;
        }
        i = i + 1;
    }
    proof {
        assert(a@ =~= lit@);
    }
    true
}

/// Relies on `String`'s `FromIterator<char>` implementation: collecting an
/// iterator of characters yields the string of exactly those characters, in
/// order.
#[verifier::external_body]
pub(crate) fn chars_to_string(v: &Vec<char>) -> (r: String)
    ensures
        r@ == v@,
{
    v.iter().collect()
}

/// Whether `c` is a decimal digit.
pub open spec fn is_digit(c: char) -> bool {
    c == '0' || c == '1' || c == '2' || c == '3' || c == '4' || c == '5' || c == '6' || c == '7'
        || c == '8' || c == '9'
}

/// The value of a decimal digit (0 for anything else).
pub open spec fn digit_val(c: char) -> nat {
    if c == '1' {
        1
    } else if c == '2' {
        2
    } else if c == '3' {
        3
    } else if c == '4' {
        4
    } else if c == '5' {
        5
    } else if c == '6' {
        6
    } else if c == '7' {
        7
    } else if c == '8' {
        8
    } else if c == '9' {
        9
    } else {
        0
    }
}

/// The digit character for a value below ten.
pub open spec fn digit_char(d: nat) -> char {
    if d == 1 {
        '1'
    } else if d == 2 {
        '2'
    } else if d == 3 {
        '3'
    } else if d == 4 {
        '4'
    } else if d == 5 {
        '5'
    } else if d == 6 {
        '6'
    } else if d == 7 {
        '7'
    } else if d == 8 {
        '8'
    } else if d == 9 {
        '9'
    } else {
        '0'
    }
}

pub open spec fn all_digits(s: Seq<char>) -> bool {
    forall|i: int| 0 <= i < s.len() ==> is_digit(s[i])
}

/// The number a digit string denotes.
pub open spec fn digits_value(s: Seq<char>) -> nat
    decreases s.len(),
{
    if s.len() == 0 {
        0
    } else {
        digits_value(s.drop_last()) * 10 + digit_val(s.last())
    }
}

/// Ten to the `k`.
pub open spec fn pow10(k: nat) -> nat
    decreases k,
{
    if k == 0 {
        1
    } else {
        10 * pow10((k - 1) as nat)
    }
}

/// The canonical decimal digits of `n`: no sign, no leading zero.
pub open spec fn dec_digits(n: nat) -> Seq<char>
    decreases n,
{
    if n < 10 {
        seq![digit_char(n)]
    } else {
        dec_digits(n / 10) + seq![digit_char(n % 10)]
    }
}

/// The canonical rendering of an integer, with `-` for negative numbers.
pub open spec fn int_chars(i: int) -> Seq<char> {
    if i < 0 {
        seq!['-'] + dec_digits((-i) as nat)
    } else {
        dec_digits(i as nat)
    }
}

/// What `dec_digits` produces: digits only, denoting `n`, leading digit
/// nonzero unless `n` is zero, and bounded in length by the power of ten
/// above `n`.
pub proof fn lemma_dec_digits(n: nat)
    ensures
        all_digits(dec_digits(n)),
        digits_value(dec_digits(n)) == n,
        dec_digits(n).len() >= 1,
        n >= 1 ==> digit_val(dec_digits(n)[0]) >= 1,
        forall|k: nat| n < pow10(k) && k >= 1 ==> #[trigger] pow10(k) != 0 && dec_digits(
            n,
        ).len() <= k,
    decreases n,
{
    if n < 10 {
        assert(dec_digits(n) == seq![digit_char(n)]);
        assert(dec_digits(n).drop_last() =~= Seq::<char>::empty());
        assert(digits_value(Seq::<char>::empty()) == 0);
        assert(dec_digits(n).last() == digit_char(n));
        assert(digits_value(dec_digits(n)) == digit_val(digit_char(n)));
        assert forall|k: nat| n < pow10(k) && k >= 1 implies #[trigger] pow10(k) != 0
            && dec_digits(n).len() <= k by {
            lemma_pow10_pos(k);
        }
    } else {
        lemma_dec_digits(n / 10);
        let pre = dec_digits(n / 10);
        let whole = dec_digits(n);
        assert(whole == pre + seq![digit_char(n % 10)]);
        assert(whole.drop_last() =~= pre);
        assert(whole.last() == digit_char(n % 10));
        assert(digits_value(whole) == digits_value(pre) * 10 + digit_val(digit_char(n % 10)));
        assert(digit_val(digit_char(n % 10)) == n % 10);
        assert(digits_value(whole) == (n / 10) * 10 + n % 10);
        assert((n / 10) * 10 + n % 10 == n) by (nonlinear_arith);
        assert forall|k: nat| n < pow10(k) && k >= 1 implies #[trigger] pow10(k) != 0 && whole.len()
            <= k by {
            lemma_pow10_pos(k);
            assert(pow10(k) == 10 * pow10((k - 1) as nat));
            assert(n / 10 < pow10((k - 1) as nat)) by (nonlinear_arith)
                requires
                    n < pow10(k),
                    pow10(k) == 10 * pow10((k - 1) as nat),
                    n >= 10,
            ;
            assert((k - 1) as nat >= 1) by {
                if k == 1 {
                    assert(pow10(1nat) == 10);
                }
            }
            assert(pre.len() <= (k - 1) as nat);
        }
    }
}

/// Powers of ten are positive.
pub proof fn lemma_pow10_pos(k: nat)
    ensures
        pow10(k) >= 1,
    decreases k,
{
    if k > 0 {
        lemma_pow10_pos((k - 1) as nat);
    }
}

/// A digit string headed by a nonzero digit is at least the power of ten
/// of its remaining length.
pub proof fn lemma_digits_value_lower(s: Seq<char>)
    requires
        s.len() >= 1,
        all_digits(s),
        digit_val(s[0]) >= 1,
    ensures
        digits_value(s) >= pow10((s.len() - 1) as nat),
    decreases s.len(),
{
    if s.len() == 1 {
        assert(s.drop_last() =~= Seq::<char>::empty());
        assert(digits_value(Seq::<char>::empty()) == 0);
        assert(s.last() == s[0]);
        assert(digits_value(s) == digit_val(s[0]));
    } else {
        let pre = s.drop_last();
        assert(pre[0] == s[0]);
        assert(all_digits(pre));
        lemma_digits_value_lower(pre);
        assert(digits_value(s) == digits_value(pre) * 10 + digit_val(s.last()));
        assert(digits_value(pre) * 10 >= pow10((s.len() - 2) as nat) * 10) by (nonlinear_arith)
            requires
                digits_value(pre) >= pow10((s.len() - 2) as nat),
        ;
    }
}

/// A leading zero does not change a digit string's value.
pub proof fn lemma_digits_value_leading_zero(s: Seq<char>)
    requires
        s.len() >= 1,
        digit_val(s[0]) == 0,
    ensures
        digits_value(s) == digits_value(s.subrange(1, s.len() as int)),
    decreases s.len(),
{
    let t = s.subrange(1, s.len() as int);
    if s.len() == 1 {
        assert(t =~= Seq::<char>::empty());
        assert(s.drop_last() =~= Seq::<char>::empty());
    } else {
        let pre = s.drop_last();
        assert(pre[0] == s[0]);
        lemma_digits_value_leading_zero(pre);
        assert(pre.subrange(1, pre.len() as int) =~= t.drop_last());
        assert(s.last() == t.last());
        assert(digits_value(s) == digits_value(pre) * 10 + digit_val(s.last()));
        assert(digits_value(t) == digits_value(t.drop_last()) * 10 + digit_val(t.last()));
    }
}

/// The token without its sign character, if it has one.
pub open spec fn sign_split(s: Seq<char>) -> Seq<char> {
    if s.len() > 0 && (s[0] == '+' || s[0] == '-') {
        s.subrange(1, s.len() as int)
    } else {
        s
    }
}

/// What an integer token denotes: an optional sign, then at least one
/// digit, denoting a number within the 64-bit signed range.
pub open spec fn parse_int_spec(s: Seq<char>) -> Option<int> {
    if s.len() == 0 {
        None
    } else {
        let ds = sign_split(s);
        let sign: int = if s[0] == '-' {
            -1
        } else {
            1
        };
        if ds.len() == 0 || !all_digits(ds) {
            None
        } else {
            let v = sign * digits_value(ds);
            if i64::MIN <= v <= i64::MAX {
                Some(v)
            } else {
                None
            }
        }
    }
}

/// A digit character's value, in executable form.
pub(crate) fn digit_of(c: char) -> (r: Option<u64>)
    ensures
        r is Some <==> is_digit(c),
        r matches Some(d) ==> d == digit_val(c) && d < 10,
{
    match c {
        '0' => Some(0),
        '1' => Some(1),
        '2' => Some(2),
        '3' => Some(3),
        '4' => Some(4),
        '5' => Some(5),
        '6' => Some(6),
        '7' => Some(7),
        '8' => Some(8),
        '9' => Some(9),
        _ => None,
    }
}

/// Parses a 64-bit signed integer, exactly as `parse_int_spec` describes.
pub fn parse_i64(s: &Vec<char>) -> (r: Option<i64>)
    ensures
        match r {
            Some(v) => parse_int_spec(s@) == Some(v as int),
            None => parse_int_spec(s@) is None,
        },
{
    if s.len() == 0 {
        return None;
    }
    let c0 = s[0];
    let neg = c0 == '-';
    let start: usize = if c0 == '+' || c0 == '-' {
        1
    } else {
        0
    };
    let ghost ds = sign_split(s@);
    proof {
        assert(ds =~= s@.subrange(start as int, s@.len() as int));
    }
    if s.len() == start {
        proof {
            assert(ds.len() == 0);
        }
        return None;
    }
    let mut i: usize = start;
    while i < s.len()
        invariant
            start <= i <= s@.len(),
            s@.len() > start,
            forall|j: int| start <= j < i ==> is_digit(s@[j]),
            ds == sign_split(s@),
            ds == s@.subrange(start as int, s@.len() as int),
        decreases s@.len() - i,
    {
        if digit_of(s[i]).is_none() {
            proof {
                assert(ds[i - start] == s@[i as int]);
                assert(!all_digits(ds));
                assert(parse_int_spec(s@) is None);
            }
            return None;
        }
        i = i + 1;
    }
    proof {
        assert forall|j: int| 0 <= j < ds.len() implies is_digit(ds[j]) by {
            assert(ds[j] == s@[j + start]);
        }
    }
    // skip leading zeros; they do not change the value
    let mut z: usize = start;
    while z < s.len() && s[z] == '0'
        invariant
            start <= z <= s@.len(),
            forall|j: int| start <= j < z ==> s@[j] == '0',
            digits_value(s@.subrange(start as int, s@.len() as int)) == digits_value(
                s@.subrange(z as int, s@.len() as int),
            ),
        decreases s@.len() - z,
    {
        proof {
            let cur = s@.subrange(z as int, s@.len() as int);
            lemma_digits_value_leading_zero(cur);
            assert(cur.subrange(1, cur.len() as int) =~= s@.subrange(
                (z + 1) as int,
                s@.len() as int,
            ));
        }
        z = z + 1;
    }
    let ghost zs = s@.subrange(z as int, s@.len() as int);
    if s.len() - z > 19 {
        proof {
            assert(zs.len() >= 20);
            assert(digit_val(zs[0]) >= 1);
            assert(all_digits(zs)) by {
                assert(forall|j: int| 0 <= j < zs.len() ==> zs[j] == s@[j + z]);
            }
            lemma_digits_value_lower(zs);
            lemma_pow10_mono(19, (zs.len() - 1) as nat);
            lemma_pow10_19();
            assert(digits_value(zs) >= pow10(19));
            assert(digits_value(ds) == digits_value(zs));
            assert(digits_value(ds) >= 10_000_000_000_000_000_000);
            assert(ds == sign_split(s@));
            assert(s@.len() > 0);
            if s@[0] == '-' {
                assert(-1 * digits_value(ds) < i64::MIN);
            } else {
                assert(1 * digits_value(ds) > i64::MAX);
            }
            assert(parse_int_spec(s@) is None);
        }
        return None;
    }
    let mut acc: u64 = 0;
    let mut k: usize = z;
    proof {
        lemma_pow10_19();
        lemma_pow10_mono(0, 19);
        assert(pow10(0nat) == 1);
        assert(s@.subrange(z as int, z as int) =~= Seq::<char>::empty());
        assert(digits_value(Seq::<char>::empty()) == 0);
    }
    while k < s.len()
        invariant
            z <= k <= s@.len(),
            s@.len() - z <= 19,
            forall|j: int| start <= j < s@.len() ==> is_digit(s@[j]),
            start <= z <= s@.len(),
            acc == digits_value(s@.subrange(z as int, k as int)),
            acc < pow10((k - z) as nat),
            pow10((k - z) as nat) <= pow10(19),
            pow10(19) < 0xffff_ffff_ffff_ffff,
        decreases s@.len() - k,
    {
        let d = match digit_of(s[k]) {
            Some(d) => d,
            None => {
                proof {
                    assert(is_digit(s@[k as int]));
                }
                unreached()
            },
        };
        proof {
            let pre = s@.subrange(z as int, k as int);
            let cur = s@.subrange(z as int, (k + 1) as int);
            assert(cur.drop_last() =~= pre);
            assert(cur.last() == s@[k as int]);
            assert(digits_value(cur) == digits_value(pre) * 10 + digit_val(s@[k as int]));
            assert(pow10((k + 1 - z) as nat) == 10 * pow10((k - z) as nat));
            lemma_pow10_mono((k + 1 - z) as nat, 19);
            lemma_pow10_19();
            assert(acc * 10 + d < pow10((k + 1 - z) as nat));
        }
        acc = acc * 10 + d;
        k = k + 1;
    }
    proof {
        assert(s@.subrange(z as int, s@.len() as int) =~= zs);
        assert(acc == digits_value(zs));
        assert(digits_value(ds) == digits_value(zs));
    }
    if neg {
        if acc > 9_223_372_036_854_775_808u64 {
            return None;
        }
        if acc == 9_223_372_036_854_775_808u64 {
            Some(i64::MIN)
        } else {
            Some(-(acc as i64))
        }
    } else {
        if acc > 9_223_372_036_854_775_807u64 {
            return None;
        }
        Some(acc as i64)
    }
}

/// Powers of ten grow with the exponent.
pub proof fn lemma_pow10_mono(a: nat, b: nat)
    requires
        a <= b,
    ensures
        pow10(a) <= pow10(b),
    decreases b,
{
    if a < b {
        lemma_pow10_mono(a, (b - 1) as nat);
        lemma_pow10_pos((b - 1) as nat);
    }
}

/// The value of the twentieth power of ten.
pub proof fn lemma_pow10_19()
    ensures
        pow10(19) == 10_000_000_000_000_000_000,
{
    reveal_with_fuel(pow10, 21);
}

/// The digit characters of a number below ten thousand million million.
pub fn u64_to_chars(m: u64) -> (r: Vec<char>)
    ensures
        r@ == dec_digits(m as nat),
    decreases m,
{
    if m < 10 {
        let c: char = match m {
            0 => '0',
            1 => '1',
            2 => '2',
            3 => '3',
            4 => '4',
            5 => '5',
            6 => '6',
            7 => '7',
            8 => '8',
            _ => '9',
        };
        let mut r: Vec<char> = Vec::new();
        r.push(c);
        proof {
            assert(r@ =~= seq![digit_char(m as nat)]);
        }
        r
    } else {
        let mut r = u64_to_chars(m / 10);
        let d = m % 10;
        let c: char = match d {
            0 => '0',
            1 => '1',
            2 => '2',
            3 => '3',
            4 => '4',
            5 => '5',
            6 => '6',
            7 => '7',
            8 => '8',
            _ => '9',
        };
        r.push(c);
        proof {
            assert(c == digit_char((m % 10) as nat));
            assert(r@ =~= dec_digits((m / 10) as nat) + seq![digit_char((m % 10) as nat)]);
        }
        r
    }
}

/// Renders a 64-bit signed integer in its canonical decimal form.
pub fn i64_to_chars(i: i64) -> (r: Vec<char>)
    ensures
        r@ == int_chars(i as int),
{
    if i >= 0 {
        u64_to_chars(i as u64)
    } else {
        let m: u64 = if i == i64::MIN {
            9_223_372_036_854_775_808u64
        } else {
            (-i) as u64
        };
        let mut r: Vec<char> = Vec::new();
        r.push('-');
        let ds = u64_to_chars(m);
        push_chars(&mut r, &ds);
        proof {
            assert(r@ =~= seq!['-'] + dec_digits(m as nat));
        }
        r
    }
}

/// Reading back a printed integer gives the integer: the round trip at the
/// level of one number.
pub proof fn lemma_parse_int_chars(i: int)
    requires
        i64::MIN <= i <= i64::MAX,
    ensures
        parse_int_spec(int_chars(i)) == Some(i),
{
    if i >= 0 {
        lemma_dec_digits(i as nat);
        let s = dec_digits(i as nat);
        assert(s[0] != '+' && s[0] != '-') by {
            assert(is_digit(s[0]));
        }
        assert(parse_int_spec(s) == Some(i));
    } else {
        let n = (-i) as nat;
        lemma_dec_digits(n);
        let s = seq!['-'] + dec_digits(n);
        assert(s[0] == '-');
        let ds = s.subrange(1, s.len() as int);
        assert(ds =~= dec_digits(n));
        assert(digits_value(ds) == n);
        assert(parse_int_spec(s) == Some(-1 * n));
    }
}

} // verus!
