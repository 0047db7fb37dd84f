use vstd::prelude::*;

verus! {

// ------------------------------------------------------------------
// Decimal integers
// ------------------------------------------------------------------
pub open spec fn is_dec_digit(c: char) -> bool {
    48 <= c as int && c as int <= 57
}

pub open spec fn digit_val(c: char) -> int {
    c as int - 48
}

pub open spec fn char_of_digit(d: int) -> char {
    if d == 0 {
        '0'
    } else if d == 1 {
        '1'
    } else if d == 2 {
        '2'
    } else if d == 3 {
        '3'
    } else if d == 4 {
        '4'
    } else if d == 5 {
        '5'
    } else if d == 6 {
        '6'
    } else if d == 7 {
        '7'
    } else if d == 8 {
        '8'
    } else {
        '9'
    }
}

/// The decimal digits of a non-negative number, most significant first.
pub open spec fn u_dec(n: nat) -> Seq<char>
    decreases n,
{
    if n < 10 {
        seq![char_of_digit(n as int)]
    } else {
        u_dec(n / 10).push(char_of_digit((n % 10) as int))
    }
}

/// The decimal text of a signed number: a minus sign for negatives, no
/// leading zeros, no plus sign.
pub open spec fn fmt_i64(i: int) -> Seq<char> {
    if i < 0 {
        seq!['-'] + u_dec((-i) as nat)
    } else {
        u_dec(i as nat)
    }
}

pub open spec fn all_digits(s: Seq<char>) -> bool {
    forall|j: int| 0 <= j < s.len() ==> is_dec_digit(s[j])
}

/// The numeric value of a digit string, most significant digit first.
pub open spec fn dec_val(s: Seq<char>) -> int
    decreases s.len(),
{
    if s.len() == 0 {
        0
    } else {
        dec_val(s.drop_last()) * 10 + digit_val(s.last())
    }
}

/// The signed value of the digits behind an optional sign.
pub open spec fn signed_val(s: Seq<char>) -> int {
    if s.len() > 0 && s[0] == '-' {
        -dec_val(strip_sign(s))
    } else {
        dec_val(strip_sign(s))
    }
}

/// What parsing decimal text as a signed 64-bit integer yields: an optional
/// sign, then one or more digits, nothing else, and the value must fit.
pub open spec fn parse_i64(s: Seq<char>) -> Option<i64> {
    if strip_sign(s).len() > 0 && all_digits(strip_sign(s)) && i64::MIN <= signed_val(s)
        <= i64::MAX {
        Some(signed_val(s) as i64)
    } else {
        None
    }
}

proof fn lemma_dec_val_nonneg(s: Seq<char>)
    requires
        all_digits(s),
    ensures
        dec_val(s) >= 0,
    decreases s.len(),
{
    if s.len() > 0 {
        assert(forall|j: int| 0 <= j < s.drop_last().len() ==> is_dec_digit(s.drop_last()[j]));
        lemma_dec_val_nonneg(s.drop_last());
        assert(is_dec_digit(s.last()));
    }
}

proof fn lemma_dec_val_take_le(s: Seq<char>, k: int)
    requires
        all_digits(s),
        0 <= k <= s.len(),
    ensures
        dec_val(s.take(k)) <= dec_val(s),
    decreases s.len(),
{
    if k == s.len() {
        assert(s.take(k) =~= s);
    } else {
        let head = s.drop_last();
        assert(forall|j: int| 0 <= j < head.len() ==> is_dec_digit(head[j]));
        lemma_dec_val_take_le(head, k);
        lemma_dec_val_nonneg(head);
        assert(s.take(k) =~= head.take(k));
        assert(is_dec_digit(s.last()));
        assert(dec_val(s) == dec_val(head) * 10 + digit_val(s.last()));
    }
}

/// Parse decimal text as a signed 64-bit integer.
pub fn parse_i64_exec(s: &str) -> (r: Option<i64>)
    ensures
        r == parse_i64(s@),
{
    let n = s.unicode_len();
    let mut neg: bool = false;
    let mut start: usize = 0;
    if n > 0 {
        let c = s.get_char(0);
        if c == '-' {
            neg = true;
            start = 1;
        } else if c == '+' {
            start = 1;
        }
    }
    let ghost ds = strip_sign(s@);
    proof {
        assert(ds =~= s@.subrange(start as int, n as int));
    }
    if start >= n {
        return None;
    }
    let mut i: usize = start;
    let mut acc: u128 = 0;
    while i < n
        invariant
            start <= i <= n == s@.len(),
            ds == strip_sign(s@),
            ds == s@.subrange(start as int, n as int),
            forall|j: int| 0 <= j < i - start ==> is_dec_digit(ds[j]),
            acc == dec_val(ds.take(i - start)),
            acc <= 9223372036854775808u128,
        decreases n - i,
    {
        let c = s.get_char(i);
        assert(ds[i - start] == s@[i as int]);
        if !is_digit_exec(c) {
            proof {
                assert(0 <= i - start < ds.len());
                assert(!is_dec_digit(ds[i - start]));
                assert(!all_digits(ds));
            }
            return None;
        }
        let d: u128 = (c as u32 - 48) as u128;
        proof {
            assert(ds.take(i + 1 - start).drop_last() =~= ds.take(i - start));
            assert(ds.take(i + 1 - start).last() == ds[i - start]);
        }
        acc = acc * 10 + d;
        i += 1;
        if acc > 9223372036854775808u128 {
            // too large for either sign, whatever follows
            proof {
                assert(acc == dec_val(ds.take(i - start)));
                if all_digits(ds) {
                    lemma_dec_val_take_le(ds, i - start);
                    assert(dec_val(ds) > 9223372036854775808int);
                }
                assert(parse_i64(s@) is None);
            }
            return None;
        }
    }
    proof {
        assert(ds.take(n - start) =~= ds);
        lemma_dec_val_nonneg(ds);
    }
    if neg {
        let m: i128 = acc as i128;
        Some((-m) as i64)
    } else {
        if acc > 9223372036854775807u128 {
            None
        } else {
            Some(acc as i64)
        }
    }
}

fn digit_str(d: u64) -> (r: &'static str)
    requires
        d < 10,
    ensures
        r@ == seq![char_of_digit(d as int)],
{
    if d == 0 {
        proof {
            reveal_strlit("0");
        }
        "0"
    } else if d == 1 {
        proof {
            reveal_strlit("1");
        }
        "1"
    } else if d == 2 {
        proof {
            reveal_strlit("2");
        }
        "2"
    } else if d == 3 {
        proof {
            reveal_strlit("3");
        }
        "3"
    } else if d == 4 {
        proof {
            reveal_strlit("4");
        }
        "4"
    } else if d == 5 {
        proof {
            reveal_strlit("5");
        }
        "5"
    } else if d == 6 {
        proof {
            reveal_strlit("6");
        }
        "6"
    } else if d == 7 {
        proof {
            reveal_strlit("7");
        }
        "7"
    } else if d == 8 {
        proof {
            reveal_strlit("8");
        }
        "8"
    } else {
        proof {
            reveal_strlit("9");
        }
        "9"
    }
}

fn fmt_u64(n: u64) -> (r: String)
    ensures
        r@ == u_dec(n as nat),
    decreases n,
{
    if n < 10 {
        digit_str(n).to_owned()
    } else {
        let mut s = fmt_u64(n / 10);
        s.append(digit_str(n % 10));
        s
    }
}

/// Format a signed 64-bit integer as decimal text.
pub fn fmt_i64_exec(i: i64) -> (r: String)
    ensures
        r@ == fmt_i64(i as int),
{
    if i >= 0 {
        fmt_u64(i as u64)
    } else {
        let wide: i128 = i as i128;
        let mag: u64 = (-wide) as u64;
        let mut s = "-".to_owned();
        proof {
            reveal_strlit("-");
            assert("-"@ =~= seq!['-']);
        }
        let digits = fmt_u64(mag);
        s.append(digits.as_str());
        proof {
            assert(s@ =~= seq!['-'] + u_dec((-(i as int)) as nat));
        }
        s
    }
}

proof fn lemma_u_dec_facts(n: nat)
    ensures
        u_dec(n).len() >= 1,
        all_digits(u_dec(n)),
        dec_val(u_dec(n)) == n,
    decreases n,
{
    if n < 10 {
        assert(u_dec(n) =~= seq![char_of_digit(n as int)]);
        assert(dec_val(u_dec(n)) == dec_val(u_dec(n).drop_last()) * 10 + digit_val(
            u_dec(n).last(),
        ));
        assert(u_dec(n).drop_last() =~= Seq::<char>::empty());
    } else {
        lemma_u_dec_facts(n / 10);
        let tail = char_of_digit((n % 10) as int);
        assert(u_dec(n) == u_dec(n / 10).push(tail));
        assert(u_dec(n).drop_last() =~= u_dec(n / 10));
        assert(u_dec(n).last() == tail);
        assert(dec_val(u_dec(n)) == dec_val(u_dec(n / 10)) * 10 + digit_val(tail));
        assert forall|j: int| 0 <= j < u_dec(n).len() implies is_dec_digit(u_dec(n)[j]) by {
            if j < u_dec(n / 10).len() {
                assert(u_dec(n)[j] == u_dec(n / 10)[j]);
            }
        }
    }
}

/// Formatting a signed 64-bit integer and parsing the text back returns the
/// same number.
pub proof fn lemma_fmt_parse_i64(i: i64)
    ensures
        parse_i64(fmt_i64(i as int)) == Some(i),
{
    if i >= 0 {
        lemma_u_dec_facts(i as nat);
        let s = u_dec(i as nat);
        assert(fmt_i64(i as int) == s);
        assert(is_dec_digit(s[0]));
        assert(s[0] != '-' && s[0] != '+');
    } else {
        let m = (-(i as int)) as nat;
        lemma_u_dec_facts(m);
        let s = seq!['-'] + u_dec(m);
        assert(fmt_i64(i as int) == s);
        assert(s[0] == '-');
        assert(s.skip(1) =~= u_dec(m));
    }
}

// ------------------------------------------------------------------
// Real-number literals
// ------------------------------------------------------------------
/// ASCII lower-casing of the letters that the float keywords use.
pub open spec fn lower_char(c: char) -> char {
    if c == 'I' {
        'i'
    } else if c == 'N' {
        'n'
    } else if c == 'F' {
        'f'
    } else if c == 'T' {
        't'
    } else if c == 'Y' {
        'y'
    } else if c == 'A' {
        'a'
    } else {
        c
    }
}

pub open spec fn lower_seq(s: Seq<char>) -> Seq<char> {
    s.map_values(|c: char| lower_char(c))
}

pub open spec fn count_dots(s: Seq<char>) -> int
    decreases s.len(),
{
    if s.len() == 0 {
        0
    } else {
        count_dots(s.drop_last()) + if s.last() == '.' {
            1int
        } else {
            0int
        }
    }
}

/// Digits with at most one decimal point somewhere among them, and at least
/// one digit.
pub open spec fn is_mantissa(m: Seq<char>) -> bool {
    &&& forall|j: int| 0 <= j < m.len() ==> is_dec_digit(m[j]) || m[j] == '.'
    &&& exists|j: int| 0 <= j < m.len() && is_dec_digit(m[j])
    &&& count_dots(m) <= 1
}

/// An exponent part: an optional sign then one or more digits.
pub open spec fn is_exp_part(x: Seq<char>) -> bool {
    let d = if x.len() > 0 && (x[0] == '+' || x[0] == '-') {
        x.skip(1)
    } else {
        x
    };
    d.len() > 0 && all_digits(d)
}

pub open spec fn strip_sign(s: Seq<char>) -> Seq<char> {
    if s.len() > 0 && (s[0] == '+' || s[0] == '-') {
        s.skip(1)
    } else {
        s
    }
}

/// A mantissa, an exponent marker and an exponent part, in that order.
pub open spec fn has_exp_split(b: Seq<char>) -> bool {
    exists|k: int|
        #![trigger b[k]]
        0 <= k < b.len() && (b[k] == 'e' || b[k] == 'E') && is_mantissa(b.take(k)) && is_exp_part(
            b.skip(k + 1),
        )
}

/// The texts accepted when parsing a 64-bit float: an optional sign, then
/// one of the keywords `inf`, `infinity`, `nan` (case-insensitive), or a
/// mantissa with an optional exponent.
pub open spec fn is_real_lit(s: Seq<char>) -> bool {
    ||| lower_seq(strip_sign(s)) == "inf"@
    ||| lower_seq(strip_sign(s)) == "infinity"@
    ||| lower_seq(strip_sign(s)) == "nan"@
    ||| is_mantissa(strip_sign(s))
    ||| has_exp_split(strip_sign(s))
}

fn lower_exec(c: char) -> (r: char)
    ensures
        r == lower_char(c),
{
    if c == 'I' {
        'i'
    } else if c == 'N' {
        'n'
    } else if c == 'F' {
        'f'
    } else if c == 'T' {
        't'
    } else if c == 'Y' {
        'y'
    } else if c == 'A' {
        'a'
    } else {
        c
    }
}

fn is_digit_exec(c: char) -> (b: bool)
    ensures
        b == is_dec_digit(c),
{
    let u = c as u32;
    48 <= u && u <= 57
}

fn check_all_digits(s: &str, lo: usize, hi: usize) -> (b: bool)
    requires
        lo <= hi <= s@.len(),
    ensures
        b == (lo < hi && all_digits(s@.subrange(lo as int, hi as int))),
{
    if lo >= hi {
        return false;
    }
    let ghost sub = s@.subrange(lo as int, hi as int);
    let mut i: usize = lo;
    while i < hi
        invariant
            lo <= i <= hi <= s@.len(),
            sub == s@.subrange(lo as int, hi as int),
            forall|j: int| 0 <= j < i - lo ==> is_dec_digit(sub[j]),
        decreases hi - i,
    {
        let c = s.get_char(i);
        assert(sub[i - lo] == s@[i as int]);
        if !is_digit_exec(c) {
            return false;
        }
        i += 1;
    }
    true
}

fn check_mantissa(s: &str, lo: usize, hi: usize) -> (b: bool)
    requires
        lo <= hi <= s@.len(),
    ensures
        b == is_mantissa(s@.subrange(lo as int, hi as int)),
{
    let ghost sub = s@.subrange(lo as int, hi as int);
    let mut i: usize = lo;
    let mut dots: u64 = 0;
    let mut seen_digit: bool = false;
    while i < hi
        invariant
            lo <= i <= hi <= s@.len(),
            sub == s@.subrange(lo as int, hi as int),
            dots <= i - lo,
            dots == count_dots(sub.take(i - lo)),
            seen_digit == exists|j: int| 0 <= j < i - lo && is_dec_digit(sub[j]),
            forall|j: int| 0 <= j < i - lo ==> is_dec_digit(sub[j]) || sub[j] == '.',
        decreases hi - i,
    {
        let c = s.get_char(i);
        assert(sub[i - lo] == s@[i as int]);
        proof {
            assert(sub.take(i + 1 - lo).drop_last() =~= sub.take(i - lo));
        }
        if is_digit_exec(c) {
            seen_digit = true;
        } else if c == '.' {
            dots += 1;
        } else {
            return false;
        }
        i += 1;
    }
    proof {
        assert(sub.take(hi - lo) =~= sub);
    }
    seen_digit && dots <= 1
}

fn check_exp_part(s: &str, lo: usize, hi: usize) -> (b: bool)
    requires
        lo <= hi <= s@.len(),
    ensures
        b == is_exp_part(s@.subrange(lo as int, hi as int)),
{
    let ghost sub = s@.subrange(lo as int, hi as int);
    if lo < hi {
        let c = s.get_char(lo);
        assert(sub[0] == s@[lo as int]);
        if c == '+' || c == '-' {
            let r = check_all_digits(s, lo + 1, hi);
            proof {
                assert(sub.skip(1) =~= s@.subrange(lo + 1, hi as int));
            }
            return r;
        }
    }
    let r = check_all_digits(s, lo, hi);
    r
}

fn keyword_check(s: &str, lo: usize, hi: usize) -> (b: bool)
    requires
        lo <= hi <= s@.len(),
    ensures
        b == {
            let sub = lower_seq(s@.subrange(lo as int, hi as int));
            sub == "inf"@ || sub == "infinity"@ || sub == "nan"@
        },
{
    let ghost sub = s@.subrange(lo as int, hi as int);
    proof {
        reveal_strlit("inf");
        reveal_strlit("infinity");
        reveal_strlit("nan");
    }
    let n = hi - lo;
    if n == 3 {
        let c0 = lower_exec(s.get_char(lo));
        let c1 = lower_exec(s.get_char(lo + 1));
        let c2 = lower_exec(s.get_char(lo + 2));
        assert(lower_seq(sub)[0] == lower_char(s@[lo as int]));
        assert(lower_seq(sub)[1] == lower_char(s@[lo + 1]));
        assert(lower_seq(sub)[2] == lower_char(s@[lo + 2]));
        let inf = c0 == 'i' && c1 == 'n' && c2 == 'f';
        let nan = c0 == 'n' && c1 == 'a' && c2 == 'n';
        proof {
            if inf {
                assert(lower_seq(sub) =~= "inf"@);
            }
            if nan {
                assert(lower_seq(sub) =~= "nan"@);
            }
            if !inf {
                assert(lower_seq(sub) != "inf"@) by {
                    if lower_seq(sub) == "inf"@ {
                        assert(lower_seq(sub)[0] == 'i' && lower_seq(sub)[1] == 'n' && lower_seq(
                            sub,
                        )[2] == 'f');
                    }
                }
            }
            if !nan {
                assert(lower_seq(sub) != "nan"@) by {
                    if lower_seq(sub) == "nan"@ {
                        assert(lower_seq(sub)[0] == 'n' && lower_seq(sub)[1] == 'a' && lower_seq(
                            sub,
                        )[2] == 'n');
                    }
                }
            }
            assert(lower_seq(sub).len() == 3);
            assert(lower_seq(sub) != "infinity"@) by {
                if lower_seq(sub) == "infinity"@ {
                    assert(lower_seq(sub).len() == "infinity"@.len());
                }
            }
        }
        inf || nan
    } else if n == 8 {
        let c0 = lower_exec(s.get_char(lo));
        let c1 = lower_exec(s.get_char(lo + 1));
        let c2 = lower_exec(s.get_char(lo + 2));
        let c3 = lower_exec(s.get_char(lo + 3));
        let c4 = lower_exec(s.get_char(lo + 4));
        let c5 = lower_exec(s.get_char(lo + 5));
        let c6 = lower_exec(s.get_char(lo + 6));
        let c7 = lower_exec(s.get_char(lo + 7));
        assert(forall|j: int| 0 <= j < 8 ==> lower_seq(sub)[j] == lower_char(s@[lo + j]));
        let infy = c0 == 'i' && c1 == 'n' && c2 == 'f' && c3 == 'i' && c4 == 'n' && c5 == 'i' && c6
            == 't' && c7 == 'y';
        proof {
            if infy {
                assert(lower_seq(sub) =~= "infinity"@);
            }
            if !infy {
                assert(lower_seq(sub) != "infinity"@) by {
                    if lower_seq(sub) == "infinity"@ {
                        assert(lower_seq(sub)[0] == 'i' && lower_seq(sub)[1] == 'n' && lower_seq(
                            sub,
                        )[2] == 'f' && lower_seq(sub)[3] == 'i' && lower_seq(sub)[4] == 'n'
                            && lower_seq(sub)[5] == 'i' && lower_seq(sub)[6] == 't' && lower_seq(
                            sub,
                        )[7] == 'y');
                    }
                }
            }
            assert(lower_seq(sub).len() == 8);
            assert(lower_seq(sub) != "inf"@) by {
                if lower_seq(sub) == "inf"@ {
                    assert(lower_seq(sub).len() == "inf"@.len());
                }
            }
            assert(lower_seq(sub) != "nan"@) by {
                if lower_seq(sub) == "nan"@ {
                    assert(lower_seq(sub).len() == "nan"@.len());
                }
            }
        }
        infy
    } else {
        proof {
            assert(lower_seq(sub).len() == hi - lo);
            assert(lower_seq(sub) != "inf"@) by {
                if lower_seq(sub) == "inf"@ {
                    assert(lower_seq(sub).len() == "inf"@.len());
                }
            }
            assert(lower_seq(sub) != "nan"@) by {
                if lower_seq(sub) == "nan"@ {
                    assert(lower_seq(sub).len() == "nan"@.len());
                }
            }
            assert(lower_seq(sub) != "infinity"@) by {
                if lower_seq(sub) == "infinity"@ {
                    assert(lower_seq(sub).len() == "infinity"@.len());
                }
            }
        }
        false
    }
}

fn find_exp_marker(s: &str, lo: usize, n: usize) -> (k: usize)
    requires
        lo <= n <= s@.len(),
    ensures
        lo <= k <= n,
        k < n ==> s@[k as int] == 'e' || s@[k as int] == 'E',
        forall|j: int| lo <= j < k ==> s@[j] != 'e' && s@[j] != 'E',
{
    let mut k: usize = lo;
    while k < n
        invariant
            lo <= k <= n <= s@.len(),
            forall|j: int| lo <= j < k ==> s@[j] != 'e' && s@[j] != 'E',
        decreases n - k,
    {
        let c = s.get_char(k);
        if c == 'e' || c == 'E' {
            return k;
        }
        k += 1;
    }
    n
}

/// Whether decimal text is accepted by the 64-bit float grammar.
pub fn is_real_literal(s: &str) -> (b: bool)
    ensures
        b == is_real_lit(s@),
{
    let n = s.unicode_len();
    let lo: usize = if n > 0 {
        let c = s.get_char(0);
        if c == '+' || c == '-' {
            1
        } else {
            0
        }
    } else {
        0
    };
    let ghost b0 = strip_sign(s@);
    proof {
        assert(b0 =~= s@.subrange(lo as int, n as int));
    }
    if keyword_check(s, lo, n) {
        return true;
    }
    let k = find_exp_marker(s, lo, n);
    if k == n {
        // no exponent marker anywhere
        let r = check_mantissa(s, lo, n);
        proof {
            if !r {
                assert forall|kk: int|
                    0 <= kk < b0.len() implies !((b0[kk] == 'e' || b0[kk] == 'E') && is_mantissa(
                    b0.take(kk),
                ) && is_exp_part(b0.skip(kk + 1))) by {
                    assert(b0[kk] == s@[lo + kk]);
                }
                assert(!has_exp_split(b0));
            }
        }
        return r;
    }
    let m = check_mantissa(s, lo, k);
    let e = check_exp_part(s, k + 1, n);
    proof {
        let kk = k - lo;
        assert(b0[kk] == s@[k as int]);
        assert(b0.take(kk) =~= s@.subrange(lo as int, k as int));
        assert(b0.skip(kk + 1) =~= s@.subrange(k + 1, n as int));
        if m && e {
            assert(0 <= kk < b0.len() && (b0[kk] == 'e' || b0[kk] == 'E') && is_mantissa(
                b0.take(kk),
            ) && is_exp_part(b0.skip(kk + 1)));
            assert(has_exp_split(b0));
        } else {
            // no other split can work: earlier positions hold no marker, and
            // any later split would keep this marker inside its mantissa
            assert forall|k2: int|
                0 <= k2 < b0.len() implies !((b0[k2] == 'e' || b0[k2] == 'E') && is_mantissa(
                b0.take(k2),
            ) && is_exp_part(b0.skip(k2 + 1))) by {
                assert(b0[k2] == s@[lo + k2]);
                if k2 < kk {
                    assert(s@[lo + k2] != 'e' && s@[lo + k2] != 'E');
                } else if k2 > kk {
                    if is_mantissa(b0.take(k2)) {
                        assert(b0.take(k2)[kk] == b0[kk]);
                        assert(is_dec_digit(b0[kk]) || b0[kk] == '.');
                    }
                }
            }
            assert(!has_exp_split(b0));
            assert(!is_mantissa(b0)) by {
                if is_mantissa(b0) {
                    assert(is_dec_digit(b0[kk]) || b0[kk] == '.');
                }
            }
        }
    }
    m && e
}

// ------------------------------------------------------------------
// String comparison
// ------------------------------------------------------------------
/// Character-wise string equality, usable wherever contracts compare views.
pub fn str_eq(a: &str, b: &str) -> (r: bool)
    ensures
        r == (a@ == b@),
{
    let n = a.unicode_len();
    if n != b.unicode_len() {
        return false;
    }
    let mut i: usize = 0;
    while i < n
        invariant
            i <= n == a@.len(),
            b@.len() == n,
            forall|j: int| 0 <= j < i ==> a@[j] == b@[j],
        decreases n - i,
    {
        if a.get_char(i) != b.get_char(i) {
            return false;
        }
        i += 1;
    }
    proof {
        assert(a@ =~= b@);
    }
    true
}

} // verus!
