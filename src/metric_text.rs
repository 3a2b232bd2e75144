use vstd::prelude::*;
use vstd::string::StrSliceExecFns;

verus! {

/// Why a metric field could not be read.
#[derive(Debug, Clone, Copy, PartialEq, Eq, Structural)]
pub enum MetricError {
    /// The text is neither a decimal number nor an unknown-value token.
    NotANumber,
    /// The value does not fit in thousandths held by a `u64`.
    TooLarge,
    /// The value has a non-zero digit past the thousandths.
    TooPrecise,
}

/// The characters of Unicode's White_Space property.
pub open spec fn is_space(c: char) -> bool {
    let u = c as u32;
    (9 <= u <= 13) || u == 32 || u == 0x85 || u == 0xA0 || u == 0x1680 || (0x2000 <= u <= 0x200A)
        || u == 0x2028 || u == 0x2029 || u == 0x202F || u == 0x205F || u == 0x3000
}

pub open spec fn trim_start(s: Seq<char>) -> Seq<char>
    decreases s.len(),
{
    if s.len() > 0 && is_space(s[0]) {
        trim_start(s.drop_first())
    } else {
        s
    }
}

pub open spec fn trim_end(s: Seq<char>) -> Seq<char>
    decreases s.len(),
{
    if s.len() > 0 && is_space(s.last()) {
        trim_end(s.drop_last())
    } else {
        s
    }
}

/// `s` without leading and trailing spaces.
pub open spec fn trim(s: Seq<char>) -> Seq<char> {
    trim_end(trim_start(s))
}

/// `s` without its trailing `%` signs.
pub open spec fn strip_percent(s: Seq<char>) -> Seq<char>
    decreases s.len(),
{
    if s.len() > 0 && s.last() == '%' {
        strip_percent(s.drop_last())
    } else {
        s
    }
}

/// A character's code with ASCII upper case folded to lower case.
pub open spec fn fold(c: char) -> u32 {
    if 65 <= (c as u32) <= 90 {
        (c as u32 + 32) as u32
    } else {
        c as u32
    }
}

pub open spec fn eq_ignore_case(a: Seq<char>, b: Seq<char>) -> bool {
    a.len() == b.len() && forall|i: int| 0 <= i < a.len() ==> fold(#[trigger] a[i]) == fold(b[i])
}

/// An empty field, or one that says the value is not known.
pub open spec fn is_unknown(s: Seq<char>) -> bool {
    s.len() == 0 || eq_ignore_case(s, "n/a"@) || eq_ignore_case(s, "null"@) || eq_ignore_case(
        s,
        "unknown"@,
    )
}

pub open spec fn is_digit(c: char) -> bool {
    48 <= (c as u32) <= 57
}

pub open spec fn all_digits(s: Seq<char>) -> bool {
    forall|i: int| 0 <= i < s.len() ==> is_digit(#[trigger] s[i])
}

/// The number that a string of decimal digits spells.
pub open spec fn digits_val(s: Seq<char>) -> nat
    decreases s.len(),
{
    if s.len() == 0 {
        0
    } else {
        digits_val(s.drop_last()) * 10 + (s.last() as u32 - 48) as nat
    }
}


pub open spec fn all_zero(s: Seq<char>) -> bool {
    forall|i: int| 0 <= i < s.len() ==> (#[trigger] s[i]) as u32 == 48
}

/// Index of the first `a` or `b` of `s`, or its length where it has neither.
pub open spec fn first_of(s: Seq<char>, a: char, b: char) -> int
    decreases s.len(),
{
    if s.len() == 0 {
        0
    } else if s[0] == a || s[0] == b {
        0
    } else {
        1 + first_of(s.drop_first(), a, b)
    }
}

/// `s` without one leading `+`.
pub open spec fn without_plus(s: Seq<char>) -> Seq<char> {
    if s.len() > 0 && s[0] == '+' {
        s.drop_first()
    } else {
        s
    }
}

/// An exponent's digits, after an optional sign.
pub open spec fn exponent_digits(t: Seq<char>) -> Seq<char> {
    if t.len() > 0 && (t[0] == '+' || t[0] == '-') {
        t.drop_first()
    } else {
        t
    }
}

/// An exponent: an optional sign, then at least one digit.
pub open spec fn exponent_ok(t: Seq<char>) -> bool {
    exponent_digits(t).len() > 0 && all_digits(exponent_digits(t))
}

pub open spec fn exponent_value(t: Seq<char>) -> int {
    if t.len() > 0 && t[0] == '-' {
        -digits_val(exponent_digits(t))
    } else {
        digits_val(exponent_digits(t)) as int
    }
}

pub open spec fn pow10(n: nat) -> nat
    decreases n,
{
    if n == 0 {
        1
    } else {
        10 * pow10((n - 1) as nat)
    }
}

/// The number whose digits are `d` with the point after the first `p` of
/// them (padded with zeros on either side), or `None` where it is no whole
/// number.
pub open spec fn shifted(d: Seq<char>, p: int) -> Option<nat> {
    if p >= d.len() {
        Some(digits_val(d) * pow10((p - d.len()) as nat))
    } else if p <= 0 {
        if all_zero(d) {
            Some(0)
        } else {
            None
        }
    } else if all_zero(d.skip(p)) {
        Some(digits_val(d.take(p)))
    } else {
        None
    }
}

/// The value in thousandths of a number written as an optional `+`, digits
/// with an optional `.` and at least one digit in all (`12`, `12.5`, `12.`,
/// `.5`), then an optional exponent (`e` or `E`, an optional sign, digits).
/// Signs `-`, `inf` and `NaN` are not numbers here: a measured value is finite
/// and not negative.
pub open spec fn number_spec(s: Seq<char>) -> Result<u64, MetricError> {
    let u = without_plus(s);
    let x = first_of(u, 'e', 'E');
    let mant = u.take(x);
    let d = first_of(mant, '.', '.');
    let ip = mant.take(d);
    let fp = if d < mant.len() {
        mant.skip(d + 1)
    } else {
        Seq::empty()
    };
    let ex = u.skip(x + 1);
    let has_ex = x < u.len();
    if !(all_digits(ip) && all_digits(fp) && (ip.len() > 0 || fp.len() > 0) && (!has_ex
        || exponent_ok(ex))) {
        Err(MetricError::NotANumber)
    } else {
        verdict(shifted(ip + fp, ip.len() + (if has_ex {
            exponent_value(ex)
        } else {
            0
        }) + 3))
    }
}

/// A shifted value as a result: too precise, too large, or the value.
pub open spec fn verdict(o: Option<nat>) -> Result<u64, MetricError> {
    match o {
        None => Err(MetricError::TooPrecise),
        Some(v) => if v <= u64::MAX {
            Ok(v as u64)
        } else {
            Err(MetricError::TooLarge)
        },
    }
}

/// What a trimmed field holds: nothing, a value in thousandths, or an error.
pub open spec fn metric_spec(core: Seq<char>) -> Result<Option<u64>, MetricError> {
    if is_unknown(core) {
        Ok(None)
    } else {
        match number_spec(core) {
            Ok(v) => Ok(Some(v)),
            Err(e) => Err(e),
        }
    }
}

fn is_space_char(c: char) -> (r: bool)
    ensures
        r == is_space(c),
{
    let u = c as u32;
    (9 <= u && u <= 13) || u == 32 || u == 0x85 || u == 0xA0 || u == 0x1680 || (0x2000 <= u && u
        <= 0x200A) || u == 0x2028 || u == 0x2029 || u == 0x202F || u == 0x205F || u == 0x3000
}

/// Moves `lo` past the spaces that open the window `[lo, hi)` of `s`.
fn skip_leading_spaces(s: &str, lo: usize, hi: usize) -> (r: usize)
    requires
        lo <= hi <= s@.len(),
    ensures
        lo <= r <= hi,
        s@.subrange(r as int, hi as int) == trim_start(s@.subrange(lo as int, hi as int)),
{
    let mut i = lo;
    while i < hi && is_space_char(s.get_char(i))
        invariant
            lo <= i <= hi <= s@.len(),
            trim_start(s@.subrange(i as int, hi as int)) == trim_start(
                s@.subrange(lo as int, hi as int),
            ),
        decreases hi - i,
    {
        assert(s@.subrange(i as int, hi as int).drop_first() =~= s@.subrange(i + 1, hi as int));
        i = i + 1;
    }
    if i < hi {
        assert(s@.subrange(i as int, hi as int)[0] == s@[i as int]);
    }
    i
}

fn is_trailing(c: char, percent: bool) -> (r: bool)
    ensures
        r == if percent {
            c == '%'
        } else {
            is_space(c)
        },
{
    if percent {
        c == '%'
    } else {
        is_space_char(c)
    }
}

/// Moves `hi` back past the trailing characters of the window `[lo, hi)` of `s`
/// that are spaces (`percent == false`) or `%` signs (`percent == true`).
fn drop_trailing(s: &str, lo: usize, hi: usize, percent: bool) -> (r: usize)
    requires
        lo <= hi <= s@.len(),
    ensures
        lo <= r <= hi,
        !percent ==> s@.subrange(lo as int, r as int) == trim_end(
            s@.subrange(lo as int, hi as int),
        ),
        percent ==> s@.subrange(lo as int, r as int) == strip_percent(
            s@.subrange(lo as int, hi as int),
        ),
{
    let mut j = hi;
    while j > lo && is_trailing(s.get_char(j - 1), percent)
        invariant
            lo <= j <= hi <= s@.len(),
            !percent ==> trim_end(s@.subrange(lo as int, j as int)) == trim_end(
                s@.subrange(lo as int, hi as int),
            ),
            percent ==> strip_percent(s@.subrange(lo as int, j as int)) == strip_percent(
                s@.subrange(lo as int, hi as int),
            ),
        decreases j - lo,
    {
        assert(s@.subrange(lo as int, j as int).drop_last() =~= s@.subrange(lo as int, j - 1));
        j = j - 1;
    }
    if j > lo {
        assert(s@.subrange(lo as int, j as int).last() == s@[j - 1]);
    }
    j
}

fn fold_char(c: char) -> (r: u32)
    ensures
        r == fold(c),
{
    let v = c as u32;
    if 65 <= v && v <= 90 {
        v + 32
    } else {
        v
    }
}

/// Whether the window `[lo, hi)` of `s` equals `t` but for ASCII case.
fn window_eq_ignore_case(s: &str, lo: usize, hi: usize, t: &str) -> (r: bool)
    requires
        lo <= hi <= s@.len(),
    ensures
        r == eq_ignore_case(s@.subrange(lo as int, hi as int), t@),
{
    let n = t.unicode_len();
    if hi - lo != n {
        return false;
    }
    let ghost w = s@.subrange(lo as int, hi as int);
    let mut k: usize = 0;
    while k < n
        invariant
            k <= n == t@.len() == hi - lo,
            lo <= hi <= s@.len(),
            w == s@.subrange(lo as int, hi as int),
            forall|i: int| 0 <= i < k ==> fold(#[trigger] w[i]) == fold(t@[i]),
        decreases n - k,
    {
        if fold_char(s.get_char(lo + k)) != fold_char(t.get_char(k)) {
            assert(w[k as int] == s@[lo + k]);
            return false;
        }
        assert(w[k as int] == s@[lo + k]);
        k = k + 1;
    }
    true
}

/// One past the largest `u64`.
pub open spec fn cap() -> nat {
    u64::MAX as nat + 1
}

/// `v`, or `c` where `v` is larger.
pub open spec fn sat_at(v: nat, c: nat) -> nat {
    if v < c {
        v
    } else {
        c
    }
}

const CAP: u128 = 18446744073709551616;

/// Exponents from this one up are all held as this one: each of them puts
/// any non-zero digit far outside what a `u64` holds.
const EXP_CAP: u128 = 1180591620717411303424;

proof fn lemma_zero_digits(s: Seq<char>)
    requires
        all_zero(s),
    ensures
        all_digits(s),
        digits_val(s) == 0,
    decreases s.len(),
{
    assert forall|i: int| 0 <= i < s.len() implies is_digit(#[trigger] s[i]) by {
        assert(s[i] as u32 == 48);
    }
    if s.len() > 0 {
        let p = s.drop_last();
        assert(all_zero(p)) by {
            assert forall|i: int| 0 <= i < p.len() implies (#[trigger] p[i]) as u32 == 48 by {
                assert(p[i] == s[i]);
            }
        }
        lemma_zero_digits(p);
        assert(s.last() == s[s.len() - 1]);
    }
}

proof fn lemma_nonzero_digits(s: Seq<char>)
    requires
        all_digits(s),
        !all_zero(s),
    ensures
        digits_val(s) >= 1,
    decreases s.len(),
{
    let p = s.drop_last();
    assert(s.last() == s[s.len() - 1]);
    assert(is_digit(s[s.len() - 1]));
    if s.last() as u32 == 48 {
        let i = choose|i: int| 0 <= i < s.len() && s[i] as u32 != 48;
        assert(p[i] == s[i]);
        assert(all_digits(p)) by {
            assert forall|k: int| 0 <= k < p.len() implies is_digit(#[trigger] p[k]) by {
                assert(p[k] == s[k]);
            }
        }
        lemma_nonzero_digits(p);
        assert(digits_val(s) == digits_val(p) * 10 + (s.last() as u32 - 48) as nat);
    } else {
        assert(digits_val(s) == digits_val(p) * 10 + (s.last() as u32 - 48) as nat);
    }
}

proof fn lemma_shifted_zero(d: Seq<char>, p: int)
    requires
        all_zero(d),
    ensures
        shifted(d, p) == Some(0nat),
{
    lemma_zero_digits(d);
    if p >= d.len() {
        assert(digits_val(d) * pow10((p - d.len()) as nat) == 0);
    } else if p > 0 {
        let t = d.take(p);
        assert(all_zero(t)) by {
            assert forall|i: int| 0 <= i < t.len() implies (#[trigger] t[i]) as u32 == 48 by {
                assert(t[i] == d[i]);
            }
        }
        assert(all_zero(d.skip(p))) by {
            assert forall|i: int| 0 <= i < d.skip(p).len() implies (#[trigger] d.skip(p)[i]) as u32
                == 48 by {
                assert(d.skip(p)[i] == d[i + p]);
            }
        }
        lemma_zero_digits(t);
    }
}

proof fn lemma_pow10_large(n: nat)
    requires
        n >= 20,
    ensures
        pow10(n) > u64::MAX,
    decreases n,
{
    if n == 20 {
        reveal_with_fuel(pow10, 21);
    } else {
        lemma_pow10_large((n - 1) as nat);
    }
}

/// A non-zero digit string shifted 20 places or more is past every `u64`.
proof fn lemma_shifted_large(d: Seq<char>, p: int)
    requires
        all_digits(d),
        !all_zero(d),
        p >= d.len() + 20,
    ensures
        shifted(d, p) matches Some(v) && v > u64::MAX,
{
    lemma_nonzero_digits(d);
    let q = (p - d.len()) as nat;
    lemma_pow10_large(q);
    let a = digits_val(d);
    let b = pow10(q);
    assert(a * b >= b) by (nonlinear_arith)
        requires
            a >= 1,
    ;
}

fn is_digit_char(c: char) -> (r: bool)
    ensures
        r == is_digit(c),
{
    let v = c as u32;
    48 <= v && v <= 57
}

/// The window `[lo, hi)` of `s` as characters.
fn copy_window(s: &str, lo: usize, hi: usize) -> (r: Vec<char>)
    requires
        lo <= hi <= s@.len(),
    ensures
        r@ == s@.subrange(lo as int, hi as int),
{
    let mut out: Vec<char> = Vec::new();
    let mut i = lo;
    while i < hi
        invariant
            lo <= i <= hi <= s@.len(),
            out@ == s@.subrange(lo as int, i as int),
        decreases hi - i,
    {
        out.push(s.get_char(i));
        assert(out@ =~= s@.subrange(lo as int, i + 1));
        i = i + 1;
    }
    out
}

/// Appends the window `[a, b)` of `t` to `out`.
fn push_range(out: &mut Vec<char>, t: &Vec<char>, a: usize, b: usize)
    requires
        a <= b <= t@.len(),
    ensures
        final(out)@ == old(out)@ + t@.subrange(a as int, b as int),
{
    let mut i = a;
    while i < b
        invariant
            a <= i <= b <= t@.len(),
            out@ == old(out)@ + t@.subrange(a as int, i as int),
        decreases b - i,
    {
        out.push(t[i]);
        assert(out@ =~= old(out)@ + t@.subrange(a as int, i + 1));
        i = i + 1;
    }
}

/// The index of the first `a` or `b` in the window `[lo, hi)` of `t`, or `hi`.
fn find_first(t: &Vec<char>, lo: usize, hi: usize, a: char, b: char) -> (r: usize)
    requires
        lo <= hi <= t@.len(),
    ensures
        lo <= r <= hi,
        r - lo == first_of(t@.subrange(lo as int, hi as int), a, b),
{
    let mut i = lo;
    while i < hi && t[i] != a && t[i] != b
        invariant
            lo <= i <= hi <= t@.len(),
            first_of(t@.subrange(lo as int, hi as int), a, b) == (i - lo) + first_of(
                t@.subrange(i as int, hi as int),
                a,
                b,
            ),
        decreases hi - i,
    {
        assert(t@.subrange(i as int, hi as int).drop_first() =~= t@.subrange(i + 1, hi as int));
        assert(t@.subrange(i as int, hi as int)[0] == t@[i as int]);
        i = i + 1;
    }
    if i < hi {
        assert(t@.subrange(i as int, hi as int)[0] == t@[i as int]);
    }
    i
}

/// Whether the window `[a, b)` of `t` is all digits, and if so the number it
/// spells, capped at `c`.
fn digits_sat(t: &Vec<char>, a: usize, b: usize, c: u128) -> (r: (bool, u128))
    requires
        a <= b <= t@.len(),
        1 <= c <= EXP_CAP,
    ensures
        r.0 == all_digits(t@.subrange(a as int, b as int)),
        r.0 ==> r.1 == sat_at(digits_val(t@.subrange(a as int, b as int)), c as nat),
{
    let mut v: u128 = 0;
    let mut i = a;
    while i < b
        invariant
            a <= i <= b <= t@.len(),
            1 <= c <= EXP_CAP,
            all_digits(t@.subrange(a as int, i as int)),
            v == sat_at(digits_val(t@.subrange(a as int, i as int)), c as nat),
        decreases b - i,
    {
        let ch = t[i];
        let ghost next = t@.subrange(a as int, i + 1);
        assert(next.drop_last() =~= t@.subrange(a as int, i as int));
        assert(next.last() == ch);
        if !is_digit_char(ch) {
            assert(t@.subrange(a as int, b as int)[i - a] == ch);
            return (false, 0);
        }
        let d = (ch as u32 - 48) as u128;
        assert(all_digits(next)) by {
            assert forall|k: int| 0 <= k < next.len() implies is_digit(#[trigger] next[k]) by {
                if k < next.len() - 1 {
                    assert(next[k] == t@.subrange(a as int, i as int)[k]);
                }
            }
        }
        proof {
            let x = digits_val(t@.subrange(a as int, i as int));
            assert(digits_val(next) == x * 10 + d);
            if x >= c {
                assert(x * 10 + d >= c) by (nonlinear_arith)
                    requires
                        x >= c,
                ;
            }
        }
        let s = v * 10 + d;
        v = if s >= c {
            c
        } else {
            s
        };
        i = i + 1;
    }
    proof {
        assert forall|k: int| 0 <= k < (b - a) implies is_digit(
            #[trigger] t@.subrange(a as int, b as int)[k],
        ) by {
            assert(t@.subrange(a as int, b as int)[k] == t@.subrange(a as int, i as int)[k]);
        }
    }
    (true, v)
}

/// Whether the window `[a, b)` of `t` is all zeros.
fn all_zero_in(t: &Vec<char>, a: usize, b: usize) -> (r: bool)
    requires
        a <= b <= t@.len(),
    ensures
        r == all_zero(t@.subrange(a as int, b as int)),
{
    let mut i = a;
    while i < b
        invariant
            a <= i <= b <= t@.len(),
            forall|k: int| a <= k < i ==> (#[trigger] t@[k]) as u32 == 48,
        decreases b - i,
    {
        if t[i] as u32 != 48 {
            assert(t@.subrange(a as int, b as int)[i - a] == t@[i as int]);
            return false;
        }
        i = i + 1;
    }
    assert forall|k: int| 0 <= k < b - a implies (#[trigger] t@.subrange(a as int, b as int)[k])
        as u32 == 48 by {
        assert(t@.subrange(a as int, b as int)[k] == t@[a + k]);
    }
    true
}

/// The value in thousandths of the number that `t` writes.
#[verifier::rlimit(60)]
#[verifier::spinoff_prover]
fn number(t: &Vec<char>) -> (r: Result<u64, MetricError>)
    ensures
        r == number_spec(t@),
{
    let n = t.len();
    let lo: usize = if n > 0 && t[0] == '+' {
        1
    } else {
        0
    };
    let ghost u = without_plus(t@);
    assert(u =~= t@.subrange(lo as int, n as int));
    let x = find_first(t, lo, n, 'e', 'E');
    let ghost mant = u.take(x - lo);
    assert(mant =~= t@.subrange(lo as int, x as int));
    let d = find_first(t, lo, x, '.', '.');
    let fa: usize = if d < x {
        d + 1
    } else {
        x
    };
    let ghost ip = mant.take(d - lo);
    let ghost fp = if d - lo < mant.len() {
        mant.skip(d - lo + 1)
    } else {
        Seq::<char>::empty()
    };
    assert(ip =~= t@.subrange(lo as int, d as int));
    assert(fp =~= t@.subrange(fa as int, x as int));
    let (ok_i, _) = digits_sat(t, lo, d, 1);
    let (ok_f, _) = digits_sat(t, fa, x, 1);
    let ghost ex = u.skip(x - lo + 1);
    let ghost has_ex = x - lo < u.len();
    let mut neg = false;
    let mut ok_e = true;
    let mut ev: u128 = 0;
    if x < n {
        assert(ex =~= t@.subrange(x + 1, n as int));
        let mut ea = x + 1;
        if ea < n && (t[ea] == '+' || t[ea] == '-') {
            neg = t[ea] == '-';
            ea = ea + 1;
        }
        assert(exponent_digits(ex) =~= t@.subrange(ea as int, n as int));
        let (okd, v) = digits_sat(t, ea, n, EXP_CAP);
        ok_e = okd && ea < n;
        ev = v;
    }
    let ghost e = if has_ex {
        exponent_value(ex)
    } else {
        0
    };
    assert(ok_e == (!has_ex || exponent_ok(ex)));
    assert(ok_e ==> has_ex ==> ev == sat_at(digits_val(exponent_digits(ex)), EXP_CAP as nat));
    assert(ok_e ==> has_ex ==> if neg {
        e == -digits_val(exponent_digits(ex))
    } else {
        e == digits_val(exponent_digits(ex))
    });
    if !(ok_i && ok_f && (d > lo || fa < x) && ok_e) {
        return Err(MetricError::NotANumber);
    }
    let mut dv: Vec<char> = Vec::new();
    push_range(&mut dv, t, lo, d);
    push_range(&mut dv, t, fa, x);
    assert(dv@ =~= ip + fp);
    assert(all_digits(dv@)) by {
        assert forall|k: int| 0 <= k < dv@.len() implies is_digit(#[trigger] dv@[k]) by {
            if k < ip.len() {
                assert(dv@[k] == ip[k]);
            } else {
                assert(dv@[k] == fp[k - ip.len()]);
            }
        }
    }
    assert(if neg {
        e <= 0 && ev == sat_at((-e) as nat, EXP_CAP as nat)
    } else {
        e >= 0 && ev == sat_at(e as nat, EXP_CAP as nat)
    });
    shifted_value(&dv, d - lo, neg, ev, Ghost(e))
}

/// `dv` shifted as `shifted` says, to `il + e + 3` places, where `ev` is `e`'s
/// magnitude capped at `EXP_CAP` and `neg` its sign.
#[verifier::rlimit(40)]
fn shifted_value(dv: &Vec<char>, il: usize, neg: bool, ev: u128, Ghost(e): Ghost<int>) -> (r:
    Result<u64, MetricError>)
    requires
        all_digits(dv@),
        if neg {
            e <= 0 && ev == sat_at((-e) as nat, EXP_CAP as nat)
        } else {
            e >= 0 && ev == sat_at(e as nat, EXP_CAP as nat)
        },
    ensures
        r == verdict(shifted(dv@, il + e + 3)),
{
    let len = dv.len();
    let ghost p = il + e + 3;
    assert(dv@.subrange(0, len as int) =~= dv@);
    let zero = all_zero_in(dv, 0, len);
    if zero {
        proof {
            lemma_shifted_zero(dv@, p);
        }
        return Ok(0);
    }
    if ev == EXP_CAP {
        if neg {
            assert(p <= 0);
            return Err(MetricError::TooPrecise);
        }
        proof {
            lemma_shifted_large(dv@, p);
        }
        return Err(MetricError::TooLarge);
    }
    let ei = ev as i128;
    let pe: i128 = if neg {
        (il as i128) - ei + 3
    } else {
        (il as i128) + ei + 3
    };
    assert(pe == p);
    if pe >= len as i128 {
        let q = pe - len as i128;
        if q > 20 {
            proof {
                lemma_shifted_large(dv@, p);
            }
            return Err(MetricError::TooLarge);
        }
        let (_, v0) = digits_sat(dv, 0, len, CAP);
        let ghost y = digits_val(dv@);
        let mut v = v0;
        let mut k: i128 = 0;
        assert(pow10(0) == 1);
        assert(y * pow10(0) == y);
        while k < q
            invariant
                0 <= k <= q <= 20,
                v == sat_at(y * pow10(k as nat), cap()),
            decreases q - k,
        {
            proof {
                let w = y * pow10(k as nat);
                assert(pow10((k + 1) as nat) == 10 * pow10(k as nat));
                assert(y * pow10((k + 1) as nat) == w * 10) by (nonlinear_arith)
                    requires
                        pow10((k + 1) as nat) == 10 * pow10(k as nat),
                        w == y * pow10(k as nat),
                ;
            }
            let s = v * 10;
            v = if s >= CAP {
                CAP
            } else {
                s
            };
            k = k + 1;
        }
        if v <= u64::MAX as u128 {
            Ok(v as u64)
        } else {
            Err(MetricError::TooLarge)
        }
    } else if pe <= 0 {
        Err(MetricError::TooPrecise)
    } else {
        let pp = pe as usize;
        assert(dv@.subrange(pp as int, len as int) =~= dv@.skip(pp as int));
        assert(dv@.subrange(0, pp as int) =~= dv@.take(pp as int));
        if !all_zero_in(dv, pp, len) {
            return Err(MetricError::TooPrecise);
        }
        assert(all_digits(dv@.take(pp as int))) by {
            assert forall|k: int| 0 <= k < pp implies is_digit(#[trigger] dv@.take(pp as int)[k]) by {
                assert(dv@.take(pp as int)[k] == dv@[k]);
            }
        }
        let (_, v) = digits_sat(dv, 0, pp, CAP);
        if v <= u64::MAX as u128 {
            Ok(v as u64)
        } else {
            Err(MetricError::TooLarge)
        }
    }
}

/// What the window `[lo, hi)` of `s` holds, taken as a whole field.
fn metric_of_window(s: &str, lo: usize, hi: usize) -> (r: Result<Option<u64>, MetricError>)
    requires
        lo <= hi <= s@.len(),
    ensures
        r == metric_spec(s@.subrange(lo as int, hi as int)),
{
    if hi == lo || window_eq_ignore_case(s, lo, hi, "n/a") || window_eq_ignore_case(
        s,
        lo,
        hi,
        "null",
    ) || window_eq_ignore_case(s, lo, hi, "unknown") {
        return Ok(None);
    }
    let t = copy_window(s, lo, hi);
    match number(&t) {
        Ok(v) => Ok(Some(v)),
        Err(e) => Err(e),
    }
}

/// Reads a metric field. Surrounding white space is ignored. An empty field,
/// `n/a`, `null` or `unknown` (in any case) is no value. Otherwise the text
/// must be a number as `number_spec` describes, read exactly in thousandths:
/// `1e3` is 1000, `0.0125` is 12.5 thousandths and so an error.
pub fn parse_metric(s: &str) -> (r: Result<Option<u64>, MetricError>)
    ensures
        r == metric_spec(trim(s@)),
{
    let n = s.unicode_len();
    let lo = skip_leading_spaces(s, 0, n);
    let hi = drop_trailing(s, lo, n, false);
    assert(s@.subrange(0, n as int) =~= s@);
    metric_of_window(s, lo, hi)
}

/// Reads a percentage field as `parse_metric` does, after dropping trailing
/// `%` signs (`85%` is 85 %).
pub fn parse_percent(s: &str) -> (r: Result<Option<u64>, MetricError>)
    ensures
        r == metric_spec(trim(strip_percent(trim(s@)))),
{
    let n = s.unicode_len();
    let lo = skip_leading_spaces(s, 0, n);
    let hi = drop_trailing(s, lo, n, false);
    assert(s@.subrange(0, n as int) =~= s@);
    let h2 = drop_trailing(s, lo, hi, true);
    let lo2 = skip_leading_spaces(s, lo, h2);
    let h3 = drop_trailing(s, lo2, h2, false);
    metric_of_window(s, lo2, h3)
}

} // verus!
