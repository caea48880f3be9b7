//! Decimal numbers written as text, read into millionths.
//!
//! A number is an optional sign, digits with or without a point among
//! them, and optionally a power of ten: `110`, `-0.5`, `.25`, `1.1e2`.
//! Behind an optional sign the words `inf`, `infinity` and `nan`, in
//! whatever case, are read too: they stand for no decimal number, and are
//! handed out as the bounds of what is handed out.

use vstd::prelude::*;
use vstd::arithmetic::div_mod::lemma_fundamental_div_mod_converse;
use crate::fixed::clamp_spec;
use crate::keys::{lower_spec, to_lower};

verus! {

/// The largest magnitude, in millionths, that a number read from text is
/// handed out with; one beyond it is handed out as this bound.
pub const DECIMAL_CAP: i64 = 1_000_000_000_000_000;

/// Whether `c` is one of the ten ASCII digits.
pub open spec fn is_digit_spec(c: char) -> bool {
    48 <= c as u32 <= 57
}

/// The value of a decimal digit.
pub open spec fn digit_spec(c: char) -> int {
    c as u32 as int - 48
}

/// Whether `s` holds nothing but digits.
pub open spec fn all_digits(s: Seq<char>) -> bool {
    forall|i: int| 0 <= i < s.len() ==> is_digit_spec(#[trigger] s[i])
}

/// The number that a row of decimal digits writes.
pub open spec fn digits_value(s: Seq<char>) -> int
    decreases s.len(),
{
    if s.len() == 0 {
        0
    } else {
        10 * digits_value(s.drop_last()) + digit_spec(s.last())
    }
}

/// Ten to the power of `k`.
pub open spec fn pow10(k: nat) -> int
    decreases k,
{
    if k == 0 {
        1
    } else {
        10 * pow10((k - 1) as nat)
    }
}

/// How many digits `s` begins with.
pub open spec fn leading_digits(s: Seq<char>) -> int
    decreases s.len(),
{
    if s.len() == 0 || !is_digit_spec(s[0]) {
        0
    } else {
        1 + leading_digits(s.drop_first())
    }
}

/// A decimal number taken apart: its sign, the digits before the point,
/// the digits after it, and the power of ten that it is multiplied by.
pub struct DecimalText {
    pub negative: bool,
    pub whole: Seq<char>,
    pub fraction: Seq<char>,
    pub exponent: int,
}

/// The power of ten that the end of a number names: nothing stands for
/// zero; else an `e` or `E`, an optional sign and at least one digit.
pub open spec fn exponent_spec(tail: Seq<char>) -> Option<int> {
    if tail.len() == 0 {
        Some(0)
    } else if tail[0] == 'e' || tail[0] == 'E' {
        let rest = tail.drop_first();
        let signed = rest.len() > 0 && (rest[0] == '+' || rest[0] == '-');
        let digits = if signed {
            rest.drop_first()
        } else {
            rest
        };
        if digits.len() > 0 && all_digits(digits) {
            if signed && rest[0] == '-' {
                Some(-digits_value(digits))
            } else {
                Some(digits_value(digits))
            }
        } else {
            None
        }
    } else {
        None
    }
}

/// Where the digits before the point begin: behind the sign, if there is
/// one.
pub open spec fn whole_start(s: Seq<char>) -> int {
    if s.len() > 0 && (s[0] == '+' || s[0] == '-') {
        1
    } else {
        0
    }
}

/// Where the digits before the point end.
pub open spec fn whole_end(s: Seq<char>) -> int {
    whole_start(s) + leading_digits(s.skip(whole_start(s)))
}

/// Whether a point follows the digits before it.
pub open spec fn has_point(s: Seq<char>) -> bool {
    whole_end(s) < s.len() && s[whole_end(s)] == '.'
}

/// Where the digits after the point begin.
pub open spec fn fraction_start(s: Seq<char>) -> int {
    if has_point(s) {
        whole_end(s) + 1
    } else {
        whole_end(s)
    }
}

/// Where the digits after the point end.
pub open spec fn fraction_end(s: Seq<char>) -> int {
    if has_point(s) {
        fraction_start(s) + leading_digits(s.skip(fraction_start(s)))
    } else {
        fraction_start(s)
    }
}

/// The parts of a decimal number: an optional `+` or `-`; digits,
/// optionally with a point among, before or after them, at least one digit
/// in all; optionally a power of ten. `None` for any other text.
pub open spec fn decimal_parts(s: Seq<char>) -> Option<DecimalText> {
    if whole_end(s) == whole_start(s) && fraction_end(s) == fraction_start(s) {
        None
    } else {
        match exponent_spec(s.skip(fraction_end(s))) {
            Some(exponent) => Some(
                DecimalText {
                    negative: whole_start(s) == 1 && s[0] == '-',
                    whole: s.subrange(whole_start(s), whole_end(s)),
                    fraction: s.subrange(fraction_start(s), fraction_end(s)),
                    exponent,
                },
            ),
            None => None,
        }
    }
}

/// The value of a decimal number in millionths, rounded towards negative
/// infinity: the number that its digits write, with its sign, times ten to
/// the power of six plus the exponent less the number of digits after the
/// point.
pub open spec fn decimal_micro(d: DecimalText) -> int {
    let digits = digits_value(d.whole + d.fraction);
    let signed = if d.negative {
        -digits
    } else {
        digits
    };
    let power = 6 + d.exponent - d.fraction.len();
    if power >= 0 {
        signed * pow10(power as nat)
    } else {
        signed / pow10((-power) as nat)
    }
}

/// The value in millionths of the decimal number that `s` writes; `None`
/// where `s` writes none.
pub open spec fn parse_decimal_spec(s: Seq<char>) -> Option<int> {
    match decimal_parts(s) {
        Some(d) => Some(decimal_micro(d)),
        None => None,
    }
}

proof fn lemma_leading_digits(s: Seq<char>, k: int)
    requires
        0 <= k <= s.len(),
        forall|i: int| 0 <= i < k ==> is_digit_spec(#[trigger] s[i]),
        k == s.len() || !is_digit_spec(s[k]),
    ensures
        leading_digits(s) == k,
    decreases k,
{
    if k > 0 {
        let t = s.drop_first();
        assert forall|i: int| 0 <= i < k - 1 implies is_digit_spec(#[trigger] t[i]) by {
            assert(t[i] == s[i + 1]);
        }
        lemma_leading_digits(t, k - 1);
    }
}

/// A power of ten is above zero.
pub proof fn lemma_pow10_positive(k: nat)
    ensures
        pow10(k) > 0,
    decreases k,
{
    if k > 0 {
        lemma_pow10_positive((k - 1) as nat);
    }
}

proof fn lemma_pow10_add(a: nat, b: nat)
    ensures
        pow10(a + b) == pow10(a) * pow10(b),
    decreases b,
{
    if b == 0 {
        assert(pow10(a) * 1 == pow10(a));
    } else {
        lemma_pow10_add(a, (b - 1) as nat);
        assert(pow10(a + b) == 10 * pow10((a + b - 1) as nat));
        assert(10 * (pow10(a) * pow10((b - 1) as nat)) == pow10(a) * (10 * pow10((b - 1) as nat)))
            by (nonlinear_arith);
    }
}

proof fn lemma_pow10_grows(a: nat, b: nat)
    requires
        a <= b,
    ensures
        pow10(a) <= pow10(b),
{
    lemma_pow10_add(a, (b - a) as nat);
    lemma_pow10_positive(a);
    lemma_pow10_positive((b - a) as nat);
    assert(pow10(a) * pow10((b - a) as nat) >= pow10(a)) by (nonlinear_arith)
        requires
            pow10(a) > 0,
            pow10((b - a) as nat) >= 1,
    ;
}

/// The digits of a number are no negative number, and one below the power
/// of ten of their count.
pub proof fn lemma_digits_bounds(s: Seq<char>)
    requires
        all_digits(s),
    ensures
        0 <= digits_value(s) < pow10(s.len()),
    decreases s.len(),
{
    if s.len() > 0 {
        let t = s.drop_last();
        assert forall|i: int| 0 <= i < t.len() implies is_digit_spec(#[trigger] t[i]) by {
            assert(t[i] == s[i]);
        }
        lemma_digits_bounds(t);
        assert(is_digit_spec(s[s.len() - 1]));
    }
}

/// Digits written after other digits: the first number moves up by as many
/// places as the second has digits.
pub proof fn lemma_digits_concat(a: Seq<char>, b: Seq<char>)
    ensures
        digits_value(a + b) == digits_value(a) * pow10(b.len()) + digits_value(b),
    decreases b.len(),
{
    if b.len() == 0 {
        assert(a + b =~= a);
        assert(digits_value(a) * 1 == digits_value(a));
    } else {
        let b0 = b.drop_last();
        assert((a + b).drop_last() =~= a + b0);
        assert((a + b).last() == b.last());
        lemma_digits_concat(a, b0);
        assert(10 * (digits_value(a) * pow10(b0.len())) == digits_value(a) * (10 * pow10(
            b0.len(),
        ))) by (nonlinear_arith);
    }
}

/// All the digits of a decimal number, those before the point first.
spec fn all_the_digits(d: DecimalText) -> Seq<char> {
    d.whole + d.fraction
}

/// How many of the digits of a decimal number stand before the millionths
/// end: the digits before the point, six more, and the exponent.
spec fn micro_point(d: DecimalText) -> int {
    d.whole.len() + 6 + d.exponent
}

/// The value of a decimal number from its digits before the millionths end
/// and those after it. Where the millionths end lies behind all digits,
/// the value is the number of the digits with zeros added. Else the digits
/// before it are the value, and a negative number is one more below zero
/// where a digit after it is not zero.
proof fn lemma_decimal_micro(d: DecimalText)
    requires
        all_digits(d.whole),
        all_digits(d.fraction),
    ensures
        ({
            let s = all_the_digits(d);
            let p = micro_point(d);
            if p >= s.len() {
                decimal_micro(d) == (if d.negative {
                    -digits_value(s)
                } else {
                    digits_value(s)
                }) * pow10((p - s.len()) as nat)
            } else {
                let q = if p < 0 {
                    0
                } else {
                    p
                };
                &&& 0 <= digits_value(s.take(q))
                &&& 0 <= digits_value(s.skip(q))
                &&& decimal_micro(d) == if !d.negative {
                    digits_value(s.take(q))
                } else if digits_value(s.skip(q)) > 0 {
                    -digits_value(s.take(q)) - 1
                } else {
                    -digits_value(s.take(q))
                }
            }
        }),
{
    let s = all_the_digits(d);
    let len = s.len() as int;
    let p = micro_point(d);
    assert(6 + d.exponent - d.fraction.len() == p - len);
    if p < len {
        let q = if p < 0 {
            0
        } else {
            p
        };
        let a = s.take(q);
        let b = s.skip(q);
        assert(s =~= a + b);
        assert forall|i: int| 0 <= i < s.len() implies is_digit_spec(#[trigger] s[i]) by {
            if i < d.whole.len() {
                assert(s[i] == d.whole[i]);
            } else {
                assert(s[i] == d.fraction[i - d.whole.len()]);
            }
        }
        assert forall|i: int| 0 <= i < a.len() implies is_digit_spec(#[trigger] a[i]) by {
            assert(a[i] == s[i]);
        }
        assert forall|i: int| 0 <= i < b.len() implies is_digit_spec(#[trigger] b[i]) by {
            assert(b[i] == s[i + q]);
        }
        lemma_digits_bounds(a);
        lemma_digits_bounds(b);
        lemma_digits_concat(a, b);
        let m = (len - p) as nat;
        let pm = pow10(m);
        let va = digits_value(a);
        let vb = digits_value(b);
        let digits = digits_value(s);
        lemma_pow10_positive(m);
        lemma_pow10_grows(b.len(), m);
        if p < 0 {
            assert(a.len() == 0);
            assert(va == 0);
            assert(va * pow10(b.len()) == 0);
            assert(va * pm == 0);
        }
        assert(digits == va * pm + vb);
        assert(0 <= vb < pm);
        if !d.negative {
            lemma_fundamental_div_mod_converse(digits, pm, va, vb);
        } else if vb > 0 {
            assert(-digits == (-va - 1) * pm + (pm - vb)) by (nonlinear_arith)
                requires
                    digits == va * pm + vb,
            ;
            lemma_fundamental_div_mod_converse(-digits, pm, -va - 1, pm - vb);
        } else {
            assert(-digits == (-va) * pm + 0) by (nonlinear_arith)
                requires
                    digits == va * pm + vb,
                    vb == 0,
            ;
            lemma_fundamental_div_mod_converse(-digits, pm, -va, 0);
        }
    }
}

/// Whether `c` is one of the ten ASCII digits.
pub fn is_digit(c: char) -> (r: bool)
    ensures
        r == is_digit_spec(c),
{
    let n: u32 = c as u32;
    48 <= n && n <= 57
}

/// Where the digits end that `s` holds from `start` on.
fn scan_digits(s: &Vec<char>, start: usize) -> (end: usize)
    requires
        start <= s@.len(),
    ensures
        start <= end <= s@.len(),
        end - start == leading_digits(s@.skip(start as int)),
        all_digits(s@.subrange(start as int, end as int)),
{
    let n: usize = s.len();
    let ghost body = s@.skip(start as int);
    let mut end: usize = start;
    while end < n && is_digit(s[end])
        invariant
            n == s@.len(),
            start <= end <= n,
            body == s@.skip(start as int),
            forall|i: int| 0 <= i < end - start ==> is_digit_spec(#[trigger] body[i]),
        decreases n - end,
    {
        proof {
            assert(body[end - start] == s@[end as int]);
        }
        end += 1;
    }
    proof {
        if end < n {
            assert(body[end - start] == s@[end as int]);
        }
        lemma_leading_digits(body, end - start);
        let found = s@.subrange(start as int, end as int);
        assert forall|i: int| 0 <= i < found.len() implies is_digit_spec(#[trigger] found[i]) by {
            assert(found[i] == body[i]);
        }
    }
    end
}

/// The power of ten that `s` names from `start` on, held to the range of
/// a thousand million million million either way; `None` where what stands
/// there names none.
fn scan_exponent(s: &Vec<char>, start: usize) -> (r: Option<i128>)
    requires
        start <= s@.len(),
    ensures
        r is Some <==> exponent_spec(s@.skip(start as int)) is Some,
        r is Some ==> r->0 == clamp_spec(
            exponent_spec(s@.skip(start as int))->0,
            -1_000_000_000_000_000_000_000,
            1_000_000_000_000_000_000_000,
        ),
{
    let n: usize = s.len();
    let ghost tail = s@.skip(start as int);
    if start == n {
        return Some(0);
    }
    proof {
        assert(tail[0] == s@[start as int]);
        assert(tail.drop_first() =~= s@.skip(start + 1));
    }
    if s[start] != 'e' && s[start] != 'E' {
        return None;
    }
    let ghost rest = s@.skip(start + 1);
    let signed: bool = start + 1 < n && (s[start + 1] == '+' || s[start + 1] == '-');
    let negative: bool = signed && s[start + 1] == '-';
    let first: usize = if signed {
        start + 2
    } else {
        start + 1
    };
    let ghost digits = s@.skip(first as int);
    proof {
        if start + 1 < n {
            assert(rest[0] == s@[start + 1]);
        }
        if signed {
            assert(rest.drop_first() =~= digits);
        }
    }
    if first == n {
        return None;
    }
    let mut value: i128 = 0;
    let mut i: usize = first;
    proof {
        assert(digits.take(0) =~= Seq::<char>::empty());
    }
    while i < n
        invariant
            n == s@.len(),
            first <= i <= n,
            digits == s@.skip(first as int),
            exponent_spec(s@.skip(start as int)) is Some ==> all_digits(digits),
            forall|k: int| 0 <= k < i - first ==> is_digit_spec(#[trigger] digits[k]),
            0 <= digits_value(digits.take(i - first)),
            value == if digits_value(digits.take(i - first)) < 1_000_000_000_000_000_000_000 {
                digits_value(digits.take(i - first))
            } else {
                1_000_000_000_000_000_000_000
            },
        decreases n - i,
    {
        let c = s[i];
        proof {
            assert(digits[i - first] == c);
            assert(digits.take(i - first + 1).drop_last() =~= digits.take(i - first));
        }
        if !is_digit(c) {
            assert(!is_digit_spec(digits[i - first]));
            return None;
        }
        if value < 1_000_000_000_000_000_000_000 {
            value = value * 10 + (c as u32 - 48) as i128;
            if value > 1_000_000_000_000_000_000_000 {
                value = 1_000_000_000_000_000_000_000;
            }
        }
        i += 1;
    }
    proof {
        assert(digits.take(n - first) =~= digits);
    }
    if negative {
        Some(-value)
    } else {
        Some(value)
    }
}

/// Reads the digits that `s` holds from `ws` to `we` and from `fs` to `fe`
/// as one row: the number that the first `q` of them write, held to ten
/// thousand million million, and whether one of the others is not zero.
fn take_digits(s: &Vec<char>, ws: usize, we: usize, fs: usize, fe: usize, q: usize) -> (r: (
    u64,
    bool,
))
    requires
        ws <= we <= fs <= fe <= s@.len(),
        all_digits(s@.subrange(ws as int, we as int)),
        all_digits(s@.subrange(fs as int, fe as int)),
        q <= (we - ws) + (fe - fs),
    ensures
        ({
            let row = s@.subrange(ws as int, we as int) + s@.subrange(fs as int, fe as int);
            &&& 0 <= digits_value(row.take(q as int))
            &&& 0 <= digits_value(row.skip(q as int))
            &&& r.0 == if digits_value(row.take(q as int)) < 10_000_000_000_000_000 {
                digits_value(row.take(q as int))
            } else {
                10_000_000_000_000_000
            }
            &&& r.1 == (digits_value(row.skip(q as int)) > 0)
        }),
{
    let ghost whole = s@.subrange(ws as int, we as int);
    let ghost fraction = s@.subrange(fs as int, fe as int);
    let ghost row = whole + fraction;
    let w: usize = we - ws;
    let len: usize = w + (fe - fs);
    let mut head: u64 = 0;
    let mut tail_nonzero: bool = false;
    let mut j: usize = 0;
    proof {
        assert(row.take(0) =~= Seq::<char>::empty());
        assert(row.subrange(0, 0) =~= Seq::<char>::empty());
    }
    while j < len
        invariant
            ws <= we <= fs <= fe <= s@.len(),
            w == we - ws,
            len == w + (fe - fs),
            q <= len,
            j <= len,
            whole == s@.subrange(ws as int, we as int),
            fraction == s@.subrange(fs as int, fe as int),
            row == whole + fraction,
            all_digits(whole),
            all_digits(fraction),
            ({
                let taken = if j < q {
                    j as int
                } else {
                    q as int
                };
                &&& 0 <= digits_value(row.take(taken))
                &&& head == if digits_value(row.take(taken)) < 10_000_000_000_000_000 {
                    digits_value(row.take(taken))
                } else {
                    10_000_000_000_000_000
                }
                &&& 0 <= digits_value(row.subrange(taken, j as int))
                &&& tail_nonzero == (digits_value(row.subrange(taken, j as int)) > 0)
            }),
        decreases len - j,
    {
        let at: usize = if j < w {
            ws + j
        } else {
            fs + (j - w)
        };
        let c = s[at];
        proof {
            if j < w {
                assert(row[j as int] == whole[j as int]);
                assert(is_digit_spec(whole[j as int]));
            } else {
                assert(row[j as int] == fraction[j - w]);
                assert(is_digit_spec(fraction[j - w]));
            }
            assert(row[j as int] == c);
        }
        let digit: u64 = (c as u32 - 48) as u64;
        if j < q {
            proof {
                assert(row.take(j + 1).drop_last() =~= row.take(j as int));
                assert(row.subrange(j + 1, j + 1) =~= Seq::<char>::empty());
            }
            if head < 10_000_000_000_000_000 {
                head = head * 10 + digit;
                if head > 10_000_000_000_000_000 {
                    head = 10_000_000_000_000_000;
                }
            }
        } else {
            proof {
                assert(row.subrange(q as int, j + 1).drop_last() =~= row.subrange(
                    q as int,
                    j as int,
                ));
            }
            if digit != 0 {
                tail_nonzero = true;
            }
        }
        j += 1;
    }
    proof {
        assert(row.subrange(q as int, len as int) =~= row.skip(q as int));
    }
    (head, tail_nonzero)
}

/// A magnitude in millionths with its sign, held to the cap.
fn capped(magnitude: u64, negative: bool, below: bool) -> (r: i64)
    requires
        magnitude <= 10_000_000_000_000_000,
    ensures
        r == clamp_spec(
            if !negative {
                magnitude as int
            } else if below {
                -magnitude - 1
            } else {
                -(magnitude as int)
            },
            -(DECIMAL_CAP as int),
            DECIMAL_CAP as int,
        ),
{
    let value: i64 = if !negative {
        magnitude as i64
    } else if below {
        -(magnitude as i64) - 1
    } else {
        -(magnitude as i64)
    };
    if value > 1_000_000_000_000_000 {
        1_000_000_000_000_000
    } else if value < -1_000_000_000_000_000 {
        -1_000_000_000_000_000
    } else {
        value
    }
}

/// A number held to ten thousand million million.
spec fn held(v: int) -> int {
    if v < 10_000_000_000_000_000 {
        v
    } else {
        10_000_000_000_000_000
    }
}

/// With sixteen zeros or more added, a number is zero or beyond the hold.
proof fn lemma_many_zeros(digits: int, a: nat, b: nat)
    requires
        0 <= digits,
        16 <= a,
        16 <= b,
    ensures
        held(digits * pow10(a)) == held(digits * pow10(b)),
{
    assert(pow10(16) == 10_000_000_000_000_000) by {
        reveal_with_fuel(pow10, 18);
    }
    lemma_pow10_grows(16, a);
    lemma_pow10_grows(16, b);
    if digits == 0 {
        assert(digits * pow10(a) == 0);
        assert(digits * pow10(b) == 0);
    } else {
        assert(digits * pow10(a) >= pow10(a)) by (nonlinear_arith)
            requires
                digits >= 1,
                pow10(a) >= 0,
        ;
        assert(digits * pow10(b) >= pow10(b)) by (nonlinear_arith)
            requires
                digits >= 1,
                pow10(b) >= 0,
        ;
    }
}

/// `head` with `zeros` zeros added, held to ten thousand million million.
fn add_zeros(head: u64, zeros: i128, Ghost(digits): Ghost<int>) -> (r: u64)
    requires
        0 <= zeros,
        0 <= digits,
        head == held(digits),
    ensures
        r == held(digits * pow10(zeros as nat)),
{
    let mut magnitude: u64 = head;
    let mut left: i128 = zeros;
    let ghost mut added: nat = 0;
    proof {
        assert(digits * 1 == digits);
    }
    while left > 0 && magnitude > 0 && magnitude < 10_000_000_000_000_000
        invariant
            0 <= left,
            added + left == zeros,
            0 <= digits,
            magnitude == held(digits * pow10(added)),
        decreases left,
    {
        proof {
            assert(digits * pow10(added + 1) == 10 * (digits * pow10(added))) by (nonlinear_arith)
                requires
                    pow10(added + 1) == 10 * pow10(added),
            ;
        }
        magnitude = magnitude * 10;
        if magnitude > 10_000_000_000_000_000 {
            magnitude = 10_000_000_000_000_000;
        }
        left -= 1;
        proof {
            added = added + 1;
        }
    }
    proof {
        let all = zeros as nat;
        lemma_pow10_positive(added);
        lemma_pow10_positive(all);
        lemma_pow10_grows(added, all);
        if magnitude == 0 {
            assert(digits == 0) by (nonlinear_arith)
                requires
                    digits * pow10(added) == 0,
                    pow10(added) > 0,
                    digits >= 0,
            ;
            assert(digits * pow10(all) == 0);
        } else if magnitude >= 10_000_000_000_000_000 {
            assert(digits * pow10(all) >= digits * pow10(added)) by (nonlinear_arith)
                requires
                    pow10(all) >= pow10(added),
                    digits >= 0,
            ;
        }
    }
    magnitude
}

/// Where the parts of a decimal number stand in a text.
struct Located {
    negative: bool,
    whole_from: usize,
    whole_to: usize,
    fraction_from: usize,
    fraction_to: usize,
    /// Held to a thousand million million million either way.
    exponent: i128,
}

proof fn lemma_leading_digits_fit(s: Seq<char>)
    ensures
        0 <= leading_digits(s) <= s.len(),
        all_digits(s.take(leading_digits(s))),
    decreases s.len(),
{
    if s.len() > 0 && is_digit_spec(s[0]) {
        let t = s.drop_first();
        lemma_leading_digits_fit(t);
        let k = leading_digits(s);
        let head = s.take(k);
        assert forall|i: int| 0 <= i < head.len() implies is_digit_spec(#[trigger] head[i]) by {
            if i > 0 {
                assert(head[i] == t.take(k - 1)[i - 1]);
            }
        }
    }
}

/// The places of the parts of a number lie in the text, one behind the
/// other, and hold digits.
proof fn lemma_places(s: Seq<char>)
    ensures
        0 <= whole_start(s) <= whole_end(s) <= fraction_start(s) <= fraction_end(s) <= s.len(),
        all_digits(s.subrange(whole_start(s), whole_end(s))),
        all_digits(s.subrange(fraction_start(s), fraction_end(s))),
{
    let start = whole_start(s);
    let body = s.skip(start);
    lemma_leading_digits_fit(body);
    assert(body.take(leading_digits(body)) =~= s.subrange(start, whole_end(s)));
    let fs = fraction_start(s);
    let after_point = s.skip(fs);
    lemma_leading_digits_fit(after_point);
    if has_point(s) {
        assert(after_point.take(leading_digits(after_point)) =~= s.subrange(fs, fraction_end(s)));
    } else {
        assert(s.subrange(fs, fraction_end(s)) =~= Seq::<char>::empty());
    }
}

/// Whether `at` names the places of the parts of the number that `s`
/// writes.
spec fn locates(s: Seq<char>, at: Located) -> bool {
    &&& at.whole_from <= at.whole_to <= at.fraction_from <= at.fraction_to <= s.len()
    &&& decimal_parts(s) is Some
    &&& at.negative == decimal_parts(s)->0.negative
    &&& decimal_parts(s)->0.whole == s.subrange(at.whole_from as int, at.whole_to as int)
    &&& decimal_parts(s)->0.fraction == s.subrange(
        at.fraction_from as int,
        at.fraction_to as int,
    )
    &&& all_digits(decimal_parts(s)->0.whole)
    &&& all_digits(decimal_parts(s)->0.fraction)
    &&& at.exponent == clamp_spec(
        decimal_parts(s)->0.exponent,
        -1_000_000_000_000_000_000_000,
        1_000_000_000_000_000_000_000,
    )
}

/// Finds the parts of the decimal number that `s` writes.
fn locate(s: &Vec<char>) -> (r: Option<Located>)
    ensures
        r is Some <==> decimal_parts(s@) is Some,
        r is Some ==> locates(s@, r->0),
{
    let n: usize = s.len();
    let signed: bool = n > 0 && (s[0] == '+' || s[0] == '-');
    let negative: bool = signed && s[0] == '-';
    let start: usize = if signed {
        1
    } else {
        0
    };
    let we = scan_digits(s, start);
    let pointed: bool = we < n && s[we] == '.';
    let fs: usize = if pointed {
        we + 1
    } else {
        we
    };
    let fe: usize = if pointed {
        scan_digits(s, fs)
    } else {
        fs
    };
    proof {
        lemma_places(s@);
        assert(start == whole_start(s@));
        assert(we == whole_end(s@));
        assert(pointed == has_point(s@));
        assert(fs == fraction_start(s@));
        assert(fe == fraction_end(s@));
    }
    if we == start && fe == fs {
        return None;
    }
    match scan_exponent(s, fe) {
        Some(exponent) => Some(
            Located {
                negative,
                whole_from: start,
                whole_to: we,
                fraction_from: fs,
                fraction_to: fe,
                exponent,
            },
        ),
        None => None,
    }
}

/// The value in millionths of the number whose parts stand at `at`, held
/// to the cap.
fn evaluate(s: &Vec<char>, at: &Located) -> (r: i64)
    requires
        locates(s@, *at),
    ensures
        r == clamp_spec(
            decimal_micro(decimal_parts(s@)->0),
            -(DECIMAL_CAP as int),
            DECIMAL_CAP as int,
        ),
{
    let ghost text = decimal_parts(s@)->0;
    let ghost row = all_the_digits(text);
    let ghost point = micro_point(text);
    let w: usize = at.whole_to - at.whole_from;
    let len: usize = w + (at.fraction_to - at.fraction_from);
    let p: i128 = w as i128 + 6 + at.exponent;
    let q: usize = if p <= 0 {
        0
    } else if p >= len as i128 {
        len
    } else {
        p as usize
    };
    let (head, tail_nonzero) = take_digits(
        s,
        at.whole_from,
        at.whole_to,
        at.fraction_from,
        at.fraction_to,
        q,
    );
    proof {
        lemma_decimal_micro(text);
        assert(row.len() == len);
        assert(row.take(len as int) =~= row);
    }
    if p >= len as i128 {
        let magnitude = add_zeros(head, p - len as i128, Ghost(digits_value(row)));
        proof {
            let digits = digits_value(row);
            assert(point >= p);
            if point != p {
                lemma_many_zeros(digits, (p - len) as nat, (point - len) as nat);
            }
            assert((-digits) * pow10((point - len) as nat) == -(digits * pow10(
                (point - len) as nat,
            ))) by (nonlinear_arith);
        }
        capped(magnitude, at.negative, false)
    } else {
        proof {
            assert(point < len);
        }
        capped(head, at.negative, tail_nonzero)
    }
}

/// The value in millionths of the decimal number that `s` writes, held to
/// the range from `-DECIMAL_CAP` to `DECIMAL_CAP`; `None` exactly where `s`
/// writes no decimal number.
pub fn parse_decimal(s: &Vec<char>) -> (r: Option<i64>)
    ensures
        r is Some <==> parse_decimal_spec(s@) is Some,
        r is Some ==> r->0 == clamp_spec(
            parse_decimal_spec(s@)->0,
            -(DECIMAL_CAP as int),
            DECIMAL_CAP as int,
        ),
{
    match locate(s) {
        Some(at) => Some(evaluate(s, &at)),
        None => None,
    }
}

/// Whether `s` spells `word`, which is in lower case, in whatever case.
pub open spec fn spells(s: Seq<char>, word: Seq<char>) -> bool {
    s.len() == word.len() && forall|i: int|
        0 <= i < s.len() ==> lower_spec(#[trigger] s[i]) == word[i]
}

/// What a word for no decimal number is read as. Infinity is read as the
/// cap, with its sign. What is not a number is read as the cap below zero,
/// whatever its sign: held between any two bounds it comes to rest on the
/// lower one.
pub open spec fn word_spec(s: Seq<char>) -> Option<int> {
    let body = s.skip(whole_start(s));
    let negative = whole_start(s) == 1 && s[0] == '-';
    if spells(body, seq!['i', 'n', 'f']) || spells(
        body,
        seq!['i', 'n', 'f', 'i', 'n', 'i', 't', 'y'],
    ) {
        if negative {
            Some(-(DECIMAL_CAP as int))
        } else {
            Some(DECIMAL_CAP as int)
        }
    } else if spells(body, seq!['n', 'a', 'n']) {
        Some(-(DECIMAL_CAP as int))
    } else {
        None
    }
}

/// The value in millionths of the number that `s` writes, be it in digits
/// or in a word; `None` where `s` writes none.
pub open spec fn parse_number_spec(s: Seq<char>) -> Option<int> {
    match word_spec(s) {
        Some(v) => Some(v),
        None => parse_decimal_spec(s),
    }
}

/// Whether what `s` holds from `from` on spells `word`, which is in lower
/// case.
fn spells_word(s: &Vec<char>, from: usize, word: &[char]) -> (r: bool)
    requires
        from <= s@.len(),
    ensures
        r == spells(s@.skip(from as int), word@),
{
    let n: usize = s.len();
    if n - from != word.len() {
        return false;
    }
    let ghost body = s@.skip(from as int);
    let mut i: usize = 0;
    while i < word.len()
        invariant
            from <= n,
            n == s@.len(),
            n - from == word@.len(),
            i <= word@.len(),
            body == s@.skip(from as int),
            forall|j: int| 0 <= j < i ==> lower_spec(#[trigger] body[j]) == word@[j],
        decreases word@.len() - i,
    {
        proof {
            assert(body[i as int] == s@[from + i]);
        }
        if to_lower(s[from + i]) != word[i] {
            return false;
        }
        i += 1;
    }
    true
}

/// The value in millionths of the number that `s` writes, in digits or in
/// a word, held to the range from `-DECIMAL_CAP` to `DECIMAL_CAP`; `None`
/// exactly where `s` writes no number.
pub fn parse_number(s: &Vec<char>) -> (r: Option<i64>)
    ensures
        r is Some <==> parse_number_spec(s@) is Some,
        r is Some ==> r->0 == clamp_spec(
            parse_number_spec(s@)->0,
            -(DECIMAL_CAP as int),
            DECIMAL_CAP as int,
        ),
{
    let n: usize = s.len();
    let signed: bool = n > 0 && (s[0] == '+' || s[0] == '-');
    let negative: bool = signed && s[0] == '-';
    let start: usize = if signed {
        1
    } else {
        0
    };
    proof {
        assert(['i', 'n', 'f']@ =~= seq!['i', 'n', 'f']);
        assert(['i', 'n', 'f', 'i', 'n', 'i', 't', 'y']@ =~= seq![
            'i',
            'n',
            'f',
            'i',
            'n',
            'i',
            't',
            'y',
        ]);
        assert(['n', 'a', 'n']@ =~= seq!['n', 'a', 'n']);
    }
    if spells_word(s, start, &['i', 'n', 'f']) || spells_word(
        s,
        start,
        &['i', 'n', 'f', 'i', 'n', 'i', 't', 'y'],
    ) {
        if negative {
            Some(-1_000_000_000_000_000)
        } else {
            Some(1_000_000_000_000_000)
        }
    } else if spells_word(s, start, &['n', 'a', 'n']) {
        Some(-1_000_000_000_000_000)
    } else {
        parse_decimal(s)
    }
}

} // verus!
