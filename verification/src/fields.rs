//! Typed field values of a reading record, and the per-field parse rules.
//!
//! Every field of a datagram is a short ASCII token between semicolons. A
//! literal `#` stands for a missing value; otherwise each position has its
//! own rule: a small unsigned integer, a strict `YYYY/MM/DD` date, a strict
//! `HH:MM` time, a plain decimal, a single character, or a tri-state
//! boolean. Each rule is written here once as a spec function over the
//! token's bytes and once as an executable parser proved against it.

use vstd::prelude::*;

verus! {

/// True for the ASCII decimal digits.
pub open spec fn is_digit(b: u8) -> bool {
    ('0' as u8) <= b && b <= ('9' as u8)
}

/// Every byte of `s` is a decimal digit.
pub open spec fn all_digits(s: Seq<u8>) -> bool {
    forall|i: int| 0 <= i < s.len() ==> is_digit(s[i])
}

/// The number written by a run of decimal digits, most significant first
/// (meaningful when `all_digits(s)`).
pub open spec fn digits_val(s: Seq<u8>) -> int
    decreases s.len(),
{
    if s.len() == 0 {
        0
    } else {
        digits_val(s.drop_last()) * 10 + (s.last() - ('0' as u8))
    }
}

/// Ten to the `n`.
pub open spec fn pow10(n: nat) -> int
    decreases n,
{
    if n == 0 {
        1
    } else {
        10 * pow10((n - 1) as nat)
    }
}

pub proof fn lemma_pow10_pos(n: nat)
    ensures
        pow10(n) >= 1,
    decreases n,
{
    if n > 0 {
        lemma_pow10_pos((n - 1) as nat);
    }
}

pub proof fn lemma_pow10_mono(a: nat, b: nat)
    requires
        a <= b,
    ensures
        pow10(a) <= pow10(b),
    decreases b,
{
    if a < b {
        lemma_pow10_mono(a, (b - 1) as nat);
        lemma_pow10_pos((b - 1) as nat);
    }
}

pub proof fn lemma_pow10_mul(a: nat, b: nat)
    ensures
        pow10(a) * pow10(b) == pow10(a + b),
    decreases a,
{
    if a == 0 {
        assert(pow10(0) * pow10(b) == pow10(b));
    } else {
        lemma_pow10_mul((a - 1) as nat, b);
        assert(pow10(a) * pow10(b) == (10 * pow10((a - 1) as nat)) * pow10(b));
        assert((10 * pow10((a - 1) as nat)) * pow10(b) == 10 * (pow10((a - 1) as nat) * pow10(b)))
            by (nonlinear_arith);
        assert(pow10(a + b) == 10 * pow10((a + b - 1) as nat));
    }
}

/// A digit run's value is bounded by ten to its length.
pub proof fn lemma_digits_val_bounds(s: Seq<u8>)
    requires
        all_digits(s),
    ensures
        0 <= digits_val(s) < pow10(s.len()),
    decreases s.len(),
{
    if s.len() > 0 {
        assert forall|i: int| 0 <= i < s.drop_last().len() implies is_digit(s.drop_last()[i]) by {
            assert(s.drop_last()[i] == s[i]);
        }
        lemma_digits_val_bounds(s.drop_last());
        assert(is_digit(s.last()));
        assert(pow10(s.len()) == 10 * pow10((s.len() - 1) as nat));
    }
}

/// Reading one digit run after another multiplies the first by ten to the
/// second's length.
pub proof fn lemma_digits_val_concat(a: Seq<u8>, b: Seq<u8>)
    ensures
        digits_val(a + b) == digits_val(a) * pow10(b.len()) + digits_val(b),
    decreases b.len(),
{
    if b.len() == 0 {
        assert(a + b =~= a);
    } else {
        lemma_digits_val_concat(a, b.drop_last());
        assert((a + b).drop_last() =~= a + b.drop_last());
        assert((a + b).last() == b.last());
        let da = digits_val(a);
        let k = b.drop_last().len();
        assert((da * pow10(k) + digits_val(b.drop_last())) * 10 == da * (pow10(k) * 10)
            + digits_val(b.drop_last()) * 10) by (nonlinear_arith);
        assert(pow10(k) * 10 == pow10(b.len())) by {
            lemma_pow10_mul(k, 1);
            assert(pow10(1) == 10 * pow10(0));
        }
    }
}

/// A prefix of a digit run never reads as more than the whole run.
pub proof fn lemma_digits_val_prefix(s: Seq<u8>, i: int)
    requires
        0 <= i <= s.len(),
        all_digits(s),
    ensures
        digits_val(s.take(i)) <= digits_val(s),
{
    assert(s =~= s.take(i) + s.skip(i));
    lemma_digits_val_concat(s.take(i), s.skip(i));
    assert forall|j: int| 0 <= j < s.take(i).len() implies is_digit(s.take(i)[j]) by {
        assert(s.take(i)[j] == s[j]);
    }
    assert forall|j: int| 0 <= j < s.skip(i).len() implies is_digit(s.skip(i)[j]) by {
        assert(s.skip(i)[j] == s[j + i]);
    }
    lemma_digits_val_bounds(s.take(i));
    lemma_digits_val_bounds(s.skip(i));
    lemma_pow10_pos(s.skip(i).len());
    let t = digits_val(s.take(i));
    let p = pow10(s.skip(i).len());
    assert(t * p >= t) by (nonlinear_arith)
        requires
            t >= 0,
            p >= 1,
    ;
}

/// Index of the first occurrence of `b` in `s`, or `-1` where there is none.
pub open spec fn find_byte(s: Seq<u8>, b: u8) -> int
    decreases s.len(),
{
    if s.len() == 0 {
        -1
    } else if s[0] == b {
        0
    } else if find_byte(s.skip(1), b) < 0 {
        -1
    } else {
        find_byte(s.skip(1), b) + 1
    }
}

pub proof fn lemma_find_byte_props(s: Seq<u8>, b: u8)
    ensures
        find_byte(s, b) < 0 ==> (forall|i: int| 0 <= i < s.len() ==> s[i] != b),
        find_byte(s, b) >= 0 ==> find_byte(s, b) < s.len() && s[find_byte(s, b)] == b && (forall|
            i: int,
        | 0 <= i < find_byte(s, b) ==> s[i] != b),
    decreases s.len(),
{
    if s.len() == 0 {
    } else if s[0] == b {
    } else {
        lemma_find_byte_props(s.skip(1), b);
        let f = find_byte(s.skip(1), b);
        if f < 0 {
            assert forall|i: int| 0 <= i < s.len() implies s[i] != b by {
                if i > 0 {
                    assert(s.skip(1)[i - 1] == s[i]);
                }
            }
        } else {
            assert(s[f + 1] == s.skip(1)[f]);
            assert forall|i: int| 0 <= i < f + 1 implies s[i] != b by {
                if i > 0 {
                    assert(s.skip(1)[i - 1] == s[i]);
                }
            }
        }
    }
}

/// The first occurrence, characterised from below: a hit at `k` with no hit
/// before it pins `find_byte` to `k`.
pub proof fn lemma_find_byte_at(s: Seq<u8>, b: u8, k: int)
    requires
        0 <= k < s.len(),
        s[k] == b,
        forall|i: int| 0 <= i < k ==> s[i] != b,
    ensures
        find_byte(s, b) == k,
{
    lemma_find_byte_props(s, b);
    let f = find_byte(s, b);
    if f < 0 {
        assert(s[k] != b);
    } else if f < k {
        assert(s[f] != b);
    } else if f > k {
        assert(s[k] != b);
    }
}

pub proof fn lemma_find_byte_none(s: Seq<u8>, b: u8)
    requires
        forall|i: int| 0 <= i < s.len() ==> s[i] != b,
    ensures
        find_byte(s, b) == -1,
{
    lemma_find_byte_props(s, b);
    let f = find_byte(s, b);
    if f >= 0 {
        assert(s[f] != b);
    }
}

/// Scans `s` for the first occurrence of `b`.
pub fn find_byte_in(s: &[u8], b: u8) -> (r: Option<usize>)
    ensures
        r matches Some(i) ==> i < s@.len() && find_byte(s@, b) == i,
        r is None ==> find_byte(s@, b) == -1,
{
    let mut i: usize = 0;
    while i < s.len()
        invariant
            0 <= i <= s@.len(),
            forall|j: int| 0 <= j < i ==> s@[j] != b,
        decreases s@.len() - i,
    {
        if s[i] == b {
            proof {
                lemma_find_byte_at(s@, b, i as int);
            }
            return Some(i);
        }
        i += 1;
    }
    proof {
        lemma_find_byte_none(s@, b);
    }
    None
}

/// Reads an unsigned number from a run of one to eighteen decimal digits.
pub fn parse_digits_u64(s: &[u8]) -> (r: Option<u64>)
    ensures
        r is Some <==> (1 <= s@.len() <= 18 && all_digits(s@)),
        r matches Some(v) ==> v == digits_val(s@),
{
    if s.len() < 1 || s.len() > 18 {
        return None;
    }
    let mut acc: u64 = 0;
    let mut i: usize = 0;
    while i < s.len()
        invariant
            0 <= i <= s@.len() <= 18,
            all_digits(s@.take(i as int)),
            acc == digits_val(s@.take(i as int)),
        decreases s@.len() - i,
    {
        let b = s[i];
        if b < ('0' as u8) || b > ('9' as u8) {
            assert(!is_digit(s@[i as int]));
            return None;
        }
        proof {
            lemma_digits_val_bounds(s@.take(i as int));
            lemma_pow10_mono(i as nat, 17);
            assert(pow10(17) == 100000000000000000) by {
                reveal_with_fuel(pow10, 19);
            }
        }
        acc = acc * 10 + ((b - ('0' as u8)) as u64);
        proof {
            assert(s@.take(i + 1).drop_last() =~= s@.take(i as int));
            assert(s@.take(i + 1).last() == s@[i as int]);
            assert forall|j: int| 0 <= j < i + 1 implies #[trigger] is_digit(s@.take(i + 1)[j]) by {
                assert(s@.take(i + 1)[j] == s@[j]);
            }
        }
        i += 1;
    }
    proof {
        assert(s@.take(s@.len() as int) =~= s@);
    }
    Some(acc)
}

/// Ten to the `e`, as a machine word.
pub fn pow10_u64(e: usize) -> (r: u64)
    requires
        e <= 18,
    ensures
        r == pow10(e as nat),
{
    let mut r: u64 = 1;
    let mut k: usize = 0;
    while k < e
        invariant
            0 <= k <= e <= 18,
            r == pow10(k as nat),
        decreases e - k,
    {
        proof {
            lemma_pow10_mono(k as nat, 17);
            assert(pow10(17) == 100000000000000000) by {
                reveal_with_fuel(pow10, 19);
            }
            lemma_pow10_pos(k as nat);
        }
        r = r * 10;
        k += 1;
    }
    r
}

/// A calendar date, held as plain year, month and day numbers.
#[derive(Clone, Copy, Debug, PartialEq, Eq, Structural)]
pub struct Date {
    pub year: u16,
    pub month: u8,
    pub day: u8,
}

/// A time of day, held as plain hour and minute numbers; the protocol
/// carries no seconds, which therefore default to zero.
#[derive(Clone, Copy, Debug, PartialEq, Eq, Structural)]
pub struct Time {
    pub hour: u8,
    pub minute: u8,
}

/// A plain decimal number, held exactly: its magnitude is
/// `units / 10^scale`, negated when `negative` is set. `-0.5` reads as
/// `negative` with 5 units at scale 1.
#[derive(Clone, Copy, Debug, PartialEq, Eq, Structural)]
pub struct Decimal {
    pub negative: bool,
    pub units: u64,
    pub scale: u8,
}

pub open spec fn is_leap_year(y: int) -> bool {
    y % 4 == 0 && (y % 100 != 0 || y % 400 == 0)
}

pub open spec fn days_in_month(y: int, m: int) -> int {
    if m == 2 {
        if is_leap_year(y) {
            29
        } else {
            28
        }
    } else if m == 4 || m == 6 || m == 9 || m == 11 {
        30
    } else {
        31
    }
}

/// `y`-`m`-`d` name a day of the proleptic Gregorian calendar.
pub open spec fn valid_date(y: int, m: int, d: int) -> bool {
    1 <= m <= 12 && 1 <= d <= days_in_month(y, m)
}

pub open spec fn date_wf(date: Date) -> bool {
    valid_date(date.year as int, date.month as int, date.day as int)
}

pub open spec fn time_wf(time: Time) -> bool {
    time.hour < 24 && time.minute < 60
}

/// The token that stands for a missing value.
pub open spec fn missing_token() -> Seq<u8> {
    seq![('#' as u8)]
}

/// Bounds every decoded decimal satisfies: at most eighteen digits in all,
/// so its units fit a machine word with room to spare.
pub open spec fn decimal_wf(d: Decimal) -> bool {
    d.scale <= 17 && d.units < pow10(18)
}

/// Rule for the small unsigned integer fields: `#` is missing, otherwise a
/// run of decimal digits whose value fits in a byte.
pub open spec fn u8_field(s: Seq<u8>) -> Result<Option<u8>, ()> {
    if s == missing_token() {
        Ok(None)
    } else if s.len() >= 1 && all_digits(s) && digits_val(s) <= 255 {
        Ok(Some(digits_val(s) as u8))
    } else {
        Err(())
    }
}

/// Parses a small unsigned integer field by the [`u8_field`] rule.
pub fn convert_type_u8(field: &[u8]) -> (r: Result<Option<u8>, ()>)
    ensures
        r == u8_field(field@),
{
    if field.len() == 1 && field[0] == ('#' as u8) {
        proof {
            assert(field@ =~= missing_token());
        }
        return Ok(None);
    }
    proof {
        assert(field@ != missing_token());
    }
    if field.len() == 0 {
        return Err(());
    }
    let mut acc: u32 = 0;
    let mut i: usize = 0;
    while i < field.len()
        invariant
            0 <= i <= field@.len(),
            field@.len() >= 1,
            field@ != missing_token(),
            all_digits(field@.take(i as int)),
            acc == digits_val(field@.take(i as int)),
            acc <= 255,
        decreases field@.len() - i,
    {
        let b = field[i];
        if b < ('0' as u8) || b > ('9' as u8) {
            assert(!is_digit(field@[i as int]));
            return Err(());
        }
        acc = acc * 10 + ((b - ('0' as u8)) as u32);
        proof {
            assert(field@.take(i + 1).drop_last() =~= field@.take(i as int));
            assert(field@.take(i + 1).last() == field@[i as int]);
            assert forall|j: int| 0 <= j < i + 1 implies #[trigger] is_digit(
                field@.take(i + 1)[j],
            ) by {
                assert(field@.take(i + 1)[j] == field@[j]);
            }
        }
        if acc > 255 {
            proof {
                if all_digits(field@) {
                    lemma_digits_val_prefix(field@, i + 1);
                }
            }
            return Err(());
        }
        i += 1;
    }
    proof {
        assert(field@.take(field@.len() as int) =~= field@);
    }
    Ok(Some(acc as u8))
}

/// The body of a decimal token: what follows an optional leading minus sign.
pub open spec fn decimal_body(s: Seq<u8>) -> Seq<u8> {
    if s.len() > 0 && s[0] == ('-' as u8) {
        s.skip(1)
    } else {
        s
    }
}

pub open spec fn decimal_negative(s: Seq<u8>) -> bool {
    s.len() > 0 && s[0] == ('-' as u8)
}

/// The digits of a decimal body with the single dot removed.
pub open spec fn decimal_digits(body: Seq<u8>) -> Seq<u8> {
    let d = find_byte(body, '.' as u8);
    if d < 0 {
        body
    } else {
        body.take(d) + body.skip(d + 1)
    }
}

/// How many digits follow the dot (zero where there is no dot).
pub open spec fn decimal_scale_of(body: Seq<u8>) -> int {
    let d = find_byte(body, '.' as u8);
    if d < 0 {
        0
    } else {
        body.len() - d - 1
    }
}

/// A decimal body is a nonempty run of digits, optionally split by one dot
/// with at least one digit on either side; at most eighteen digits in all.
pub open spec fn decimal_body_ok(body: Seq<u8>) -> bool {
    let d = find_byte(body, '.' as u8);
    if d < 0 {
        1 <= body.len() <= 18 && all_digits(body)
    } else {
        1 <= d && d + 2 <= body.len() && body.len() <= 19 && all_digits(body.take(d))
            && all_digits(body.skip(d + 1))
    }
}

/// Rule for the decimal fields: `#` is missing, otherwise an optionally
/// negated decimal numeral.
pub open spec fn decimal_field(s: Seq<u8>) -> Result<Option<Decimal>, ()> {
    if s == missing_token() {
        Ok(None)
    } else {
        let body = decimal_body(s);
        if decimal_body_ok(body) {
            Ok(
                Some(
                    Decimal {
                        negative: decimal_negative(s),
                        units: digits_val(decimal_digits(body)) as u64,
                        scale: decimal_scale_of(body) as u8,
                    },
                ),
            )
        } else {
            Err(())
        }
    }
}

/// Parses a decimal field by the [`decimal_field`] rule.
pub fn convert_type_decimal(field: &[u8]) -> (r: Result<Option<Decimal>, ()>)
    ensures
        r == decimal_field(field@),
{
    if field.len() == 1 && field[0] == ('#' as u8) {
        proof {
            assert(field@ =~= missing_token());
        }
        return Ok(None);
    }
    proof {
        assert(field@ != missing_token());
    }
    let negative = field.len() > 0 && field[0] == ('-' as u8);
    let body: &[u8] = if negative {
        vstd::slice::slice_subrange(field, 1, field.len())
    } else {
        field
    };
    proof {
        assert(body@ =~= decimal_body(field@));
        assert(negative == decimal_negative(field@));
    }
    match find_byte_in(body, '.' as u8) {
        None => {
            match parse_digits_u64(body) {
                None => Err(()),
                Some(v) => Ok(Some(Decimal { negative, units: v, scale: 0 })),
            }
        },
        Some(d) => {
            if body.len() > 19 || d < 1 || d + 2 > body.len() {
                return Err(());
            }
            let int_part = vstd::slice::slice_subrange(body, 0, d);
            let frac_part = vstd::slice::slice_subrange(body, d + 1, body.len());
            proof {
                assert(int_part@ =~= body@.take(d as int));
                assert(frac_part@ =~= body@.skip(d + 1));
            }
            let iv = match parse_digits_u64(int_part) {
                Some(v) => v,
                None => {
                    return Err(());
                },
            };
            let fv = match parse_digits_u64(frac_part) {
                Some(v) => v,
                None => {
                    return Err(());
                },
            };
            let scale = body.len() - (d + 1);
            proof {
                assert(decimal_body_ok(body@));
                assert(decimal_digits(body@) =~= int_part@ + frac_part@);
                lemma_digits_val_concat(int_part@, frac_part@);
                lemma_digits_val_bounds(int_part@);
                lemma_digits_val_bounds(frac_part@);
                lemma_pow10_mul(int_part@.len() as nat, frac_part@.len() as nat);
                lemma_pow10_mono((int_part@.len() + frac_part@.len()) as nat, 18);
                lemma_pow10_pos(frac_part@.len() as nat);
                assert(pow10(18) == 1000000000000000000) by {
                    reveal_with_fuel(pow10, 19);
                }
                let ip = pow10(int_part@.len() as nat);
                let fp = pow10(frac_part@.len() as nat);
                assert(iv * fp + fv < ip * fp) by (nonlinear_arith)
                    requires
                        iv < ip,
                        fv < fp,
                        fp >= 1,
                ;
            }
            let p = pow10_u64(scale);
            let units = iv * p + fv;
            Ok(Some(Decimal { negative, units, scale: scale as u8 }))
        },
    }
}

/// Whatever decimal the rule accepts is well formed.
pub proof fn lemma_decimal_field_wf(s: Seq<u8>)
    ensures
        decimal_field(s) matches Ok(od) ==> (od matches Some(d) ==> decimal_wf(d)),
{
    if s != missing_token() && decimal_body_ok(decimal_body(s)) {
        let body = decimal_body(s);
        let dot = find_byte(body, '.' as u8);
        let dig = decimal_digits(body);
        if dot < 0 {
            lemma_digits_val_bounds(body);
            lemma_pow10_mono(body.len(), 18);
        } else {
            assert(dig =~= body.take(dot) + body.skip(dot + 1));
            assert forall|i: int| 0 <= i < dig.len() implies is_digit(dig[i]) by {
                if i < dot {
                    assert(dig[i] == body.take(dot)[i]);
                } else {
                    assert(dig[i] == body.skip(dot + 1)[i - dot]);
                }
            }
            lemma_digits_val_bounds(dig);
            lemma_pow10_mono(dig.len(), 18);
        }
    }
}

/// Rule for the date field: `#` is missing, otherwise strictly
/// `YYYY/MM/DD`, naming a real day of the calendar.
pub open spec fn date_field(s: Seq<u8>) -> Result<Option<Date>, ()> {
    if s == missing_token() {
        Ok(None)
    } else if s.len() == 10 && s[4] == ('/' as u8) && s[7] == ('/' as u8) && all_digits(s.take(4))
        && all_digits(s.subrange(5, 7)) && all_digits(s.subrange(8, 10)) && valid_date(
        digits_val(s.take(4)),
        digits_val(s.subrange(5, 7)),
        digits_val(s.subrange(8, 10)),
    ) {
        Ok(
            Some(
                Date {
                    year: digits_val(s.take(4)) as u16,
                    month: digits_val(s.subrange(5, 7)) as u8,
                    day: digits_val(s.subrange(8, 10)) as u8,
                },
            ),
        )
    } else {
        Err(())
    }
}

/// Whatever date the rule accepts is a real day of the calendar.
pub proof fn lemma_date_field_wf(s: Seq<u8>)
    ensures
        date_field(s) matches Ok(od) ==> (od matches Some(d) ==> date_wf(d)),
{
    if date_field(s) matches Ok(od) && od matches Some(d) {
        assert(s != missing_token());
        lemma_digits_val_bounds(s.take(4));
        lemma_digits_val_bounds(s.subrange(5, 7));
        lemma_digits_val_bounds(s.subrange(8, 10));
        assert(pow10(4) == 10000 && pow10(2) == 100) by {
            reveal_with_fuel(pow10, 5);
        }
    }
}

/// Whatever time the rule accepts is a real time of day.
pub proof fn lemma_time_field_wf(s: Seq<u8>)
    ensures
        time_field(s) matches Ok(ot) ==> (ot matches Some(t) ==> time_wf(t)),
{
    if time_field(s) matches Ok(ot) && ot matches Some(t) {
        assert(s != missing_token());
        lemma_digits_val_bounds(s.take(2));
        lemma_digits_val_bounds(s.subrange(3, 5));
    }
}

/// How many days the month `m` of year `y` has.
pub fn days_in_month_of(y: u16, m: u8) -> (r: u8)
    ensures
        r == days_in_month(y as int, m as int),
{
    if m == 2 {
        if y % 4 == 0 && (y % 100 != 0 || y % 400 == 0) {
            29
        } else {
            28
        }
    } else if m == 4 || m == 6 || m == 9 || m == 11 {
        30
    } else {
        31
    }
}

/// Parses the date field by the [`date_field`] rule.
pub fn convert_type_date(field: &[u8]) -> (r: Result<Option<Date>, ()>)
    ensures
        r == date_field(field@),
{
    if field.len() == 1 && field[0] == ('#' as u8) {
        proof {
            assert(field@ =~= missing_token());
        }
        return Ok(None);
    }
    proof {
        assert(field@ != missing_token());
    }
    if field.len() != 10 || field[4] != ('/' as u8) || field[7] != ('/' as u8) {
        return Err(());
    }
    let ys = vstd::slice::slice_subrange(field, 0, 4);
    let ms = vstd::slice::slice_subrange(field, 5, 7);
    let ds = vstd::slice::slice_subrange(field, 8, 10);
    proof {
        assert(ys@ =~= field@.take(4));
        assert(ms@ =~= field@.subrange(5, 7));
        assert(ds@ =~= field@.subrange(8, 10));
    }
    let y = match parse_digits_u64(ys) {
        Some(v) => v,
        None => {
            return Err(());
        },
    };
    let m = match parse_digits_u64(ms) {
        Some(v) => v,
        None => {
            return Err(());
        },
    };
    let d = match parse_digits_u64(ds) {
        Some(v) => v,
        None => {
            return Err(());
        },
    };
    proof {
        lemma_digits_val_bounds(ys@);
        lemma_digits_val_bounds(ms@);
        lemma_digits_val_bounds(ds@);
        assert(pow10(4) == 10000 && pow10(2) == 100) by {
            reveal_with_fuel(pow10, 5);
        }
    }
    if m < 1 || m > 12 {
        return Err(());
    }
    let dim = days_in_month_of(y as u16, m as u8);
    if d < 1 || d > dim as u64 {
        return Err(());
    }
    Ok(Some(Date { year: y as u16, month: m as u8, day: d as u8 }))
}

/// Rule for the time field: `#` is missing, otherwise strictly `HH:MM`.
pub open spec fn time_field(s: Seq<u8>) -> Result<Option<Time>, ()> {
    if s == missing_token() {
        Ok(None)
    } else if s.len() == 5 && s[2] == (':' as u8) && all_digits(s.take(2)) && all_digits(
        s.subrange(3, 5),
    ) && digits_val(s.take(2)) < 24 && digits_val(s.subrange(3, 5)) < 60 {
        Ok(Some(Time { hour: digits_val(s.take(2)) as u8, minute: digits_val(s.subrange(3, 5)) as u8 }))
    } else {
        Err(())
    }
}

/// Parses the time field by the [`time_field`] rule.
pub fn convert_type_time(field: &[u8]) -> (r: Result<Option<Time>, ()>)
    ensures
        r == time_field(field@),
{
    if field.len() == 1 && field[0] == ('#' as u8) {
        proof {
            assert(field@ =~= missing_token());
        }
        return Ok(None);
    }
    proof {
        assert(field@ != missing_token());
    }
    if field.len() != 5 || field[2] != (':' as u8) {
        return Err(());
    }
    let hs = vstd::slice::slice_subrange(field, 0, 2);
    let ns = vstd::slice::slice_subrange(field, 3, 5);
    proof {
        assert(hs@ =~= field@.take(2));
        assert(ns@ =~= field@.subrange(3, 5));
    }
    let h = match parse_digits_u64(hs) {
        Some(v) => v,
        None => {
            return Err(());
        },
    };
    let n = match parse_digits_u64(ns) {
        Some(v) => v,
        None => {
            return Err(());
        },
    };
    proof {
        lemma_digits_val_bounds(hs@);
        lemma_digits_val_bounds(ns@);
        assert(pow10(2) == 100) by {
            reveal_with_fuel(pow10, 3);
        }
    }
    if h >= 24 || n >= 60 {
        return Err(());
    }
    Ok(Some(Time { hour: h as u8, minute: n as u8 }))
}

/// Rule for the charge-mode field: `#` is missing, otherwise the field's
/// sole character; any other length fails.
pub open spec fn char_field(s: Seq<u8>) -> Result<Option<char>, ()> {
    if s == missing_token() {
        Ok(None)
    } else if s.len() == 1 {
        Ok(Some(s[0] as char))
    } else {
        Err(())
    }
}

/// Parses the charge-mode field by the [`char_field`] rule.
pub fn convert_type_char(field: &[u8]) -> (r: Result<Option<char>, ()>)
    ensures
        r == char_field(field@),
{
    if field.len() == 1 {
        let b = field[0];
        if b == ('#' as u8) {
            proof {
                assert(field@ =~= missing_token());
            }
            Ok(None)
        } else {
            proof {
                assert(field@ != missing_token());
            }
            Ok(Some(b as char))
        }
    } else {
        proof {
            assert(field@ != missing_token());
        }
        Err(())
    }
}

/// Rule for the tri-state boolean fields: `#` is missing, `1` and `T` are
/// true, `0` and `F` are false; every other token fails.
pub open spec fn bool_field(s: Seq<u8>) -> Result<Option<bool>, ()> {
    if s == missing_token() {
        Ok(None)
    } else if s == seq![('1' as u8)] || s == seq![('T' as u8)] {
        Ok(Some(true))
    } else if s == seq![('0' as u8)] || s == seq![('F' as u8)] {
        Ok(Some(false))
    } else {
        Err(())
    }
}

/// Parses a tri-state boolean field by the [`bool_field`] rule.
pub fn convert_type_bool(field: &[u8]) -> (r: Result<Option<bool>, ()>)
    ensures
        r == bool_field(field@),
{
    if field.len() != 1 {
        proof {
            assert(field@ != missing_token());
            assert(field@ != seq![('1' as u8)]);
            assert(field@ != seq![('T' as u8)]);
            assert(field@ != seq![('0' as u8)]);
            assert(field@ != seq![('F' as u8)]);
        }
        return Err(());
    }
    let b = field[0];
    proof {
        assert(field@ =~= seq![field@[0]]);
    }
    if b == ('#' as u8) {
        Ok(None)
    } else if b == ('1' as u8) || b == ('T' as u8) {
        Ok(Some(true))
    } else if b == ('0' as u8) || b == ('F' as u8) {
        Ok(Some(false))
    } else {
        Err(())
    }
}

/// Rule for the trailing checksum field: exactly four hex digits, never
/// missing.
pub open spec fn hex_field(s: Seq<u8>) -> Result<Option<u16>, ()> {
    if s.len() == 4 && crate::crc16_tarom4545::all_hex_digits(s) {
        Ok(Some(crate::crc16_tarom4545::hex4_val(s)))
    } else {
        Err(())
    }
}

/// Parses the checksum field by the [`hex_field`] rule.
pub fn convert_type_hex(field: &[u8]) -> (r: Result<Option<u16>, ()>)
    ensures
        r == hex_field(field@),
{
    match crate::crc16_tarom4545::parse_hex4(field) {
        Some(v) => Ok(Some(v)),
        None => Err(()),
    }
}

} // verus!
