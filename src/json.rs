//! Pieces of JSON reading that work on one already-read string: booleans,
//! map keys, enum names and durations.
use vstd::prelude::*;
use crate::descriptor::EnumDescriptor;
use crate::index::{valid_map_key, ElemType};
use crate::model::Loc;
use crate::schema::str_is;
use crate::value::ReflectValueBox;
use crate::well_known::Duration;

verus! {

/// JSON parse options.
#[derive(Clone, Copy, Debug, PartialEq, Eq, Structural)]
pub struct ParseOptions {
    /// When set, fields with unknown names are skipped; otherwise they are
    /// an error.
    pub ignore_unknown_fields: bool,
}

impl Default for ParseOptions {
    fn default() -> (r: ParseOptions)
        ensures
            !r.ignore_unknown_fields,
    {
        ParseOptions { ignore_unknown_fields: false }
    }
}

/// What went wrong while reading JSON.
#[derive(Debug)]
pub enum ParseErrorKind {
    UnknownFieldName(String),
    UnknownEnumVariantName(String),
    UnknownEnumVariantNumber(i32),
    IncorrectDuration,
    IncorrectNumber,
    IncorrectBase64,
    ExpectingBool,
    ExpectingStrOrInt,
    ExpectingNumber,
    UnexpectedToken,
    AnyParsingIsNotImplemented,
    MessageNotInitialized,
}

/// A JSON parse error and where it happened.
#[derive(Debug)]
pub struct ParseError {
    pub error: ParseErrorKind,
    pub loc: Loc,
}

pub open spec fn is_digit(c: char) -> bool {
    '0' <= c && c <= '9'
}

/// The value of a run of decimal digits.
pub open spec fn digits_value(s: Seq<char>) -> int
    decreases s.len(),
{
    if s.len() == 0 {
        0
    } else {
        digits_value(s.drop_last()) * 10 + (s.last() as int - '0' as int)
    }
}

pub open spec fn all_digits(s: Seq<char>) -> bool {
    forall|i: int| 0 <= i < s.len() ==> is_digit(#[trigger] s[i])
}

/// A decimal integer as the standard library reads one: an optional sign
/// (`-` only where `signed`), then at least one digit; `None` when the text
/// is not one or its value is outside `min..=max`.
pub open spec fn parse_int_spec(s: Seq<char>, signed: bool, min: int, max: int) -> Option<int> {
    let neg = signed && s.len() > 0 && s[0] == '-';
    let plus = s.len() > 0 && s[0] == '+';
    let body = if neg || plus { s.drop_first() } else { s };
    let v = if neg { -digits_value(body) } else { digits_value(body) };
    if body.len() > 0 && all_digits(body) && min <= v && v <= max {
        Some(v)
    } else {
        None
    }
}

proof fn lemma_digits_step(s: Seq<char>, k: int)
    requires
        0 <= k < s.len(),
    ensures
        digits_value(s.subrange(0, k + 1)) == digits_value(s.subrange(0, k)) * 10 + (s[k] as int - '0' as int),
{
    assert(s.subrange(0, k + 1).drop_last() =~= s.subrange(0, k));
}

proof fn lemma_digits_nonneg(s: Seq<char>)
    requires
        all_digits(s),
    ensures
        digits_value(s) >= 0,
    decreases s.len(),
{
    if s.len() > 0 {
        lemma_digits_nonneg(s.drop_last());
    }
}

proof fn lemma_digits_grow(s: Seq<char>, j: int, k: int)
    requires
        all_digits(s),
        0 <= j <= k <= s.len(),
    ensures
        digits_value(s.subrange(0, j)) <= digits_value(s.subrange(0, k)),
    decreases k - j,
{
    if j < k {
        lemma_digits_grow(s, j, k - 1);
        lemma_digits_step(s, k - 1);
        lemma_digits_nonneg(s.subrange(0, k - 1));
    }
}

/// The magnitude of the digits of `s[from..]`, when all are digits, there
/// is at least one, and the value fits in 64 bits.
fn read_digits(s: &str, from: usize) -> (r: Option<u64>)
    requires
        from <= s@.len(),
    ensures
        match r {
            Some(v) => s@.len() > from && all_digits(s@.subrange(from as int, s@.len() as int))
                && v == digits_value(s@.subrange(from as int, s@.len() as int)),
            None => !(s@.len() > from && all_digits(s@.subrange(from as int, s@.len() as int))
                && digits_value(s@.subrange(from as int, s@.len() as int)) <= u64::MAX),
        },
{
    let n = s.unicode_len();
    let ghost body = s@.subrange(from as int, n as int);
    if from >= n {
        return None;
    }
    let mut acc: u64 = 0;
    let mut i: usize = from;
    while i < n
        invariant
            n == s@.len(),
            from <= i <= n,
            body == s@.subrange(from as int, n as int),
            all_digits(body.subrange(0, i - from)),
            acc == digits_value(body.subrange(0, i - from)),
        decreases n - i,
    {
        let c = s.get_char(i);
        if !('0' <= c && c <= '9') {
            proof {
                assert(body[i - from] == c);
            }
            return None;
        }
        let d: u64 = (c as u32 - '0' as u32) as u64;
        proof {
            lemma_digits_step(body, i - from);
            assert(body.subrange(0, i - from + 1) =~= body.subrange(0, i + 1 - from));
        }
        if acc > (u64::MAX - d) / 10 {
            proof {
                assert(acc * 10 + d > u64::MAX) by (nonlinear_arith)
                    requires
                        acc > (u64::MAX - d) / 10,
                        d <= 9,
                ;
                assert(all_digits(body.subrange(0, i + 1 - from)));
                if all_digits(body) {
                    lemma_digits_grow(body, i + 1 - from, body.len() as int);
                    assert(body.subrange(0, body.len() as int) =~= body);
                }
            }
            return None;
        }
        proof {
            assert(acc * 10 + d <= u64::MAX) by (nonlinear_arith)
                requires
                    acc <= (u64::MAX - d) / 10,
                    d <= 9,
            ;
        }
        acc = acc * 10 + d;
        i = i + 1;
    }
    assert(body.subrange(0, n - from) =~= body);
    Some(acc)
}


/// A signed decimal integer in `min..=max`; see `parse_int_spec`.
pub fn parse_signed(s: &str, min: i64, max: i64) -> (r: Option<i64>)
    ensures
        match r {
            Some(v) => parse_int_spec(s@, true, min as int, max as int) == Some(v as int),
            None => parse_int_spec(s@, true, min as int, max as int) is None,
        },
{
    let n = s.unicode_len();
    let neg = n > 0 && s.get_char(0) == '-';
    let plus = n > 0 && s.get_char(0) == '+';
    let from: usize = if neg || plus { 1 } else { 0 };
    proof {
        if neg || plus {
            assert(s@.drop_first() =~= s@.subrange(1, n as int));
        } else {
            assert(s@ =~= s@.subrange(0, n as int));
        }
    }
    let mag = match read_digits(s, from) {
        Some(m) => m,
        None => {
            return None;
        },
    };
    let v: i64 = if neg {
        if mag > 0x8000_0000_0000_0000u64 {
            return None;
        }
        if mag == 0x8000_0000_0000_0000u64 {
            i64::MIN
        } else {
            -(mag as i64)
        }
    } else {
        if mag > 0x7fff_ffff_ffff_ffffu64 {
            return None;
        }
        mag as i64
    };
    if v < min || v > max {
        return None;
    }
    Some(v)
}

/// An unsigned decimal integer at most `max`; see `parse_int_spec`.
pub fn parse_unsigned(s: &str, max: u64) -> (r: Option<u64>)
    ensures
        match r {
            Some(v) => parse_int_spec(s@, false, 0, max as int) == Some(v as int),
            None => parse_int_spec(s@, false, 0, max as int) is None,
        },
{
    let n = s.unicode_len();
    let plus = n > 0 && s.get_char(0) == '+';
    let from: usize = if plus { 1 } else { 0 };
    proof {
        if plus {
            assert(s@.drop_first() =~= s@.subrange(1, n as int));
        } else {
            assert(s@ =~= s@.subrange(0, n as int));
        }
    }
    match read_digits(s, from) {
        Some(m) => {
            proof {
                lemma_digits_nonneg(s@.subrange(from as int, n as int));
            }
            if m > max {
                None
            } else {
                Some(m)
            }
        },
        None => None,
    }
}

/// `true` or `false`, spelled out.
pub fn parse_bool(s: &str) -> (r: Result<bool, ParseErrorKind>)
    ensures
        match r {
            Ok(b) => (b && s@ == "true"@) || (!b && s@ == "false"@),
            Err(e) => s@ != "true"@ && s@ != "false"@ && e is ExpectingBool,
        },
{
    if str_is(s, "true") {
        Ok(true)
    } else if str_is(s, "false") {
        Ok(false)
    } else {
        Err(ParseErrorKind::ExpectingBool)
    }
}

/// The value a map key written as `key` has, given the map's key type.
pub open spec fn key_spec(key: Seq<char>, t: ElemType, r: ReflectValueBox) -> bool {
    match (t, r) {
        (ElemType::I32, ReflectValueBox::I32(v)) => parse_int_spec(key, true, i32::MIN as int, i32::MAX as int) == Some(v as int),
        (ElemType::I64, ReflectValueBox::I64(v)) => parse_int_spec(key, true, i64::MIN as int, i64::MAX as int) == Some(v as int),
        (ElemType::U32, ReflectValueBox::U32(v)) => parse_int_spec(key, false, 0, u32::MAX as int) == Some(v as int),
        (ElemType::U64, ReflectValueBox::U64(v)) => parse_int_spec(key, false, 0, u64::MAX as int) == Some(v as int),
        (ElemType::Bool, ReflectValueBox::Bool(b)) => (b && key == "true"@) || (!b && key == "false"@),
        (ElemType::String, ReflectValueBox::String(s)) => s@ == key,
        _ => false,
    }
}

/// Whether `key` is a valid map key of type `t`.
pub open spec fn key_ok(key: Seq<char>, t: ElemType) -> bool {
    match t {
        ElemType::I32 => parse_int_spec(key, true, i32::MIN as int, i32::MAX as int) is Some,
        ElemType::I64 => parse_int_spec(key, true, i64::MIN as int, i64::MAX as int) is Some,
        ElemType::U32 => parse_int_spec(key, false, 0, u32::MAX as int) is Some,
        ElemType::U64 => parse_int_spec(key, false, 0, u64::MAX as int) is Some,
        ElemType::Bool => key == "true"@ || key == "false"@,
        _ => true,
    }
}

/// Reads a JSON object key as a map key of type `t`.
pub fn parse_key(key: &str, t: ElemType) -> (r: Result<ReflectValueBox, ParseErrorKind>)
    requires
        valid_map_key(t),
    ensures
        match r {
            Ok(v) => key_spec(key@, t, v),
            Err(e) => !key_ok(key@, t) && (e is IncorrectNumber || e is ExpectingBool),
        },
{
    match t {
        ElemType::I32 => match parse_signed(key, i32::MIN as i64, i32::MAX as i64) {
            Some(v) => Ok(ReflectValueBox::I32(v as i32)),
            None => Err(ParseErrorKind::IncorrectNumber),
        },
        ElemType::I64 => match parse_signed(key, i64::MIN, i64::MAX) {
            Some(v) => Ok(ReflectValueBox::I64(v)),
            None => Err(ParseErrorKind::IncorrectNumber),
        },
        ElemType::U32 => match parse_unsigned(key, u32::MAX as u64) {
            Some(v) => Ok(ReflectValueBox::U32(v as u32)),
            None => Err(ParseErrorKind::IncorrectNumber),
        },
        ElemType::U64 => match parse_unsigned(key, u64::MAX) {
            Some(v) => Ok(ReflectValueBox::U64(v)),
            None => Err(ParseErrorKind::IncorrectNumber),
        },
        ElemType::Bool => match parse_bool(key) {
            Ok(b) => Ok(ReflectValueBox::Bool(b)),
            Err(e) => Err(e),
        },
        _ => Ok(ReflectValueBox::String(String::from_str(key))),
    }
}

/// The number of the enum value named `name`.
pub fn parse_enum(name: &str, d: &EnumDescriptor) -> (r: Result<i32, ParseErrorKind>)
    requires
        d.wf(),
    ensures
        match r {
            Ok(n) => exists|k: int|
                0 <= k < d.file@.enums@[d.index as int].values@.len()
                    && (#[trigger] d.file@.enums@[d.index as int].values@[k]).name@ == name@
                    && d.file@.enums@[d.index as int].values@[k].number == n
                    && forall|q: int| 0 <= q < k ==> (#[trigger] d.file@.enums@[d.index as int].values@[q]).name@ != name@,
            Err(e) => (forall|k: int|
                0 <= k < d.file@.enums@[d.index as int].values@.len()
                    ==> (#[trigger] d.file@.enums@[d.index as int].values@[k]).name@ != name@)
                && (e matches ParseErrorKind::UnknownEnumVariantName(s) && s@ == name@),
        },
{
    match d.get_value_by_name(name) {
        Some(n) => Ok(n),
        None => Err(ParseErrorKind::UnknownEnumVariantName(String::from_str(name))),
    }
}


/// Where the run of digits that starts at `i` ends.
pub open spec fn digit_run_end(s: Seq<char>, i: int) -> int
    decreases s.len() - i,
{
    if i < 0 || i >= s.len() || !is_digit(s[i]) {
        i
    } else {
        digit_run_end(s, i + 1)
    }
}

pub open spec fn pow10(n: nat) -> int
    decreases n,
{
    if n == 0 {
        1
    } else {
        10 * pow10((n - 1) as nat)
    }
}

/// A duration as JSON writes it: an optional `-`, whole seconds, an
/// optional `.` with at most nine fraction digits, then `s`. Gives seconds
/// and nanoseconds, both negated after a `-`; seconds beyond the 64-bit
/// signed range are refused.
pub open spec fn duration_spec(s: Seq<char>) -> Option<(int, int)> {
    let neg = s.len() > 0 && s[0] == '-';
    let a: int = if neg { 1 } else { 0 };
    let e1 = digit_run_end(s, a);
    let secs = digits_value(s.subrange(a, e1));
    let has_frac = e1 < s.len() && s[e1] == '.';
    let e2 = if has_frac { digit_run_end(s, e1 + 1) } else { e1 };
    let nfrac = if has_frac { e2 - (e1 + 1) } else { 0 };
    let nanos = if has_frac { digits_value(s.subrange(e1 + 1, e2)) * pow10((9 - nfrac) as nat) } else { 0 };
    if e1 > a && nfrac <= 9 && e2 < s.len() && s[e2] == 's' && e2 + 1 == s.len() && secs <= i64::MAX {
        Some(if neg { (-secs, -nanos) } else { (secs, nanos) })
    } else {
        None
    }
}

proof fn lemma_run_end(s: Seq<char>, i: int)
    requires
        0 <= i <= s.len(),
    ensures
        i <= digit_run_end(s, i) <= s.len(),
        all_digits(s.subrange(i, digit_run_end(s, i))),
        digit_run_end(s, i) < s.len() ==> !is_digit(s[digit_run_end(s, i)]),
    decreases s.len() - i,
{
    if i < s.len() && is_digit(s[i]) {
        lemma_run_end(s, i + 1);
        let e = digit_run_end(s, i);
        assert forall|k: int| 0 <= k < e - i implies is_digit(#[trigger] s.subrange(i, e)[k]) by {
            if k > 0 {
                assert(s.subrange(i, e)[k] == s.subrange(i + 1, e)[k - 1]);
            }
        }
    }
}

proof fn lemma_digits_bound(s: Seq<char>)
    requires
        all_digits(s),
    ensures
        0 <= digits_value(s) < pow10(s.len()),
    decreases s.len(),
{
    if s.len() > 0 {
        let p = s.drop_last();
        assert(all_digits(p)) by {
            assert forall|i: int| 0 <= i < p.len() implies is_digit(#[trigger] p[i]) by {
                assert(p[i] == s[i]);
            }
        }
        lemma_digits_bound(p);
        assert(is_digit(s[s.len() - 1]));
        let v = digits_value(p);
        let d = s.last() as int - '0' as int;
        let q = pow10(p.len());
        assert(v * 10 + d < q * 10) by (nonlinear_arith)
            requires
                0 <= v < q,
                0 <= d <= 9,
        ;
    }
}

proof fn lemma_pow10_mono(a: nat, b: nat)
    requires
        a <= b,
    ensures
        1 <= pow10(a) <= pow10(b),
    decreases b,
{
    if a < b {
        lemma_pow10_mono(a, (b - 1) as nat);
    } else if a > 0 {
        lemma_pow10_mono((a - 1) as nat, (a - 1) as nat);
    }
}

/// Finds where a run of digits starting at `i` ends.
fn scan_digits(s: &str, n: usize, i: usize) -> (r: usize)
    requires
        n == s@.len(),
        i <= n,
    ensures
        r == digit_run_end(s@, i as int),
{
    let mut j = i;
    while j < n && is_digit_char(s.get_char(j))
        invariant
            n == s@.len(),
            i <= j <= n,
            digit_run_end(s@, i as int) == digit_run_end(s@, j as int),
        decreases n - j,
    {
        j = j + 1;
    }
    j
}

fn is_digit_char(c: char) -> (r: bool)
    ensures
        r == is_digit(c),
{
    '0' <= c && c <= '9'
}

/// The value of the digits `s[from..to]`, when it is at most `max`.
fn digits_upto(s: &str, from: usize, to: usize, max: u64) -> (r: Option<u64>)
    requires
        from <= to <= s@.len(),
        all_digits(s@.subrange(from as int, to as int)),
    ensures
        match r {
            Some(v) => v == digits_value(s@.subrange(from as int, to as int)) && v <= max,
            None => digits_value(s@.subrange(from as int, to as int)) > max,
        },
{
    let ghost body = s@.subrange(from as int, to as int);
    let mut acc: u64 = 0;
    let mut i: usize = from;
    while i < to
        invariant
            from <= i <= to <= s@.len(),
            body == s@.subrange(from as int, to as int),
            all_digits(body),
            acc == digits_value(body.subrange(0, i - from)),
            acc <= max,
        decreases to - i,
    {
        let c = s.get_char(i);
        assert(body[i - from] == c);
        let d: u64 = (c as u32 - '0' as u32) as u64;
        proof {
            lemma_digits_step(body, i - from);
            assert(body.subrange(0, i - from + 1) =~= body.subrange(0, i + 1 - from));
        }
        if d > max || acc > (max - d) / 10 {
            proof {
                if d <= max {
                    assert(acc * 10 + d > max) by (nonlinear_arith)
                        requires
                            acc > (max - d) / 10,
                            d <= max,
                    ;
                } else {
                    assert(acc * 10 + d > max) by (nonlinear_arith)
                        requires
                            d > max,
                            acc >= 0,
                    ;
                }
                lemma_digits_grow(body, i + 1 - from, body.len() as int);
                assert(body.subrange(0, body.len() as int) =~= body);
            }
            return None;
        }
        proof {
            assert(acc * 10 + d <= max) by (nonlinear_arith)
                requires
                    acc <= (max - d) / 10,
                    d <= max,
            ;
        }
        acc = acc * 10 + d;
        i = i + 1;
    }
    assert(body.subrange(0, to - from) =~= body);
    Some(acc)
}

/// Reads a duration written as JSON writes it; see `duration_spec`. On
/// error the duration is left as it was.
pub fn merge_wk_duration(s: &str, duration: &mut Duration) -> (r: Result<(), ParseErrorKind>)
    ensures
        match duration_spec(s@) {
            Some((sec, nan)) => r is Ok && final(duration).seconds == sec && final(duration).nanos == nan,
            None => (r matches Err(e) && e is IncorrectDuration) && *final(duration) == *old(duration),
        },
{
    let n = s.unicode_len();
    let neg = n > 0 && s.get_char(0) == '-';
    let a: usize = if neg { 1 } else { 0 };
    let e1 = scan_digits(s, n, a);
    proof {
        lemma_run_end(s@, a as int);
    }
    if e1 == a {
        return Err(ParseErrorKind::IncorrectDuration);
    }
    let secs = match digits_upto(s, a, e1, i64::MAX as u64) {
        Some(v) => v,
        None => {
            return Err(ParseErrorKind::IncorrectDuration);
        },
    };
    let has_frac = e1 < n && s.get_char(e1) == '.';
    let mut e2 = e1;
    let mut nanos: u64 = 0;
    if has_frac {
        e2 = scan_digits(s, n, e1 + 1);
        proof {
            lemma_run_end(s@, e1 + 1);
        }
        let nfrac = e2 - (e1 + 1);
        if nfrac > 9 {
            return Err(ParseErrorKind::IncorrectDuration);
        }
        proof {
            lemma_digits_bound(s@.subrange(e1 + 1, e2 as int));
        }
        proof {
            lemma_pow10_mono(nfrac as nat, 9);
            assert(pow10(9) == 1_000_000_000) by {
                reveal_with_fuel(pow10, 10);
            }
        }
        let frac = match digits_upto(s, e1 + 1, e2, 999_999_999) {
            Some(v) => v,
            None => {
                return Err(ParseErrorKind::IncorrectDuration);
            },
        };
        nanos = frac;
        let mut k = nfrac;
        while k < 9
            invariant
                nfrac <= k <= 9,
                pow10(9) == 1_000_000_000,
                nanos == frac * pow10((k - nfrac) as nat),
                nanos < pow10(k as nat),
            decreases 9 - k,
        {
            proof {
                lemma_pow10_mono((k + 1) as nat, 9);
                let p = pow10((k - nfrac) as nat);
                assert(pow10((k + 1 - nfrac) as nat) == 10 * p);
                assert(pow10((k + 1) as nat) == 10 * pow10(k as nat));
                assert(nanos * 10 == frac * (10 * p)) by (nonlinear_arith)
                    requires
                        nanos == frac * p,
                ;
            }
            nanos = nanos * 10;
            k = k + 1;
        }
    }
    if !(e2 < n && s.get_char(e2) == 's' && e2 + 1 == n) {
        return Err(ParseErrorKind::IncorrectDuration);
    }
    if neg {
        duration.seconds = -(secs as i64);
        duration.nanos = -(nanos as i32);
    } else {
        duration.seconds = secs as i64;
        duration.nanos = nanos as i32;
    }
    Ok(())
}

} // verus!
