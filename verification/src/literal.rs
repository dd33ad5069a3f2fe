//! Literal normalization.
//!
//! A literal token's source spelling is converted into its canonical
//! textual value: booleans to `true`/`false`, integers to their base-10
//! digits (sign preserved, no type suffix, underscores removed), floats to
//! their decimal text (underscores and suffix removed, exponent written
//! with a lower-case `e` and no `+`), and strings to their unescaped
//! contents. Character, byte, and byte-string literals are rejected as
//! fatal, as is any spelling outside the supported grammar.

use vstd::prelude::*;
use vstd::string::{StrSliceExecFns, StringExecFns};
use crate::error::{Error, ErrorModel};

verus! {

/// A decimal digit.
pub open spec fn is_digit(c: char) -> bool {
    ('0' as int) <= (c as int) && (c as int) <= ('9' as int)
}

/// A decimal digit or the digit-grouping underscore.
pub open spec fn is_digit_or_us(c: char) -> bool {
    is_digit(c) || c == '_'
}

/// The numeric value of a digit in an integer literal, or -1 where the
/// character is no digit of any supported base.
pub open spec fn digit_val(c: char) -> int {
    if is_digit(c) {
        c as int - '0' as int
    } else if ('a' as int) <= (c as int) && (c as int) <= ('f' as int) {
        c as int - 'a' as int + 10
    } else if ('A' as int) <= (c as int) && (c as int) <= ('F' as int) {
        c as int - 'A' as int + 10
    } else {
        -1
    }
}

/// A digit of the given base (2, 8, or 16).
pub open spec fn is_base_digit(c: char, base: int) -> bool {
    0 <= digit_val(c) < base
}

/// The given spelling with all underscores removed.
pub open spec fn strip_us(s: Seq<char>) -> Seq<char>
    decreases s.len(),
{
    if s.len() == 0 {
        Seq::empty()
    } else if s[0] == '_' {
        strip_us(s.skip(1))
    } else {
        seq![s[0]] + strip_us(s.skip(1))
    }
}

/// The end of the run of digits and underscores that starts at `i`.
pub open spec fn scan_num(s: Seq<char>, i: int) -> int
    recommends
        0 <= i <= s.len(),
    decreases s.len() - i,
{
    if i < s.len() && is_digit_or_us(s[i]) {
        scan_num(s, i + 1)
    } else {
        i
    }
}

/// The end of the run of base-`base` digits and underscores starting at `i`.
pub open spec fn scan_base(s: Seq<char>, i: int, base: int) -> int
    recommends
        0 <= i <= s.len(),
    decreases s.len() - i,
{
    if i < s.len() && (is_base_digit(s[i], base) || s[i] == '_') {
        scan_base(s, i + 1, base)
    } else {
        i
    }
}

/// A numeric type suffix accepted at the end of a number literal.
pub open spec fn is_suffix(s: Seq<char>) -> bool {
    ||| s == "u8"@
    ||| s == "u16"@
    ||| s == "u32"@
    ||| s == "u64"@
    ||| s == "u128"@
    ||| s == "usize"@
    ||| s == "i8"@
    ||| s == "i16"@
    ||| s == "i32"@
    ||| s == "i64"@
    ||| s == "i128"@
    ||| s == "isize"@
    ||| s == "f32"@
    ||| s == "f64"@
}

/// What one escape character after a backslash stands for, if supported.
pub open spec fn esc_char(c: char) -> Option<char> {
    if c == 'n' {
        Some('\n')
    } else if c == 'r' {
        Some('\r')
    } else if c == 't' {
        Some('\t')
    } else if c == '\\' {
        Some('\\')
    } else if c == '"' {
        Some('"')
    } else if c == '\'' {
        Some('\'')
    } else if c == '0' {
        Some('\0')
    } else {
        None
    }
}

/// The unescaped contents of a string literal's interior, or `None` where
/// an escape is unterminated or unsupported.
pub open spec fn spec_unescape(s: Seq<char>) -> Option<Seq<char>>
    decreases s.len(),
{
    if s.len() == 0 {
        Some(Seq::empty())
    } else if s[0] == '\\' {
        if s.len() >= 2 {
            match esc_char(s[1]) {
                Some(c) => match spec_unescape(s.skip(2)) {
                    Some(r) => Some(seq![c] + r),
                    None => None,
                },
                None => None,
            }
        } else {
            None
        }
    } else {
        match spec_unescape(s.skip(1)) {
            Some(r) => Some(seq![s[0]] + r),
            None => None,
        }
    }
}

/// The canonical base-10 digits of a nonnegative number.
pub open spec fn spec_decimal(n: int) -> Seq<char>
    recommends
        n >= 0,
    decreases n,
{
    if n < 10 {
        seq![digit_char(n)]
    } else {
        spec_decimal(n / 10) + seq![digit_char(n % 10)]
    }
}

/// The digit character for a value in 0..10.
pub open spec fn digit_char(d: int) -> char {
    if d == 0 {
        '0'
    } else if d == 1 {
        '1'
    } else if d == 2 {
        '2'
    } else if d == 3 {
        '3'
    } else if d == 4 {
        '4'
    } else if d == 5 {
        '5'
    } else if d == 6 {
        '6'
    } else if d == 7 {
        '7'
    } else if d == 8 {
        '8'
    } else {
        '9'
    }
}

/// The value of a run of base-`base` digits (no underscores), read from
/// the left.
pub open spec fn spec_base_value(digs: Seq<char>, base: int) -> int
    decreases digs.len(),
{
    if digs.len() == 0 {
        0
    } else {
        spec_base_value(digs.drop_last(), base) * base + digit_val(digs.last())
    }
}

/// The fatal outcome for an unsupported or malformed literal spelling.
pub open spec fn lit_fatal(s: Seq<char>) -> Result<Seq<char>, ErrorModel> {
    Err(ErrorModel::UnsupportedLiteral(s))
}

/// The canonical text of a literal spelling, or the fatal error for
/// character, byte, and byte-string literals and for spellings outside
/// the supported grammar.
pub open spec fn spec_normalize_literal(s: Seq<char>) -> Result<Seq<char>, ErrorModel> {
    if s == "true"@ || s == "false"@ {
        Ok(s)
    } else if s.len() > 0 && s[0] == '"' {
        spec_normalize_string(s)
    } else if s.len() > 0 && (s[0] == '\'' || s[0] == 'b') {
        lit_fatal(s)
    } else {
        spec_normalize_number(s)
    }
}

/// The unescaped contents of a quoted string literal.
pub open spec fn spec_normalize_string(s: Seq<char>) -> Result<Seq<char>, ErrorModel> {
    if s.len() >= 2 && s.last() == '"' {
        match spec_unescape(s.subrange(1, s.len() - 1)) {
            Some(u) => Ok(u),
            None => lit_fatal(s),
        }
    } else {
        lit_fatal(s)
    }
}

/// The textual sign of a number literal.
pub open spec fn sign_seq(neg: bool) -> Seq<char> {
    if neg {
        seq!['-']
    } else {
        Seq::<char>::empty()
    }
}

/// The canonical text of a number literal: an optional leading minus sign,
/// then the digits, with a base-prefixed integer converted to base 10.
pub open spec fn spec_normalize_number(s: Seq<char>) -> Result<Seq<char>, ErrorModel> {
    let neg = s.len() > 0 && s[0] == '-';
    let sign = sign_seq(neg);
    let body = if neg {
        s.skip(1)
    } else {
        s
    };
    if body.len() == 0 || !is_digit(body[0]) {
        lit_fatal(s)
    } else if body.len() >= 2 && body[0] == '0' && (body[1] == 'x' || body[1] == 'o' || body[1]
        == 'b') {
        spec_normalize_prefixed(s, sign, body)
    } else {
        spec_normalize_decimal(s, sign, body)
    }
}

/// The base named by the character after the leading `0` of a
/// base-prefixed integer literal.
pub open spec fn base_of(c: char) -> int {
    if c == 'x' {
        16
    } else if c == 'o' {
        8
    } else {
        2
    }
}

/// The canonical base-10 text of a base-prefixed integer literal whose
/// value fits in 128 bits.
pub open spec fn spec_normalize_prefixed(s: Seq<char>, sign: Seq<char>, body: Seq<char>) -> Result<
    Seq<char>,
    ErrorModel,
> {
    let base = base_of(body[1]);
    let rest = body.skip(2);
    let k = scan_base(rest, 0, base);
    let digs = strip_us(rest.subrange(0, k));
    if digs.len() == 0 {
        lit_fatal(s)
    } else if !(rest.skip(k).len() == 0 || is_suffix(rest.skip(k))) {
        lit_fatal(s)
    } else if spec_base_value(digs, base) > u128::MAX {
        lit_fatal(s)
    } else {
        Ok(sign + spec_decimal(spec_base_value(digs, base)))
    }
}

/// The canonical text of a decimal integer or float literal: underscores
/// and the type suffix removed, an exponent written with a lower-case `e`
/// and without a `+`.
pub open spec fn spec_normalize_decimal(s: Seq<char>, sign: Seq<char>, body: Seq<char>) -> Result<
    Seq<char>,
    ErrorModel,
> {
    let ie = scan_num(body, 0);
    let int_digits = strip_us(body.subrange(0, ie));
    if ie == body.len() {
        Ok(sign + int_digits)
    } else if body[ie] == '.' {
        let fe = scan_num(body, ie + 1);
        let frac = strip_us(body.subrange(ie + 1, fe));
        if fe == body.len() {
            Ok(sign + int_digits + seq!['.'] + frac)
        } else if body[fe] == 'e' || body[fe] == 'E' {
            match spec_exponent(body, fe + 1) {
                Some(e) => Ok(sign + int_digits + seq!['.'] + frac + seq!['e'] + e),
                None => lit_fatal(s),
            }
        } else if is_suffix(body.skip(fe)) {
            Ok(sign + int_digits + seq!['.'] + frac)
        } else {
            lit_fatal(s)
        }
    } else if body[ie] == 'e' || body[ie] == 'E' {
        match spec_exponent(body, ie + 1) {
            Some(e) => Ok(sign + int_digits + seq!['e'] + e),
            None => lit_fatal(s),
        }
    } else if is_suffix(body.skip(ie)) {
        Ok(sign + int_digits)
    } else {
        lit_fatal(s)
    }
}

/// The canonical text of an exponent whose digits start at `j` (after the
/// `e`): an optional minus sign and the digits, or `None` where the
/// exponent is empty or trailed by anything but a type suffix.
pub open spec fn spec_exponent(body: Seq<char>, j: int) -> Option<Seq<char>> {
    let esign = if j < body.len() && body[j] == '-' {
        seq!['-']
    } else {
        Seq::<char>::empty()
    };
    let j2 = if j < body.len() && (body[j] == '-' || body[j] == '+') {
        j + 1
    } else {
        j
    };
    let k = scan_num(body, j2);
    let digs = strip_us(body.subrange(j2, k));
    if digs.len() == 0 {
        None
    } else if k == body.len() || is_suffix(body.skip(k)) {
        Some(esign + digs)
    } else {
        None
    }
}

/// Whether every character of `q` is a digit of the given base.
pub open spec fn all_base(q: Seq<char>, base: int) -> bool {
    forall|j: int| 0 <= j < q.len() ==> is_base_digit(q[j], base)
}

pub proof fn lemma_strip_us_concat(a: Seq<char>, b: Seq<char>)
    ensures
        strip_us(a + b) == strip_us(a) + strip_us(b),
    decreases a.len(),
{
    if a.len() == 0 {
        assert(a + b =~= b);
        assert(strip_us(a) + strip_us(b) =~= strip_us(b));
    } else {
        assert((a + b).skip(1) =~= a.skip(1) + b);
        lemma_strip_us_concat(a.skip(1), b);
        if a[0] == '_' {
            assert(strip_us(a + b) == strip_us(a) + strip_us(b));
        } else {
            assert(seq![a[0]] + (strip_us(a.skip(1)) + strip_us(b)) =~= (seq![a[0]] + strip_us(
                a.skip(1),
            )) + strip_us(b));
        }
    }
}

pub proof fn lemma_strip_us_push(t: Seq<char>, c: char)
    ensures
        strip_us(t.push(c)) == strip_us(t) + (if c == '_' {
            Seq::<char>::empty()
        } else {
            seq![c]
        }),
{
    assert(t.push(c) =~= t + seq![c]);
    lemma_strip_us_concat(t, seq![c]);
    assert(seq![c].skip(1) =~= Seq::<char>::empty());
    assert(strip_us(Seq::<char>::empty()) == Seq::<char>::empty());
    if c == '_' {
        assert(strip_us(seq![c]) =~= Seq::<char>::empty());
        assert(strip_us(t) + Seq::<char>::empty() =~= strip_us(t));
    } else {
        assert(strip_us(seq![c]) == seq![c] + strip_us(seq![c].skip(1)));
        assert(strip_us(seq![c]) =~= seq![c]);
    }
}

/// Stripping underscores from a spelling without underscores changes
/// nothing.
pub proof fn lemma_strip_us_identity(s: Seq<char>)
    requires
        forall|j: int| 0 <= j < s.len() ==> s[j] != '_',
    ensures
        strip_us(s) == s,
    decreases s.len(),
{
    if s.len() == 0 {
        assert(strip_us(s) =~= s);
    } else {
        lemma_strip_us_identity(s.skip(1));
        assert(seq![s[0]] + s.skip(1) =~= s);
    }
}

pub proof fn lemma_strip_us_all_base(s: Seq<char>, base: int)
    requires
        forall|j: int| 0 <= j < s.len() ==> (is_base_digit(s[j], base) || s[j] == '_'),
    ensures
        all_base(strip_us(s), base),
    decreases s.len(),
{
    if s.len() == 0 {
    } else {
        assert(forall|j: int|
            0 <= j < s.skip(1).len() ==> (is_base_digit(s.skip(1)[j], base) || s.skip(1)[j]
                == '_'));
        lemma_strip_us_all_base(s.skip(1), base);
        if s[0] != '_' {
            let r = strip_us(s);
            assert(r == seq![s[0]] + strip_us(s.skip(1)));
            assert forall|j: int| 0 <= j < r.len() implies is_base_digit(r[j], base) by {
                if j == 0 {
                    assert(r[0] == s[0]);
                } else {
                    assert(r[j] == strip_us(s.skip(1))[j - 1]);
                }
            }
        }
    }
}

pub proof fn lemma_base_value_nonneg(q: Seq<char>, base: int)
    requires
        base >= 2,
        all_base(q, base),
    ensures
        spec_base_value(q, base) >= 0,
    decreases q.len(),
{
    if q.len() == 0 {
    } else {
        assert(all_base(q.drop_last(), base));
        lemma_base_value_nonneg(q.drop_last(), base);
        let v = spec_base_value(q.drop_last(), base);
        assert(v * base >= 0) by (nonlinear_arith)
            requires
                v >= 0,
                base >= 2,
        ;
        assert(digit_val(q.last()) >= 0);
    }
}

/// Appending further digits never lowers the value of a digit run.
pub proof fn lemma_base_value_extend(p: Seq<char>, q: Seq<char>, base: int)
    requires
        base >= 2,
        all_base(p, base),
        all_base(q, base),
    ensures
        spec_base_value(p + q, base) >= spec_base_value(p, base),
    decreases q.len(),
{
    if q.len() == 0 {
        assert(p + q =~= p);
    } else {
        assert((p + q).drop_last() =~= p + q.drop_last());
        assert(all_base(q.drop_last(), base));
        lemma_base_value_extend(p, q.drop_last(), base);
        assert(all_base(p + q.drop_last(), base)) by {
            assert forall|j: int| 0 <= j < (p + q.drop_last()).len() implies is_base_digit(
                (p + q.drop_last())[j],
                base,
            ) by {
                if j < p.len() {
                    assert((p + q.drop_last())[j] == p[j]);
                } else {
                    assert((p + q.drop_last())[j] == q.drop_last()[j - p.len()]);
                }
            }
        }
        lemma_base_value_nonneg(p + q.drop_last(), base);
        let v = spec_base_value(p + q.drop_last(), base);
        assert(v * base >= v) by (nonlinear_arith)
            requires
                v >= 0,
                base >= 2,
        ;
        assert((p + q).last() == q.last());
        assert(digit_val((p + q).last()) >= 0);
    }
}

pub proof fn lemma_scan_base_range(s: Seq<char>, i: int, base: int)
    requires
        0 <= i <= s.len(),
    ensures
        i <= scan_base(s, i, base) <= s.len(),
        forall|j: int|
            i <= j < scan_base(s, i, base) ==> (is_base_digit(s[j], base) || s[j] == '_'),
    decreases s.len() - i,
{
    if i < s.len() && (is_base_digit(s[i], base) || s[i] == '_') {
        lemma_scan_base_range(s, i + 1, base);
    }
}

fn str_eq(a: &str, b: &str) -> (r: bool)
    ensures
        r == (a@ == b@),
{
    let an = a.unicode_len();
    let bn = b.unicode_len();
    if an != bn {
        return false;
    }
    let mut i: usize = 0;
    while i < an
        invariant
            0 <= i <= an,
            an as int == a@.len(),
            an as int == b@.len(),
            forall|j: int| 0 <= j < i ==> a@[j] == b@[j],
        decreases an - i,
    {
        if a.get_char(i) != b.get_char(i) {
            return false;
        }
        i += 1;
    }
    proof {
        assert(a@ =~= b@);
    }
    true
}

fn is_digit_exec(c: char) -> (r: bool)
    ensures
        r == is_digit(c),
{
    let u = c as u32;
    48 <= u && u <= 57
}

fn is_digit_or_us_exec(c: char) -> (r: bool)
    ensures
        r == is_digit_or_us(c),
{
    is_digit_exec(c) || c == '_'
}

fn is_base_digit_exec(c: char, base: u128) -> (r: bool)
    requires
        base == 2 || base == 8 || base == 16,
    ensures
        r == is_base_digit(c, base as int),
{
    let u = c as u32;
    if 48 <= u && u <= 57 {
        ((u - 48) as u128) < base
    } else if 97 <= u && u <= 102 {
        ((u - 97 + 10) as u128) < base
    } else if 65 <= u && u <= 70 {
        ((u - 65 + 10) as u128) < base
    } else {
        false
    }
}

fn digit_value(c: char) -> (d: u8)
    requires
        digit_val(c) >= 0,
    ensures
        d as int == digit_val(c),
{
    let u = c as u32;
    if 48 <= u && u <= 57 {
        (u - 48) as u8
    } else if 97 <= u && u <= 102 {
        (u - 97 + 10) as u8
    } else {
        (u - 65 + 10) as u8
    }
}

fn is_suffix_exec(s: &str) -> (r: bool)
    ensures
        r == is_suffix(s@),
{
    str_eq(s, "u8") || str_eq(s, "u16") || str_eq(s, "u32") || str_eq(s, "u64") || str_eq(
        s,
        "u128",
    ) || str_eq(s, "usize") || str_eq(s, "i8") || str_eq(s, "i16") || str_eq(s, "i32") || str_eq(
        s,
        "i64",
    ) || str_eq(s, "i128") || str_eq(s, "isize") || str_eq(s, "f32") || str_eq(s, "f64")
}

fn is_suffix_range(body: &str, from: usize) -> (r: bool)
    requires
        from as int <= body@.len(),
    ensures
        r == is_suffix(body@.skip(from as int)),
{
    let bn = body.unicode_len();
    let suf = body.substring_char(from, bn);
    proof {
        assert(suf@ =~= body@.skip(from as int));
    }
    is_suffix_exec(suf)
}

fn scan_digits(s: &str, from: usize) -> (r: usize)
    requires
        from as int <= s@.len(),
    ensures
        r as int == scan_num(s@, from as int),
        from <= r,
        r as int <= s@.len(),
    decreases s@.len() - from,
{
    let n = s.unicode_len();
    let mut i = from;
    while i < n
        invariant
            from <= i,
            i as int <= s@.len(),
            n as int == s@.len(),
            scan_num(s@, from as int) == scan_num(s@, i as int),
        decreases n - i,
    {
        let c = s.get_char(i);
        if !is_digit_or_us_exec(c) {
            return i;
        }
        i += 1;
    }
    i
}

fn scan_base_digits(s: &str, from: usize, base: u128) -> (r: usize)
    requires
        from as int <= s@.len(),
        base == 2 || base == 8 || base == 16,
    ensures
        r as int == scan_base(s@, from as int, base as int),
        from <= r,
        r as int <= s@.len(),
{
    let n = s.unicode_len();
    let mut i = from;
    while i < n
        invariant
            from <= i,
            i as int <= s@.len(),
            n as int == s@.len(),
            base == 2 || base == 8 || base == 16,
            scan_base(s@, from as int, base as int) == scan_base(s@, i as int, base as int),
        decreases n - i,
    {
        let c = s.get_char(i);
        if !(is_base_digit_exec(c, base) || c == '_') {
            return i;
        }
        i += 1;
    }
    i
}

/// Appends the characters of `s[from..to]` to `out`, skipping
/// underscores, and returns how many characters were appended.
fn append_stripped(out: &mut String, s: &str, from: usize, to: usize) -> (cnt: usize)
    requires
        from <= to,
        to as int <= s@.len(),
    ensures
        final(out)@ == old(out)@ + strip_us(s@.subrange(from as int, to as int)),
        cnt as int == strip_us(s@.subrange(from as int, to as int)).len(),
{
    let mut i = from;
    let mut cnt: usize = 0;
    proof {
        assert(s@.subrange(from as int, from as int) =~= Seq::<char>::empty());
        assert(out@ =~= old(out)@ + strip_us(s@.subrange(from as int, from as int)));
    }
    while i < to
        invariant
            from <= i <= to,
            to as int <= s@.len(),
            cnt <= i - from,
            out@ == old(out)@ + strip_us(s@.subrange(from as int, i as int)),
            cnt as int == strip_us(s@.subrange(from as int, i as int)).len(),
        decreases to - i,
    {
        let c = s.get_char(i);
        proof {
            assert(s@.subrange(from as int, i as int + 1) =~= s@.subrange(
                from as int,
                i as int,
            ).push(s@[i as int]));
            lemma_strip_us_push(s@.subrange(from as int, i as int), s@[i as int]);
        }
        if c != '_' {
            let piece = s.substring_char(i, i + 1);
            proof {
                assert(piece@ =~= seq![s@[i as int]]);
            }
            out.append(piece);
            cnt += 1;
            proof {
                assert((old(out)@ + strip_us(s@.subrange(from as int, i as int))) + seq![
                    s@[i as int],
                ] =~= old(out)@ + (strip_us(s@.subrange(from as int, i as int)) + seq![
                    s@[i as int],
                ]));
            }
        } else {
            proof {
                assert(strip_us(s@.subrange(from as int, i as int)) + Seq::<char>::empty()
                    =~= strip_us(s@.subrange(from as int, i as int)));
            }
        }
        i += 1;
    }
    cnt
}

/// The escape's expansion as a string slice, mirroring [`esc_char`].
fn esc_str(e: char) -> (r: Option<&'static str>)
    ensures
        (match esc_char(e) {
            Some(c) => r matches Some(t) && t@ == seq![c],
            None => r is None,
        }),
{
    if e == 'n' {
        proof {
            reveal_strlit("\n");
            assert("\n"@ =~= seq!['\n']);
        }
        Some("\n")
    } else if e == 'r' {
        proof {
            reveal_strlit("\r");
            assert("\r"@ =~= seq!['\r']);
        }
        Some("\r")
    } else if e == 't' {
        proof {
            reveal_strlit("\t");
            assert("\t"@ =~= seq!['\t']);
        }
        Some("\t")
    } else if e == '\\' {
        proof {
            reveal_strlit("\\");
            assert("\\"@ =~= seq!['\\']);
        }
        Some("\\")
    } else if e == '"' {
        proof {
            reveal_strlit("\"");
            assert("\""@ =~= seq!['"']);
        }
        Some("\"")
    } else if e == '\'' {
        proof {
            reveal_strlit("'");
            assert("'"@ =~= seq!['\'']);
        }
        Some("'")
    } else if e == '0' {
        proof {
            reveal_strlit("\0");
            assert("\0"@ =~= seq!['\0']);
        }
        Some("\0")
    } else {
        None
    }
}

/// Unescapes `s[from..to]`, the interior of a string literal.
fn unescape_range(s: &str, from: usize, to: usize) -> (r: Option<String>)
    requires
        from <= to,
        to as int <= s@.len(),
    ensures
        (match spec_unescape(s@.subrange(from as int, to as int)) {
            Some(v) => r matches Some(out) && out@ == v,
            None => r is None,
        }),
{
    let mut out = String::new();
    let mut i = from;
    while i < to
        invariant
            from <= i <= to,
            to as int <= s@.len(),
            (match spec_unescape(s@.subrange(i as int, to as int)) {
                Some(v2) => spec_unescape(s@.subrange(from as int, to as int)) == Some(out@ + v2),
                None => spec_unescape(s@.subrange(from as int, to as int)) is None,
            }),
        decreases to - i,
    {
        let ghost sub = s@.subrange(i as int, to as int);
        proof {
            assert(sub[0] == s@[i as int]);
        }
        let c = s.get_char(i);
        if c == '\\' {
            if i + 1 < to {
                let e = s.get_char(i + 1);
                proof {
                    assert(sub[1] == s@[i as int + 1]);
                    assert(sub.skip(2) =~= s@.subrange(i as int + 2, to as int));
                }
                match esc_str(e) {
                    Some(t) => {
                        out.append(t);
                        proof {
                            let ec = esc_char(e)->Some_0;
                            if let Some(v2) = spec_unescape(s@.subrange(i as int + 2, to as int)) {
                                assert((out@ + v2) =~= (out@.subrange(
                                    0,
                                    out@.len() - 1,
                                ) + (seq![ec] + v2)));
                            }
                        }
                        i += 2;
                    },
                    None => {
                        return None;
                    },
                }
            } else {
                proof {
                    assert(sub.len() == to - i);
                }
                return None;
            }
        } else {
            let piece = s.substring_char(i, i + 1);
            proof {
                assert(piece@ =~= seq![s@[i as int]]);
                assert(sub.skip(1) =~= s@.subrange(i as int + 1, to as int));
            }
            out.append(piece);
            proof {
                if let Some(v2) = spec_unescape(s@.subrange(i as int + 1, to as int)) {
                    assert((out@ + v2) =~= (out@.subrange(0, out@.len() - 1) + (seq![c] + v2)));
                }
            }
            i += 1;
        }
    }
    proof {
        assert(s@.subrange(i as int, to as int) =~= Seq::<char>::empty());
        assert(out@ + Seq::<char>::empty() =~= out@);
    }
    Some(out)
}

fn normalize_string(s: &str) -> (r: Result<String, Error>)
    requires
        s@.len() > 0,
        s@[0] == '"',
    ensures
        (match spec_normalize_string(s@) {
            Ok(v) => r matches Ok(out) && out@ == v,
            Err(e) => r matches Err(err) && err@ == e,
        }),
{
    let n = s.unicode_len();
    if n >= 2 {
        let last = s.get_char(n - 1);
        if last == '"' {
            match unescape_range(s, 1, n - 1) {
                Some(u) => {
                    return Ok(u);
                },
                None => {
                    return Err(Error::UnsupportedLiteral(s.to_owned()));
                },
            }
        }
    }
    Err(Error::UnsupportedLiteral(s.to_owned()))
}

/// The digit as a one-character string slice.
fn digit_str(d: u8) -> (r: &'static str)
    requires
        d < 10,
    ensures
        r@ == seq![digit_char(d as int)],
{
    if d == 0 {
        proof {
            reveal_strlit("0");
            assert("0"@ =~= seq!['0']);
        }
        "0"
    } else if d == 1 {
        proof {
            reveal_strlit("1");
            assert("1"@ =~= seq!['1']);
        }
        "1"
    } else if d == 2 {
        proof {
            reveal_strlit("2");
            assert("2"@ =~= seq!['2']);
        }
        "2"
    } else if d == 3 {
        proof {
            reveal_strlit("3");
            assert("3"@ =~= seq!['3']);
        }
        "3"
    } else if d == 4 {
        proof {
            reveal_strlit("4");
            assert("4"@ =~= seq!['4']);
        }
        "4"
    } else if d == 5 {
        proof {
            reveal_strlit("5");
            assert("5"@ =~= seq!['5']);
        }
        "5"
    } else if d == 6 {
        proof {
            reveal_strlit("6");
            assert("6"@ =~= seq!['6']);
        }
        "6"
    } else if d == 7 {
        proof {
            reveal_strlit("7");
            assert("7"@ =~= seq!['7']);
        }
        "7"
    } else if d == 8 {
        proof {
            reveal_strlit("8");
            assert("8"@ =~= seq!['8']);
        }
        "8"
    } else {
        proof {
            reveal_strlit("9");
            assert("9"@ =~= seq!['9']);
        }
        "9"
    }
}

/// The canonical base-10 text of a 128-bit value.
fn u128_decimal(n: u128) -> (r: String)
    ensures
        r@ == spec_decimal(n as int),
    decreases n,
{
    if n < 10 {
        digit_str(n as u8).to_owned()
    } else {
        proof {
            assert(n / 10 < n) by (nonlinear_arith)
                requires
                    n >= 10,
            ;
        }
        let mut r = u128_decimal(n / 10);
        r.append(digit_str((n % 10) as u8));
        r
    }
}

fn exponent_tail(orig: &str, body: &str, j: usize, out: String) -> (r: Result<String, Error>)
    requires
        j as int <= body@.len(),
    ensures
        (match spec_exponent(body@, j as int) {
            Some(e) => r matches Ok(o) && o@ == out@ + seq!['e'] + e,
            None => r matches Err(err) && err@ == ErrorModel::UnsupportedLiteral(orig@),
        }),
{
    let bn = body.unicode_len();
    let mut o = out;
    let ghost out0 = o@;
    o.append("e");
    proof {
        reveal_strlit("e");
        assert("e"@ =~= seq!['e']);
    }
    let mut j2 = j;
    if j < bn {
        let cs = body.get_char(j);
        if cs == '-' {
            o.append("-");
            proof {
                reveal_strlit("-");
                assert("-"@ =~= seq!['-']);
            }
            j2 = j + 1;
        } else if cs == '+' {
            j2 = j + 1;
        }
    }
    let ghost esign = if j < body@.len() && body@[j as int] == '-' {
        seq!['-']
    } else {
        Seq::<char>::empty()
    };
    proof {
        assert(o@ =~= (out0 + seq!['e']) + esign);
    }
    let k = scan_digits(body, j2);
    let cnt = append_stripped(&mut o, body, j2, k);
    let ghost digs = strip_us(body@.subrange(j2 as int, k as int));
    if cnt == 0 {
        return Err(Error::UnsupportedLiteral(orig.to_owned()));
    }
    proof {
        assert(o@ =~= ((out0 + seq!['e']) + esign) + digs);
        assert(((out0 + seq!['e']) + esign) + digs =~= (out0 + seq!['e']) + (esign + digs));
    }
    if k == bn {
        return Ok(o);
    }
    if is_suffix_range(body, k) {
        return Ok(o);
    }
    Err(Error::UnsupportedLiteral(orig.to_owned()))
}

fn normalize_decimal(orig: &str, neg: bool, body: &str) -> (r: Result<String, Error>)
    requires
        body@.len() > 0,
        is_digit(body@[0]),
    ensures
        (match spec_normalize_decimal(orig@, sign_seq(neg), body@) {
            Ok(v) => r matches Ok(out) && out@ == v,
            Err(e) => r matches Err(err) && err@ == e,
        }),
{
    let bn = body.unicode_len();
    let ie = scan_digits(body, 0);
    let mut out = String::new();
    if neg {
        out.append("-");
        proof {
            reveal_strlit("-");
            assert("-"@ =~= seq!['-']);
            assert(out@ =~= sign_seq(neg));
        }
    } else {
        proof {
            assert(out@ =~= sign_seq(neg));
        }
    }
    let _c = append_stripped(&mut out, body, 0, ie);
    let ghost int_digits = strip_us(body@.subrange(0, ie as int));
    if ie == bn {
        return Ok(out);
    }
    let c = body.get_char(ie);
    if c == '.' {
        let fe = scan_digits(body, ie + 1);
        out.append(".");
        proof {
            reveal_strlit(".");
            assert("."@ =~= seq!['.']);
        }
        let _c2 = append_stripped(&mut out, body, ie + 1, fe);
        let ghost frac = strip_us(body@.subrange(ie as int + 1, fe as int));
        proof {
            assert(out@ =~= sign_seq(neg) + int_digits + seq!['.'] + frac);
        }
        if fe == bn {
            return Ok(out);
        }
        let c2 = body.get_char(fe);
        if c2 == 'e' || c2 == 'E' {
            return exponent_tail(orig, body, fe + 1, out);
        }
        if is_suffix_range(body, fe) {
            return Ok(out);
        }
        return Err(Error::UnsupportedLiteral(orig.to_owned()));
    }
    if c == 'e' || c == 'E' {
        return exponent_tail(orig, body, ie + 1, out);
    }
    if is_suffix_range(body, ie) {
        return Ok(out);
    }
    Err(Error::UnsupportedLiteral(orig.to_owned()))
}

#[verifier::loop_isolation(false)]
fn normalize_prefixed(orig: &str, neg: bool, body: &str) -> (r: Result<String, Error>)
    requires
        body@.len() >= 2,
        body@[0] == '0',
        body@[1] == 'x' || body@[1] == 'o' || body@[1] == 'b',
    ensures
        (match spec_normalize_prefixed(orig@, sign_seq(neg), body@) {
            Ok(v) => r matches Ok(out) && out@ == v,
            Err(e) => r matches Err(err) && err@ == e,
        }),
{
    let bn = body.unicode_len();
    let bc = body.get_char(1);
    let base: u128 = if bc == 'x' {
        16
    } else if bc == 'o' {
        8
    } else {
        2
    };
    proof {
        assert(base as int == base_of(body@[1]));
    }
    let rest = body.substring_char(2, bn);
    proof {
        assert(rest@ =~= body@.skip(2));
    }
    let rn = rest.unicode_len();
    let k = scan_base_digits(rest, 0, base);
    proof {
        lemma_scan_base_range(rest@, 0, base as int);
    }
    let mut acc: u128 = 0;
    let mut cnt: usize = 0;
    let mut i: usize = 0;
    proof {
        assert(rest@.subrange(0, 0) =~= Seq::<char>::empty());
    }
    while i < k
        invariant
            0 <= i <= k,
            k as int == scan_base(rest@, 0, base as int),
            k as int <= rest@.len(),
            base == 2 || base == 8 || base == 16,
            forall|j: int| 0 <= j < k ==> (is_base_digit(rest@[j], base as int) || rest@[j] == '_'),
            acc as int == spec_base_value(
                strip_us(rest@.subrange(0, i as int)),
                base as int,
            ),
            cnt as int == strip_us(rest@.subrange(0, i as int)).len(),
            cnt <= i,
        decreases k - i,
    {
        let c = rest.get_char(i);
        let ghost p = strip_us(rest@.subrange(0, i as int));
        proof {
            assert(rest@.subrange(0, i as int + 1) =~= rest@.subrange(0, i as int).push(
                rest@[i as int],
            ));
            lemma_strip_us_push(rest@.subrange(0, i as int), rest@[i as int]);
        }
        if c != '_' {
            let d = digit_value(c);
            proof {
                assert((p + seq![c]).drop_last() =~= p);
                assert((p + seq![c]).last() == c);
            }
            let step = match acc.checked_mul(base) {
                Some(m) => m.checked_add(d as u128),
                None => None,
            };
            match step {
                Some(v) => {
                    acc = v;
                    cnt += 1;
                },
                None => {
                    proof {
                        let digs = strip_us(rest@.subrange(0, k as int));
                        let q = strip_us(rest@.subrange(i as int + 1, k as int));
                        assert(rest@.subrange(0, k as int) =~= rest@.subrange(0, i as int + 1)
                            + rest@.subrange(i as int + 1, k as int));
                        lemma_strip_us_concat(
                            rest@.subrange(0, i as int + 1),
                            rest@.subrange(i as int + 1, k as int),
                        );
                        assert(digs == (p + seq![c]) + q);
                        assert(forall|j: int|
                            0 <= j < rest@.subrange(0, i as int).len() ==> (is_base_digit(
                                rest@.subrange(0, i as int)[j],
                                base as int,
                            ) || rest@.subrange(0, i as int)[j] == '_'));
                        lemma_strip_us_all_base(rest@.subrange(0, i as int), base as int);
                        assert(forall|j: int|
                            0 <= j < rest@.subrange(i as int + 1, k as int).len() ==> (
                            is_base_digit(
                                #[trigger] rest@.subrange(i as int + 1, k as int)[j],
                                base as int,
                            ) || rest@.subrange(i as int + 1, k as int)[j] == '_'));
                        lemma_strip_us_all_base(
                            rest@.subrange(i as int + 1, k as int),
                            base as int,
                        );
                        assert(all_base(p + seq![c], base as int)) by {
                            assert forall|j: int| 0 <= j < (p + seq![c]).len() implies
                                is_base_digit((p + seq![c])[j], base as int) by {
                                if j < p.len() {
                                    assert((p + seq![c])[j] == p[j]);
                                } else {
                                    assert((p + seq![c])[j] == c);
                                }
                            }
                        }
                        lemma_base_value_extend(p + seq![c], q, base as int);
                        assert(spec_base_value(p + seq![c], base as int) == (acc as int) * (
                        base as int) + digit_val(c));
                        assert(spec_base_value(digs, base as int) > u128::MAX);
                    }
                    return Err(Error::UnsupportedLiteral(orig.to_owned()));
                },
            }
        }
        i += 1;
    }
    let ghost digs = strip_us(rest@.subrange(0, k as int));
    if cnt == 0 {
        return Err(Error::UnsupportedLiteral(orig.to_owned()));
    }
    let suffix_ok = if k == rn {
        true
    } else {
        is_suffix_range(rest, k)
    };
    proof {
        assert(rest@.skip(k as int) =~= rest@.subrange(k as int, rest@.len() as int));
    }
    if !suffix_ok {
        return Err(Error::UnsupportedLiteral(orig.to_owned()));
    }
    let dec = u128_decimal(acc);
    let mut out = String::new();
    if neg {
        out.append("-");
        proof {
            reveal_strlit("-");
            assert("-"@ =~= seq!['-']);
            assert(out@ =~= sign_seq(neg));
        }
    } else {
        proof {
            assert(out@ =~= sign_seq(neg));
        }
    }
    out.append(dec.as_str());
    Ok(out)
}

fn normalize_number(s: &str) -> (r: Result<String, Error>)
    ensures
        (match spec_normalize_number(s@) {
            Ok(v) => r matches Ok(out) && out@ == v,
            Err(e) => r matches Err(err) && err@ == e,
        }),
{
    let n = s.unicode_len();
    if n == 0 {
        return Err(Error::UnsupportedLiteral(s.to_owned()));
    }
    let neg = s.get_char(0) == '-';
    let start: usize = if neg {
        1
    } else {
        0
    };
    let body = s.substring_char(start, n);
    proof {
        if neg {
            assert(body@ =~= s@.skip(1));
        } else {
            assert(body@ =~= s@);
        }
    }
    let bn = body.unicode_len();
    if bn == 0 {
        return Err(Error::UnsupportedLiteral(s.to_owned()));
    }
    let b0 = body.get_char(0);
    if !is_digit_exec(b0) {
        return Err(Error::UnsupportedLiteral(s.to_owned()));
    }
    if bn >= 2 && b0 == '0' {
        let b1 = body.get_char(1);
        if b1 == 'x' || b1 == 'o' || b1 == 'b' {
            return normalize_prefixed(s, neg, body);
        }
    }
    normalize_decimal(s, neg, body)
}

/// Normalizes one literal spelling to its canonical text, or fails
/// fatally on character, byte, and byte-string literals and on spellings
/// outside the supported grammar.
pub fn normalize_literal(s: &str) -> (r: Result<String, Error>)
    ensures
        (match spec_normalize_literal(s@) {
            Ok(v) => r matches Ok(out) && out@ == v,
            Err(e) => r matches Err(err) && err@ == e,
        }),
{
    if str_eq(s, "true") || str_eq(s, "false") {
        return Ok(s.to_owned());
    }
    let n = s.unicode_len();
    if n > 0 {
        let c0 = s.get_char(0);
        if c0 == '"' {
            return normalize_string(s);
        }
        if c0 == '\'' || c0 == 'b' {
            return Err(Error::UnsupportedLiteral(s.to_owned()));
        }
    }
    normalize_number(s)
}

} // verus!
