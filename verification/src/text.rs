//! Verified text utilities: lexicographic comparison of character
//! sequences (the order of the stored timestamp format), substring and
//! prefix tests, ASCII case-insensitive equality, decimal and boolean
//! encodings, and the well-formedness check for stored timestamps.

use vstd::prelude::*;
use vstd::string::*;

verus! {

/// Relies on `String::push` of std: appends exactly the given character.
pub assume_specification[ String::push ](s: &mut String, c: char)
    ensures
        final(s)@ == old(s)@.push(c),
;

/// Strict lexicographic order on character sequences, by code point.
/// On the fixed-width timestamp format this coincides with byte order.
pub open spec fn lex_lt(a: Seq<char>, b: Seq<char>) -> bool
    decreases a.len(),
{
    if b.len() == 0 {
        false
    } else if a.len() == 0 {
        true
    } else if a[0] != b[0] {
        a[0] < b[0]
    } else {
        lex_lt(a.skip(1), b.skip(1))
    }
}

/// Dropping an agreeing prefix does not change the comparison.
proof fn lemma_lex_lt_skip(a: Seq<char>, b: Seq<char>, i: int)
    requires
        0 <= i <= a.len(),
        i <= b.len(),
        forall|j: int| 0 <= j < i ==> a[j] == b[j],
    ensures
        lex_lt(a, b) == lex_lt(a.skip(i), b.skip(i)),
    decreases i,
{
    if i > 0 {
        lemma_lex_lt_skip(a.skip(1), b.skip(1), i - 1);
        assert(a.skip(1).skip(i - 1) =~= a.skip(i));
        assert(b.skip(1).skip(i - 1) =~= b.skip(i));
    } else {
        assert(a.skip(0) =~= a);
        assert(b.skip(0) =~= b);
    }
}

/// Decides `lex_lt` on string slices.
pub fn str_lex_lt(a: &str, b: &str) -> (r: bool)
    ensures
        r == lex_lt(a@, b@),
{
    let la = a.unicode_len();
    let lb = b.unicode_len();
    let mut i: usize = 0;
    loop
        invariant
            la == a@.len(),
            lb == b@.len(),
            i <= la,
            i <= lb,
            forall|j: int| 0 <= j < i ==> a@[j] == b@[j],
        decreases la - i,
    {
        if i == la || i == lb {
            proof {
                lemma_lex_lt_skip(a@, b@, i as int);
            }
            return i == la && i < lb;
        }
        let ca = a.get_char(i);
        let cb = b.get_char(i);
        if ca != cb {
            proof {
                lemma_lex_lt_skip(a@, b@, i as int);
            }
            return ca < cb;
        }
        i = i + 1;
    }
}

/// Decides equality of the character sequences of two string slices.
pub fn str_eq(a: &str, b: &str) -> (r: bool)
    ensures
        r == (a@ == b@),
{
    let la = a.unicode_len();
    let lb = b.unicode_len();
    if la != lb {
        return false;
    }
    let mut i: usize = 0;
    while i < la
        invariant
            la == a@.len(),
            la == b@.len(),
            i <= la,
            forall|j: int| 0 <= j < i ==> a@[j] == b@[j],
        decreases la - i,
    {
        if a.get_char(i) != b.get_char(i) {
            return false;
        }
        i = i + 1;
    }
    proof {
        assert(a@ =~= b@);
    }
    true
}

/// `lex_lt` is asymmetric: two sequences never order below each other.
pub proof fn lemma_lex_lt_asym(a: Seq<char>, b: Seq<char>)
    ensures
        !(lex_lt(a, b) && lex_lt(b, a)),
    decreases a.len(),
{
    if a.len() > 0 && b.len() > 0 && a[0] == b[0] {
        lemma_lex_lt_asym(a.skip(1), b.skip(1));
    }
}

/// `lex_lt` is transitive.
pub proof fn lemma_lex_lt_trans(a: Seq<char>, b: Seq<char>, c: Seq<char>)
    requires
        lex_lt(a, b),
        lex_lt(b, c),
    ensures
        lex_lt(a, c),
    decreases a.len(),
{
    if a.len() > 0 {
        if a[0] == b[0] && b[0] == c[0] {
            lemma_lex_lt_trans(a.skip(1), b.skip(1), c.skip(1));
        }
    }
}

/// Distinct sequences are ordered one way or the other.
pub proof fn lemma_lex_lt_connex(a: Seq<char>, b: Seq<char>)
    requires
        a != b,
    ensures
        lex_lt(a, b) || lex_lt(b, a),
    decreases a.len(),
{
    if a.len() > 0 && b.len() > 0 && a[0] == b[0] {
        if a.skip(1) == b.skip(1) {
            assert(a.skip(1).len() == a.len() - 1);
            assert(b.skip(1).len() == b.len() - 1);
            assert(a.len() == b.len());
            assert forall|j: int| 0 <= j < a.len() implies a[j] == b[j] by {
                if j > 0 {
                    assert(a.skip(1)[j - 1] == a[j]);
                    assert(b.skip(1)[j - 1] == b[j]);
                }
            }
            assert(a =~= b);
        }
        lemma_lex_lt_connex(a.skip(1), b.skip(1));
    } else if a.len() == 0 && b.len() == 0 {
        assert(a =~= b);
    }
}

/// `q` occurs contiguously in `s`.
pub open spec fn contains_sub(s: Seq<char>, q: Seq<char>) -> bool {
    exists|i: int| 0 <= i <= s.len() - q.len() && #[trigger] s.subrange(i, i + q.len()) == q
}

/// Decides `contains_sub` on string slices.
pub fn str_contains(s: &str, q: &str) -> (r: bool)
    ensures
        r == contains_sub(s@, q@),
{
    let ls = s.unicode_len();
    let lq = q.unicode_len();
    if lq > ls {
        return false;
    }
    let mut i: usize = 0;
    while i <= ls - lq
        invariant
            ls == s@.len(),
            lq == q@.len(),
            lq <= ls,
            i <= ls - lq + 1,
            forall|k: int| 0 <= k < i ==> #[trigger] s@.subrange(k, k + lq as int) != q@,
        decreases ls - lq + 1 - i,
    {
        let mut j: usize = 0;
        let mut mismatch = false;
        while j < lq && !mismatch
            invariant
                ls == s@.len(),
                lq == q@.len(),
                lq <= ls,
                i <= ls - lq,
                j <= lq,
                !mismatch ==> forall|t: int| 0 <= t < j ==> s@[i + t] == q@[t],
                mismatch ==> j < lq && s@[i + j] != q@[j as int],
            decreases lq - j + (if mismatch {
                0int
            } else {
                1int
            }),
        {
            if s.get_char(i + j) != q.get_char(j) {
                mismatch = true;
            } else {
                j = j + 1;
            }
        }
        if !mismatch {
            proof {
                assert(s@.subrange(i as int, i as int + lq as int) =~= q@);
            }
            return true;
        }
        proof {
            assert(s@.subrange(i as int, i as int + lq as int)[j as int] == s@[i as int + j]);
            assert(s@.subrange(i as int, i as int + lq as int) != q@);
        }
        i = i + 1;
    }
    proof {
        assert(forall|k: int| 0 <= k <= s@.len() - q@.len() ==> #[trigger] s@.subrange(
            k,
            k + q@.len() as int,
        ) != q@);
    }
    false
}

/// ASCII lower-casing of one character; other characters unchanged.
pub open spec fn lower_char(c: char) -> char {
    if 'A' <= c && c <= 'Z' {
        (((c as u8) + 32) as u8) as char
    } else {
        c
    }
}

/// Equality up to ASCII case, the match used by the exclusion set.
pub open spec fn eq_ignore_case(a: Seq<char>, b: Seq<char>) -> bool {
    a.len() == b.len() && forall|i: int|
        0 <= i < a.len() ==> lower_char(#[trigger] a[i]) == lower_char(b[i])
}

fn lower_char_exec(c: char) -> (r: char)
    ensures
        r == lower_char(c),
{
    if 'A' <= c && c <= 'Z' {
        ((c as u8) + 32) as char
    } else {
        c
    }
}

/// Decides `eq_ignore_case` on string slices.
pub fn str_eq_ignore_case(a: &str, b: &str) -> (r: bool)
    ensures
        r == eq_ignore_case(a@, b@),
{
    let la = a.unicode_len();
    let lb = b.unicode_len();
    if la != lb {
        return false;
    }
    let mut i: usize = 0;
    while i < la
        invariant
            la == a@.len(),
            la == b@.len(),
            i <= la,
            forall|j: int| 0 <= j < i ==> lower_char(#[trigger] a@[j]) == lower_char(b@[j]),
        decreases la - i,
    {
        if lower_char_exec(a.get_char(i)) != lower_char_exec(b.get_char(i)) {
            return false;
        }
        i = i + 1;
    }
    true
}

/// `p` is an initial segment of `s`.
pub open spec fn has_prefix(s: Seq<char>, p: Seq<char>) -> bool {
    p.len() <= s.len() && s.subrange(0, p.len() as int) == p
}

/// Decides `has_prefix` on string slices.
pub fn str_has_prefix(s: &str, p: &str) -> (r: bool)
    ensures
        r == has_prefix(s@, p@),
{
    let ls = s.unicode_len();
    let lp = p.unicode_len();
    if lp > ls {
        return false;
    }
    let mut i: usize = 0;
    while i < lp
        invariant
            ls == s@.len(),
            lp == p@.len(),
            lp <= ls,
            i <= lp,
            forall|j: int| 0 <= j < i ==> s@[j] == p@[j],
        decreases lp - i,
    {
        if s.get_char(i) != p.get_char(i) {
            proof {
                assert(s@.subrange(0, p@.len() as int)[i as int] == s@[i as int]);
            }
            return false;
        }
        i = i + 1;
    }
    proof {
        assert(s@.subrange(0, p@.len() as int) =~= p@);
    }
    true
}

/// The stored boolean encoding.
pub open spec fn bool_str(b: bool) -> Seq<char> {
    if b {
        "true"@
    } else {
        "false"@
    }
}

/// What the settings reader accepts as a boolean.
pub open spec fn parse_bool_spec(s: Seq<char>) -> Option<bool> {
    if s == "true"@ {
        Some(true)
    } else if s == "false"@ {
        Some(false)
    } else {
        None
    }
}

/// Parses the stored boolean encoding.
pub fn parse_bool(s: &str) -> (r: Option<bool>)
    ensures
        r == parse_bool_spec(s@),
{
    if str_eq(s, "true") {
        Some(true)
    } else if str_eq(s, "false") {
        Some(false)
    } else {
        None
    }
}

/// The boolean encoding parses back to the value it encodes.
pub proof fn lemma_bool_roundtrip(b: bool)
    ensures
        parse_bool_spec(bool_str(b)) == Some(b),
{
    reveal_strlit("true");
    reveal_strlit("false");
    assert("true"@.len() == 4);
    assert("false"@.len() == 5);
    assert("true"@ != "false"@);
}

/// Digit in the decimal encodings.
pub open spec fn is_digit(c: char) -> bool {
    '0' <= c && c <= '9'
}

/// All characters are decimal digits.
pub open spec fn all_digits(s: Seq<char>) -> bool {
    forall|i: int| 0 <= i < s.len() ==> is_digit(#[trigger] s[i])
}

/// The character for one decimal digit.
pub open spec fn digit_char(d: int) -> char {
    if d == 0 {
        '0'
    } else if d == 1 {
        '1'
    } else if d == 2 {
        '2'
    } else if d == 3 {
        '3'
    } else if d == 4 {
        '4'
    } else if d == 5 {
        '5'
    } else if d == 6 {
        '6'
    } else if d == 7 {
        '7'
    } else if d == 8 {
        '8'
    } else {
        '9'
    }
}

/// Numeric value of a digit sequence, most significant first.
pub open spec fn dec_val(s: Seq<char>) -> int
    decreases s.len(),
{
    if s.len() == 0 {
        0
    } else {
        dec_val(s.drop_last()) * 10 + (s.last() as int - 48)
    }
}

/// What the settings reader accepts as an unsigned decimal: one or more
/// digits whose value fits in a `u64`.
pub open spec fn parse_u64_spec(s: Seq<char>) -> Option<u64> {
    if s.len() > 0 && all_digits(s) && dec_val(s) <= u64::MAX {
        Some(dec_val(s) as u64)
    } else {
        None
    }
}

/// The canonical decimal encoding of a nonnegative integer.
pub open spec fn u64_dec(n: int) -> Seq<char>
    decreases n,
{
    if n < 10 {
        seq![digit_char(n)]
    } else {
        u64_dec(n / 10).push(digit_char(n % 10))
    }
}

/// Code point and digit-hood of `digit_char`.
proof fn lemma_digit_char_val(d: int)
    requires
        0 <= d <= 9,
    ensures
        digit_char(d) as int == 48 + d,
        is_digit(digit_char(d)),
{
    if d == 0 {
        assert(digit_char(d) as int == 48);
    } else if d == 1 {
        assert(digit_char(d) as int == 49);
    } else if d == 2 {
        assert(digit_char(d) as int == 50);
    } else if d == 3 {
        assert(digit_char(d) as int == 51);
    } else if d == 4 {
        assert(digit_char(d) as int == 52);
    } else if d == 5 {
        assert(digit_char(d) as int == 53);
    } else if d == 6 {
        assert(digit_char(d) as int == 54);
    } else if d == 7 {
        assert(digit_char(d) as int == 55);
    } else if d == 8 {
        assert(digit_char(d) as int == 56);
    } else {
        assert(digit_char(d) as int == 57);
    }
}

proof fn lemma_dec_val_nonneg(s: Seq<char>)
    requires
        all_digits(s),
    ensures
        dec_val(s) >= 0,
    decreases s.len(),
{
    if s.len() > 0 {
        assert(all_digits(s.drop_last()));
        lemma_dec_val_nonneg(s.drop_last());
    }
}

/// Extending a digit string cannot decrease its value.
proof fn lemma_dec_val_extend(s: Seq<char>, i: int)
    requires
        all_digits(s),
        0 <= i <= s.len(),
    ensures
        dec_val(s.subrange(0, i)) <= dec_val(s),
    decreases s.len() - i,
{
    if i < s.len() {
        lemma_dec_val_extend(s, i + 1);
        let p = s.subrange(0, i);
        let q = s.subrange(0, i + 1);
        assert(q.drop_last() =~= p);
        assert(all_digits(p));
        lemma_dec_val_nonneg(p);
        assert(dec_val(q) == dec_val(p) * 10 + (q.last() as int - 48));
        assert(dec_val(p) * 10 >= dec_val(p)) by (nonlinear_arith)
            requires
                dec_val(p) >= 0,
        ;
    } else {
        assert(s.subrange(0, i) =~= s);
    }
}

/// Parses a decimal `u64`; `None` on an empty string, a non-digit, or
/// overflow.
pub fn parse_u64(s: &str) -> (r: Option<u64>)
    ensures
        r == parse_u64_spec(s@),
{
    let n = s.unicode_len();
    if n == 0 {
        return None;
    }
    let mut acc: u64 = 0;
    let mut i: usize = 0;
    while i < n
        invariant
            n == s@.len(),
            0 < n,
            i <= n,
            all_digits(s@.subrange(0, i as int)),
            acc == dec_val(s@.subrange(0, i as int)),
        decreases n - i,
    {
        let c = s.get_char(i);
        if !('0' <= c && c <= '9') {
            assert(!is_digit(s@[i as int]));
            assert(!all_digits(s@));
            return None;
        }
        let d: u64 = (c as u8 - 48) as u64;
        proof {
            assert(d == s@[i as int] as int - 48);
        }
        if acc > (u64::MAX - d) / 10 {
            proof {
                let p = s@.subrange(0, i as int);
                let q = s@.subrange(0, i as int + 1);
                assert(q.drop_last() =~= p);
                assert(q.last() == s@[i as int]);
                assert(dec_val(q) == dec_val(p) * 10 + d);
                assert(dec_val(p) * 10 + d > u64::MAX) by (nonlinear_arith)
                    requires
                        dec_val(p) > (u64::MAX - d) / 10,
                        0 <= d <= 9,
                        dec_val(p) >= 0,
                ;
                if all_digits(s@) {
                    lemma_dec_val_extend(s@, i as int + 1);
                }
            }
            return None;
        }
        proof {
            let p = s@.subrange(0, i as int);
            let q = s@.subrange(0, i as int + 1);
            assert(q.drop_last() =~= p);
            assert(q.last() == s@[i as int]);
            assert(dec_val(p) * 10 + d <= u64::MAX) by (nonlinear_arith)
                requires
                    dec_val(p) <= (u64::MAX - d) / 10,
                    0 <= d <= 9,
                    dec_val(p) >= 0,
            ;
            lemma_dec_val_nonneg(p);
        }
        acc = acc * 10 + d;
        i = i + 1;
    }
    proof {
        assert(s@.subrange(0, n as int) =~= s@);
    }
    Some(acc)
}

/// One digit as a character.
fn digit_to_char(d: u64) -> (r: char)
    requires
        d < 10,
    ensures
        r == digit_char(d as int),
{
    match d {
        0 => '0',
        1 => '1',
        2 => '2',
        3 => '3',
        4 => '4',
        5 => '5',
        6 => '6',
        7 => '7',
        8 => '8',
        _ => '9',
    }
}

fn push_u64_dec(n: u64, out: &mut String)
    ensures
        final(out)@ == old(out)@ + u64_dec(n as int),
    decreases n,
{
    if n < 10 {
        out.push(digit_to_char(n));
        proof {
            assert(final(out)@ =~= old(out)@ + u64_dec(n as int));
        }
    } else {
        assert(n / 10 < n) by (nonlinear_arith)
            requires
                n >= 10,
        ;
        push_u64_dec(n / 10, out);
        out.push(digit_to_char(n % 10));
        proof {
            assert(final(out)@ =~= old(out)@ + u64_dec(n as int));
        }
    }
}

/// The canonical decimal encoding, as a `String`.
pub fn u64_to_dec(n: u64) -> (r: String)
    ensures
        r@ == u64_dec(n as int),
{
    let mut s = String::new();
    push_u64_dec(n, &mut s);
    proof {
        assert(s@ =~= u64_dec(n as int));
    }
    s
}

/// The canonical encoding parses back to the number it encodes.
pub proof fn lemma_dec_roundtrip(n: u64)
    ensures
        parse_u64_spec(u64_dec(n as int)) == Some(n),
    decreases n,
{
    if n < 10 {
        let s = u64_dec(n as int);
        lemma_digit_char_val(n as int);
        assert(s.drop_last() =~= Seq::<char>::empty());
        assert(dec_val(Seq::<char>::empty()) == 0);
        assert(s.last() == digit_char(n as int));
        assert(dec_val(s) == dec_val(s.drop_last()) * 10 + (s.last() as int - 48));
        assert(dec_val(s) == n);
        assert(all_digits(s));
    } else {
        assert(n / 10 < n) by (nonlinear_arith)
            requires
                n >= 10,
        ;
        lemma_dec_roundtrip(n / 10);
        let p = u64_dec(n as int / 10);
        let s = u64_dec(n as int);
        lemma_digit_char_val(n as int % 10);
        lemma_dec_val_nonneg(p);
        assert(s == p.push(digit_char(n as int % 10)));
        assert(s.drop_last() =~= p);
        assert(s.last() == digit_char(n as int % 10));
        assert(s.last() as int - 48 == n as int % 10);
        assert(dec_val(s) == dec_val(p) * 10 + n as int % 10);
        assert(dec_val(p) == n as int / 10);
        assert((n as int / 10) * 10 + n as int % 10 == n as int) by (nonlinear_arith);
        assert(forall|i: int| 0 <= i < p.len() ==> is_digit(#[trigger] s[i]));
        assert(is_digit(s[s.len() - 1]));
        assert(all_digits(s));
    }
}

/// Two-digit number starting at position `i`.
pub open spec fn ts_num2(s: Seq<char>, i: int) -> int {
    (s[i] as int - 48) * 10 + (s[i + 1] as int - 48)
}

/// The four-digit year of a timestamp string.
pub open spec fn ts_year(s: Seq<char>) -> int {
    (s[0] as int - 48) * 1000 + (s[1] as int - 48) * 100 + ts_num2(s, 2)
}

pub open spec fn ts_month(s: Seq<char>) -> int {
    ts_num2(s, 5)
}

pub open spec fn ts_day(s: Seq<char>) -> int {
    ts_num2(s, 8)
}

pub open spec fn is_leap_year(y: int) -> bool {
    y % 4 == 0 && (y % 100 != 0 || y % 400 == 0)
}

pub open spec fn days_in_month(y: int, m: int) -> int {
    if m == 2 {
        if is_leap_year(y) {
            29
        } else {
            28
        }
    } else if m == 4 || m == 6 || m == 9 || m == 11 {
        30
    } else {
        31
    }
}

/// The character expected at each position of `YYYY-MM-DD HH:MM:SS`.
pub open spec fn ts_char_ok(s: Seq<char>, i: int) -> bool {
    if i == 4 || i == 7 {
        s[i] == '-'
    } else if i == 10 {
        s[i] == ' '
    } else if i == 13 || i == 16 {
        s[i] == ':'
    } else {
        is_digit(s[i])
    }
}

/// A well-formed stored timestamp: the fixed 19-character shape with
/// calendar-valid date and in-range time fields.
pub open spec fn is_valid_ts(s: Seq<char>) -> bool {
    &&& s.len() == 19
    &&& forall|i: int| 0 <= i < 19 ==> ts_char_ok(s, i)
    &&& 1 <= ts_month(s) <= 12
    &&& 1 <= ts_day(s) <= days_in_month(ts_year(s), ts_month(s))
    &&& ts_num2(s, 11) <= 23
    &&& ts_num2(s, 14) <= 59
    &&& ts_num2(s, 17) <= 59
}

fn char_digit(c: char) -> (d: u8)
    requires
        is_digit(c),
    ensures
        d as int == c as int - 48,
{
    (c as u8) - 48
}

fn num2_at(s: &str, i: usize) -> (n: u8)
    requires
        s@.len() == 19,
        i + 1 < 19,
        is_digit(s@[i as int]),
        is_digit(s@[i as int + 1]),
    ensures
        n as int == ts_num2(s@, i as int),
{
    let hi = char_digit(s.get_char(i));
    let lo = char_digit(s.get_char(i + 1));
    hi * 10 + lo
}

/// Decides `is_valid_ts` on string slices.
pub fn is_valid_timestamp(s: &str) -> (r: bool)
    ensures
        r == is_valid_ts(s@),
{
    if s.unicode_len() != 19 {
        return false;
    }
    let mut i: usize = 0;
    while i < 19
        invariant
            s@.len() == 19,
            i <= 19,
            forall|j: int| 0 <= j < i ==> ts_char_ok(s@, j),
        decreases 19 - i,
    {
        let c = s.get_char(i);
        let ok: bool = if i == 4 || i == 7 {
            c == '-'
        } else if i == 10 {
            c == ' '
        } else if i == 13 || i == 16 {
            c == ':'
        } else {
            '0' <= c && c <= '9'
        };
        if !ok {
            assert(!ts_char_ok(s@, i as int));
            return false;
        }
        i = i + 1;
    }
    proof {
        assert(ts_char_ok(s@, 0) && ts_char_ok(s@, 1) && ts_char_ok(s@, 2) && ts_char_ok(s@, 3));
        assert(ts_char_ok(s@, 5) && ts_char_ok(s@, 6) && ts_char_ok(s@, 8) && ts_char_ok(s@, 9));
        assert(ts_char_ok(s@, 11) && ts_char_ok(s@, 12) && ts_char_ok(s@, 14) && ts_char_ok(
            s@,
            15,
        ));
        assert(ts_char_ok(s@, 17) && ts_char_ok(s@, 18));
    }
    let d0 = char_digit(s.get_char(0));
    let d1 = char_digit(s.get_char(1));
    let year: u32 = (d0 as u32) * 1000 + (d1 as u32) * 100 + num2_at(s, 2) as u32;
    let month = num2_at(s, 5);
    let day = num2_at(s, 8);
    let hour = num2_at(s, 11);
    let minute = num2_at(s, 14);
    let second = num2_at(s, 17);
    if !(1 <= month && month <= 12) {
        return false;
    }
    let dim: u8 = if month == 2 {
        if year % 4 == 0 && (year % 100 != 0 || year % 400 == 0) {
            29
        } else {
            28
        }
    } else if month == 4 || month == 6 || month == 9 || month == 11 {
        30
    } else {
        31
    };
    assert(dim as int == days_in_month(ts_year(s@), ts_month(s@)));
    1 <= day && day <= dim && hour <= 23 && minute <= 59 && second <= 59
}

} // verus!
