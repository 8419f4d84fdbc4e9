//! Character-level text utilities for the assembler: whitespace handling,
//! line splitting, tokenization, and decimal integer parsing with the same
//! grammar as the standard library's integer parser.

use vstd::prelude::*;
use vstd::string::StrSliceExecFns;

verus! {

/// Unicode whitespace, as the standard library's `char::is_whitespace`
/// classifies it.
pub open spec fn is_space_char(c: char) -> bool {
    let u = c as u32;
    u == 32 || u == 9 || u == 10 || u == 13 || u == 11 || u == 12 || u == 0x85 || u == 0xA0
        || u == 0x1680 || (0x2000 <= u && u <= 0x200A) || u == 0x2028 || u == 0x2029 || u == 0x202F
        || u == 0x205F || u == 0x3000
}

pub fn is_space(c: char) -> (r: bool)
    ensures
        r == is_space_char(c),
{
    let u = c as u32;
    u == 32 || u == 9 || u == 10 || u == 13 || u == 11 || u == 12 || u == 0x85 || u == 0xA0
        || u == 0x1680 || (0x2000 <= u && u <= 0x200A) || u == 0x2028 || u == 0x2029 || u == 0x202F
        || u == 0x205F || u == 0x3000
}

/// An ASCII decimal digit.
pub open spec fn is_digit_char(c: char) -> bool {
    48 <= (c as u32) && (c as u32) <= 57
}

pub open spec fn digit_val(c: char) -> int {
    (c as u32) - 48
}

/// The value of a digit string, most significant digit first.
pub open spec fn digits_val(s: Seq<char>) -> int
    decreases s.len(),
{
    if s.len() == 0 {
        0
    } else {
        digits_val(s.drop_last()) * 10 + digit_val(s.last())
    }
}

/// A non-empty, all-digit string.
pub open spec fn all_digits(s: Seq<char>) -> bool {
    s.len() > 0 && forall|i: int| 0 <= i < s.len() ==> is_digit_char(#[trigger] s[i])
}

/// The grammar of the standard library's signed 32-bit parser: an optional
/// sign, then one or more ASCII digits, with the value in range.
pub open spec fn parse_i32_spec(s: Seq<char>) -> Option<i32> {
    let neg = s.len() > 0 && s[0] == '-';
    let digits = if s.len() > 0 && (s[0] == '+' || s[0] == '-') {
        s.drop_first()
    } else {
        s
    };
    if !all_digits(digits) {
        None
    } else {
        let v: int = if neg {
            -digits_val(digits)
        } else {
            digits_val(digits)
        };
        if -0x8000_0000 <= v <= 0x7FFF_FFFF {
            Some(v as i32)
        } else {
            None
        }
    }
}

/// The grammar of the standard library's unsigned 32-bit parser: an
/// optional `+`, then one or more ASCII digits, with the value in range.
pub open spec fn parse_u32_spec(s: Seq<char>) -> Option<u32> {
    let digits = if s.len() > 0 && s[0] == '+' {
        s.drop_first()
    } else {
        s
    };
    if !all_digits(digits) {
        None
    } else if digits_val(digits) <= 0xFFFF_FFFF {
        Some(digits_val(digits) as u32)
    } else {
        None
    }
}

/// Reads the digit run `s[start..end]`, saturating above `u32::MAX` so
/// that overflow is still detected exactly.
#[verifier::loop_isolation(false)]
fn digits_value_sat(s: &Vec<char>, start: usize, end: usize) -> (v: u64)
    requires
        start <= end <= s@.len(),
        forall|i: int| start <= i < end ==> is_digit_char(#[trigger] s@[i]),
    ensures
        digits_val(s@.subrange(start as int, end as int)) <= u32::MAX ==> v == digits_val(
            s@.subrange(start as int, end as int),
        ),
        digits_val(s@.subrange(start as int, end as int)) > u32::MAX ==> v > u32::MAX,
{
    let mut v: u64 = 0;
    let mut i = start;
    while i < end
        invariant
            start <= i <= end,
            digits_val(s@.subrange(start as int, i as int)) <= u32::MAX ==> v == digits_val(
                s@.subrange(start as int, i as int),
            ),
            digits_val(s@.subrange(start as int, i as int)) > u32::MAX ==> u32::MAX < v
                <= 0xF_FFFF_FFFF,
            v <= 0xF_FFFF_FFFF,
        decreases end - i,
    {
        let ghost pre = s@.subrange(start as int, i as int);
        let ghost cur = s@.subrange(start as int, i as int + 1);
        proof {
            assert(cur.drop_last() =~= pre);
            assert(cur.last() == s@[i as int]);
            assert(digits_val(cur) == digits_val(pre) * 10 + digit_val(s@[i as int]));
        }
        let c = s[i];
        let d = (c as u32) - 48;
        if v <= u32::MAX as u64 {
            v = v * 10 + d as u64;
        }
        i = i + 1;
    }
    proof {
        assert(s@.subrange(start as int, end as int) == s@.subrange(start as int, i as int));
    }
    v
}

/// Parses a signed 32-bit integer with the standard grammar.
#[verifier::loop_isolation(false)]
pub fn parse_int_chars(s: &Vec<char>) -> (r: Option<i32>)
    ensures
        r == parse_i32_spec(s@),
{
    let n = s.len();
    if n == 0 {
        return None;
    }
    let c0 = s[0];
    let neg = c0 == '-';
    let start: usize = if c0 == '+' || c0 == '-' {
        1
    } else {
        0
    };
    proof {
        if start == 1 {
            assert(s@.drop_first() =~= s@.subrange(1, n as int));
        } else {
            assert(s@ =~= s@.subrange(0, n as int));
        }
    }
    if start == n {
        return None;
    }
    let mut i = start;
    while i < n
        invariant
            start <= i <= n,
            n == s@.len(),
            forall|k: int| start <= k < i ==> is_digit_char(#[trigger] s@[k]),
        decreases n - i,
    {
        let c = s[i];
        if !((48 <= (c as u32)) && ((c as u32) <= 57)) {
            proof {
                let digits = s@.subrange(start as int, n as int);
                assert(digits[i - start] == s@[i as int]);
                assert(!all_digits(digits));
                assert(parse_i32_spec(s@) is None);
            }
            return None;
        }
        i = i + 1;
    }
    let v = digits_value_sat(s, start, n);
    let ghost digits = s@.subrange(start as int, n as int);
    proof {
        assert(all_digits(digits));
        assert(digits == (if s@.len() > 0 && (s@[0] == '+' || s@[0] == '-') {
            s@.drop_first()
        } else {
            s@
        }));
    }
    if neg {
        if v > 0x8000_0000u64 {
            None
        } else {
            Some((-(v as i64)) as i32)
        }
    } else {
        if v > 0x7FFF_FFFFu64 {
            None
        } else {
            Some(v as i32)
        }
    }
}

/// Parses an unsigned 32-bit integer with the standard grammar.
#[verifier::loop_isolation(false)]
pub fn parse_uint_chars(s: &Vec<char>) -> (r: Option<u32>)
    ensures
        r == parse_u32_spec(s@),
{
    let n = s.len();
    if n == 0 {
        return None;
    }
    let c0 = s[0];
    let start: usize = if c0 == '+' {
        1
    } else {
        0
    };
    proof {
        if start == 1 {
            assert(s@.drop_first() =~= s@.subrange(1, n as int));
        } else {
            assert(s@ =~= s@.subrange(0, n as int));
        }
    }
    if start == n {
        return None;
    }
    let mut i = start;
    while i < n
        invariant
            start <= i <= n,
            n == s@.len(),
            forall|k: int| start <= k < i ==> is_digit_char(#[trigger] s@[k]),
        decreases n - i,
    {
        let c = s[i];
        if !((48 <= (c as u32)) && ((c as u32) <= 57)) {
            proof {
                let digits = s@.subrange(start as int, n as int);
                assert(digits[i - start] == s@[i as int]);
                assert(!all_digits(digits));
            }
            return None;
        }
        i = i + 1;
    }
    let v = digits_value_sat(s, start, n);
    let ghost digits = s@.subrange(start as int, n as int);
    proof {
        assert(all_digits(digits));
    }
    if v > 0xFFFF_FFFFu64 {
        None
    } else {
        Some(v as u32)
    }
}

/// The texts of a sequence of character vectors.
pub open spec fn views_of(v: Seq<Vec<char>>) -> Seq<Seq<char>> {
    Seq::new(v.len(), |i: int| v[i]@)
}

/// Leading whitespace removed.
pub open spec fn trim_start_spec(s: Seq<char>) -> Seq<char>
    decreases s.len(),
{
    if s.len() > 0 && is_space_char(s[0]) {
        trim_start_spec(s.drop_first())
    } else {
        s
    }
}

/// Trailing whitespace removed.
pub open spec fn trim_end_spec(s: Seq<char>) -> Seq<char>
    decreases s.len(),
{
    if s.len() > 0 && is_space_char(s.last()) {
        trim_end_spec(s.drop_last())
    } else {
        s
    }
}

/// Leading and trailing whitespace removed.
pub open spec fn trim_spec(s: Seq<char>) -> Seq<char> {
    trim_end_spec(trim_start_spec(s))
}

/// Trims a line of characters.
#[verifier::loop_isolation(false)]
pub fn trim_chars(s: &Vec<char>) -> (r: Vec<char>)
    ensures
        r@ == trim_spec(s@),
{
    let n = s.len();
    let mut a: usize = 0;
    proof {
        assert(s@.subrange(0, n as int) =~= s@);
    }
    while a < n && is_space(s[a])
        invariant
            0 <= a <= n,
            n == s@.len(),
            trim_start_spec(s@) == trim_start_spec(s@.subrange(a as int, n as int)),
        decreases n - a,
    {
        proof {
            assert(s@.subrange(a as int, n as int).drop_first() =~= s@.subrange(
                a as int + 1,
                n as int,
            ));
        }
        a = a + 1;
    }
    proof {
        if a < n {
            assert(trim_start_spec(s@) == s@.subrange(a as int, n as int));
        } else {
            assert(s@.subrange(a as int, n as int) =~= Seq::<char>::empty());
            assert(trim_start_spec(s@) =~= s@.subrange(a as int, n as int));
        }
    }
    let mut b: usize = n;
    while b > a && is_space(s[b - 1])
        invariant
            a <= b <= n,
            n == s@.len(),
            trim_end_spec(s@.subrange(a as int, n as int)) == trim_end_spec(
                s@.subrange(a as int, b as int),
            ),
        decreases b,
    {
        proof {
            assert(s@.subrange(a as int, b as int).drop_last() =~= s@.subrange(
                a as int,
                b as int - 1,
            ));
            assert(s@.subrange(a as int, b as int).last() == s@[b - 1]);
        }
        b = b - 1;
    }
    proof {
        if b > a {
            assert(s@.subrange(a as int, b as int).last() == s@[b - 1]);
            assert(trim_end_spec(s@.subrange(a as int, b as int)) == s@.subrange(
                a as int,
                b as int,
            ));
        } else {
            assert(s@.subrange(a as int, b as int) =~= Seq::<char>::empty());
        }
    }
    let mut r: Vec<char> = Vec::new();
    let mut k = a;
    while k < b
        invariant
            a <= k <= b <= n,
            n == s@.len(),
            r@ =~= s@.subrange(a as int, k as int),
        decreases b - k,
    {
        r.push(s[k]);
        proof {
            assert(r@ =~= s@.subrange(a as int, k as int + 1));
        }
        k = k + 1;
    }
    proof {
        assert(r@ == s@.subrange(a as int, b as int));
    }
    r
}

/// Whitespace-separated tokens of `s`, given the token collected so far.
pub open spec fn tokens_from(s: Seq<char>, cur: Seq<char>) -> Seq<Seq<char>>
    decreases s.len(),
{
    if s.len() == 0 {
        if cur.len() == 0 {
            Seq::empty()
        } else {
            seq![cur]
        }
    } else if is_space_char(s[0]) {
        if cur.len() == 0 {
            tokens_from(s.drop_first(), Seq::empty())
        } else {
            seq![cur] + tokens_from(s.drop_first(), Seq::empty())
        }
    } else {
        tokens_from(s.drop_first(), cur.push(s[0]))
    }
}

/// The whitespace-separated tokens of `s`.
pub open spec fn tokens_spec(s: Seq<char>) -> Seq<Seq<char>> {
    tokens_from(s, Seq::empty())
}

/// Splits a line into whitespace-separated tokens.
#[verifier::loop_isolation(false)]
pub fn tokenize(s: &Vec<char>) -> (r: Vec<Vec<char>>)
    ensures
        views_of(r@) == tokens_spec(s@),
{
    let n = s.len();
    let mut toks: Vec<Vec<char>> = Vec::new();
    let mut cur: Vec<char> = Vec::new();
    let mut i: usize = 0;
    proof {
        assert(s@.subrange(0, n as int) =~= s@);
        assert(Seq::<Seq<char>>::empty() + tokens_spec(s@) =~= tokens_spec(s@));
        assert(views_of(toks@) =~= Seq::<Seq<char>>::empty());
    }
    while i < n
        invariant
            0 <= i <= n,
            n == s@.len(),
            tokens_spec(s@) == views_of(toks@) + tokens_from(
                s@.subrange(i as int, n as int),
                cur@,
            ),
        decreases n - i,
    {
        let ghost rest = s@.subrange(i as int, n as int);
        proof {
            assert(rest.drop_first() =~= s@.subrange(i as int + 1, n as int));
            assert(rest[0] == s@[i as int]);
            if cur@.len() == 0 {
                assert(cur@ =~= Seq::<char>::empty());
            }
        }
        let c = s[i];
        if is_space(c) {
            if cur.len() > 0 {
                let ghost a = views_of(toks@);
                let ghost t = tokens_from(rest.drop_first(), Seq::empty());
                let done = cur;
                cur = Vec::new();
                toks.push(done);
                proof {
                    assert(views_of(toks@) =~= a.push(done@));
                    assert(a.push(done@) + t =~= a + (seq![done@] + t));
                }
            }
        } else {
            cur.push(c);
        }
        i = i + 1;
    }
    proof {
        assert(s@.subrange(i as int, n as int) =~= Seq::<char>::empty());
    }
    if cur.len() > 0 {
        let ghost a = views_of(toks@);
        let done = cur;
        toks.push(done);
        proof {
            assert(views_of(toks@) =~= a.push(done@));
            assert(a.push(done@) =~= a + seq![done@]);
        }
    } else {
        proof {
            assert(views_of(toks@) + Seq::<Seq<char>>::empty() =~= views_of(toks@));
        }
    }
    toks
}

/// The raw lines of `s`, split on newline characters only, with the line
/// collected so far.
pub open spec fn raw_lines(s: Seq<char>, cur: Seq<char>) -> Seq<Seq<char>>
    decreases s.len(),
{
    if s.len() == 0 {
        seq![cur]
    } else if s[0] == '\n' {
        seq![cur] + raw_lines(s.drop_first(), Seq::empty())
    } else {
        raw_lines(s.drop_first(), cur.push(s[0]))
    }
}

/// Raw lines trimmed, with blank lines dropped.
pub open spec fn clean_lines(ls: Seq<Seq<char>>) -> Seq<Seq<char>>
    decreases ls.len(),
{
    if ls.len() == 0 {
        Seq::empty()
    } else {
        let t = trim_spec(ls[0]);
        let rest = clean_lines(ls.drop_first());
        if t.len() == 0 {
            rest
        } else {
            seq![t] + rest
        }
    }
}

/// The significant source lines: split on newlines, trimmed, blanks
/// dropped.
pub open spec fn split_lines_spec(s: Seq<char>) -> Seq<Seq<char>> {
    clean_lines(raw_lines(s, Seq::empty()))
}

/// Splits source text into trimmed, non-blank lines.
#[verifier::loop_isolation(false)]
pub fn split_lines(s: &Vec<char>) -> (r: Vec<Vec<char>>)
    ensures
        views_of(r@) == split_lines_spec(s@),
{
    let n = s.len();
    let mut raw: Vec<Vec<char>> = Vec::new();
    let mut cur: Vec<char> = Vec::new();
    let mut i: usize = 0;
    proof {
        assert(s@.subrange(0, n as int) =~= s@);
        assert(Seq::<Seq<char>>::empty() + raw_lines(s@, Seq::empty()) =~= raw_lines(
            s@,
            Seq::empty(),
        ));
        assert(views_of(raw@) =~= Seq::<Seq<char>>::empty());
    }
    while i < n
        invariant
            0 <= i <= n,
            n == s@.len(),
            raw_lines(s@, Seq::empty()) == views_of(raw@) + raw_lines(
                s@.subrange(i as int, n as int),
                cur@,
            ),
        decreases n - i,
    {
        let ghost rest = s@.subrange(i as int, n as int);
        proof {
            assert(rest.drop_first() =~= s@.subrange(i as int + 1, n as int));
            assert(rest[0] == s@[i as int]);
        }
        let c = s[i];
        if c == '\n' {
            let ghost a = views_of(raw@);
            let ghost t = raw_lines(rest.drop_first(), Seq::empty());
            let done = cur;
            cur = Vec::new();
            raw.push(done);
            proof {
                assert(views_of(raw@) =~= a.push(done@));
                assert(a.push(done@) + t =~= a + (seq![done@] + t));
            }
        } else {
            cur.push(c);
        }
        i = i + 1;
    }
    proof {
        assert(s@.subrange(i as int, n as int) =~= Seq::<char>::empty());
    }
    let ghost a = views_of(raw@);
    let done = cur;
    raw.push(done);
    proof {
        assert(views_of(raw@) =~= a.push(done@));
        assert(a.push(done@) =~= a + seq![done@]);
    }
    let m = raw.len();
    let mut out: Vec<Vec<char>> = Vec::new();
    let mut k: usize = 0;
    proof {
        assert(views_of(raw@).subrange(0, m as int) =~= views_of(raw@));
        assert(Seq::<Seq<char>>::empty() + clean_lines(views_of(raw@)) =~= clean_lines(
            views_of(raw@),
        ));
        assert(views_of(out@) =~= Seq::<Seq<char>>::empty());
    }
    while k < m
        invariant
            0 <= k <= m,
            m == raw@.len(),
            clean_lines(views_of(raw@)) == views_of(out@) + clean_lines(
                views_of(raw@).subrange(k as int, m as int),
            ),
        decreases m - k,
    {
        let ghost rest = views_of(raw@).subrange(k as int, m as int);
        proof {
            assert(rest.drop_first() =~= views_of(raw@).subrange(k as int + 1, m as int));
            assert(rest[0] == raw@[k as int]@);
        }
        let t = trim_chars(&raw[k]);
        if t.len() > 0 {
            let ghost a = views_of(out@);
            let ghost tv = t@;
            let ghost c = clean_lines(rest.drop_first());
            out.push(t);
            proof {
                assert(views_of(out@) =~= a.push(tv));
                assert(a.push(tv) + c =~= a + (seq![tv] + c));
            }
        }
        k = k + 1;
    }
    proof {
        assert(views_of(raw@).subrange(k as int, m as int) =~= Seq::<Seq<char>>::empty());
        assert(views_of(out@) + Seq::<Seq<char>>::empty() =~= views_of(out@));
    }
    out
}

/// Relies on `String::push`: appends exactly the given character.
#[verifier::external_body]
fn push_char(s: &mut String, c: char)
    ensures
        final(s)@ == old(s)@.push(c),
{
    s.push(c);
}

/// Builds a `String` from a character vector.
#[verifier::loop_isolation(false)]
pub fn chars_to_string(v: &Vec<char>) -> (s: String)
    ensures
        s@ == v@,
{
    let n = v.len();
    let mut s = String::new();
    let mut i: usize = 0;
    while i < n
        invariant
            0 <= i <= n,
            n == v@.len(),
            s@ =~= v@.subrange(0, i as int),
        decreases n - i,
    {
        push_char(&mut s, v[i]);
        proof {
            assert(s@ =~= v@.subrange(0, i as int + 1));
        }
        i = i + 1;
    }
    proof {
        assert(s@ == v@);
    }
    s
}

/// Collects the characters of a string slice.
#[verifier::loop_isolation(false)]
pub fn str_to_chars(s: &str) -> (v: Vec<char>)
    ensures
        v@ == s@,
{
    let n = s.unicode_len();
    let mut v: Vec<char> = Vec::new();
    let mut i: usize = 0;
    while i < n
        invariant
            0 <= i <= n,
            n == s@.len(),
            v@ =~= s@.subrange(0, i as int),
        decreases n - i,
    {
        v.push(s.get_char(i));
        proof {
            assert(v@ =~= s@.subrange(0, i as int + 1));
        }
        i = i + 1;
    }
    proof {
        assert(v@ == s@);
    }
    v
}

/// Copies a character vector.
#[verifier::loop_isolation(false)]
pub fn clone_chars(v: &Vec<char>) -> (r: Vec<char>)
    ensures
        r@ == v@,
{
    let n = v.len();
    let mut r: Vec<char> = Vec::new();
    let mut i: usize = 0;
    while i < n
        invariant
            0 <= i <= n,
            n == v@.len(),
            r@ =~= v@.subrange(0, i as int),
        decreases n - i,
    {
        r.push(v[i]);
        proof {
            assert(r@ =~= v@.subrange(0, i as int + 1));
        }
        i = i + 1;
    }
    proof {
        assert(r@ == v@);
    }
    r
}

/// Whether two character vectors hold the same text.
#[verifier::loop_isolation(false)]
pub fn chars_eq(a: &Vec<char>, b: &Vec<char>) -> (r: bool)
    ensures
        r == (a@ == b@),
{
    if a.len() != b.len() {
        proof {
            assert(a@ != b@);
        }
        return false;
    }
    let n = a.len();
    let mut i: usize = 0;
    while i < n
        invariant
            0 <= i <= n,
            n == a@.len() == b@.len(),
            forall|k: int| 0 <= k < i ==> a@[k] == b@[k],
        decreases n - i,
    {
        if a[i] != b[i] {
            proof {
                assert(a@[i as int] != b@[i as int]);
            }
            return false;
        }
        i = i + 1;
    }
    proof {
        assert(a@ =~= b@);
    }
    true
}

/// Whether a token holds the same text as a literal.
#[verifier::loop_isolation(false)]
pub fn tok_is(tok: &Vec<char>, lit: &str) -> (r: bool)
    ensures
        r == (tok@ == lit@),
{
    let n = lit.unicode_len();
    if tok.len() != n {
        proof {
            assert(tok@ != lit@);
        }
        return false;
    }
    let mut i: usize = 0;
    while i < n
        invariant
            0 <= i <= n,
            n == tok@.len() == lit@.len(),
            forall|k: int| 0 <= k < i ==> tok@[k] == lit@[k],
        decreases n - i,
    {
        if tok[i] != lit.get_char(i) {
            proof {
                assert(tok@[i as int] != lit@[i as int]);
            }
            return false;
        }
        i = i + 1;
    }
    proof {
        assert(tok@ =~= lit@);
    }
    true
}

/// Whether `s` begins with the text of `prefix`.
pub open spec fn starts_with_spec(s: Seq<char>, prefix: Seq<char>) -> bool {
    s.len() >= prefix.len() && s.subrange(0, prefix.len() as int) == prefix
}

/// Whether a line begins with a literal prefix.
#[verifier::loop_isolation(false)]
pub fn starts_with_lit(s: &Vec<char>, prefix: &str) -> (r: bool)
    ensures
        r == starts_with_spec(s@, prefix@),
{
    let n = prefix.unicode_len();
    if s.len() < n {
        return false;
    }
    let mut i: usize = 0;
    while i < n
        invariant
            0 <= i <= n,
            n == prefix@.len(),
            n <= s@.len(),
            forall|k: int| 0 <= k < i ==> s@[k] == prefix@[k],
        decreases n - i,
    {
        if s[i] != prefix.get_char(i) {
            proof {
                assert(s@.subrange(0, n as int)[i as int] != prefix@[i as int]);
            }
            return false;
        }
        i = i + 1;
    }
    proof {
        assert(s@.subrange(0, n as int) =~= prefix@);
    }
    true
}

} // verus!
