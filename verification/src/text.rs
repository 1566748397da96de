//! Characters and strings, as the harness reads and writes them.
//!
//! Every function here is specified over `Seq<char>`, the view of a `str`.
use vstd::prelude::*;

verus! {

/// `String::push`, which appends one character.
#[verifier::external_body]
pub(crate) fn push_char(s: &mut String, c: char)
    ensures
        final(s)@ == old(s)@.push(c),
{
    s.push(c);
}

/// `String::push_str`, which appends a string slice.
#[verifier::external_body]
pub(crate) fn push_str(s: &mut String, t: &str)
    ensures
        final(s)@ == old(s)@ + t@,
{
    s.push_str(t);
}

/// The characters of `s`, in order.
pub fn chars_of(s: &str) -> (r: Vec<char>)
    ensures
        r@ == s@,
{
    let mut r: Vec<char> = Vec::new();
    for c in it: s.chars()
        invariant
            r@ == it.seq().take(it.index() as int),
    {
        r.push(c);
    }
    r
}

/// A string holding exactly the characters of `cs[from..to]`.
pub fn string_of(cs: &Vec<char>, from: usize, to: usize) -> (r: String)
    requires
        from <= to <= cs.len(),
    ensures
        r@ == cs@.subrange(from as int, to as int),
{
    let mut r = String::new();
    let mut i = from;
    while i < to
        invariant
            from <= i <= to <= cs.len(),
            r@ == cs@.subrange(from as int, i as int),
        decreases to - i,
    {
        push_char(&mut r, cs[i]);
        i += 1;
        assert(r@ =~= cs@.subrange(from as int, i as int));
    }
    r
}

/// A copy of `s` as an owned string.
pub fn owned(s: &str) -> (r: String)
    ensures
        r@ == s@,
{
    s.to_owned()
}

/// Whether two strings hold the same characters.
pub fn str_eq(a: &str, b: &str) -> (r: bool)
    ensures
        r == (a@ == b@),
{
    let x = chars_of(a);
    let y = chars_of(b);
    if x.len() != y.len() {
        return false;
    }
    let mut i: usize = 0;
    while i < x.len()
        invariant
            x@ == a@,
            y@ == b@,
            x.len() == y.len(),
            i <= x.len(),
            forall|j: int| 0 <= j < i ==> x@[j] == y@[j],
        decreases x.len() - i,
    {
        if x[i] != y[i] {
            return false;
        }
        i += 1;
    }
    assert(x@ =~= y@);
    true
}

// ---------------------------------------------------------------------------
// Whitespace and trimming

/// `char::is_whitespace`: the Unicode `White_Space` property.
pub open spec fn is_ws(c: char) -> bool {
    ||| c == ' '
    ||| ('\t' <= c && c <= '\r')
    ||| c == '\u{85}'
    ||| c == '\u{a0}'
    ||| c == '\u{1680}'
    ||| ('\u{2000}' <= c && c <= '\u{200a}')
    ||| c == '\u{2028}'
    ||| c == '\u{2029}'
    ||| c == '\u{202f}'
    ||| c == '\u{205f}'
    ||| c == '\u{3000}'
}

pub fn is_whitespace(c: char) -> (r: bool)
    ensures
        r == is_ws(c),
{
    c == ' ' || ('\t' <= c && c <= '\r') || c == '\u{85}' || c == '\u{a0}' || c == '\u{1680}' || (
    '\u{2000}' <= c && c <= '\u{200a}') || c == '\u{2028}' || c == '\u{2029}' || c == '\u{202f}'
        || c == '\u{205f}' || c == '\u{3000}'
}

/// `s` without its leading whitespace.
pub open spec fn trim_start(s: Seq<char>) -> Seq<char>
    decreases s.len(),
{
    if s.len() > 0 && is_ws(s[0]) {
        trim_start(s.drop_first())
    } else {
        s
    }
}

/// `s` without its trailing whitespace.
pub open spec fn trim_end(s: Seq<char>) -> Seq<char>
    decreases s.len(),
{
    if s.len() > 0 && is_ws(s.last()) {
        trim_end(s.drop_last())
    } else {
        s
    }
}

/// `str::trim`.
pub open spec fn trim(s: Seq<char>) -> Seq<char> {
    trim_end(trim_start(s))
}

/// Everything that is not leading whitespace starts at `start`.
proof fn lemma_trim_start_at(s: Seq<char>, start: int)
    requires
        0 <= start <= s.len(),
        forall|k: int| 0 <= k < start ==> is_ws(#[trigger] s[k]),
        start == s.len() || !is_ws(s[start]),
    ensures
        trim_start(s) == s.subrange(start, s.len() as int),
    decreases start,
{
    if start == 0 {
        assert(s.subrange(0, s.len() as int) =~= s);
    } else {
        assert(forall|k: int|
            0 <= k < start - 1 ==> #[trigger] s.drop_first()[k] == s[k + 1]);
        lemma_trim_start_at(s.drop_first(), start - 1);
        assert(s.drop_first().subrange(start - 1, s.drop_first().len() as int) =~= s.subrange(
            start,
            s.len() as int,
        ));
    }
}

/// Everything that is not trailing whitespace ends at `end`.
proof fn lemma_trim_end_at(s: Seq<char>, end: int)
    requires
        0 <= end <= s.len(),
        forall|k: int| end <= k < s.len() ==> is_ws(#[trigger] s[k]),
        end == 0 || !is_ws(s[end - 1]),
    ensures
        trim_end(s) == s.subrange(0, end),
    decreases s.len() - end,
{
    if end == s.len() {
        assert(s.subrange(0, end) =~= s);
    } else {
        lemma_trim_end_at(s.drop_last(), end);
        assert(s.drop_last().subrange(0, end) =~= s.subrange(0, end));
    }
}

/// The bounds of `trim(cs[from..to])` inside `cs`.
pub fn trim_bounds(cs: &Vec<char>, from: usize, to: usize) -> (r: (usize, usize))
    requires
        from <= to <= cs.len(),
    ensures
        from <= r.0 <= r.1 <= to,
        cs@.subrange(r.0 as int, r.1 as int) == trim(cs@.subrange(from as int, to as int)),
{
    let ghost s = cs@.subrange(from as int, to as int);
    let mut a = from;
    while a < to && is_whitespace(cs[a])
        invariant
            from <= a <= to <= cs.len(),
            forall|k: int| from <= k < a ==> is_ws(#[trigger] cs@[k]),
        decreases to - a,
    {
        a += 1;
    }
    proof {
        assert forall|k: int| 0 <= k < a - from implies is_ws(#[trigger] s[k]) by {
            assert(s[k] == cs@[k + from]);
        }
        lemma_trim_start_at(s, a - from);
        assert(s.subrange(a - from, s.len() as int) =~= cs@.subrange(a as int, to as int));
    }
    let ghost t = cs@.subrange(a as int, to as int);
    let mut b = to;
    while b > a && is_whitespace(cs[b - 1])
        invariant
            from <= a <= b <= to <= cs.len(),
            forall|k: int| b <= k < to ==> is_ws(#[trigger] cs@[k]),
        decreases b - a,
    {
        b -= 1;
    }
    proof {
        assert forall|k: int| b - a <= k < t.len() implies is_ws(#[trigger] t[k]) by {
            assert(t[k] == cs@[k + a]);
        }
        lemma_trim_end_at(t, b - a);
        assert(t.subrange(0, b - a) =~= cs@.subrange(a as int, b as int));
    }
    (a, b)
}

/// `str::trim_end`, as an owned string.
pub fn trimmed_end(s: &str) -> (r: String)
    ensures
        r@ == trim_end(s@),
{
    let cs = chars_of(s);
    let mut b = cs.len();
    while b > 0 && is_whitespace(cs[b - 1])
        invariant
            b <= cs.len(),
            forall|k: int| b <= k < cs@.len() ==> is_ws(#[trigger] cs@[k]),
        decreases b,
    {
        b -= 1;
    }
    proof {
        lemma_trim_end_at(cs@, b as int);
    }
    string_of(&cs, 0, b)
}

/// `str::trim`, as an owned string.
pub fn trimmed(s: &str) -> (r: String)
    ensures
        r@ == trim(s@),
{
    let cs = chars_of(s);
    let (a, b) = trim_bounds(&cs, 0, cs.len());
    assert(cs@.subrange(0, cs@.len() as int) =~= cs@);
    string_of(&cs, a, b)
}

// ---------------------------------------------------------------------------
// Decimal numbers

/// The ASCII digit for `d`, which is below ten.
pub open spec fn digit(d: nat) -> char {
    if d == 0 {
        '0'
    } else if d == 1 {
        '1'
    } else if d == 2 {
        '2'
    } else if d == 3 {
        '3'
    } else if d == 4 {
        '4'
    } else if d == 5 {
        '5'
    } else if d == 6 {
        '6'
    } else if d == 7 {
        '7'
    } else if d == 8 {
        '8'
    } else {
        '9'
    }
}

/// `n` written in base ten, with no leading zero: what `to_string` prints for an
/// unsigned integer.
pub open spec fn decimal(n: nat) -> Seq<char>
    decreases n,
{
    if n < 10 {
        seq![digit(n)]
    } else {
        decimal(n / 10).push(digit(n % 10))
    }
}

/// Every character of `decimal(n)` is a digit.
pub proof fn lemma_decimal_is_digits(n: nat)
    ensures
        decimal(n).len() >= 1,
        forall|i: int| 0 <= i < decimal(n).len() ==> is_digit(#[trigger] decimal(n)[i]),
    decreases n,
{
    if n >= 10 {
        lemma_decimal_is_digits(n / 10);
    }
}

/// Distinct digits are written differently.
pub proof fn lemma_digit_injective(x: nat, y: nat)
    requires
        x < 10,
        y < 10,
        digit(x) == digit(y),
    ensures
        x == y,
{
}

/// Two numbers with the same decimal digits are the same number.
pub proof fn lemma_decimal_injective(a: nat, b: nat)
    requires
        decimal(a) == decimal(b),
    ensures
        a == b,
    decreases a,
{
    if a >= 10 {
        lemma_decimal_is_digits(a / 10);
        assert(decimal(a) == decimal(a / 10).push(digit(a % 10)));
    } else {
        assert(decimal(a) == seq![digit(a)]);
    }
    if b >= 10 {
        lemma_decimal_is_digits(b / 10);
        assert(decimal(b) == decimal(b / 10).push(digit(b % 10)));
    } else {
        assert(decimal(b) == seq![digit(b)]);
    }
    if a >= 10 && b >= 10 {
        assert(decimal(a / 10) =~= decimal(a).drop_last());
        assert(decimal(b / 10) =~= decimal(b).drop_last());
        lemma_decimal_injective(a / 10, b / 10);
        assert(decimal(a).last() == digit(a % 10));
        assert(decimal(b).last() == digit(b % 10));
        lemma_digit_injective(a % 10, b % 10);
    } else if a < 10 && b < 10 {
        assert(decimal(a)[0] == digit(a));
        assert(decimal(b)[0] == digit(b));
        lemma_digit_injective(a, b);
    }
}

/// `n` written in base ten, with a leading `-` when it is negative: what
/// `to_string` prints for a signed integer.
pub open spec fn signed_decimal(n: int) -> Seq<char> {
    if n < 0 {
        seq!['-'] + decimal((-n) as nat)
    } else {
        decimal(n as nat)
    }
}

fn digit_char(d: u64) -> (c: char)
    requires
        d < 10,
    ensures
        c == digit(d as nat),
{
    if d == 0 {
        '0'
    } else if d == 1 {
        '1'
    } else if d == 2 {
        '2'
    } else if d == 3 {
        '3'
    } else if d == 4 {
        '4'
    } else if d == 5 {
        '5'
    } else if d == 6 {
        '6'
    } else if d == 7 {
        '7'
    } else if d == 8 {
        '8'
    } else {
        '9'
    }
}

/// Appends `decimal(n)` to `out`.
pub fn push_u128(out: &mut String, n: u128)
    ensures
        final(out)@ == old(out)@ + decimal(n as nat),
    decreases n,
{
    if n >= 10 {
        push_u128(out, n / 10);
    }
    push_char(out, digit_char((n % 10) as u64));
    assert(decimal(n as nat) == if n < 10 {
        seq![digit(n as nat)]
    } else {
        decimal((n / 10) as nat).push(digit((n % 10) as nat))
    });
    assert(final(out)@ =~= old(out)@ + decimal(n as nat));
}

/// `n.to_string()` for an unsigned integer.
pub fn u64_to_string(n: u64) -> (r: String)
    ensures
        r@ == decimal(n as nat),
{
    let mut r = String::new();
    push_u128(&mut r, n as u128);
    assert(r@ =~= decimal(n as nat));
    r
}

/// `n.to_string()` for a `usize`.
pub fn usize_to_string(n: usize) -> (r: String)
    ensures
        r@ == decimal(n as nat),
{
    let mut r = String::new();
    push_u128(&mut r, n as u128);
    assert(r@ =~= decimal(n as nat));
    r
}

/// Appends `signed_decimal(n)` to `out`.
pub fn push_i128(out: &mut String, n: i128)
    ensures
        final(out)@ == old(out)@ + signed_decimal(n as int),
{
    if n < 0 {
        push_char(out, '-');
        let magnitude: u128 = if n == i128::MIN {
            170141183460469231731687303715884105728u128
        } else {
            (-n) as u128
        };
        push_u128(out, magnitude);
        assert(final(out)@ =~= old(out)@ + signed_decimal(n as int));
    } else {
        push_u128(out, n as u128);
    }
}

/// `n.to_string()` for a signed integer.
pub fn i64_to_string(n: i64) -> (r: String)
    ensures
        r@ == signed_decimal(n as int),
{
    let mut r = String::new();
    push_i128(&mut r, n as i128);
    assert(r@ =~= signed_decimal(n as int));
    r
}

/// The value of a non-empty run of ASCII digits.
pub open spec fn digits_value(s: Seq<char>) -> int
    decreases s.len(),
{
    if s.len() == 0 {
        0
    } else {
        digits_value(s.drop_last()) * 10 + (s.last() as int - '0' as int)
    }
}

pub open spec fn is_digit(c: char) -> bool {
    '0' <= c && c <= '9'
}

pub open spec fn all_digits(s: Seq<char>) -> bool {
    forall|i: int| 0 <= i < s.len() ==> is_digit(#[trigger] s[i])
}

/// The magnitude of an optionally signed integer literal, as `str::parse` reads
/// one: an optional `+` or `-`, then at least one ASCII digit.
pub open spec fn unsigned_part(s: Seq<char>) -> Seq<char> {
    if s.len() > 0 && (s[0] == '+' || s[0] == '-') {
        s.drop_first()
    } else {
        s
    }
}

pub open spec fn is_negative_literal(s: Seq<char>) -> bool {
    s.len() > 0 && s[0] == '-'
}

/// What `s.parse::<i64>()` yields, when it succeeds.
pub open spec fn parse_i64(s: Seq<char>) -> Option<i64> {
    let body = unsigned_part(s);
    if body.len() == 0 || !all_digits(body) {
        None
    } else {
        let v = if is_negative_literal(s) {
            -digits_value(body)
        } else {
            digits_value(body)
        };
        if i64::MIN <= v <= i64::MAX {
            Some(v as i64)
        } else {
            None
        }
    }
}

/// What `s.parse::<u64>()` yields, when it succeeds.
pub open spec fn parse_u64(s: Seq<char>) -> Option<u64> {
    let body = if s.len() > 0 && s[0] == '+' {
        s.drop_first()
    } else {
        s
    };
    if body.len() == 0 || !all_digits(body) {
        None
    } else if digits_value(body) <= u64::MAX {
        Some(digits_value(body) as u64)
    } else {
        None
    }
}

proof fn lemma_digits_value_nonneg(s: Seq<char>)
    requires
        all_digits(s),
    ensures
        digits_value(s) >= 0,
    decreases s.len(),
{
    if s.len() > 0 {
        assert(all_digits(s.drop_last()));
        lemma_digits_value_nonneg(s.drop_last());
    }
}

proof fn lemma_digits_value_mono(s: Seq<char>, k: int)
    requires
        all_digits(s),
        0 <= k <= s.len(),
    ensures
        digits_value(s.subrange(0, k)) <= digits_value(s),
    decreases s.len() - k,
{
    if k < s.len() {
        assert(all_digits(s.drop_last()));
        lemma_digits_value_mono(s.drop_last(), k);
        assert(s.drop_last().subrange(0, k) =~= s.subrange(0, k));
        lemma_digits_value_nonneg(s.drop_last());
    } else {
        assert(s.subrange(0, k) =~= s);
    }
}

/// The value of `cs[from..to]` read as digits, or `None` when it is empty, holds
/// a non-digit, or exceeds `limit`.
fn digits_up_to(cs: &Vec<char>, from: usize, to: usize, limit: u128) -> (r: Option<u128>)
    requires
        from <= to <= cs.len(),
        limit <= u64::MAX as u128 + 1,
    ensures
        ({
            let s = cs@.subrange(from as int, to as int);
            match r {
                Some(v) => s.len() > 0 && all_digits(s) && v as int == digits_value(s) && v
                    <= limit,
                None => s.len() == 0 || !all_digits(s) || digits_value(s) > limit,
            }
        }),
{
    let ghost s = cs@.subrange(from as int, to as int);
    if from == to {
        return None;
    }
    let mut v: u128 = 0;
    let mut i = from;
    while i < to
        invariant
            from <= i <= to <= cs.len(),
            limit <= u64::MAX as u128 + 1,
            s == cs@.subrange(from as int, to as int),
            all_digits(cs@.subrange(from as int, i as int)),
            v as int == digits_value(cs@.subrange(from as int, i as int)),
            v <= limit,
        decreases to - i,
    {
        let c = cs[i];
        if !('0' <= c && c <= '9') {
            assert(s[i - from] == c);
            return None;
        }
        let d = (c as u32 - '0' as u32) as u128;
        let ghost prefix = cs@.subrange(from as int, i + 1);
        assert(prefix.drop_last() =~= cs@.subrange(from as int, i as int));
        let nv = v * 10 + d;
        i += 1;
        assert(all_digits(prefix));
        assert(nv as int == digits_value(prefix));
        if nv > limit {
            proof {
                assert(s.subrange(0, (i - from) as int) =~= prefix);
                if all_digits(s) {
                    lemma_digits_value_mono(s, (i - from) as int);
                }
            }
            return None;
        }
        v = nv;
    }
    assert(cs@.subrange(from as int, i as int) =~= s);
    Some(v)
}

/// `s.parse::<i64>().ok()`.
pub fn parse_i64_exec(s: &str) -> (r: Option<i64>)
    ensures
        r == parse_i64(s@),
{
    let cs = chars_of(s);
    if cs.len() == 0 {
        return None;
    }
    let negative = cs[0] == '-';
    let start: usize = if cs[0] == '+' || cs[0] == '-' {
        1
    } else {
        0
    };
    proof {
        if start == 1 {
            assert(cs@.subrange(1, cs@.len() as int) =~= cs@.drop_first());
        } else {
            assert(cs@.subrange(0, cs@.len() as int) =~= cs@);
        }
    }
    let limit: u128 = if negative {
        9223372036854775808u128
    } else {
        9223372036854775807u128
    };
    match digits_up_to(&cs, start, cs.len(), limit) {
        None => None,
        Some(v) => {
            if negative {
                if v == 9223372036854775808u128 {
                    Some(i64::MIN)
                } else {
                    Some(-(v as i64))
                }
            } else {
                Some(v as i64)
            }
        },
    }
}

/// `s.parse::<u64>().ok()`.
pub fn parse_u64_exec(s: &str) -> (r: Option<u64>)
    ensures
        r == parse_u64(s@),
{
    let cs = chars_of(s);
    if cs.len() == 0 {
        return None;
    }
    let start: usize = if cs[0] == '+' {
        1
    } else {
        0
    };
    proof {
        if start == 1 {
            assert(cs@.subrange(1, cs@.len() as int) =~= cs@.drop_first());
        } else {
            assert(cs@.subrange(0, cs@.len() as int) =~= cs@);
        }
    }
    match digits_up_to(&cs, start, cs.len(), u64::MAX as u128) {
        None => None,
        Some(v) => Some(v as u64),
    }
}

// ---------------------------------------------------------------------------
// Searching and joining

/// The index of the first `c` in `s`, if there is one.
pub open spec fn find_char(s: Seq<char>, c: char) -> Option<int>
    decreases s.len(),
{
    if s.len() == 0 {
        None
    } else if s[0] == c {
        Some(0)
    } else {
        match find_char(s.drop_first(), c) {
            Some(i) => Some(i + 1),
            None => None,
        }
    }
}

proof fn lemma_find_char_at(s: Seq<char>, c: char, i: int)
    requires
        0 <= i <= s.len(),
        forall|k: int| 0 <= k < i ==> #[trigger] s[k] != c,
        i == s.len() || s[i] == c,
    ensures
        find_char(s, c) == if i == s.len() {
            None::<int>
        } else {
            Some(i)
        },
    decreases i,
{
    if i > 0 {
        assert(forall|k: int| 0 <= k < i - 1 ==> #[trigger] s.drop_first()[k] == s[k + 1]);
        lemma_find_char_at(s.drop_first(), c, i - 1);
    }
}

/// The first `c` in `cs[from..]`, as an index into `cs`.
pub fn find_char_from(cs: &Vec<char>, from: usize, c: char) -> (r: Option<usize>)
    requires
        from <= cs.len(),
    ensures
        match r {
            Some(k) => find_char(cs@.subrange(from as int, cs@.len() as int), c) == Some(k - from),
            None => find_char(cs@.subrange(from as int, cs@.len() as int), c) is None,
        },
        r matches Some(i) ==> from <= i < cs.len() && cs@[i as int] == c,
        r matches Some(i) ==> forall|k: int| from <= k < i ==> cs@[k] != c,
        r is None ==> forall|k: int| from <= k < cs.len() ==> cs@[k] != c,
{
    let ghost s = cs@.subrange(from as int, cs@.len() as int);
    let mut i = from;
    while i < cs.len()
        invariant
            from <= i <= cs.len(),
            s == cs@.subrange(from as int, cs@.len() as int),
            forall|k: int| from <= k < i ==> cs@[k] != c,
        decreases cs.len() - i,
    {
        if cs[i] == c {
            proof {
                assert forall|k: int| 0 <= k < i - from implies #[trigger] s[k] != c by {
                    assert(s[k] == cs@[k + from]);
                }
                lemma_find_char_at(s, c, i - from);
            }
            return Some(i);
        }
        i += 1;
    }
    proof {
        assert forall|k: int| 0 <= k < s.len() implies #[trigger] s[k] != c by {
            assert(s[k] == cs@[k + from]);
        }
        lemma_find_char_at(s, c, s.len() as int);
    }
    None
}

/// The parts, with `sep` between each two of them: `[a, b, c].join(sep)`.
pub open spec fn join(parts: Seq<Seq<char>>, sep: Seq<char>) -> Seq<char>
    decreases parts.len(),
{
    if parts.len() == 0 {
        Seq::empty()
    } else if parts.len() == 1 {
        parts[0]
    } else {
        join(parts.drop_last(), sep) + sep + parts.last()
    }
}

/// The views of a list of strings.
pub open spec fn views(v: Seq<String>) -> Seq<Seq<char>> {
    v.map_values(|s: String| s@)
}

/// The views of a list grown by one string are the views before, grown by its view.
pub proof fn lemma_views_push(v: Seq<String>, s: String)
    ensures
        views(v.push(s)) == views(v).push(s@),
{
    assert(views(v.push(s)) =~= views(v).push(s@));
}

/// The views of the first `i + 1` strings are those of the first `i`, then one more.
pub proof fn lemma_views_take(v: Seq<String>, i: int)
    requires
        0 <= i < v.len(),
    ensures
        views(v.take(i + 1)) == views(v.take(i)).push(v[i]@),
{
    assert(v.take(i + 1) =~= v.take(i).push(v[i]));
    lemma_views_push(v.take(i), v[i]);
}

/// `parts.join(sep)`.
pub fn join_strings(parts: &Vec<String>, sep: &str) -> (r: String)
    ensures
        r@ == join(views(parts@), sep@),
{
    let mut r = String::new();
    let mut i: usize = 0;
    while i < parts.len()
        invariant
            i <= parts.len(),
            r@ == join(views(parts@).take(i as int), sep@),
        decreases parts.len() - i,
    {
        let ghost before = views(parts@).take(i as int);
        if i > 0 {
            push_str(&mut r, sep);
        }
        push_str(&mut r, parts[i].as_str());
        proof {
            let after = views(parts@).take(i + 1);
            assert(after.drop_last() =~= before);
            if i == 0 {
                assert(r@ =~= after[0]);
            } else {
                assert(r@ =~= join(after.drop_last(), sep@) + sep@ + after.last());
            }
        }
        i += 1;
    }
    assert(views(parts@).take(parts.len() as int) =~= views(parts@));
    r
}

/// Whether `s` holds `c` anywhere.
pub fn contains_char(s: &str, c: char) -> (r: bool)
    ensures
        r == s@.contains(c),
{
    let cs = chars_of(s);
    let found = find_char_from(&cs, 0, c);
    proof {
        if found is None {
            assert forall|k: int| 0 <= k < s@.len() implies s@[k] != c by {}
        }
    }
    found.is_some()
}

// ---------------------------------------------------------------------------
// Lines

/// A line ended by `\n`, without a `\r` just before it.
pub open spec fn strip_cr(l: Seq<char>) -> Seq<char> {
    if l.len() > 0 && l.last() == '\r' {
        l.drop_last()
    } else {
        l
    }
}

/// `str::lines`: split at `\n` or `\r\n`; the final line ending is optional,
/// and a string that ends with one yields no empty line after it.
pub open spec fn lines_of(s: Seq<char>) -> Seq<Seq<char>>
    decreases s.len(),
{
    if s.len() == 0 {
        Seq::empty()
    } else {
        match find_char(s, '\n') {
            None => seq![s],
            Some(i) => if 0 <= i < s.len() {
                seq![strip_cr(s.subrange(0, i))] + lines_of(s.subrange(i + 1, s.len() as int))
            } else {
                Seq::empty()
            },
        }
    }
}

/// The lines that hold something besides whitespace, each with its index among
/// all the lines.
pub open spec fn content_of(ls: Seq<Seq<char>>) -> Seq<(int, Seq<char>)>
    decreases ls.len(),
{
    if ls.len() == 0 {
        Seq::empty()
    } else if trim(ls.last()).len() == 0 {
        content_of(ls.drop_last())
    } else {
        content_of(ls.drop_last()).push((ls.len() - 1, ls.last()))
    }
}

/// The view of a list of numbered lines.
pub open spec fn numbered_views(v: Seq<(usize, String)>) -> Seq<(int, Seq<char>)> {
    v.map_values(|p: (usize, String)| (p.0 as int, p.1@))
}

proof fn lemma_lines_step(s: Seq<char>, pos: int, k: int)
    requires
        0 <= pos <= k < s.len(),
        s[k] == '\n',
        forall|j: int| pos <= j < k ==> s[j] != '\n',
    ensures
        lines_of(s.subrange(pos, s.len() as int)) == seq![strip_cr(s.subrange(pos, k))]
            + lines_of(s.subrange(k + 1, s.len() as int)),
{
    let t = s.subrange(pos, s.len() as int);
    assert forall|j: int| 0 <= j < k - pos implies #[trigger] t[j] != '\n' by {
        assert(t[j] == s[j + pos]);
    }
    lemma_find_char_at(t, '\n', k - pos);
    assert(t.subrange(0, k - pos) =~= s.subrange(pos, k));
    assert(t.subrange(k - pos + 1, t.len() as int) =~= s.subrange(k + 1, s.len() as int));
}

proof fn lemma_lines_last(s: Seq<char>, pos: int)
    requires
        0 <= pos < s.len(),
        forall|j: int| pos <= j < s.len() ==> s[j] != '\n',
    ensures
        lines_of(s.subrange(pos, s.len() as int)) == seq![s.subrange(pos, s.len() as int)],
{
    let t = s.subrange(pos, s.len() as int);
    assert forall|j: int| 0 <= j < t.len() implies #[trigger] t[j] != '\n' by {
        assert(t[j] == s[j + pos]);
    }
    lemma_find_char_at(t, '\n', t.len() as int);
}

/// `s.lines()`, collected.
pub fn lines(s: &str) -> (r: Vec<String>)
    ensures
        views(r@) == lines_of(s@),
{
    let cs = chars_of(s);
    let mut r: Vec<String> = Vec::new();
    let mut pos: usize = 0;
    assert(cs@.subrange(0, cs@.len() as int) =~= cs@);
    assert(views(r@) + lines_of(cs@) =~= lines_of(cs@));
    while pos < cs.len()
        invariant
            cs@ == s@,
            pos <= cs.len(),
            views(r@) + lines_of(cs@.subrange(pos as int, cs@.len() as int)) == lines_of(cs@),
        decreases cs.len() - pos,
    {
        let ghost before = views(r@);
        match find_char_from(&cs, pos, '\n') {
            Some(k) => {
                let end = if k > pos && cs[k - 1] == '\r' {
                    k - 1
                } else {
                    k
                };
                let line = string_of(&cs, pos, end);
                proof {
                    lemma_lines_step(cs@, pos as int, k as int);
                    assert(line@ =~= strip_cr(cs@.subrange(pos as int, k as int)));
                }
                r.push(line);
                assert(views(r@) =~= before.push(line@));
                pos = k + 1;
            },
            None => {
                let line = string_of(&cs, pos, cs.len());
                proof {
                    lemma_lines_last(cs@, pos as int);
                }
                r.push(line);
                assert(views(r@) =~= before.push(line@));
                pos = cs.len();
            },
        }
    }
    assert(lines_of(cs@.subrange(pos as int, cs@.len() as int)) =~= Seq::<Seq<char>>::empty());
    assert(views(r@) =~= lines_of(cs@));
    r
}

/// The lines of `s` that hold something besides whitespace, each with its
/// index among all the lines.
pub fn content_lines(s: &str) -> (r: Vec<(usize, String)>)
    ensures
        numbered_views(r@) == content_of(lines_of(s@)),
{
    let all = lines(s);
    let mut r: Vec<(usize, String)> = Vec::new();
    let mut i: usize = 0;
    while i < all.len()
        invariant
            i <= all@.len(),
            views(all@) == lines_of(s@),
            numbered_views(r@) == content_of(views(all@).take(i as int)),
        decreases all.len() - i,
    {
        let ghost before = numbered_views(r@);
        let ghost t = views(all@).take(i + 1);
        assert(t.drop_last() =~= views(all@).take(i as int));
        let trimmed_line = trimmed(all[i].as_str());
        if trimmed_line.as_str().is_empty() {
            assert(trimmed_line@.len() == 0);
        } else {
            r.push((i, all[i].clone()));
            assert(numbered_views(r@) =~= before.push((i as int, all@[i as int]@)));
        }
        i += 1;
    }
    assert(views(all@).take(i as int) =~= views(all@));
    r
}

// ---------------------------------------------------------------------------
// Case, substrings and words

/// `char::to_ascii_lowercase`.
pub open spec fn ascii_lower(c: char) -> char {
    if 'A' <= c && c <= 'Z' {
        ((c as u32) + 32) as char
    } else {
        c
    }
}

pub fn lower(c: char) -> (r: char)
    ensures
        r == ascii_lower(c),
{
    if 'A' <= c && c <= 'Z' {
        ((c as u8) + 32) as char
    } else {
        c
    }
}

/// `str::to_ascii_lowercase`.
pub open spec fn ascii_lowercase(s: Seq<char>) -> Seq<char> {
    s.map_values(|c: char| ascii_lower(c))
}

pub fn to_ascii_lowercase(s: &str) -> (r: String)
    ensures
        r@ == ascii_lowercase(s@),
{
    let cs = chars_of(s);
    let mut r = String::new();
    let mut i: usize = 0;
    while i < cs.len()
        invariant
            cs@ == s@,
            i <= cs.len(),
            r@ == ascii_lowercase(cs@.take(i as int)),
        decreases cs.len() - i,
    {
        push_char(&mut r, lower(cs[i]));
        i += 1;
        assert(r@ =~= ascii_lowercase(cs@.take(i as int)));
    }
    assert(cs@.take(i as int) =~= cs@);
    r
}

/// `m` occurs in `s` at `i`.
pub open spec fn occurs_at(s: Seq<char>, m: Seq<char>, i: int) -> bool {
    0 <= i && i + m.len() <= s.len() && s.subrange(i, i + m.len()) == m
}

/// `str::contains` with a string pattern.
pub open spec fn contains_text(s: Seq<char>, m: Seq<char>) -> bool {
    exists|i: int| occurs_at(s, m, i)
}

fn occurs_at_exec(cs: &Vec<char>, m: &Vec<char>, i: usize) -> (r: bool)
    requires
        i + m.len() <= cs.len(),
    ensures
        r == occurs_at(cs@, m@, i as int),
{
    let mut k: usize = 0;
    while k < m.len()
        invariant
            i + m.len() <= cs.len(),
            k <= m.len(),
            forall|j: int| 0 <= j < k ==> cs@[i + j] == m@[j],
        decreases m.len() - k,
    {
        if cs[i + k] != m[k] {
            assert(cs@.subrange(i as int, i + m@.len())[k as int] != m@[k as int]);
            return false;
        }
        k += 1;
    }
    assert(cs@.subrange(i as int, i + m@.len()) =~= m@);
    true
}

/// `s.contains(m)`.
pub fn contains_str(s: &str, m: &str) -> (r: bool)
    ensures
        r == contains_text(s@, m@),
{
    let cs = chars_of(s);
    let ms = chars_of(m);
    if ms.len() > cs.len() {
        proof {
            assert forall|j: int| !occurs_at(s@, m@, j) by {}
        }
        return false;
    }
    if ms.len() == 0 {
        assert(occurs_at(s@, m@, 0)) by {
            assert(s@.subrange(0, 0) =~= m@);
        }
        return true;
    }
    let last = cs.len() - ms.len();
    let mut i: usize = 0;
    while i <= last
        invariant
            cs@ == s@,
            ms@ == m@,
            last == cs.len() - ms.len(),
            last < cs.len(),
            i <= last + 1,
            forall|j: int| 0 <= j < i ==> !occurs_at(s@, m@, j),
        decreases last + 1 - i,
    {
        if occurs_at_exec(&cs, &ms, i) {
            return true;
        }
        i += 1;
    }
    assert forall|j: int| !occurs_at(s@, m@, j) by {
        if j >= i {
            assert(j + m@.len() > s@.len());
        }
    }
    false
}

/// `str::split_whitespace`: the maximal runs of non-whitespace, in order.
pub open spec fn words_of(s: Seq<char>) -> Seq<Seq<char>>
    decreases s.len(),
{
    if s.len() == 0 {
        Seq::empty()
    } else {
        let w = words_of(s.drop_last());
        let c = s.last();
        if is_ws(c) {
            w
        } else if s.len() >= 2 && !is_ws(s[s.len() - 2]) && w.len() > 0 {
            w.drop_last().push(w.last().push(c))
        } else {
            w.push(seq![c])
        }
    }
}

proof fn lemma_words_nonempty_after_word(s: Seq<char>)
    requires
        s.len() > 0,
        !is_ws(s.last()),
    ensures
        words_of(s).len() > 0,
{
}

/// `s.split_whitespace()`, collected.
pub fn split_whitespace(s: &str) -> (r: Vec<String>)
    ensures
        views(r@) == words_of(s@),
{
    let cs = chars_of(s);
    let mut r: Vec<String> = Vec::new();
    let mut i: usize = 0;
    while i < cs.len()
        invariant
            cs@ == s@,
            i <= cs.len(),
            views(r@) == words_of(cs@.take(i as int)),
        decreases cs.len() - i,
    {
        let c = cs[i];
        let ghost t = cs@.take(i + 1);
        assert(t.drop_last() =~= cs@.take(i as int));
        assert(t.last() == c);
        if is_whitespace(c) {
        } else if i > 0 && !is_whitespace(cs[i - 1]) {
            proof {
                assert(t[t.len() - 2] == cs@[i - 1]);
                lemma_words_nonempty_after_word(cs@.take(i as int));
                assert(cs@.take(i as int).last() == cs@[i - 1]);
            }
            let ghost before = views(r@);
            let mut last = r.pop().unwrap();
            push_char(&mut last, c);
            r.push(last);
            assert(views(r@) =~= before.drop_last().push(before.last().push(c)));
        } else {
            let ghost before = views(r@);
            let mut word = String::new();
            push_char(&mut word, c);
            r.push(word);
            assert(views(r@) =~= before.push(seq![c]));
        }
        i += 1;
    }
    assert(cs@.take(i as int) =~= cs@);
    r
}

/// A copy of a list of strings.
pub fn clone_strings(v: &Vec<String>) -> (r: Vec<String>)
    ensures
        views(r@) == views(v@),
{
    let mut r: Vec<String> = Vec::new();
    let mut i: usize = 0;
    while i < v.len()
        invariant
            i <= v@.len(),
            r@.len() == i,
            forall|q: int| 0 <= q < i ==> #[trigger] r@[q]@ == v@[q]@,
        decreases v.len() - i,
    {
        r.push(v[i].clone());
        i += 1;
    }
    assert(views(r@) =~= views(v@));
    r
}

/// Whether `v` holds a string equal to `s`.
pub fn has_string(v: &Vec<String>, s: &str) -> (r: bool)
    ensures
        r == views(v@).contains(s@),
{
    let mut i: usize = 0;
    while i < v.len()
        invariant
            i <= v@.len(),
            forall|j: int| 0 <= j < i ==> v@[j]@ != s@,
        decreases v.len() - i,
    {
        if str_eq(v[i].as_str(), s) {
            assert(views(v@)[i as int] == s@);
            return true;
        }
        i += 1;
    }
    proof {
        if views(v@).contains(s@) {
            let j = choose|j: int| 0 <= j < views(v@).len() && views(v@)[j] == s@;
            assert(v@[j]@ == s@);
        }
    }
    false
}

// ---------------------------------------------------------------------------
// Ordering strings

/// `a < b` as `str`'s `Ord` has it: lexicographic, by code point.
pub open spec fn text_lt(a: Seq<char>, b: Seq<char>) -> bool
    decreases a.len(),
{
    if a.len() == 0 {
        b.len() > 0
    } else if b.len() == 0 {
        false
    } else if a[0] != b[0] {
        a[0] < b[0]
    } else {
        text_lt(a.drop_first(), b.drop_first())
    }
}

proof fn lemma_same_head_and_tail(a: Seq<char>, b: Seq<char>)
    requires
        a.len() > 0,
        b.len() > 0,
        a[0] == b[0],
        a.drop_first() == b.drop_first(),
    ensures
        a == b,
{
    assert(a.drop_first().len() == a.len() - 1);
    assert(b.drop_first().len() == b.len() - 1);
    assert(a.drop_first().len() == b.drop_first().len());
    assert(a.len() == b.len());
    assert forall|i: int| 0 <= i < a.len() implies a[i] == b[i] by {
        if i > 0 {
            assert(a[i] == a.drop_first()[i - 1]);
            assert(b[i] == b.drop_first()[i - 1]);
        }
    }
    assert(a =~= b);
}

/// `text_lt` is a strict total order.
pub proof fn lemma_text_lt_order(a: Seq<char>, b: Seq<char>, c: Seq<char>)
    ensures
        !text_lt(a, a),
        a != b ==> (text_lt(a, b) || text_lt(b, a)),
        !(text_lt(a, b) && text_lt(b, a)),
        text_lt(a, b) && text_lt(b, c) ==> text_lt(a, c),
    decreases a.len(),
{
    if a.len() > 0 && b.len() > 0 && c.len() > 0 {
        lemma_text_lt_order(a.drop_first(), b.drop_first(), c.drop_first());
        if a[0] == b[0] && a.drop_first() == b.drop_first() {
            lemma_same_head_and_tail(a, b);
        }
    } else if a.len() > 0 && b.len() > 0 {
        lemma_text_lt_order(a.drop_first(), b.drop_first(), c);
        if a[0] == b[0] && a.drop_first() == b.drop_first() {
            lemma_same_head_and_tail(a, b);
        }
    } else if a.len() > 0 {
        lemma_text_lt_order(a.drop_first(), b, c.drop_first());
    } else if b.len() == 0 {
        assert(a =~= b);
    }
}

/// `a < b`, as `str` orders them.
pub fn str_lt(a: &str, b: &str) -> (r: bool)
    ensures
        r == text_lt(a@, b@),
{
    let x = chars_of(a);
    let y = chars_of(b);
    let mut i: usize = 0;
    assert(a@.subrange(0, a@.len() as int) =~= a@);
    assert(b@.subrange(0, b@.len() as int) =~= b@);
    while i < x.len() && i < y.len() && x[i] == y[i]
        invariant
            x@ == a@,
            y@ == b@,
            i <= x@.len(),
            i <= y@.len(),
            text_lt(a@, b@) == text_lt(a@.subrange(i as int, a@.len() as int), b@.subrange(
                i as int,
                b@.len() as int,
            )),
        decreases x.len() - i,
    {
        let ghost sa = a@.subrange(i as int, a@.len() as int);
        let ghost sb = b@.subrange(i as int, b@.len() as int);
        assert(sa.drop_first() =~= a@.subrange(i + 1, a@.len() as int));
        assert(sb.drop_first() =~= b@.subrange(i + 1, b@.len() as int));
        i += 1;
    }
    let ghost sa = a@.subrange(i as int, a@.len() as int);
    let ghost sb = b@.subrange(i as int, b@.len() as int);
    if i == x.len() {
        i < y.len()
    } else if i == y.len() {
        false
    } else {
        assert(sa[0] == x@[i as int] && sb[0] == y@[i as int]);
        x[i] < y[i]
    }
}

} // verus!
