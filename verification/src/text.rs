//! Character-level text helpers: truncation, padding, decimal numerals,
//! unsigned parsing, substitution and joining.
use vstd::prelude::*;

verus! {

// ---------------------------------------------------------------------
// Conversions between `str`/`String` and character vectors
// ---------------------------------------------------------------------

/// The characters of a string slice, in order.
pub fn chars_of(s: &str) -> (r: Vec<char>)
    ensures
        r@ == s@,
{
    let mut r: Vec<char> = Vec::new();
    for c in it: s.chars()
        invariant
            r@ == it.seq().take(it.index() as int),
    {
        r.push(c);
    }
    r
}

/// Builds a `String` from characters (std's `FromIterator<char>` for `String`):
/// the string holds exactly the given characters, in order.
#[verifier::external_body]
pub(crate) fn string_from_chars(cs: &[char]) -> (s: String)
    ensures
        s@ == cs@,
{
    cs.iter().collect()
}

/// The text of an optional string, by its view.
pub open spec fn opt_view(o: Option<String>) -> Option<Seq<char>> {
    match o {
        Some(s) => Some(s@),
        None => None,
    }
}

/// Appends the characters of `s` to `out`.
pub fn push_chars(out: &mut Vec<char>, s: &[char])
    ensures
        final(out)@ == old(out)@ + s@,
{
    let n = s.len();
    for i in 0..n
        invariant
            n == s@.len(),
            out@ == old(out)@ + s@.take(i as int),
    {
        out.push(s[i]);
        proof {
            assert(s@.take(i + 1) =~= s@.take(i as int).push(s@[i as int]));
        }
    }
    proof {
        assert(s@.take(n as int) =~= s@);
    }
}

/// Whether two string slices hold the same characters.
pub fn str_equal(a: &str, b: &str) -> (r: bool)
    ensures
        r == (a@ == b@),
{
    let x = chars_of(a);
    let y = chars_of(b);
    if x.len() != y.len() {
        return false;
    }
    let r = pattern_at(&x, &y, 0);
    proof {
        assert(x@.subrange(0, y@.len() as int) =~= x@);
    }
    r
}

// ---------------------------------------------------------------------
// Truncation and padding
// ---------------------------------------------------------------------

/// A run of `n` spaces.
pub open spec fn spaces(n: nat) -> Seq<char> {
    Seq::new(n, |i: int| ' ')
}

/// What `truncate` makes of `s` for a column `max` characters wide: `s` itself
/// when it fits; otherwise its first `max` characters when `max <= 3`, and its
/// first `max - 3` characters followed by `...` when `max > 3`.
pub open spec fn spec_truncate(s: Seq<char>, max: nat) -> Seq<char> {
    if s.len() <= max {
        s
    } else if max <= 3 {
        s.take(max as int)
    } else {
        s.take(max - 3) + "..."@
    }
}

/// `s` left-aligned in a field of `w` characters: spaces are added on the right
/// up to `w` characters; a longer `s` is kept whole.
pub open spec fn padded(s: Seq<char>, w: nat) -> Seq<char> {
    if s.len() >= w {
        s
    } else {
        s + spaces((w - s.len()) as nat)
    }
}

/// Shortens `s` to at most `max_width` characters, marking a cut with `...`
/// when there is room for it.
pub fn truncate(s: &str, max_width: usize) -> (r: String)
    ensures
        r@ == spec_truncate(s@, max_width as nat),
        r@.len() <= max_width,
{
    proof {
        reveal_strlit("...");
    }
    let cs = chars_of(s);
    if cs.len() <= max_width {
        s.to_owned()
    } else if max_width <= 3 {
        let head = s.substring_char(0, max_width);
        head.to_owned()
    } else {
        let head = s.substring_char(0, max_width - 3);
        let mut r = head.to_owned();
        r.append("...");
        r
    }
}

/// Appends `s` to `out`, padded with spaces on the right to `w` characters.
pub fn push_padded(out: &mut String, s: &str, w: usize)
    ensures
        final(out)@ == old(out)@ + padded(s@, w as nat),
{
    let n = s.unicode_len();
    out.append(s);
    if n < w {
        let mut k: usize = n;
        while k < w
            invariant
                n <= k <= w,
                n == s@.len(),
                out@ == old(out)@ + s@ + spaces((k - n) as nat),
            decreases w - k,
        {
            out.append(" ");
            proof {
                reveal_strlit(" ");
                assert(spaces((k + 1 - n) as nat) =~= spaces((k - n) as nat) + " "@);
            }
            k = k + 1;
        }
    } else {
        proof {
            assert(out@ =~= old(out)@ + s@);
        }
    }
    proof {
        if n < w {
            assert(old(out)@ + s@ + spaces((w - n) as nat) =~= old(out)@ + padded(s@, w as nat));
        }
    }
}

// ---------------------------------------------------------------------
// Decimal numerals
// ---------------------------------------------------------------------

/// The ASCII digit for `d` (taken modulo ten).
pub open spec fn digit_char(d: nat) -> char {
    let d = d % 10;
    if d == 0 {
        '0'
    } else if d == 1 {
        '1'
    } else if d == 2 {
        '2'
    } else if d == 3 {
        '3'
    } else if d == 4 {
        '4'
    } else if d == 5 {
        '5'
    } else if d == 6 {
        '6'
    } else if d == 7 {
        '7'
    } else if d == 8 {
        '8'
    } else {
        '9'
    }
}

/// The decimal numeral of `n`, without leading zeros (`0` for zero).
pub open spec fn decimal(n: nat) -> Seq<char>
    decreases n,
{
    if n < 10 {
        seq![digit_char(n)]
    } else {
        decimal(n / 10).push(digit_char(n % 10))
    }
}

/// The decimal numeral of an integer, with a leading `-` when it is negative.
pub open spec fn int_text(i: int) -> Seq<char> {
    if i < 0 {
        seq!['-'] + decimal((-i) as nat)
    } else {
        decimal(i as nat)
    }
}

fn digit_of(d: u64) -> (c: char)
    requires
        d < 10,
    ensures
        c == digit_char(d as nat),
{
    match d {
        0 => '0',
        1 => '1',
        2 => '2',
        3 => '3',
        4 => '4',
        5 => '5',
        6 => '6',
        7 => '7',
        8 => '8',
        _ => '9',
    }
}

fn push_decimal(out: &mut Vec<char>, n: u64)
    ensures
        final(out)@ == old(out)@ + decimal(n as nat),
    decreases n,
{
    if n >= 10 {
        push_decimal(out, n / 10);
    }
    let c = digit_of(n % 10);
    out.push(c);
    proof {
        if n >= 10 {
            assert(decimal(n as nat) == decimal((n / 10) as nat).push(digit_char((n % 10) as nat)));
        } else {
            assert(decimal(n as nat) == seq![digit_char(n as nat)]);
            assert(digit_char(n as nat) == digit_char((n % 10) as nat));
        }
        assert(out@ =~= old(out)@ + decimal(n as nat));
    }
}

/// The decimal text of an unsigned number (as `usize::to_string` writes it).
pub fn usize_to_string(n: usize) -> (r: String)
    ensures
        r@ == decimal(n as nat),
{
    let mut cs: Vec<char> = Vec::new();
    push_decimal(&mut cs, n as u64);
    proof {
        assert(cs@ =~= decimal(n as nat));
    }
    string_from_chars(cs.as_slice())
}

/// The decimal text of a signed number (as `i64::to_string` writes it).
pub fn i64_to_string(n: i64) -> (r: String)
    ensures
        r@ == int_text(n as int),
{
    let mut cs: Vec<char> = Vec::new();
    if n < 0 {
        cs.push('-');
        let m: u64 = (0i128 - (n as i128)) as u64;
        push_decimal(&mut cs, m);
        proof {
            assert(cs@ =~= int_text(n as int));
        }
    } else {
        push_decimal(&mut cs, n as u64);
        proof {
            assert(cs@ =~= int_text(n as int));
        }
    }
    string_from_chars(cs.as_slice())
}

// ---------------------------------------------------------------------
// Parsing unsigned numbers
// ---------------------------------------------------------------------

/// Whether `c` is an ASCII decimal digit.
pub open spec fn is_digit(c: char) -> bool {
    '0' <= c && c <= '9'
}

/// The value of the digit `c`.
pub open spec fn digit_value(c: char) -> nat {
    ((c as int) - ('0' as int)) as nat
}

/// Whether every character of `s` is an ASCII decimal digit.
pub open spec fn all_digits(s: Seq<char>) -> bool {
    forall|i: int| 0 <= i < s.len() ==> #[trigger] is_digit(s[i])
}

/// The value of a string of decimal digits, most significant first.
pub open spec fn digits_value(s: Seq<char>) -> nat
    decreases s.len(),
{
    if s.len() == 0 {
        0
    } else {
        digits_value(s.drop_last()) * 10 + digit_value(s.last())
    }
}

/// What `usize::from_str` accepts: an optional `+` followed by one or more
/// decimal digits whose value fits in `usize`.
pub open spec fn spec_parse_usize(s: Seq<char>) -> Option<nat> {
    let body = if s.len() > 0 && s[0] == '+' {
        s.drop_first()
    } else {
        s
    };
    if body.len() > 0 && all_digits(body) && digits_value(body) <= usize::MAX {
        Some(digits_value(body))
    } else {
        None
    }
}

proof fn lemma_digits_value_grows(s: Seq<char>, k: int)
    requires
        0 <= k <= s.len(),
        all_digits(s),
    ensures
        digits_value(s.take(k)) <= digits_value(s),
    decreases s.len() - k,
{
    if k < s.len() {
        let t = s.take(k + 1);
        assert(t.drop_last() =~= s.take(k));
        lemma_digits_value_grows(s, k + 1);
        assert(digits_value(t) == digits_value(s.take(k)) * 10 + digit_value(t.last()));
    } else {
        assert(s.take(k) =~= s);
    }
}

/// Parses an unsigned number as `str::parse::<usize>` does.
pub fn parse_usize(s: &str) -> (r: Option<usize>)
    ensures
        match r {
            Some(n) => spec_parse_usize(s@) == Some(n as nat),
            None => spec_parse_usize(s@).is_none(),
        },
{
    let cs = chars_of(s);
    let n = cs.len();
    let mut start: usize = 0;
    if n > 0 && cs[0] == '+' {
        start = 1;
    }
    let ghost body = if s@.len() > 0 && s@[0] == '+' {
        s@.drop_first()
    } else {
        s@
    };
    assert(body =~= cs@.skip(start as int));
    if start >= n {
        return None;
    }
    let mut acc: u128 = 0;
    let mut i: usize = start;
    while i < n
        invariant
            start <= i <= n,
            cs@ == s@,
            body == (if s@.len() > 0 && s@[0] == '+' {
                s@.drop_first()
            } else {
                s@
            }),
            n == cs@.len(),
            body =~= cs@.skip(start as int),
            all_digits(cs@.subrange(start as int, i as int)),
            acc == digits_value(cs@.subrange(start as int, i as int)),
            acc <= usize::MAX,
        decreases n - i,
    {
        let c = cs[i];
        if !('0' <= c && c <= '9') {
            proof {
                assert(!is_digit(body[i - start]));
            }
            return None;
        }
        let d: u128 = ((c as u32) - ('0' as u32)) as u128;
        let next: u128 = acc * 10 + d;
        proof {
            let pre = cs@.subrange(start as int, i as int);
            let post = cs@.subrange(start as int, i + 1);
            assert(post.drop_last() =~= pre);
            assert(post.last() == c);
            assert(all_digits(post));
            assert(next == digits_value(post));
        }
        if next > usize::MAX as u128 {
            proof {
                let post = cs@.subrange(start as int, i + 1);
                if all_digits(body) {
                    assert(body.take((i + 1 - start) as int) =~= post);
                    lemma_digits_value_grows(body, (i + 1 - start) as int);
                }
            }
            return None;
        }
        acc = next;
        i = i + 1;
    }
    proof {
        assert(cs@.subrange(start as int, n as int) =~= body);
    }
    Some(acc as usize)
}

proof fn lemma_digit_char(d: nat)
    ensures
        is_digit(digit_char(d)),
        digit_value(digit_char(d)) == d % 10,
        digit_char(d) != '+',
{
}

/// Every decimal numeral is read back as the number it denotes.
pub proof fn lemma_decimal_digits(n: nat)
    ensures
        decimal(n).len() > 0,
        all_digits(decimal(n)),
        digits_value(decimal(n)) == n,
        decimal(n)[0] != '+',
    decreases n,
{
    lemma_digit_char(n);
    lemma_digit_char(n % 10);
    let d = decimal(n);
    if n >= 10 {
        lemma_decimal_digits(n / 10);
        assert(d.drop_last() =~= decimal(n / 10));
        assert(d.last() == digit_char(n % 10));
        assert(n == (n / 10) * 10 + n % 10);
        assert(digits_value(d) == digits_value(d.drop_last()) * 10 + digit_value(d.last()));
        assert(digits_value(d.drop_last()) == n / 10);
        assert(digit_value(d.last()) == n % 10);
        assert(d[0] == decimal(n / 10)[0]);
        assert forall|i: int| 0 <= i < d.len() implies #[trigger] is_digit(d[i]) by {
            if i < d.len() - 1 {
                assert(d[i] == decimal(n / 10)[i]);
            }
        }
    } else {
        assert(d.drop_last() =~= Seq::<char>::empty());
        assert(digits_value(d) == digits_value(d.drop_last()) * 10 + digit_value(d.last()));
    }
}

/// Reading back the decimal text of a `usize` gives the same number.
pub proof fn lemma_parse_usize_of_decimal(n: usize)
    ensures
        spec_parse_usize(decimal(n as nat)) == Some(n as nat),
{
    lemma_decimal_digits(n as nat);
}

// ---------------------------------------------------------------------
// Substitution
// ---------------------------------------------------------------------

/// Every non-overlapping occurrence of `p` in `s`, scanning left to right,
/// replaced with `r` (the behavior of `str::replace` for a non-empty pattern).
pub open spec fn replace_all(s: Seq<char>, p: Seq<char>, r: Seq<char>) -> Seq<char>
    recommends
        p.len() > 0,
    decreases s.len(),
{
    if p.len() == 0 || s.len() < p.len() {
        s
    } else if s.take(p.len() as int) == p {
        r + replace_all(s.skip(p.len() as int), p, r)
    } else {
        seq![s[0]] + replace_all(s.drop_first(), p, r)
    }
}

/// Whether `p` occurs in `s` starting at index `i`.
pub open spec fn occurs_at(s: Seq<char>, p: Seq<char>, i: int) -> bool {
    0 <= i && i + p.len() <= s.len() && s.subrange(i, i + p.len()) == p
}

pub(crate) fn pattern_at(s: &Vec<char>, p: &Vec<char>, i: usize) -> (b: bool)
    requires
        i <= s@.len(),
    ensures
        b == occurs_at(s@, p@, i as int),
{
    let n = s.len();
    let m = p.len();
    if m > n - i {
        return false;
    }
    let mut k: usize = 0;
    while k < m
        invariant
            i + m <= n,
            n == s@.len(),
            m == p@.len(),
            k <= m,
            forall|j: int| 0 <= j < k ==> s@[i + j] == p@[j],
        decreases m - k,
    {
        if s[i + k] != p[k] {
            proof {
                assert(s@.subrange(i as int, i + m)[k as int] != p@[k as int]);
            }
            return false;
        }
        k = k + 1;
    }
    proof {
        assert(s@.subrange(i as int, i + m) =~= p@);
    }
    true
}

/// Replaces every occurrence of `pat` in `s` with `rep`, left to right and
/// without overlaps (the behavior of `str::replace`).
pub fn replace_all_str(s: &str, pat: &str, rep: &str) -> (r: String)
    requires
        pat@.len() > 0,
    ensures
        r@ == replace_all(s@, pat@, rep@),
{
    let cs = chars_of(s);
    let ps = chars_of(pat);
    let rs = chars_of(rep);
    let n = cs.len();
    let m = ps.len();
    let mut out: Vec<char> = Vec::new();
    let mut i: usize = 0;
    assert(cs@.skip(0) =~= cs@);
    while i < n
        invariant
            i <= n,
            n == cs@.len(),
            m == ps@.len(),
            m > 0,
            out@ + replace_all(cs@.skip(i as int), ps@, rs@) == replace_all(cs@, ps@, rs@),
        decreases n - i,
    {
        let ghost rest = cs@.skip(i as int);
        if pattern_at(&cs, &ps, i) {
            proof {
                assert(rest.take(m as int) =~= cs@.subrange(i as int, i + m));
                assert(rest.skip(m as int) =~= cs@.skip(i + m));
                assert(out@ + rs@ + replace_all(cs@.skip(i + m), ps@, rs@) =~= out@ + (rs@
                    + replace_all(rest.skip(m as int), ps@, rs@)));
            }
            push_chars(&mut out, rs.as_slice());
            i = i + m;
        } else {
            proof {
                if rest.len() >= m {
                    assert(rest.take(m as int) =~= cs@.subrange(i as int, i + m));
                }
                assert(rest.drop_first() =~= cs@.skip(i + 1));
                assert(out@.push(cs@[i as int]) + replace_all(cs@.skip(i + 1), ps@, rs@) =~= out@
                    + (seq![rest[0]] + replace_all(rest.drop_first(), ps@, rs@)));
            }
            out.push(cs[i]);
            i = i + 1;
        }
    }
    proof {
        assert(cs@.skip(n as int) =~= Seq::<char>::empty());
        assert(out@ =~= replace_all(cs@, ps@, rs@));
    }
    string_from_chars(out.as_slice())
}

/// A text in which the pattern does not occur is left unchanged by substitution.
pub proof fn lemma_replace_absent(s: Seq<char>, p: Seq<char>, r: Seq<char>)
    requires
        p.len() > 0,
        forall|i: int| !occurs_at(s, p, i),
    ensures
        replace_all(s, p, r) == s,
    decreases s.len(),
{
    if s.len() >= p.len() {
        assert(s.take(p.len() as int) =~= s.subrange(0, p.len() as int));
        assert(!occurs_at(s, p, 0));
        assert forall|i: int| !occurs_at(s.drop_first(), p, i) by {
            if occurs_at(s.drop_first(), p, i) {
                assert(s.drop_first().subrange(i, i + p.len()) =~= s.subrange(i + 1, i + 1 + p.len()));
                assert(occurs_at(s, p, i + 1));
            }
        }
        lemma_replace_absent(s.drop_first(), p, r);
        assert(seq![s[0]] + s.drop_first() =~= s);
    }
}

/// Whether `p` occurs somewhere in `s`.
pub open spec fn contains_text(s: Seq<char>, p: Seq<char>) -> bool {
    exists|i: int| #[trigger] occurs_at(s, p, i)
}

/// Whether `pat` occurs somewhere in `s` (as `str::contains` tells).
pub fn contains_str(s: &str, pat: &str) -> (r: bool)
    ensures
        r == contains_text(s@, pat@),
{
    let cs = chars_of(s);
    let ps = chars_of(pat);
    let n = cs.len();
    let m = ps.len();
    if m == 0 {
        proof {
            assert(s@.subrange(0, 0) =~= pat@);
            assert(occurs_at(s@, pat@, 0));
        }
        return true;
    }
    if m > n {
        proof {
            assert forall|j: int| !#[trigger] occurs_at(s@, pat@, j) by {}
        }
        return false;
    }
    let last = n - m;
    let mut i: usize = 0;
    while i <= last
        invariant
            n == cs@.len(),
            m == ps@.len(),
            m > 0,
            last == n - m,
            i <= last + 1,
            cs@ == s@,
            ps@ == pat@,
            forall|j: int| 0 <= j < i ==> !#[trigger] occurs_at(s@, pat@, j),
        decreases last + 1 - i,
    {
        if pattern_at(&cs, &ps, i) {
            return true;
        }
        i = i + 1;
    }
    proof {
        assert forall|j: int| !#[trigger] occurs_at(s@, pat@, j) by {
            if j >= i {
                assert(!occurs_at(s@, pat@, j));
            }
        }
    }
    false
}

// ---------------------------------------------------------------------
// Joining
// ---------------------------------------------------------------------

/// The parts joined with `sep` between neighbours (as `[T]::join` does).
pub open spec fn join(parts: Seq<Seq<char>>, sep: Seq<char>) -> Seq<char>
    decreases parts.len(),
{
    if parts.len() == 0 {
        Seq::empty()
    } else if parts.len() == 1 {
        parts[0]
    } else {
        join(parts.drop_last(), sep) + sep + parts.last()
    }
}

/// The views of a sequence of strings.
pub open spec fn views(v: Seq<String>) -> Seq<Seq<char>> {
    v.map_values(|s: String| s@)
}

/// Joins the strings with `sep` between neighbours.
pub fn join_strings(parts: &Vec<String>, sep: &str) -> (r: String)
    ensures
        r@ == join(views(parts@), sep@),
{
    let mut r = String::new();
    let n = parts.len();
    for i in 0..n
        invariant
            n == parts@.len(),
            r@ == join(views(parts@.take(i as int)), sep@),
    {
        proof {
            let pre = views(parts@.take(i as int));
            let post = views(parts@.take(i + 1));
            assert(post.drop_last() =~= pre);
            assert(post.last() == parts@[i as int]@);
        }
        if i > 0 {
            r.append(sep);
        }
        r.append(parts[i].as_str());
        proof {
            if i == 0 {
                assert(views(parts@.take(1)).len() == 1);
            }
        }
    }
    proof {
        assert(parts@.take(n as int) =~= parts@);
    }
    r
}

} // verus!
