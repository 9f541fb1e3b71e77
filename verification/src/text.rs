//! Characters and strings: decimal rendering and parsing of unsigned
//! integers, whitespace trimming, line and field splitting.

use vstd::prelude::*;
use vstd::string::StrSliceExecFns;

verus! {

/// Appends one character to a string (`String::push`).
/// Trusted: the string's characters afterwards are the old ones followed by `c`.
#[verifier::external_body]
pub(crate) fn push_char(s: &mut String, c: char)
    ensures
        final(s)@ == old(s)@.push(c),
{
    s.push(c);
}

/// The characters of `s`, in order.
pub fn chars_of(s: &str) -> (v: Vec<char>)
    ensures
        v@ == s@,
{
    let n = s.unicode_len();
    let mut v: Vec<char> = Vec::new();
    let mut i: usize = 0;
    while i < n
        invariant
            n == s@.len(),
            i <= n,
            v@ == s@.take(i as int),
        decreases n - i,
    {
        let c = s.get_char(i);
        v.push(c);
        i = i + 1;
        assert(v@ =~= s@.take(i as int));
    }
    assert(v@ =~= s@);
    v
}

/// A string made of the characters `cs[from..to]`.
pub fn string_of_range(cs: &Vec<char>, from: usize, to: usize) -> (s: String)
    requires
        from <= to <= cs@.len(),
    ensures
        s@ == cs@.subrange(from as int, to as int),
{
    let mut s = String::new();
    let mut i = from;
    while i < to
        invariant
            from <= i <= to <= cs@.len(),
            s@ == cs@.subrange(from as int, i as int),
        decreases to - i,
    {
        push_char(&mut s, cs[i]);
        i = i + 1;
        assert(s@ =~= cs@.subrange(from as int, i as int));
    }
    s
}

/// A string made of the characters of `cs`.
pub fn string_of(cs: &Vec<char>) -> (s: String)
    ensures
        s@ == cs@,
{
    let s = string_of_range(cs, 0, cs.len());
    assert(cs@.subrange(0, cs@.len() as int) =~= cs@);
    s
}

/// The decimal digit character of `d` (`0 <= d < 10`).
pub open spec fn digit_char(d: nat) -> char {
    if d == 0 { '0' }
    else if d == 1 { '1' }
    else if d == 2 { '2' }
    else if d == 3 { '3' }
    else if d == 4 { '4' }
    else if d == 5 { '5' }
    else if d == 6 { '6' }
    else if d == 7 { '7' }
    else if d == 8 { '8' }
    else { '9' }
}

/// The value of a decimal digit character, if it is one.
pub open spec fn digit_value(c: char) -> Option<nat> {
    if '0' <= c && c <= '9' { Some((c as nat - '0' as nat) as nat) } else { None }
}

/// The decimal rendering of `n`, without sign or leading zeros, as `u64`'s
/// `Display` writes it.
pub open spec fn decimal(n: nat) -> Seq<char>
    decreases n,
{
    if n < 10 {
        seq![digit_char(n)]
    } else {
        decimal(n / 10).push(digit_char(n % 10))
    }
}

fn digit_char_exec(d: u64) -> (c: char)
    requires
        d < 10,
    ensures
        c == digit_char(d as nat),
{
    if d == 0 { '0' }
    else if d == 1 { '1' }
    else if d == 2 { '2' }
    else if d == 3 { '3' }
    else if d == 4 { '4' }
    else if d == 5 { '5' }
    else if d == 6 { '6' }
    else if d == 7 { '7' }
    else if d == 8 { '8' }
    else { '9' }
}

/// Appends the decimal rendering of `n` to `s`.
pub fn push_decimal(s: &mut String, n: u64)
    ensures
        final(s)@ == old(s)@ + decimal(n as nat),
    decreases n,
{
    if n >= 10 {
        push_decimal(s, n / 10);
    }
    let c = digit_char_exec(n % 10);
    push_char(s, c);
    assert(final(s)@ =~= old(s)@ + decimal(n as nat));
}

/// The decimal rendering of `n` as a string (`n.to_string()`).
pub fn decimal_string(n: u64) -> (s: String)
    ensures
        s@ == decimal(n as nat),
{
    let mut s = String::new();
    push_decimal(&mut s, n);
    assert(s@ =~= decimal(n as nat));
    s
}


/// Whether every character of `d` is a decimal digit.
pub open spec fn all_digits(d: Seq<char>) -> bool {
    forall|i: int| 0 <= i < d.len() ==> #[trigger] digit_value(d[i]) is Some
}

/// The number that the decimal digits `d` denote (most significant first).
pub open spec fn digits_value(d: Seq<char>) -> nat
    decreases d.len(),
{
    if d.len() == 0 {
        0
    } else {
        digits_value(d.drop_last()) * 10 + digit_value(d.last()).unwrap_or(0)
    }
}

/// What `str::parse::<u64>` gives for the text `s`: an optional leading `+`,
/// then one or more decimal digits whose value fits in `u64`; anything else
/// (empty text, a sign alone, another character, overflow) is an error.
pub open spec fn parse_u64_text(s: Seq<char>) -> Option<u64> {
    let d = if s.len() > 0 && s[0] == '+' { s.drop_first() } else { s };
    if d.len() > 0 && all_digits(d) && digits_value(d) <= u64::MAX {
        Some(digits_value(d) as u64)
    } else {
        None
    }
}

fn digit_value_exec(c: char) -> (r: Option<u64>)
    ensures
        r is Some <==> digit_value(c) is Some,
        r is Some ==> r->0 == digit_value(c)->0 && r->0 < 10,
{
    if '0' <= c && c <= '9' {
        Some(((c as u32) - ('0' as u32)) as u64)
    } else {
        None
    }
}

proof fn lemma_digits_value_monotone(d: Seq<char>, i: int, j: int)
    requires
        0 <= i <= j <= d.len(),
    ensures
        digits_value(d.take(i)) <= digits_value(d.take(j)),
    decreases j - i,
{
    if i < j {
        lemma_digits_value_monotone(d, i, j - 1);
        assert(d.take(j).drop_last() =~= d.take(j - 1));
    }
}

/// Parses `cs[from..to]` as `str::parse::<u64>` does.
pub fn parse_u64(cs: &Vec<char>, from: usize, to: usize) -> (r: Option<u64>)
    requires
        from <= to <= cs@.len(),
    ensures
        r == parse_u64_text(cs@.subrange(from as int, to as int)),
{
    let ghost s = cs@.subrange(from as int, to as int);
    let mut start = from;
    if from < to && cs[from] == '+' {
        start = from + 1;
    }
    let ghost d = cs@.subrange(start as int, to as int);
    assert(d =~= (if s.len() > 0 && s[0] == '+' { s.drop_first() } else { s }));
    if start == to {
        return None;
    }
    let mut acc: u64 = 0;
    let mut i = start;
    while i < to
        invariant
            from <= start < to <= cs@.len(),
            start <= i <= to,
            s == cs@.subrange(from as int, to as int),
            d == cs@.subrange(start as int, to as int),
            d == (if s.len() > 0 && s[0] == '+' { s.drop_first() } else { s }),
            all_digits(d.take(i - start)),
            acc as nat == digits_value(d.take(i - start)),
        decreases to - i,
    {
        let ghost k = (i - start) as int;
        assert(d.take(k + 1).drop_last() =~= d.take(k));
        assert(d[k] == cs@[i as int]);
        match digit_value_exec(cs[i]) {
            None => {
                assert(!all_digits(d)) by {
                    assert(digit_value(d[k]) is None);
                }
                return None;
            },
            Some(v) => {
                if acc > (u64::MAX - v) / 10 {
                    assert(digits_value(d) > u64::MAX) by {
                        assert(acc * 10 + v > u64::MAX) by (nonlinear_arith)
                            requires acc > (u64::MAX - v) / 10, v < 10;
                        lemma_digits_value_monotone(d, k + 1, d.len() as int);
                        assert(d.take(d.len() as int) =~= d);
                    }
                    return None;
                }
                assert(acc * 10 + v <= u64::MAX) by (nonlinear_arith)
                    requires acc <= (u64::MAX - v) / 10, v < 10;
                acc = acc * 10 + v;
                i = i + 1;
                assert(all_digits(d.take(i - start)));
            },
        }
    }
    assert(d.take(d.len() as int) =~= d);
    Some(acc)
}

proof fn lemma_digit_char_value(n: nat)
    requires
        n < 10,
    ensures
        digit_value(digit_char(n)) == Some(n),
{
}

/// The decimal rendering is all digits, does not start with `+`, and
/// denotes the number it renders.
pub proof fn lemma_decimal_digits(n: nat)
    ensures
        decimal(n).len() > 0,
        all_digits(decimal(n)),
        digits_value(decimal(n)) == n,
        decimal(n)[0] != '+',
    decreases n,
{
    lemma_digit_char_value(n % 10);
    if n >= 10 {
        lemma_decimal_digits(n / 10);
        let d = decimal(n);
        assert(d.drop_last() =~= decimal(n / 10));
        assert(d.last() == digit_char(n % 10));
        assert(digits_value(d) == digits_value(decimal(n / 10)) * 10 + n % 10);
        assert((n / 10) * 10 + n % 10 == n);
        assert forall|i: int| 0 <= i < d.len() implies #[trigger] digit_value(d[i]) is Some by {
            if i < d.len() - 1 {
                assert(d[i] == decimal(n / 10)[i]);
            }
        }
    } else {
        assert(decimal(n).drop_last() =~= Seq::<char>::empty());
        assert(digits_value(Seq::<char>::empty()) == 0);
        assert(decimal(n).last() == digit_char(n));
    }
}

/// Parsing the decimal rendering of a `u64` gives the number back.
pub proof fn lemma_parse_decimal_roundtrip(n: u64)
    ensures
        parse_u64_text(decimal(n as nat)) == Some(n),
{
    lemma_decimal_digits(n as nat);
}


/// The index of the first `c` in `s`, or `s.len()` when there is none.
pub open spec fn find_char(s: Seq<char>, c: char) -> nat
    decreases s.len(),
{
    if s.len() == 0 {
        0
    } else if s[0] == c {
        0
    } else {
        1 + find_char(s.drop_first(), c)
    }
}

pub proof fn lemma_find_char(s: Seq<char>, c: char, i: int)
    requires
        0 <= i <= s.len(),
        forall|j: int| 0 <= j < i ==> s[j] != c,
        i == s.len() || s[i] == c,
    ensures
        find_char(s, c) == i,
    decreases i,
{
    if i > 0 {
        let t = s.drop_first();
        assert forall|j: int| 0 <= j < i - 1 implies t[j] != c by {
            assert(t[j] == s[j + 1]);
        }
        lemma_find_char(t, c, i - 1);
    }
}

/// Finds the first `c` in `cs[from..to]`; returns `to` when there is none.
pub fn find_char_in(cs: &Vec<char>, from: usize, to: usize, c: char) -> (k: usize)
    requires
        from <= to <= cs@.len(),
    ensures
        from <= k <= to,
        k - from == find_char(cs@.subrange(from as int, to as int), c),
{
    let mut k = from;
    while k < to && cs[k] != c
        invariant
            from <= k <= to <= cs@.len(),
            forall|j: int| from <= j < k ==> cs@[j] != c,
        decreases to - k,
    {
        k = k + 1;
    }
    proof {
        let s = cs@.subrange(from as int, to as int);
        assert forall|j: int| 0 <= j < k - from implies s[j] != c by {
            assert(s[j] == cs@[from + j]);
        }
        lemma_find_char(s, c, k - from);
    }
    k
}

/// The characters that `trim` and `trim_matches` remove.
pub enum TrimSet {
    /// `char::is_whitespace`, the Unicode `White_Space` property.
    Whitespace,
    /// The double quote `"`.
    Quote,
}

/// Whether `c` is a Unicode `White_Space` character (`char::is_whitespace`).
pub open spec fn is_white_space(c: char) -> bool {
    let u = c as u32;
    ||| 0x9 <= u <= 0xD
    ||| u == 0x20
    ||| u == 0x85
    ||| u == 0xA0
    ||| u == 0x1680
    ||| 0x2000 <= u <= 0x200A
    ||| u == 0x2028
    ||| u == 0x2029
    ||| u == 0x202F
    ||| u == 0x205F
    ||| u == 0x3000
}

/// Whether `c` belongs to the set `t`.
pub open spec fn in_trim_set(t: TrimSet, c: char) -> bool {
    match t {
        TrimSet::Whitespace => is_white_space(c),
        TrimSet::Quote => c == '"',
    }
}

fn in_trim_set_exec(t: &TrimSet, c: char) -> (r: bool)
    ensures
        r == in_trim_set(*t, c),
{
    match t {
        TrimSet::Whitespace => {
            let u = c as u32;
            (0x9 <= u && u <= 0xD) || u == 0x20 || u == 0x85 || u == 0xA0 || u == 0x1680
                || (0x2000 <= u && u <= 0x200A) || u == 0x2028 || u == 0x2029 || u == 0x202F
                || u == 0x205F || u == 0x3000
        },
        TrimSet::Quote => c == '"',
    }
}

/// `s` without its leading characters of the set `t`.
pub open spec fn trim_start(s: Seq<char>, t: TrimSet) -> Seq<char>
    decreases s.len(),
{
    if s.len() > 0 && in_trim_set(t, s[0]) {
        trim_start(s.drop_first(), t)
    } else {
        s
    }
}

/// `s` without its trailing characters of the set `t`.
pub open spec fn trim_end(s: Seq<char>, t: TrimSet) -> Seq<char>
    decreases s.len(),
{
    if s.len() > 0 && in_trim_set(t, s.last()) {
        trim_end(s.drop_last(), t)
    } else {
        s
    }
}

/// `s` without leading and trailing characters of the set `t`
/// (`str::trim` for white space, `str::trim_matches('"')` for quotes).
pub open spec fn trim(s: Seq<char>, t: TrimSet) -> Seq<char> {
    trim_end(trim_start(s, t), t)
}

pub proof fn lemma_trim_start(s: Seq<char>, t: TrimSet, i: int)
    requires
        0 <= i <= s.len(),
        forall|j: int| 0 <= j < i ==> in_trim_set(t, #[trigger] s[j]),
        i == s.len() || !in_trim_set(t, s[i]),
    ensures
        trim_start(s, t) == s.skip(i),
    decreases i,
{
    if i > 0 {
        let u = s.drop_first();
        assert forall|j: int| 0 <= j < i - 1 implies in_trim_set(t, #[trigger] u[j]) by {
            assert(u[j] == s[j + 1]);
        }
        lemma_trim_start(u, t, i - 1);
        assert(u.skip(i - 1) =~= s.skip(i));
    } else {
        assert(s.skip(0) =~= s);
    }
}

pub proof fn lemma_trim_end(s: Seq<char>, t: TrimSet, i: int)
    requires
        0 <= i <= s.len(),
        forall|j: int| i <= j < s.len() ==> in_trim_set(t, #[trigger] s[j]),
        i == 0 || !in_trim_set(t, s[i - 1]),
    ensures
        trim_end(s, t) == s.take(i),
    decreases s.len() - i,
{
    if i < s.len() {
        let u = s.drop_last();
        assert forall|j: int| i <= j < u.len() implies in_trim_set(t, #[trigger] u[j]) by {
            assert(u[j] == s[j]);
        }
        lemma_trim_end(u, t, i);
        assert(u.take(i) =~= s.take(i));
    } else {
        assert(s.take(i) =~= s);
    }
}

/// The bounds of `cs[from..to]` trimmed of the set `t`: the trimmed text is
/// `cs[a..b]`.
pub fn trim_range(cs: &Vec<char>, from: usize, to: usize, t: TrimSet) -> (r: (usize, usize))
    requires
        from <= to <= cs@.len(),
    ensures
        from <= r.0 <= r.1 <= to,
        cs@.subrange(r.0 as int, r.1 as int) == trim(cs@.subrange(from as int, to as int), t),
{
    let mut a = from;
    while a < to && in_trim_set_exec(&t, cs[a])
        invariant
            from <= a <= to <= cs@.len(),
            forall|j: int| from <= j < a ==> in_trim_set(t, #[trigger] cs@[j]),
        decreases to - a,
    {
        a = a + 1;
    }
    let mut b = to;
    while b > a && in_trim_set_exec(&t, cs[b - 1])
        invariant
            from <= a <= b <= to <= cs@.len(),
            forall|j: int| b <= j < to ==> in_trim_set(t, #[trigger] cs@[j]),
        decreases b - a,
    {
        b = b - 1;
    }
    proof {
        let s = cs@.subrange(from as int, to as int);
        assert forall|j: int| 0 <= j < a - from implies in_trim_set(t, #[trigger] s[j]) by {
            assert(s[j] == cs@[from + j]);
        }
        lemma_trim_start(s, t, a - from);
        let u = s.skip(a - from);
        assert(u =~= cs@.subrange(a as int, to as int));
        assert forall|j: int| b - a <= j < u.len() implies in_trim_set(t, #[trigger] u[j]) by {
            assert(u[j] == cs@[a + j]);
        }
        lemma_trim_end(u, t, b - a);
        assert(u.take(b - a) =~= cs@.subrange(a as int, b as int));
    }
    (a, b)
}


/// A line's text without the `\r` of a `\r\n` ending.
pub open spec fn strip_cr(raw: Seq<char>) -> Seq<char> {
    if raw.len() > 0 && raw.last() == '\r' { raw.drop_last() } else { raw }
}

/// The lines of `s`, as `str::lines` yields them: split at `\n` or `\r\n`,
/// terminators removed, no line for a final terminator, none for empty text;
/// a `\r` that ends the text without a `\n` after it stays in the last line.
pub open spec fn lines(s: Seq<char>) -> Seq<Seq<char>>
    decreases s.len(),
{
    if s.len() == 0 {
        seq![]
    } else {
        let k = find_char(s, '\n') as int;
        if k >= s.len() {
            seq![s]
        } else {
            seq![strip_cr(s.take(k))] + lines(s.skip(k + 1))
        }
    }
}

/// The pieces of `s` between the separators `c` (`str::split` with a
/// character); there is always at least one piece.
pub open spec fn split_on(s: Seq<char>, c: char) -> Seq<Seq<char>>
    decreases s.len(),
{
    let k = find_char(s, c) as int;
    if k >= s.len() {
        seq![s]
    } else {
        seq![s.take(k)] + split_on(s.skip(k + 1), c)
    }
}

pub proof fn lemma_find_char_bound(s: Seq<char>, c: char)
    ensures
        find_char(s, c) <= s.len(),
        find_char(s, c) < s.len() ==> s[find_char(s, c) as int] == c,
    decreases s.len(),
{
    if s.len() > 0 && s[0] != c {
        lemma_find_char_bound(s.drop_first(), c);
    }
}

/// The first line of `cs[pos..to]` (which is not empty): the line's text is
/// `cs[pos..r.0]` and the lines after it are those of `cs[r.1..to]`.
pub fn next_line(cs: &Vec<char>, pos: usize, to: usize) -> (r: (usize, usize))
    requires
        pos < to <= cs@.len(),
    ensures
        pos <= r.0 <= to,
        pos < r.1 <= to,
        lines(cs@.subrange(pos as int, to as int)) == seq![cs@.subrange(pos as int, r.0 as int)]
            + lines(cs@.subrange(r.1 as int, to as int)),
{
    let k = find_char_in(cs, pos, to, '\n');
    let ghost s = cs@.subrange(pos as int, to as int);
    proof {
        lemma_find_char_bound(s, '\n');
    }
    if k == to {
        assert(s =~= cs@.subrange(pos as int, to as int));
        assert(lines(cs@.subrange(to as int, to as int)) =~= Seq::<Seq<char>>::empty());
        assert(lines(s) =~= seq![s] + lines(cs@.subrange(to as int, to as int)));
        (to, to)
    } else {
        let end = if k > pos && cs[k - 1] == '\r' { k - 1 } else { k };
        assert(strip_cr(s.take(k - pos)) =~= cs@.subrange(pos as int, end as int));
        assert(s.skip(k - pos + 1) =~= cs@.subrange(k + 1, to as int));
        (end, k + 1)
    }
}

/// The first piece of `cs[pos..to]` split at `c`: the piece is
/// `cs[pos..r]`; when `r < to` there is a separator at `r` and the other
/// pieces are those of `cs[r + 1..to]`.
pub fn next_piece(cs: &Vec<char>, pos: usize, to: usize, c: char) -> (r: usize)
    requires
        pos <= to <= cs@.len(),
    ensures
        pos <= r <= to,
        r == to ==> split_on(cs@.subrange(pos as int, to as int), c) == seq![cs@.subrange(pos as int, to as int)],
        r < to ==> split_on(cs@.subrange(pos as int, to as int), c) == seq![cs@.subrange(pos as int, r as int)]
            + split_on(cs@.subrange(r + 1, to as int), c),
{
    let k = find_char_in(cs, pos, to, c);
    let ghost s = cs@.subrange(pos as int, to as int);
    proof {
        lemma_find_char_bound(s, c);
    }
    if k < to {
        assert(s.take(k - pos) =~= cs@.subrange(pos as int, k as int));
        assert(s.skip(k - pos + 1) =~= cs@.subrange(k + 1, to as int));
    }
    k
}


/// The first `c` in `a + [c] + b` is the one after `a` when `a` holds none.
pub proof fn lemma_find_char_after(a: Seq<char>, c: char, b: Seq<char>)
    requires
        forall|i: int| 0 <= i < a.len() ==> a[i] != c,
    ensures
        find_char(a + seq![c] + b, c) == a.len(),
{
    let s = a + seq![c] + b;
    assert forall|j: int| 0 <= j < a.len() implies s[j] != c by {
        assert(s[j] == a[j]);
    }
    lemma_find_char(s, c, a.len() as int);
}

/// A text without the separator is a single piece.
pub proof fn lemma_split_single(a: Seq<char>, c: char)
    requires
        forall|i: int| 0 <= i < a.len() ==> a[i] != c,
    ensures
        split_on(a, c) == seq![a],
{
    lemma_find_char(a, c, a.len() as int);
}

/// Splitting `p + [c] + q` at `c` gives the pieces of `p` followed by those
/// of `q`.
pub proof fn lemma_split_join(p: Seq<char>, c: char, q: Seq<char>)
    ensures
        split_on(p + seq![c] + q, c) == split_on(p, c) + split_on(q, c),
    decreases p.len(),
{
    let s = p + seq![c] + q;
    lemma_find_char_bound(p, c);
    let k = find_char(p, c) as int;
    if k >= p.len() {
        assert forall|i: int| 0 <= i < p.len() implies p[i] != c by {
            if p[i] == c {
                assert forall|j: int| 0 <= j < i implies p[j] != c by {
                    lemma_find_char_first(p, c, j);
                }
                lemma_find_char(p, c, i);
            }
        }
        lemma_find_char_after(p, c, q);
        assert(s.take(p.len() as int) =~= p);
        assert(s.skip(p.len() as int + 1) =~= q);
    } else {
        assert forall|j: int| 0 <= j < k implies s[j] != c by {
            lemma_find_char_first(p, c, j);
        }
        lemma_find_char(s, c, k);
        let rest = p.skip(k + 1);
        lemma_split_join(rest, c, q);
        assert(s.take(k) =~= p.take(k));
        assert(s.skip(k + 1) =~= rest + seq![c] + q);
    }
}

/// No character before the first `c` is `c`.
pub proof fn lemma_find_char_first(s: Seq<char>, c: char, j: int)
    requires
        0 <= j < find_char(s, c),
    ensures
        s[j] != c,
    decreases s.len(),
{
    lemma_find_char_bound(s, c);
    assert(s.len() > 0 && s[0] != c);
    if j > 0 {
        lemma_find_char_first(s.drop_first(), c, j - 1);
        assert(s.drop_first()[j - 1] == s[j]);
    }
}

} // verus!
