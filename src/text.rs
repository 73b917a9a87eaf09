//! Character-level helpers shared by the resolver and the table formatter.
use vstd::prelude::*;

verus! {

/// Relies on `String::push`: appends one character at the end.
#[verifier::external_body]
pub(crate) fn push_char(s: &mut String, c: char)
    ensures
        final(s)@ == old(s)@.push(c),
{
    s.push(c)
}

/// The characters of `s`, in order.
pub(crate) fn chars_of(s: &str) -> (r: Vec<char>)
    ensures
        r@ == s@,
{
    let n = s.unicode_len();
    let mut r: Vec<char> = Vec::new();
    let mut i: usize = 0;
    while i < n
        invariant
            n == s@.len(),
            i <= n,
            r@ == s@.subrange(0, i as int),
        decreases n - i,
    {
        r.push(s.get_char(i));
        i += 1;
    }
    assert(r@ =~= s@);
    r
}

/// A string holding the characters of `v`.
pub(crate) fn string_of(v: &Vec<char>) -> (r: String)
    ensures
        r@ == v@,
{
    let mut r = String::new();
    let mut i: usize = 0;
    while i < v.len()
        invariant
            i <= v.len(),
            r@ == v@.subrange(0, i as int),
        decreases v.len() - i,
    {
        push_char(&mut r, v[i]);
        i += 1;
    }
    assert(r@ =~= v@);
    r
}

/// `n` copies of the character `c`.
pub open spec fn repeat(c: char, n: nat) -> Seq<char> {
    Seq::new(n, |i: int| c)
}

pub open spec fn is_digit(c: char) -> bool {
    '0' <= c && c <= '9'
}

pub open spec fn digit_value(c: char) -> nat {
    (c as u32 - '0' as u32) as nat
}

pub open spec fn digit_char(d: nat) -> char {
    ((d + '0' as u32) as u32) as char
}

pub open spec fn all_digits(s: Seq<char>) -> bool {
    forall|i: int| 0 <= i < s.len() ==> is_digit(#[trigger] s[i])
}

/// The number that a string of decimal digits denotes.
pub open spec fn digits_value(s: Seq<char>) -> nat
    decreases s.len(),
{
    if s.len() == 0 {
        0
    } else {
        digits_value(s.drop_last()) * 10 + digit_value(s.last())
    }
}

/// The input read as a `usize` the way std's `usize::from_str` reads it:
/// an optional `+`, then at least one decimal digit, and a value that fits.
pub open spec fn parse_usize(s: Seq<char>) -> Option<nat> {
    if s.len() > 0 && s[0] == '+' {
        parse_usize_digits(s.drop_first())
    } else {
        parse_usize_digits(s)
    }
}

/// A non-empty string of decimal digits whose value fits in a `usize`.
pub open spec fn parse_usize_digits(d: Seq<char>) -> Option<nat> {
    if d.len() > 0 && all_digits(d) && digits_value(d) <= usize::MAX {
        Some(digits_value(d))
    } else {
        None
    }
}

/// The decimal representation of `n`, without leading zeros.
pub open spec fn decimal(n: nat) -> Seq<char>
    decreases n,
{
    if n < 10 {
        seq![digit_char(n)]
    } else {
        decimal(n / 10).push(digit_char(n % 10))
    }
}

/// `s` centred in a cell of width `w`: cut to `w` characters when it is that
/// long, otherwise padded with spaces, the odd space going to the right.
pub open spec fn centre(s: Seq<char>, w: nat) -> Seq<char> {
    if s.len() >= w {
        s.subrange(0, w as int)
    } else {
        let pad = (w - s.len()) as nat;
        repeat(' ', pad / 2) + s + repeat(' ', (pad - pad / 2) as nat)
    }
}

proof fn lemma_prefix_value_le(s: Seq<char>, k: int)
    requires
        0 <= k <= s.len(),
        all_digits(s),
    ensures
        digits_value(s.subrange(0, k)) <= digits_value(s),
    decreases s.len(),
{
    if k < s.len() {
        let t = s.drop_last();
        assert(t.subrange(0, k) =~= s.subrange(0, k));
        lemma_prefix_value_le(t, k);
    } else {
        assert(s.subrange(0, k) =~= s);
    }
}

proof fn lemma_overflow(d: Seq<char>, c: Seq<char>, start: int, i: int)
    requires
        0 <= start <= i < c.len(),
        d == c.subrange(start, c.len() as int),
        is_digit(c[i]),
        digits_value(c.subrange(start, i)) * 10 + digit_value(c[i]) > usize::MAX,
    ensures
        parse_usize_digits(d) is None,
{
    let next = c.subrange(start, i + 1);
    assert(next.drop_last() =~= c.subrange(start, i));
    if all_digits(d) {
        lemma_prefix_value_le(d, i + 1 - start);
        assert(d.subrange(0, i + 1 - start) =~= next);
    }
}

/// Reads `s` as a `usize` with the rules of std's `usize::from_str`.
pub(crate) fn parse_index(s: &str) -> (r: Option<usize>)
    ensures
        match parse_usize(s@) {
            Some(n) => r == Some(n as usize),
            None => r is None,
        },
{
    let c = chars_of(s);
    let n = c.len();
    let start: usize = if n > 0 && c[0] == '+' {
        1
    } else {
        0
    };
    let ghost d = if s@.len() > 0 && s@[0] == '+' {
        s@.drop_first()
    } else {
        s@
    };
    assert(d =~= c@.subrange(start as int, n as int));
    assert(parse_usize(s@) == parse_usize_digits(d));
    if start == n {
        return None;
    }
    let mut value: usize = 0;
    let mut i: usize = start;
    while i < n
        invariant
            start <= i <= n,
            n == c@.len(),
            d == c@.subrange(start as int, n as int),
            parse_usize(s@) == parse_usize_digits(d),
            all_digits(c@.subrange(start as int, i as int)),
            value as nat == digits_value(c@.subrange(start as int, i as int)),
        decreases n - i,
    {
        let ch = c[i];
        let ghost pre = c@.subrange(start as int, i as int);
        let ghost next = c@.subrange(start as int, i + 1);
        assert(next.drop_last() =~= pre);
        if !('0' <= ch && ch <= '9') {
            assert(d[i - start] == ch);
            assert(!all_digits(d));
            return None;
        }
        assert(all_digits(next)) by {
            assert forall|j: int| 0 <= j < next.len() implies is_digit(#[trigger] next[j]) by {
                if j < pre.len() {
                    assert(next[j] == pre[j]);
                }
            }
        }
        let dv = (ch as u32 - '0' as u32) as usize;
        match value.checked_mul(10) {
            Some(v10) => match v10.checked_add(dv) {
                Some(v) => {
                    value = v;
                },
                None => {
                    proof {
                        lemma_overflow(d, c@, start as int, i as int);
                    }
                    return None;
                },
            },
            None => {
                proof {
                    lemma_overflow(d, c@, start as int, i as int);
                }
                return None;
            },
        }
        i += 1;
    }
    assert(c@.subrange(start as int, n as int) == d);
    Some(value)
}

/// Appends the characters of `s` to `out`.
pub(crate) fn push_all(out: &mut Vec<char>, s: &Vec<char>)
    ensures
        final(out)@ == old(out)@ + s@,
{
    let mut i: usize = 0;
    while i < s.len()
        invariant
            i <= s.len(),
            out@ == old(out)@ + s@.subrange(0, i as int),
        decreases s.len() - i,
    {
        out.push(s[i]);
        i += 1;
        assert(out@ =~= old(out)@ + s@.subrange(0, i as int));
    }
    assert(s@.subrange(0, i as int) =~= s@);
}

/// Appends `n` copies of `c` to `out`.
pub(crate) fn push_repeat(out: &mut Vec<char>, c: char, n: usize)
    ensures
        final(out)@ == old(out)@ + repeat(c, n as nat),
{
    let mut i: usize = 0;
    while i < n
        invariant
            i <= n,
            out@ == old(out)@ + repeat(c, i as nat),
        decreases n - i,
    {
        out.push(c);
        i += 1;
        assert(out@ =~= old(out)@ + repeat(c, i as nat));
    }
}

/// The decimal digits of `n`.
pub(crate) fn decimal_chars(n: usize) -> (r: Vec<char>)
    ensures
        r@ == decimal(n as nat),
{
    let mut out: Vec<char> = Vec::new();
    let mut m: usize = n;
    assert(decimal(n as nat) =~= decimal(m as nat) + out@);
    while m >= 10
        invariant
            decimal(n as nat) == decimal(m as nat) + out@,
        decreases m,
    {
        let d = m % 10;
        let ch = ((d as u32) + ('0' as u32)) as u8 as char;
        let ghost before = out@;
        assert(decimal(m as nat) == decimal((m / 10) as nat).push(digit_char(d as nat)));
        out.insert(0, ch);
        assert(out@ =~= seq![ch] + before);
        m = m / 10;
        assert(decimal(n as nat) =~= decimal(m as nat) + out@);
    }
    let ch = ((m as u32) + ('0' as u32)) as u8 as char;
    let ghost before = out@;
    out.insert(0, ch);
    assert(out@ =~= seq![ch] + before);
    assert(decimal(n as nat) =~= out@);
    out
}

/// The characters of `s` from position `from` up to, not including, `to`.
pub(crate) fn slice_chars(s: &Vec<char>, from: usize, to: usize) -> (r: Vec<char>)
    requires
        from <= to <= s.len(),
    ensures
        r@ == s@.subrange(from as int, to as int),
{
    let mut r: Vec<char> = Vec::new();
    let mut i: usize = from;
    while i < to
        invariant
            from <= i <= to <= s.len(),
            r@ == s@.subrange(from as int, i as int),
        decreases to - i,
    {
        r.push(s[i]);
        i += 1;
        assert(r@ =~= s@.subrange(from as int, i as int));
    }
    r
}

/// Appends `s` centred in a cell of width `w` to `out`.
pub(crate) fn push_centred(out: &mut Vec<char>, s: &Vec<char>, w: usize)
    ensures
        final(out)@ == old(out)@ + centre(s@, w as nat),
{
    if s.len() >= w {
        let cut = slice_chars(s, 0, w);
        push_all(out, &cut);
    } else {
        let pad = w - s.len();
        push_repeat(out, ' ', pad / 2);
        push_all(out, s);
        push_repeat(out, ' ', pad - pad / 2);
        assert(final(out)@ =~= old(out)@ + centre(s@, w as nat));
    }
}

/// The lines of `lines` joined, with `sep` between each two.
pub open spec fn join(lines: Seq<Seq<char>>, sep: Seq<char>) -> Seq<char>
    decreases lines.len(),
{
    if lines.len() == 0 {
        Seq::empty()
    } else if lines.len() == 1 {
        lines[0]
    } else {
        join(lines.drop_last(), sep) + sep + lines.last()
    }
}

/// Joining one line more: the separator, then the line.
pub proof fn lemma_join_step(lines: Seq<Seq<char>>, sep: Seq<char>, i: int)
    requires
        0 <= i < lines.len(),
    ensures
        join(lines.take(i + 1), sep) == if i == 0 {
            lines[0]
        } else {
            join(lines.take(i), sep) + sep + lines[i]
        },
{
    assert(lines.take(i + 1).drop_last() =~= lines.take(i));
}

} // verus!
