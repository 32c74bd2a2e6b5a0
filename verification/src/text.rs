//! Character-sequence utilities: splitting text into tokens and lines,
//! trimming whitespace, prefix and substring tests, and reading unsigned
//! numbers from digit strings.
//!
//! Every executable function here is specified against a small recursive
//! spec function over `Seq<char>`, so the parsing modules can state their
//! contracts purely over views.

use vstd::prelude::*;

verus! {

/// The view of an optional string: the character sequence it holds, if any.
pub open spec fn text_view(o: Option<&str>) -> Option<Seq<char>> {
    match o {
        Some(s) => Some(s@),
        None => None,
    }
}

/// The view of an optional owned string.
pub open spec fn owned_text_view(o: Option<String>) -> Option<Seq<char>> {
    match o {
        Some(s) => Some(s@),
        None => None,
    }
}

/// The whitespace characters that trimming removes.
pub open spec fn is_space_char(c: char) -> bool {
    c == ' ' || c == '\t' || c == '\n' || c == '\r' || c == '\u{b}' || c == '\u{c}'
}

pub fn is_space(c: char) -> (r: bool)
    ensures
        r == is_space_char(c),
{
    c == ' ' || c == '\t' || c == '\n' || c == '\r' || c == '\u{b}' || c == '\u{c}'
}

/// The tokens of `s` cut at every occurrence of `sep`; empty tokens are kept,
/// so the result always holds one token more than `s` holds separators.
pub open spec fn split_spec(s: Seq<char>, sep: char) -> Seq<Seq<char>>
    decreases s.len(),
{
    if s.len() == 0 {
        seq![Seq::<char>::empty()]
    } else if s[0] == sep {
        seq![Seq::<char>::empty()] + split_spec(s.drop_first(), sep)
    } else {
        let rest = split_spec(s.drop_first(), sep);
        seq![seq![s[0]] + rest[0]] + rest.drop_first()
    }
}

pub proof fn lemma_split_len(s: Seq<char>, sep: char)
    ensures
        split_spec(s, sep).len() >= 1,
    decreases s.len(),
{
    if s.len() > 0 {
        lemma_split_len(s.drop_first(), sep);
    }
}

/// Splitting a separator-free text yields that text as the only token.
pub proof fn lemma_split_no_sep(s: Seq<char>, sep: char)
    requires
        forall|i: int| 0 <= i < s.len() ==> s[i] != sep,
    ensures
        split_spec(s, sep) =~~= seq![s],
    decreases s.len(),
{
    if s.len() > 0 {
        lemma_split_no_sep(s.drop_first(), sep);
        let rest = split_spec(s.drop_first(), sep);
        assert(rest[0] == s.drop_first());
        assert(seq![s[0]] + s.drop_first() =~= s);
    }
}

/// Splitting distributes over a separator: the tokens of `a + [sep] + b`
/// are the tokens of `a` followed by the tokens of `b`.
pub proof fn lemma_split_append(a: Seq<char>, b: Seq<char>, sep: char)
    ensures
        split_spec(a + seq![sep] + b, sep) =~~= split_spec(a, sep) + split_spec(b, sep),
    decreases a.len(),
{
    let s = a + seq![sep] + b;
    if a.len() == 0 {
        assert(s[0] == sep);
        assert(s.drop_first() =~= b);
    } else {
        assert(s[0] == a[0]);
        assert(s.drop_first() =~= a.drop_first() + seq![sep] + b);
        lemma_split_append(a.drop_first(), b, sep);
        lemma_split_len(a.drop_first(), sep);
        lemma_split_len(b, sep);
        if a[0] == sep {
        } else {
            let rest = split_spec(a.drop_first() + seq![sep] + b, sep);
            let ra = split_spec(a.drop_first(), sep);
            let rb = split_spec(b, sep);
            assert(rest =~~= ra + rb);
            assert(rest[0] == ra[0]);
            assert(rest.drop_first() =~~= ra.drop_first() + rb);
        }
    }
}

/// The first token extended at the front: `pre` glued onto `parts[0]`.
pub open spec fn cons_first(pre: Seq<char>, parts: Seq<Seq<char>>) -> Seq<Seq<char>>
    recommends
        parts.len() >= 1,
{
    seq![pre + parts[0]] + parts.drop_first()
}

proof fn lemma_split_unfold(s: Seq<char>, i: int, sep: char)
    requires
        0 <= i < s.len(),
    ensures
        s[i] == sep ==> split_spec(s.skip(i), sep) =~~= seq![Seq::<char>::empty()] + split_spec(
            s.skip(i + 1),
            sep,
        ),
        s[i] != sep ==> split_spec(s.skip(i), sep) =~~= cons_first(
            seq![s[i]],
            split_spec(s.skip(i + 1), sep),
        ),
{
    let t = s.skip(i);
    assert(t.len() > 0);
    assert(t[0] == s[i]);
    assert(t.drop_first() =~= s.skip(i + 1));
    if s[i] != sep {
        lemma_split_len(s.skip(i + 1), sep);
    }
}

/// Cuts `s` at every occurrence of `sep`, keeping empty tokens.
pub fn split_str<'a>(s: &'a str, sep: char) -> (r: Vec<&'a str>)
    ensures
        r.deep_view() =~~= split_spec(s@, sep),
{
    let n = s.unicode_len();
    let mut out: Vec<&'a str> = Vec::new();
    let mut start: usize = 0;
    let mut i: usize = 0;
    proof {
        assert(s@.skip(0) =~= s@);
    }
    while i < n
        invariant
            start <= i <= n,
            n == s@.len(),
            split_spec(s@, sep) =~~= out.deep_view() + cons_first(
                s@.subrange(start as int, i as int),
                split_spec(s@.skip(i as int), sep),
            ),
        decreases n - i,
    {
        proof {
            lemma_split_unfold(s@, i as int, sep);
            lemma_split_len(s@.skip(i as int + 1), sep);
        }
        let ghost cur = s@.subrange(start as int, i as int);
        let ghost p = split_spec(s@.skip(i as int + 1), sep);
        if s.get_char(i) == sep {
            let tok = s.substring_char(start, i);
            out.push(tok);
            proof {
                assert(cons_first(cur, seq![Seq::<char>::empty()] + p) =~~= seq![cur] + p);
                assert(cons_first(Seq::<char>::empty(), p) =~~= p);
                assert(s@.subrange(i as int + 1, i as int + 1) =~= Seq::<char>::empty());
            }
            start = i + 1;
        } else {
            proof {
                let inner = cons_first(seq![s@[i as int]], p);
                assert(inner[0] == seq![s@[i as int]] + p[0]);
                assert(inner.drop_first() =~~= p.drop_first());
                assert(cur + (seq![s@[i as int]] + p[0]) =~= s@.subrange(
                    start as int,
                    i as int + 1,
                ) + p[0]);
                assert(cons_first(cur, inner) =~~= cons_first(
                    s@.subrange(start as int, i as int + 1),
                    p,
                ));
            }
        }
        i += 1;
    }
    proof {
        assert(s@.skip(n as int) =~= Seq::<char>::empty());
        assert(split_spec(Seq::<char>::empty(), sep) =~~= seq![Seq::<char>::empty()]);
        assert(cons_first(s@.subrange(start as int, n as int), seq![Seq::<char>::empty()]) =~~= seq![
            s@.subrange(start as int, n as int),
        ]);
    }
    let tok = s.substring_char(start, n);
    out.push(tok);
    out
}

/// A line with one carriage return removed from its end, if it carries one.
pub open spec fn strip_one_cr(l: Seq<char>) -> Seq<char> {
    if l.len() > 0 && l.last() == '\r' {
        l.drop_last()
    } else {
        l
    }
}

/// The lines of `s`: the tokens between newlines, each stripped of a
/// carriage return left by a CRLF ending, without a final empty token
/// when `s` ends in a newline.  The token after the last newline keeps a
/// trailing carriage return, since no newline follows it.
pub open spec fn lines_spec(s: Seq<char>) -> Seq<Seq<char>> {
    let parts = split_spec(s, '\n');
    let kept = if parts.last().len() == 0 {
        parts.drop_last()
    } else {
        parts
    };
    Seq::new(
        kept.len(),
        |i: int|
            if i < parts.len() - 1 {
                strip_one_cr(kept[i])
            } else {
                kept[i]
            },
    )
}

pub fn strip_cr<'a>(t: &'a str) -> (r: &'a str)
    ensures
        r@ =~= strip_one_cr(t@),
{
    let n = t.unicode_len();
    if n > 0 && t.get_char(n - 1) == '\r' {
        let r = t.substring_char(0, n - 1);
        proof {
            assert(t@.subrange(0, n as int - 1) =~= t@.drop_last());
        }
        r
    } else {
        t
    }
}

/// The lines of `s`, as `lines_spec` describes them.
pub fn lines_of<'a>(s: &'a str) -> (r: Vec<&'a str>)
    ensures
        r.deep_view() =~~= lines_spec(s@),
{
    proof {
        lemma_split_len(s@, '\n');
    }
    let parts = split_str(s, '\n');
    let k = parts.len();
    let last_empty = parts[k - 1].is_empty();
    let kept_n = if last_empty {
        k - 1
    } else {
        k
    };
    let mut out: Vec<&'a str> = Vec::new();
    let mut i: usize = 0;
    while i < kept_n
        invariant
            i <= kept_n,
            kept_n <= k == parts.len(),
            parts.deep_view() =~~= split_spec(s@, '\n'),
            kept_n == if split_spec(s@, '\n').last().len() == 0 {
                k - 1
            } else {
                k as int
            },
            out.len() == i,
            forall|j: int| 0 <= j < i ==> out.deep_view()[j] == lines_spec(s@)[j],
        decreases kept_n - i,
    {
        let t = parts[i];
        let ghost prev = out.deep_view();
        if i + 1 < k {
            let c = strip_cr(t);
            out.push(c);
            proof {
                assert(out.deep_view() =~~= prev.push(c@));
            }
        } else {
            out.push(t);
            proof {
                assert(out.deep_view() =~~= prev.push(t@));
            }
        }
        proof {
            assert(t@ == parts.deep_view()[i as int]);
            assert(out.deep_view()[i as int] == lines_spec(s@)[i as int]);
        }
        i += 1;
    }
    proof {
        assert(out.deep_view() =~~= lines_spec(s@));
    }
    out
}

/// `s` without the leading characters that `is_space_char` accepts.
pub open spec fn trim_start_spec(s: Seq<char>) -> Seq<char>
    decreases s.len(),
{
    if s.len() > 0 && is_space_char(s[0]) {
        trim_start_spec(s.drop_first())
    } else {
        s
    }
}

/// `s` without the trailing characters that `is_space_char` accepts.
pub open spec fn trim_end_spec(s: Seq<char>) -> Seq<char>
    decreases s.len(),
{
    if s.len() > 0 && is_space_char(s.last()) {
        trim_end_spec(s.drop_last())
    } else {
        s
    }
}

/// `s` without leading and trailing whitespace.
pub open spec fn trim_spec(s: Seq<char>) -> Seq<char> {
    trim_end_spec(trim_start_spec(s))
}

pub proof fn lemma_trim_start_skip(s: Seq<char>, k: int)
    requires
        0 <= k <= s.len(),
        forall|j: int| 0 <= j < k ==> is_space_char(#[trigger] s[j]),
        k < s.len() ==> !is_space_char(s[k]),
    ensures
        trim_start_spec(s) =~= s.skip(k),
    decreases k,
{
    if k == 0 {
    } else {
        lemma_trim_start_skip(s.drop_first(), k - 1);
        assert(s.drop_first().skip(k - 1) =~= s.skip(k));
    }
}

pub proof fn lemma_trim_end_take(s: Seq<char>, k: int)
    requires
        0 <= k <= s.len(),
        forall|j: int| k <= j < s.len() ==> is_space_char(#[trigger] s[j]),
        k > 0 ==> !is_space_char(s[k - 1]),
    ensures
        trim_end_spec(s) =~= s.take(k),
    decreases s.len() - k,
{
    if k == s.len() {
        assert(s.take(k) =~= s);
    } else {
        lemma_trim_end_take(s.drop_last(), k);
        assert(s.drop_last().take(k) =~= s.take(k));
    }
}

pub fn trim_start_str<'a>(s: &'a str) -> (r: &'a str)
    ensures
        r@ =~= trim_start_spec(s@),
{
    let n = s.unicode_len();
    let mut a: usize = 0;
    while a < n && is_space(s.get_char(a))
        invariant
            a <= n,
            n == s@.len(),
            forall|j: int| 0 <= j < a ==> is_space_char(#[trigger] s@[j]),
        decreases n - a,
    {
        a += 1;
    }
    proof {
        lemma_trim_start_skip(s@, a as int);
    }
    s.substring_char(a, n)
}

pub fn trim_end_str<'a>(s: &'a str) -> (r: &'a str)
    ensures
        r@ =~= trim_end_spec(s@),
{
    let n = s.unicode_len();
    let mut b: usize = n;
    while b > 0 && is_space(s.get_char(b - 1))
        invariant
            b <= n,
            n == s@.len(),
            forall|j: int| b <= j < n ==> is_space_char(#[trigger] s@[j]),
        decreases b,
    {
        b -= 1;
    }
    proof {
        lemma_trim_end_take(s@, b as int);
    }
    s.substring_char(0, b)
}

/// `s` with leading and trailing whitespace removed.
pub fn trim_str<'a>(s: &'a str) -> (r: &'a str)
    ensures
        r@ =~= trim_spec(s@),
{
    trim_end_str(trim_start_str(s))
}

/// `s` without the trailing run of the character `c`.
pub open spec fn strip_end_spec(s: Seq<char>, c: char) -> Seq<char>
    decreases s.len(),
{
    if s.len() > 0 && s.last() == c {
        strip_end_spec(s.drop_last(), c)
    } else {
        s
    }
}

/// `s` without the leading run of the character `c`.
pub open spec fn strip_start_spec(s: Seq<char>, c: char) -> Seq<char>
    decreases s.len(),
{
    if s.len() > 0 && s[0] == c {
        strip_start_spec(s.drop_first(), c)
    } else {
        s
    }
}

pub proof fn lemma_strip_end_take(s: Seq<char>, c: char, k: int)
    requires
        0 <= k <= s.len(),
        forall|j: int| k <= j < s.len() ==> #[trigger] s[j] == c,
        k > 0 ==> s[k - 1] != c,
    ensures
        strip_end_spec(s, c) =~= s.take(k),
    decreases s.len() - k,
{
    if k == s.len() {
        assert(s.take(k) =~= s);
    } else {
        lemma_strip_end_take(s.drop_last(), c, k);
        assert(s.drop_last().take(k) =~= s.take(k));
    }
}

pub proof fn lemma_strip_start_skip(s: Seq<char>, c: char, k: int)
    requires
        0 <= k <= s.len(),
        forall|j: int| 0 <= j < k ==> #[trigger] s[j] == c,
        k < s.len() ==> s[k] != c,
    ensures
        strip_start_spec(s, c) =~= s.skip(k),
    decreases k,
{
    if k > 0 {
        lemma_strip_start_skip(s.drop_first(), c, k - 1);
        assert(s.drop_first().skip(k - 1) =~= s.skip(k));
    }
}

pub fn strip_end_str<'a>(s: &'a str, c: char) -> (r: &'a str)
    ensures
        r@ =~= strip_end_spec(s@, c),
{
    let n = s.unicode_len();
    let mut b: usize = n;
    while b > 0 && s.get_char(b - 1) == c
        invariant
            b <= n,
            n == s@.len(),
            forall|j: int| b <= j < n ==> #[trigger] s@[j] == c,
        decreases b,
    {
        b -= 1;
    }
    proof {
        lemma_strip_end_take(s@, c, b as int);
    }
    s.substring_char(0, b)
}

pub fn strip_start_str<'a>(s: &'a str, c: char) -> (r: &'a str)
    ensures
        r@ =~= strip_start_spec(s@, c),
{
    let n = s.unicode_len();
    let mut a: usize = 0;
    while a < n && s.get_char(a) == c
        invariant
            a <= n,
            n == s@.len(),
            forall|j: int| 0 <= j < a ==> #[trigger] s@[j] == c,
        decreases n - a,
    {
        a += 1;
    }
    proof {
        lemma_strip_start_skip(s@, c, a as int);
    }
    s.substring_char(a, n)
}

/// Whether `p` is a prefix of `s`.
pub fn starts_with_str(s: &str, p: &str) -> (r: bool)
    ensures
        r == p@.is_prefix_of(s@),
{
    let n = s.unicode_len();
    let m = p.unicode_len();
    if m > n {
        return false;
    }
    let mut i: usize = 0;
    while i < m
        invariant
            i <= m <= n,
            n == s@.len(),
            m == p@.len(),
            forall|j: int| 0 <= j < i ==> s@[j] == p@[j],
        decreases m - i,
    {
        if s.get_char(i) != p.get_char(i) {
            return false;
        }
        i += 1;
    }
    proof {
        assert(p@ =~= s@.subrange(0, m as int));
    }
    true
}

/// Whether the views of two strings are the same sequence of characters.
pub fn str_eq(a: &str, b: &str) -> (r: bool)
    ensures
        r == (a@ == b@),
{
    let n = a.unicode_len();
    let m = b.unicode_len();
    if n != m {
        return false;
    }
    let mut i: usize = 0;
    while i < n
        invariant
            i <= n,
            n == a@.len() == b@.len(),
            forall|j: int| 0 <= j < i ==> a@[j] == b@[j],
        decreases n - i,
    {
        if a.get_char(i) != b.get_char(i) {
            return false;
        }
        i += 1;
    }
    proof {
        assert(a@ =~= b@);
    }
    true
}

/// Whether `needle` occurs somewhere inside `hay`.
pub open spec fn contains_spec(hay: Seq<char>, needle: Seq<char>) -> bool {
    exists|i: int|
        0 <= i <= hay.len() - needle.len() && #[trigger] needle.is_prefix_of(hay.skip(i))
}

/// Substring search, as `contains_spec` describes it.
pub fn contains_str(hay: &str, needle: &str) -> (r: bool)
    ensures
        r == contains_spec(hay@, needle@),
{
    let n = hay.unicode_len();
    let m = needle.unicode_len();
    if m > n {
        return false;
    }
    if m == 0 {
        proof {
            assert(needle@.is_prefix_of(hay@.skip(0)));
        }
        return true;
    }
    let mut i: usize = 0;
    while i <= n - m
        invariant
            1 <= m <= n,
            n == hay@.len(),
            m == needle@.len(),
            i <= n - m + 1,
            forall|k: int| 0 <= k < i ==> !(#[trigger] needle@.is_prefix_of(hay@.skip(k))),
        decreases n - i,
    {
        let window = hay.substring_char(i, i + m);
        if str_eq(window, needle) {
            proof {
                assert(needle@ =~= hay@.skip(i as int).subrange(0, m as int));
                assert(needle@.is_prefix_of(hay@.skip(i as int)));
            }
            return true;
        }
        proof {
            assert(hay@.skip(i as int).subrange(0, m as int) =~= window@);
        }
        i += 1;
    }
    false
}

/// A decimal digit.
pub open spec fn is_digit_char(c: char) -> bool {
    ('0' as int) <= (c as int) && (c as int) <= ('9' as int)
}

pub open spec fn digit_val(c: char) -> int {
    (c as int) - ('0' as int)
}

pub open spec fn all_digits(s: Seq<char>) -> bool {
    forall|i: int| 0 <= i < s.len() ==> is_digit_char(#[trigger] s[i])
}

/// The number a digit string denotes, most significant digit first.
pub open spec fn digits_val(s: Seq<char>) -> int
    decreases s.len(),
{
    if s.len() == 0 {
        0
    } else {
        digits_val(s.drop_last()) * 10 + digit_val(s.last())
    }
}

/// A non-empty digit string whose value fits the given bound.
pub open spec fn is_numeric_within(s: Seq<char>, bound: int) -> bool {
    s.len() > 0 && all_digits(s) && digits_val(s) <= bound
}

pub proof fn lemma_digits_val_nonneg(s: Seq<char>)
    requires
        all_digits(s),
    ensures
        digits_val(s) >= 0,
    decreases s.len(),
{
    if s.len() > 0 {
        assert(all_digits(s.drop_last()));
        lemma_digits_val_nonneg(s.drop_last());
    }
}

/// Reads `s` as a decimal number, capping the accumulator at `65536` so that
/// arbitrarily long digit strings cannot overflow; `None` exactly when `s` is
/// empty, holds a non-digit, or denotes a value above `u16::MAX`.
pub fn parse_u16_str(s: &str) -> (r: Option<u16>)
    ensures
        match r {
            Some(v) => is_numeric_within(s@, u16::MAX as int) && v as int == digits_val(s@),
            None => !is_numeric_within(s@, u16::MAX as int),
        },
{
    let n = s.unicode_len();
    if n == 0 {
        return None;
    }
    let mut acc: u32 = 0;
    let mut i: usize = 0;
    while i < n
        invariant
            i <= n,
            n == s@.len(),
            all_digits(s@.take(i as int)),
            acc <= 65536,
            acc as int == if digits_val(s@.take(i as int)) <= 65536 {
                digits_val(s@.take(i as int))
            } else {
                65536int
            },
        decreases n - i,
    {
        let c = s.get_char(i);
        let cv = c as u32;
        if cv < 48 || cv > 57 {
            proof {
                assert(!is_digit_char(s@[i as int]));
            }
            return None;
        }
        let d = cv - 48;
        proof {
            let pre = s@.take(i as int);
            let ext = s@.take(i as int + 1);
            assert(ext.drop_last() =~= pre);
            assert(ext.last() == s@[i as int]);
            lemma_digits_val_nonneg(pre);
        }
        let next = acc * 10 + d;
        acc = if next > 65536 {
            65536
        } else {
            next
        };
        i += 1;
    }
    proof {
        assert(s@.take(n as int) =~= s@);
        lemma_digits_val_nonneg(s@);
    }
    if acc <= 65535 {
        Some(acc as u16)
    } else {
        None
    }
}

} // verus!

