//! The output parser: pulls the raw version string and the raw date string
//! out of the text a compiler prints for its version.
//!
//! Two shapes of input are understood.  The simple strategy reads one
//! header line, `name VERSION [(HASH DATE)]`.  The verbose strategy walks
//! the whole text line by line, skipping any amount of leading noise,
//! adopting the first header line it meets and letting later labelled
//! `release:` and `commit-date:` lines override what the header gave.

use vstd::prelude::*;

use crate::text::{
    lines_spec, owned_text_view, split_spec, strip_end_spec, strip_one_cr, strip_start_spec,
    trim_end_spec, trim_spec, trim_start_spec,
};

verus! {

/// The token that opens a version header line, product name and space.
pub open spec fn header_prefix() -> Seq<char> {
    "rustc "@
}

/// The label of an authoritative version line in verbose output.
pub open spec fn release_label() -> Seq<char> {
    "release: "@
}

/// The label of an authoritative date line in verbose output.
pub open spec fn commit_date_label() -> Seq<char> {
    "commit-date: "@
}

/// The sentinel a toolchain built outside its repository prints in place
/// of its commit date.
pub open spec fn unknown_text() -> Seq<char> {
    "unknown"@
}

/// The last line of `s`, or `s` itself when it has no lines.
pub open spec fn last_line_spec(s: Seq<char>) -> Seq<char> {
    let ls = lines_spec(s);
    if ls.len() == 0 {
        s
    } else {
        ls.last()
    }
}

/// The whitespace-separated tokens the simple strategy works on: the last
/// line, trimmed, cut at every single space.
pub open spec fn simple_tokens(s: Seq<char>) -> Seq<Seq<char>> {
    split_spec(trim_spec(last_line_spec(s)), ' ')
}

/// The version string the simple strategy yields: the token after the
/// product name, or nothing when the line has no second token.
pub open spec fn simple_version_spec(s: Seq<char>) -> Option<Seq<char>> {
    let toks = simple_tokens(s);
    if toks.len() >= 2 {
        Some(toks[1])
    } else {
        None
    }
}

/// The first token that ends in a closing parenthesis, or nothing.
pub open spec fn first_paren_token(toks: Seq<Seq<char>>) -> Option<Seq<char>>
    decreases toks.len(),
{
    if toks.len() == 0 {
        None
    } else if toks[0].len() > 0 && toks[0].last() == ')' {
        Some(toks[0])
    } else {
        first_paren_token(toks.drop_first())
    }
}

/// A date token undressed: trailing whitespace, then every trailing `)`,
/// then leading whitespace, then every leading `(` removed, in that order.
pub open spec fn clean_date_spec(t: Seq<char>) -> Seq<char> {
    strip_start_spec(trim_start_spec(strip_end_spec(trim_end_spec(t), ')')), '(')
}

/// The date string the simple strategy yields: the first parenthesised
/// token after the version position, undressed; absent when none exists.
pub open spec fn simple_date_spec(s: Seq<char>) -> Option<Seq<char>> {
    let toks = simple_tokens(s);
    if toks.len() < 2 {
        None
    } else {
        match first_paren_token(toks.skip(2)) {
            Some(t) => Some(clean_date_spec(t)),
            None => None,
        }
    }
}

/// One verbose line folded into the accumulated (version, date) state:
/// a header line fills whichever parts are still absent; a `release:` line
/// overrides the version; a `commit-date:` line overrides the date, the
/// sentinel `unknown` clearing it; any other line changes nothing.
pub open spec fn verbose_step(
    st: (Option<Seq<char>>, Option<Seq<char>>),
    line: Seq<char>,
) -> (Option<Seq<char>>, Option<Seq<char>>) {
    if header_prefix().is_prefix_of(line) {
        (
            match st.0 {
                Some(v) => Some(v),
                None => simple_version_spec(line),
            },
            match st.1 {
                Some(d) => Some(d),
                None => simple_date_spec(line),
            },
        )
    } else if release_label().is_prefix_of(line) {
        (Some(line.skip(release_label().len() as int)), st.1)
    } else if commit_date_label().is_prefix_of(line) {
        let rest = line.skip(commit_date_label().len() as int);
        (
            st.0,
            if rest == unknown_text() {
                None
            } else {
                Some(rest)
            },
        )
    } else {
        st
    }
}

/// The verbose strategy's state after folding every line of `ls`, starting
/// from `st`.
pub open spec fn verbose_fold(
    st: (Option<Seq<char>>, Option<Seq<char>>),
    ls: Seq<Seq<char>>,
) -> (Option<Seq<char>>, Option<Seq<char>>)
    decreases ls.len(),
{
    if ls.len() == 0 {
        st
    } else {
        verbose_step(verbose_fold(st, ls.drop_last()), ls.last())
    }
}

/// What the verbose strategy yields on the whole text: the fold over its
/// lines from the empty state.
pub open spec fn verbose_parse_spec(s: Seq<char>) -> (Option<Seq<char>>, Option<Seq<char>>) {
    verbose_fold((None, None), lines_spec(s))
}

/// The raw version string a verbose text yields, when the text is present.
pub open spec fn version_text_spec(out: Option<Seq<char>>) -> Option<Seq<char>> {
    match out {
        Some(s) => verbose_parse_spec(s).0,
        None => None,
    }
}

/// The raw date string a verbose text yields, when the text is present.
pub open spec fn date_text_spec(out: Option<Seq<char>>) -> Option<Seq<char>> {
    match out {
        Some(s) => verbose_parse_spec(s).1,
        None => None,
    }
}

proof fn lemma_first_paren_step(toks: Seq<Seq<char>>, i: int)
    requires
        0 <= i < toks.len(),
    ensures
        !(toks[i].len() > 0 && toks[i].last() == ')') ==> first_paren_token(toks.skip(i))
            == first_paren_token(toks.skip(i + 1)),
        (toks[i].len() > 0 && toks[i].last() == ')') ==> first_paren_token(toks.skip(i)) == Some(
            toks[i],
        ),
{
    let t = toks.skip(i);
    assert(t[0] == toks[i]);
    assert(t.drop_first() =~~= toks.skip(i + 1));
}

/// Parses `(version, date)` as available from a one-line version string:
/// the token after the product name, and the first parenthesised token
/// after it, undressed.
pub fn version_and_date_from_rustc_version(s: &str) -> (r: (Option<String>, Option<String>))
    ensures
        owned_text_view(r.0) == simple_version_spec(s@),
        owned_text_view(r.1) == simple_date_spec(s@),
{
    let ls = crate::text::lines_of(s);
    let last: &str = if ls.len() == 0 {
        s
    } else {
        let t = ls[ls.len() - 1];
        proof {
            assert(ls.deep_view().last() == t@);
        }
        t
    };
    proof {
        assert(last@ == last_line_spec(s@));
    }
    let trimmed = crate::text::trim_str(last);
    let toks = crate::text::split_str(trimmed, ' ');
    let ghost tv = toks.deep_view();
    proof {
        assert(tv =~~= simple_tokens(s@));
    }
    if toks.len() < 2 {
        return (None, None);
    }
    proof {
        assert(toks[1]@ == tv[1]);
    }
    let version = String::from_str(toks[1]);
    let mut date: Option<String> = None;
    let mut i: usize = 2;
    while i < toks.len()
        invariant
            2 <= i <= toks.len(),
            tv == toks.deep_view(),
            tv == simple_tokens(s@),
            tv.len() >= 2,
            version@ == tv[1],
            date is None,
            first_paren_token(tv.skip(2)) == first_paren_token(tv.skip(i as int)),
        decreases toks.len() - i,
    {
        proof {
            lemma_first_paren_step(tv, i as int);
            assert(toks[i as int]@ == tv[i as int]);
        }
        let t = toks[i];
        let n = t.unicode_len();
        if n > 0 && t.get_char(n - 1) == ')' {
            let cleaned = crate::text::strip_start_str(
                crate::text::trim_start_str(
                    crate::text::strip_end_str(crate::text::trim_end_str(t), ')'),
                ),
                '(',
            );
            proof {
                assert(tv[i as int].len() > 0 && tv[i as int].last() == ')');
                assert(first_paren_token(tv.skip(2)) == Some(tv[i as int]));
                assert(cleaned@ == clean_date_spec(tv[i as int]));
                assert(simple_version_spec(s@) == Some(tv[1]));
                assert(simple_date_spec(s@) == Some(clean_date_spec(tv[i as int])));
            }
            date = Some(String::from_str(cleaned));
            return (Some(version), date);
        }
        i += 1;
    }
    proof {
        assert(tv.skip(toks.len() as int) =~~= Seq::<Seq<char>>::empty());
    }
    (Some(version), date)
}

/// Parses `(version, date)` as available from a compiler's verbose version
/// output, folding every line as `verbose_step` describes.
pub fn version_and_date_from_rustc_verbose_version(s: &str) -> (r: (
    Option<String>,
    Option<String>,
))
    ensures
        owned_text_view(r.0) == verbose_parse_spec(s@).0,
        owned_text_view(r.1) == verbose_parse_spec(s@).1,
{
    let ls = crate::text::lines_of(s);
    let ghost lv = ls.deep_view();
    let mut version: Option<String> = None;
    let mut date: Option<String> = None;
    let mut i: usize = 0;
    while i < ls.len()
        invariant
            i <= ls.len(),
            lv == ls.deep_view(),
            lv =~~= lines_spec(s@),
            (owned_text_view(version), owned_text_view(date)) == verbose_fold(
                (None, None),
                lv.take(i as int),
            ),
        decreases ls.len() - i,
    {
        proof {
            assert(lv.take(i as int + 1).drop_last() =~~= lv.take(i as int));
            assert(ls[i as int]@ == lv[i as int]);
        }
        let line = ls[i];
        if crate::text::starts_with_str(line, "rustc ") {
            let (v, d) = version_and_date_from_rustc_version(line);
            if version.is_none() {
                version = v;
            }
            if date.is_none() {
                date = d;
            }
        } else if crate::text::starts_with_str(line, "release: ") {
            proof {
                reveal_strlit("release: ");
            }
            let n = line.unicode_len();
            let rest = line.substring_char(9, n);
            proof {
                assert(rest@ =~= line@.skip(release_label().len() as int));
            }
            version = Some(String::from_str(rest));
        } else if crate::text::starts_with_str(line, "commit-date: ") {
            proof {
                reveal_strlit("commit-date: ");
            }
            let n = line.unicode_len();
            let rest = line.substring_char(13, n);
            proof {
                assert(rest@ =~= line@.skip(commit_date_label().len() as int));
            }
            if crate::text::str_eq(rest, "unknown") {
                date = None;
            } else {
                date = Some(String::from_str(rest));
            }
        }
        i += 1;
    }
    proof {
        assert(lv.take(ls.len() as int) =~~= lv);
    }
    (version, date)
}

/// A character that can stand inside a product name, a version string, a
/// commit hash or a date in a header line: no whitespace, no parenthesis.
pub open spec fn plain_char(c: char) -> bool {
    !crate::text::is_space_char(c) && c != '(' && c != ')'
}

pub open spec fn plain_text(s: Seq<char>) -> bool {
    forall|i: int| 0 <= i < s.len() ==> plain_char(#[trigger] s[i])
}

/// On every one-line header `name VERSION` of plain tokens, the simple
/// strategy yields exactly that version string, and no date.
pub proof fn lemma_simple_parse_plain_header(name: Seq<char>, ver: Seq<char>)
    requires
        name.len() > 0,
        ver.len() > 0,
        plain_text(name),
        plain_text(ver),
    ensures
        simple_version_spec(name + seq![' '] + ver) == Some(ver),
        simple_date_spec(name + seq![' '] + ver) is None,
{
    let s = name + seq![' '] + ver;
    lemma_header_shape(name, ver);
    let toks = simple_tokens(s);
    assert(toks =~~= seq![name, ver]);
    assert(toks.skip(2) =~~= Seq::<Seq<char>>::empty());
}

/// The tokens of a plain two-token header line: the line is one line, its
/// own trim, and splits at its single space.
proof fn lemma_header_shape(name: Seq<char>, ver: Seq<char>)
    requires
        name.len() > 0,
        ver.len() > 0,
        plain_text(name),
        plain_text(ver),
    ensures
        simple_tokens(name + seq![' '] + ver) =~~= seq![name, ver],
{
    let s = name + seq![' '] + ver;
    assert forall|i: int| 0 <= i < s.len() implies s[i] != '\n' by {
        if i < name.len() {
            assert(s[i] == name[i]);
        } else if i == name.len() {
            assert(s[i] == ' ');
        } else {
            assert(s[i] == ver[i - name.len() - 1]);
        }
    }
    lemma_one_line(s);
    assert(last_line_spec(s) == s);
    assert(s[0] == name[0]);
    assert(s.last() == ver.last());
    lemma_no_trim(s);
    crate::text::lemma_split_append(name, ver, ' ');
    assert forall|i: int| 0 <= i < name.len() implies name[i] != ' ' by {
        assert(plain_char(name[i]));
    }
    assert forall|i: int| 0 <= i < ver.len() implies ver[i] != ' ' by {
        assert(plain_char(ver[i]));
    }
    crate::text::lemma_split_no_sep(name, ' ');
    crate::text::lemma_split_no_sep(ver, ' ');
    assert(simple_tokens(s) =~~= seq![name] + seq![ver]);
}

/// A text without a newline is its own single line.
proof fn lemma_one_line(s: Seq<char>)
    requires
        s.len() > 0,
        forall|i: int| 0 <= i < s.len() ==> #[trigger] s[i] != '\n',
    ensures
        lines_spec(s) =~~= seq![s],
        last_line_spec(s) == s,
{
    crate::text::lemma_split_no_sep(s, '\n');
    assert(lines_spec(s) =~~= seq![s]);
}

/// A text that neither starts nor ends with whitespace is its own trim.
proof fn lemma_no_trim(s: Seq<char>)
    requires
        s.len() > 0,
        !crate::text::is_space_char(s[0]),
        !crate::text::is_space_char(s.last()),
    ensures
        trim_spec(s) =~= s,
{
    crate::text::lemma_trim_start_skip(s, 0);
    assert(s.skip(0) =~= s);
    crate::text::lemma_trim_end_take(s, s.len() as int);
    assert(s.take(s.len() as int) =~= s);
}

/// On every one-line header `name VERSION (HASH DATE)` of plain tokens, the
/// simple strategy yields exactly that version string and that date, the
/// hash and the parentheses discarded.
pub proof fn lemma_simple_parse_dated_header(
    name: Seq<char>,
    ver: Seq<char>,
    hash: Seq<char>,
    date: Seq<char>,
)
    requires
        name.len() > 0,
        ver.len() > 0,
        hash.len() > 0,
        date.len() > 0,
        plain_text(name),
        plain_text(ver),
        plain_text(hash),
        plain_text(date),
    ensures
        simple_version_spec(name + seq![' '] + ver + seq![' ', '('] + hash + seq![' '] + date + seq![
            ')',
        ]) == Some(ver),
        simple_date_spec(name + seq![' '] + ver + seq![' ', '('] + hash + seq![' '] + date + seq![
            ')',
        ]) == Some(date),
{
    let tok2 = seq!['('] + hash;
    let tok3 = date + seq![')'];
    let s = name + seq![' '] + ver + seq![' ', '('] + hash + seq![' '] + date + seq![')'];
    let rest2 = tok2 + seq![' '] + tok3;
    let rest1 = ver + seq![' '] + rest2;
    assert(s =~= name + seq![' '] + rest1);
    assert forall|i: int| 0 <= i < s.len() implies s[i] != '\n' by {
        lemma_dated_header_chars(name, ver, hash, date, i);
    }
    lemma_one_line(s);
    assert(s[0] == name[0]);
    assert(s.last() == ')');
    lemma_no_trim(s);
    crate::text::lemma_split_append(name, rest1, ' ');
    crate::text::lemma_split_append(ver, rest2, ' ');
    crate::text::lemma_split_append(tok2, tok3, ' ');
    assert forall|i: int| 0 <= i < name.len() implies name[i] != ' ' by {
        assert(plain_char(name[i]));
    }
    assert forall|i: int| 0 <= i < ver.len() implies ver[i] != ' ' by {
        assert(plain_char(ver[i]));
    }
    assert forall|i: int| 0 <= i < tok2.len() implies tok2[i] != ' ' by {
        if i > 0 {
            assert(tok2[i] == hash[i - 1]);
            assert(plain_char(hash[i - 1]));
        }
    }
    assert forall|i: int| 0 <= i < tok3.len() implies tok3[i] != ' ' by {
        if i < date.len() {
            assert(tok3[i] == date[i]);
            assert(plain_char(date[i]));
        }
    }
    crate::text::lemma_split_no_sep(name, ' ');
    crate::text::lemma_split_no_sep(ver, ' ');
    crate::text::lemma_split_no_sep(tok2, ' ');
    crate::text::lemma_split_no_sep(tok3, ' ');
    let toks = simple_tokens(s);
    assert(toks =~~= seq![name, ver, tok2, tok3]);
    assert(toks[1] == ver);
    // the hash token does not end with `)`, the date token does
    assert(tok2.last() == hash.last());
    assert(plain_char(hash.last()));
    assert(tok3.last() == ')');
    let two = seq![tok2, tok3];
    assert(toks.skip(2) =~~= two);
    assert(two.drop_first() =~~= seq![tok3]);
    assert((seq![tok3])[0] == tok3);
    assert(first_paren_token(seq![tok3]) == Some(tok3));
    assert(two[0] == tok2);
    assert(tok2.last() != ')');
    assert(first_paren_token(two) == first_paren_token(two.drop_first()));
    assert(first_paren_token(toks.skip(2)) == Some(tok3));
    // undressing the date token gives back the bare date
    lemma_clean_paren_token(date);
    assert(simple_date_spec(s) == Some(date));
}

proof fn lemma_dated_header_chars(
    name: Seq<char>,
    ver: Seq<char>,
    hash: Seq<char>,
    date: Seq<char>,
    i: int,
)
    requires
        plain_text(name),
        plain_text(ver),
        plain_text(hash),
        plain_text(date),
        0 <= i < (name + seq![' '] + ver + seq![' ', '('] + hash + seq![' '] + date + seq![
            ')',
        ]).len(),
    ensures
        (name + seq![' '] + ver + seq![' ', '('] + hash + seq![' '] + date + seq![')'])[i] != '\n',
{
    let s = name + seq![' '] + ver + seq![' ', '('] + hash + seq![' '] + date + seq![')'];
    let a = name.len() as int;
    let b = a + 1 + ver.len() as int;
    let c = b + 2 + hash.len() as int;
    let d = c + 1 + date.len() as int;
    if i < a {
        assert(s[i] == name[i]);
        assert(plain_char(name[i]));
    } else if i == a {
        assert(s[i] == ' ');
    } else if i < b {
        assert(s[i] == ver[i - a - 1]);
        assert(plain_char(ver[i - a - 1]));
    } else if i == b {
        assert(s[i] == ' ');
    } else if i == b + 1 {
        assert(s[i] == '(');
    } else if i < c {
        assert(s[i] == hash[i - b - 2]);
        assert(plain_char(hash[i - b - 2]));
    } else if i == c {
        assert(s[i] == ' ');
    } else if i < d {
        assert(s[i] == date[i - c - 1]);
        assert(plain_char(date[i - c - 1]));
    } else {
        assert(s[i] == ')');
    }
}

/// Undressing `DATE)` for a plain `DATE` gives back `DATE`.
proof fn lemma_clean_paren_token(date: Seq<char>)
    requires
        date.len() > 0,
        plain_text(date),
    ensures
        clean_date_spec(date + seq![')']) =~= date,
{
    let tok = date + seq![')'];
    assert(tok.last() == ')');
    assert(plain_char(date[0]));
    assert(plain_char(date.last()));
    crate::text::lemma_trim_end_take(tok, tok.len() as int);
    assert(tok.take(tok.len() as int) =~= tok);
    crate::text::lemma_strip_end_take(tok, ')', date.len() as int);
    assert(tok.take(date.len() as int) =~= date);
    crate::text::lemma_trim_start_skip(date, 0);
    assert(date.skip(0) =~= date);
    crate::text::lemma_strip_start_skip(date, '(', 0);
}

/// A line that opens no recognised pattern and holds no newline: prepending
/// any number of such lines leaves the verbose parse unchanged.
pub open spec fn noise_line(l: Seq<char>) -> bool {
    &&& !header_prefix().is_prefix_of(l)
    &&& !release_label().is_prefix_of(l)
    &&& !commit_date_label().is_prefix_of(l)
    &&& !l.contains('\n')
}

/// The lines of `ls` laid out as text, each closed by a newline.
pub open spec fn joined_lines(ls: Seq<Seq<char>>) -> Seq<char>
    decreases ls.len(),
{
    if ls.len() == 0 {
        Seq::empty()
    } else {
        ls.first() + seq!['\n'] + joined_lines(ls.drop_first())
    }
}

proof fn lemma_fold_cons(
    st: (Option<Seq<char>>, Option<Seq<char>>),
    x: Seq<char>,
    ls: Seq<Seq<char>>,
)
    ensures
        verbose_fold(st, seq![x] + ls) == verbose_fold(verbose_step(st, x), ls),
    decreases ls.len(),
{
    if ls.len() == 0 {
        let w = seq![x] + ls;
        assert(w =~~= seq![x]);
        assert(w.len() == 1);
        assert(w.drop_last() =~~= Seq::<Seq<char>>::empty());
        assert(verbose_fold(st, w.drop_last()) == st);
        assert(w.last() == x);
        assert(verbose_fold(st, w) == verbose_step(st, x));
        assert(verbose_fold(verbose_step(st, x), ls) == verbose_step(st, x));
    } else {
        let w = seq![x] + ls;
        assert(w.drop_last() =~~= seq![x] + ls.drop_last());
        assert(w.last() == ls.last());
        lemma_fold_cons(st, x, ls.drop_last());
    }
}

proof fn lemma_prefix_of_strip_cr(p: Seq<char>, l: Seq<char>)
    requires
        p.is_prefix_of(strip_one_cr(l)),
    ensures
        p.is_prefix_of(l),
{
    assert(p =~= l.subrange(0, p.len() as int));
}

proof fn lemma_lines_prepend(l: Seq<char>, t: Seq<char>)
    requires
        !l.contains('\n'),
    ensures
        lines_spec(l + seq!['\n'] + t) =~~= seq![strip_one_cr(l)] + lines_spec(t),
{
    assert forall|i: int| 0 <= i < l.len() implies l[i] != '\n' by {
        assert(!l.contains('\n'));
    }
    crate::text::lemma_split_append(l, t, '\n');
    crate::text::lemma_split_no_sep(l, '\n');
    crate::text::lemma_split_len(t, '\n');
    let parts = split_spec(l + seq!['\n'] + t, '\n');
    let pt = split_spec(t, '\n');
    assert(parts =~~= seq![l] + pt);
    assert(parts.last() == pt.last());
    let lw = lines_spec(l + seq!['\n'] + t);
    let lt = lines_spec(t);
    assert(parts.len() == pt.len() + 1);
    if pt.last().len() == 0 {
        assert(parts.drop_last() =~~= seq![l] + pt.drop_last());
    }
    assert(lw.len() == lt.len() + 1);
    assert(lw[0] == strip_one_cr(l));
    assert forall|i: int| 1 <= i < lw.len() implies lw[i] == lt[i - 1] by {
        assert(parts[i] == pt[i - 1]);
    }
    assert(lw =~~= seq![strip_one_cr(l)] + lt);
}

/// The verbose parse is invariant under prepending lines that open no
/// recognised pattern: diagnostic noise ahead of the banner changes nothing.
pub proof fn lemma_verbose_parse_ignores_leading_noise(noise: Seq<Seq<char>>, t: Seq<char>)
    requires
        forall|i: int| 0 <= i < noise.len() ==> noise_line(#[trigger] noise[i]),
    ensures
        verbose_parse_spec(joined_lines(noise) + t) == verbose_parse_spec(t),
    decreases noise.len(),
{
    if noise.len() == 0 {
        assert(joined_lines(noise) + t =~= t);
    } else {
        let l = noise.first();
        let rest = noise.drop_first();
        let inner = joined_lines(rest) + t;
        assert(joined_lines(noise) + t =~= l + seq!['\n'] + inner);
        lemma_lines_prepend(l, inner);
        let sl = strip_one_cr(l);
        lemma_fold_cons((None, None), sl, lines_spec(inner));
        assert(!header_prefix().is_prefix_of(sl) && !release_label().is_prefix_of(sl)
            && !commit_date_label().is_prefix_of(sl)) by {
            if header_prefix().is_prefix_of(sl) {
                lemma_prefix_of_strip_cr(header_prefix(), l);
            }
            if release_label().is_prefix_of(sl) {
                lemma_prefix_of_strip_cr(release_label(), l);
            }
            if commit_date_label().is_prefix_of(sl) {
                lemma_prefix_of_strip_cr(commit_date_label(), l);
            }
        }
        let empty_state: (Option<Seq<char>>, Option<Seq<char>>) = (None, None);
        assert(verbose_step(empty_state, sl) == empty_state);
        assert(verbose_parse_spec(l + seq!['\n'] + inner) == verbose_parse_spec(inner));
        lemma_verbose_parse_ignores_leading_noise(rest, t);
    }
}

/// A `release:` line closing the text overrides whatever version any header
/// line gave: the version read is exactly what follows the label.
pub proof fn lemma_release_line_overrides(ls: Seq<Seq<char>>, x: Seq<char>)
    ensures
        verbose_fold((None, None), ls.push(release_label() + x)).0 == Some(x),
{
    reveal_strlit("rustc ");
    reveal_strlit("release: ");
    let line = release_label() + x;
    let w = ls.push(line);
    assert(w.drop_last() =~~= ls);
    assert(w.last() == line);
    assert(line[1] == 'e');
    assert(!header_prefix().is_prefix_of(line)) by {
        if header_prefix().is_prefix_of(line) {
            assert(header_prefix() =~= line.subrange(0, 6));
            assert(header_prefix()[1] == line[1]);
        }
    }
    assert(release_label().is_prefix_of(line)) by {
        assert(release_label() =~= line.subrange(0, 9));
    }
    assert(line.skip(release_label().len() as int) =~= x);
}

/// A `commit-date: unknown` line closing the text forces the date to be
/// absent, whatever any header line gave.
pub proof fn lemma_commit_date_unknown_clears(ls: Seq<Seq<char>>)
    ensures
        verbose_fold((None, None), ls.push(commit_date_label() + unknown_text())).1 is None,
{
    reveal_strlit("rustc ");
    reveal_strlit("release: ");
    reveal_strlit("commit-date: ");
    reveal_strlit("unknown");
    let line = commit_date_label() + unknown_text();
    let w = ls.push(line);
    assert(w.drop_last() =~~= ls);
    assert(w.last() == line);
    assert(line[0] == 'c');
    assert(!header_prefix().is_prefix_of(line)) by {
        if header_prefix().is_prefix_of(line) {
            assert(header_prefix() =~= line.subrange(0, 6));
            assert(header_prefix()[0] == line[0]);
        }
    }
    assert(!release_label().is_prefix_of(line)) by {
        if release_label().is_prefix_of(line) {
            assert(release_label() =~= line.subrange(0, 9));
            assert(release_label()[0] == line[0]);
        }
    }
    assert(commit_date_label().is_prefix_of(line)) by {
        assert(commit_date_label() =~= line.subrange(0, 13));
    }
    assert(line.skip(commit_date_label().len() as int) =~= unknown_text());
}

} // verus!
