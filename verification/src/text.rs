//! Character-level text utilities shared by the parser, the serializer and the editor.
//!
//! Strings are modelled by their views (`Seq<char>`); the executable helpers work on
//! `Vec<char>` and convert at the edges.
use vstd::prelude::*;

verus! {

// ───────────────────────────── conversions ─────────────────────────────

/// Appends one character to a string: `String::push`, which its documentation says adds
/// the character at the end.
#[verifier::external_body]
pub(crate) fn push_char(s: &mut String, c: char)
    ensures
        final(s)@ == old(s)@.push(c),
{
    s.push(c);
}

/// The characters of `s`, in order.
pub fn chars_of(s: &str) -> (r: Vec<char>)
    ensures
        r@ == s@,
{
    let mut r: Vec<char> = Vec::new();
    for c in it: s.chars()
        invariant
            r@ == it.seq().take(it.index() as int),
    {
        r.push(c);
    }
    r
}

/// A string holding exactly the characters of `cs`.
pub fn string_from(cs: &[char]) -> (r: String)
    ensures
        r@ == cs@,
{
    let mut r = String::new();
    let mut i: usize = 0;
    while i < cs.len()
        invariant
            i <= cs@.len(),
            r@ == cs@.take(i as int),
        decreases cs@.len() - i,
    {
        push_char(&mut r, cs[i]);
        i = i + 1;
        assert(cs@.take(i as int) == cs@.take(i - 1 as int).push(cs@[i - 1]));
    }
    assert(cs@.take(i as int) == cs@);
    r
}

/// Appends all characters of `more` to `out`.
pub fn extend_chars(out: &mut Vec<char>, more: &[char])
    ensures
        final(out)@ == old(out)@ + more@,
{
    let mut i: usize = 0;
    while i < more.len()
        invariant
            i <= more@.len(),
            out@ == old(out)@ + more@.take(i as int),
        decreases more@.len() - i,
    {
        out.push(more[i]);
        i = i + 1;
        assert(more@.take(i as int) == more@.take(i - 1 as int).push(more@[i - 1]));
    }
    assert(more@.take(i as int) == more@);
}

/// Appends all characters of the string `s` to `out`.
pub fn push_str(out: &mut Vec<char>, s: &str)
    ensures
        final(out)@ == old(out)@ + s@,
{
    let cs = chars_of(s);
    extend_chars(out, cs.as_slice());
}

/// Whether two character sequences are equal.
pub fn chars_eq(a: &[char], b: &[char]) -> (r: bool)
    ensures
        r == (a@ == b@),
{
    if a.len() != b.len() {
        return false;
    }
    let mut i: usize = 0;
    while i < a.len()
        invariant
            a@.len() == b@.len(),
            i <= a@.len(),
            forall|k: int| 0 <= k < i ==> a@[k] == b@[k],
        decreases a@.len() - i,
    {
        if a[i] != b[i] {
            return false;
        }
        i = i + 1;
    }
    assert(a@ =~= b@);
    true
}

/// Whether `a` equals the string `b`.
pub fn chars_eq_str(a: &[char], b: &str) -> (r: bool)
    ensures
        r == (a@ == b@),
{
    let bs = chars_of(b);
    chars_eq(a, bs.as_slice())
}

// ───────────────────────────── prefixes ─────────────────────────────

/// `p` is a prefix of `s`.
pub open spec fn has_prefix(s: Seq<char>, p: Seq<char>) -> bool {
    p.len() <= s.len() && s.take(p.len() as int) == p
}

/// `p` is a suffix of `s`.
pub open spec fn has_suffix(s: Seq<char>, p: Seq<char>) -> bool {
    p.len() <= s.len() && s.skip(s.len() - p.len()) == p
}

pub fn starts_with(s: &[char], p: &[char]) -> (r: bool)
    ensures
        r == has_prefix(s@, p@),
{
    if p.len() > s.len() {
        return false;
    }
    let mut i: usize = 0;
    while i < p.len()
        invariant
            p@.len() <= s@.len(),
            i <= p@.len(),
            forall|k: int| 0 <= k < i ==> s@[k] == p@[k],
        decreases p@.len() - i,
    {
        if s[i] != p[i] {
            assert(s@.take(p@.len() as int)[i as int] != p@[i as int]);
            return false;
        }
        i = i + 1;
    }
    assert(s@.take(p@.len() as int) =~= p@);
    true
}

pub fn starts_with_str(s: &[char], p: &str) -> (r: bool)
    ensures
        r == has_prefix(s@, p@),
{
    let ps = chars_of(p);
    starts_with(s, ps.as_slice())
}

pub fn ends_with_str(s: &[char], p: &str) -> (r: bool)
    ensures
        r == has_suffix(s@, p@),
{
    let ps = chars_of(p);
    if ps.len() > s.len() {
        return false;
    }
    let off = s.len() - ps.len();
    let mut i: usize = 0;
    while i < ps.len()
        invariant
            ps@ == p@,
            off as int + ps@.len() == s@.len(),
            i <= ps@.len(),
            forall|k: int| 0 <= k < i ==> s@[off + k] == ps@[k],
        decreases ps@.len() - i,
    {
        assert(i < ps@.len());
        assert(off + i < s.len());
        let k: usize = off + i;
        if s[k] != ps[i] {
            assert(s@.skip(off as int)[i as int] != ps@[i as int]);
            return false;
        }
        i = i + 1;
    }
    assert(s@.skip(off as int) =~= ps@);
    true
}

/// The characters of `s` from position `from` on.
pub fn tail_from(s: &[char], from: usize) -> (r: Vec<char>)
    requires
        from <= s@.len(),
    ensures
        r@ == s@.skip(from as int),
{
    let mut r: Vec<char> = Vec::new();
    let mut i = from;
    while i < s.len()
        invariant
            from <= i <= s@.len(),
            r@ == s@.subrange(from as int, i as int),
        decreases s@.len() - i,
    {
        r.push(s[i]);
        i = i + 1;
        assert(s@.subrange(from as int, i as int) == s@.subrange(from as int, i - 1 as int).push(s@[i - 1]));
    }
    assert(s@.subrange(from as int, i as int) == s@.skip(from as int));
    r
}

/// The characters of `s` in positions `from .. to`.
pub fn slice_of(s: &[char], from: usize, to: usize) -> (r: Vec<char>)
    requires
        from <= to <= s@.len(),
    ensures
        r@ == s@.subrange(from as int, to as int),
{
    let mut r: Vec<char> = Vec::new();
    let mut i = from;
    while i < to
        invariant
            from <= i <= to <= s@.len(),
            r@ == s@.subrange(from as int, i as int),
        decreases to - i,
    {
        r.push(s[i]);
        i = i + 1;
        assert(s@.subrange(from as int, i as int) == s@.subrange(from as int, i - 1 as int).push(s@[i - 1]));
    }
    r
}

// ───────────────────────────── whitespace and trimming ─────────────────────────────

/// Unicode `White_Space`, the set that `char::is_whitespace` and `str::trim` use.
pub open spec fn is_ws(c: char) -> bool {
    ||| ('\u{9}' <= c && c <= '\u{d}')
    ||| c == ' '
    ||| c == '\u{85}'
    ||| c == '\u{a0}'
    ||| c == '\u{1680}'
    ||| ('\u{2000}' <= c && c <= '\u{200a}')
    ||| c == '\u{2028}'
    ||| c == '\u{2029}'
    ||| c == '\u{202f}'
    ||| c == '\u{205f}'
    ||| c == '\u{3000}'
}

pub fn is_whitespace(c: char) -> (r: bool)
    ensures
        r == is_ws(c),
{
    ('\u{9}' <= c && c <= '\u{d}') || c == ' ' || c == '\u{85}' || c == '\u{a0}' || c == '\u{1680}'
        || ('\u{2000}' <= c && c <= '\u{200a}') || c == '\u{2028}' || c == '\u{2029}' || c
        == '\u{202f}' || c == '\u{205f}' || c == '\u{3000}'
}

/// ASCII whitespace as `u8::is_ascii_whitespace` defines it: space, tab, LF, FF, CR.
pub open spec fn is_ascii_ws(c: char) -> bool {
    c == ' ' || c == '\t' || c == '\n' || c == '\u{c}' || c == '\r'
}

pub fn is_ascii_whitespace(c: char) -> (r: bool)
    ensures
        r == is_ascii_ws(c),
{
    c == ' ' || c == '\t' || c == '\n' || c == '\u{c}' || c == '\r'
}

/// `s` without its leading whitespace.
pub open spec fn trim_start_s(s: Seq<char>) -> Seq<char>
    decreases s.len(),
{
    if s.len() > 0 && is_ws(s[0]) {
        trim_start_s(s.drop_first())
    } else {
        s
    }
}

/// `s` without its trailing whitespace.
pub open spec fn trim_end_s(s: Seq<char>) -> Seq<char>
    decreases s.len(),
{
    if s.len() > 0 && is_ws(s.last()) {
        trim_end_s(s.drop_last())
    } else {
        s
    }
}

/// `s` without leading and trailing whitespace (`str::trim`).
pub open spec fn trim_s(s: Seq<char>) -> Seq<char> {
    trim_end_s(trim_start_s(s))
}

pub fn trim_start(s: &[char]) -> (r: Vec<char>)
    ensures
        r@ == trim_start_s(s@),
{
    let mut i: usize = 0;
    assert(s@.skip(0) =~= s@);
    while i < s.len() && is_whitespace(s[i])
        invariant
            i <= s@.len(),
            trim_start_s(s@) == trim_start_s(s@.skip(i as int)),
        decreases s@.len() - i,
    {
        assert(s@.skip(i as int).drop_first() =~= s@.skip(i + 1));
        i = i + 1;
    }
    tail_from(s, i)
}

pub fn trim_end(s: &[char]) -> (r: Vec<char>)
    ensures
        r@ == trim_end_s(s@),
{
    let mut j: usize = s.len();
    assert(s@.take(s@.len() as int) =~= s@);
    while j > 0 && is_whitespace(s[j - 1])
        invariant
            j <= s@.len(),
            trim_end_s(s@) == trim_end_s(s@.take(j as int)),
        decreases j,
    {
        assert(s@.take(j as int).drop_last() =~= s@.take(j - 1));
        j = j - 1;
    }
    assert(s@.subrange(0, j as int) == s@.take(j as int));
    slice_of(s, 0, j)
}

pub fn trim(s: &[char]) -> (r: Vec<char>)
    ensures
        r@ == trim_s(s@),
{
    let a = trim_start(s);
    trim_end(a.as_slice())
}

// ───────────────────────────── lines ─────────────────────────────

/// The views of a sequence of character vectors.
pub open spec fn views(v: Seq<Vec<char>>) -> Seq<Seq<char>> {
    v.map_values(|x: Vec<char>| x@)
}

/// A line without the carriage return that may precede its line feed.
pub open spec fn strip_cr(l: Seq<char>) -> Seq<char> {
    if l.len() > 0 && l.last() == '\r' {
        l.drop_last()
    } else {
        l
    }
}

/// The lines of `cur + rest`, where `cur` is the part of the current line already read
/// (`str::lines`: split at `\n`, drop a `\r` before each `\n`, no empty last line).
pub open spec fn lines_from(cur: Seq<char>, rest: Seq<char>) -> Seq<Seq<char>>
    decreases rest.len(),
{
    if rest.len() == 0 {
        if cur.len() == 0 {
            seq![]
        } else {
            seq![cur]
        }
    } else if rest[0] == '\n' {
        seq![strip_cr(cur)] + lines_from(seq![], rest.drop_first())
    } else {
        lines_from(cur.push(rest[0]), rest.drop_first())
    }
}

/// The lines of `s`, as `str::lines` yields them.
pub open spec fn lines(s: Seq<char>) -> Seq<Seq<char>> {
    lines_from(seq![], s)
}

pub fn split_lines(s: &[char]) -> (r: Vec<Vec<char>>)
    ensures
        views(r@) == lines(s@),
{
    let mut out: Vec<Vec<char>> = Vec::new();
    let mut cur: Vec<char> = Vec::new();
    let mut i: usize = 0;
    assert(s@.skip(0) =~= s@);
    assert(views(out@) =~= Seq::<Seq<char>>::empty());
    while i < s.len()
        invariant
            i <= s@.len(),
            lines(s@) == views(out@) + lines_from(cur@, s@.skip(i as int)),
        decreases s@.len() - i,
    {
        let ghost rest = s@.skip(i as int);
        assert(rest.drop_first() =~= s@.skip(i + 1));
        if s[i] == '\n' {
            let ghost before = views(out@);
            let line = if cur.len() > 0 && cur[cur.len() - 1] == '\r' {
                let l = cur.len() - 1;
                let v = slice_of(cur.as_slice(), 0, l);
                assert(v@ =~= cur@.drop_last());
                v
            } else {
                cur
            };
            out.push(line);
            assert(views(out@) =~= before.push(strip_cr(cur@)));
            cur = Vec::new();
            assert(lines_from(cur@, s@.skip(i as int)) == seq![strip_cr(cur@)] + lines_from(
                seq![],
                rest.drop_first(),
            ));
        } else {
            cur.push(s[i]);
        }
        i = i + 1;
    }
    if cur.len() > 0 {
        let ghost before = views(out@);
        out.push(cur);
        assert(views(out@) =~= before.push(cur@));
    } else {
        assert(views(out@) =~= views(out@) + lines_from(cur@, s@.skip(i as int)));
    }
    out
}

pub proof fn lemma_lines_from_len(cur: Seq<char>, rest: Seq<char>)
    ensures
        lines_from(cur, rest).len() <= cur.len() + rest.len(),
    decreases rest.len(),
{
    if rest.len() > 0 {
        if rest[0] == '\n' {
            lemma_lines_from_len(seq![], rest.drop_first());
        } else {
            lemma_lines_from_len(cur.push(rest[0]), rest.drop_first());
        }
    }
}

/// A text has no more lines than characters.
pub proof fn lemma_lines_len(s: Seq<char>)
    ensures
        lines(s).len() <= s.len(),
{
    lemma_lines_from_len(seq![], s);
}

/// The characters that lines take up with one separator each.
pub open spec fn line_cost(ls: Seq<Seq<char>>) -> nat
    decreases ls.len(),
{
    if ls.len() == 0 {
        0
    } else {
        line_cost(ls.drop_last()) + ls.last().len() + 1
    }
}

pub proof fn lemma_line_cost_concat(a: Seq<Seq<char>>, b: Seq<Seq<char>>)
    ensures
        line_cost(a + b) == line_cost(a) + line_cost(b),
    decreases b.len(),
{
    if b.len() == 0 {
        assert(a + b =~= a);
    } else {
        lemma_line_cost_concat(a, b.drop_last());
        assert((a + b).drop_last() =~= a + b.drop_last());
    }
}

pub proof fn lemma_lines_from_cost(cur: Seq<char>, rest: Seq<char>)
    ensures
        line_cost(lines_from(cur, rest)) <= cur.len() + rest.len() + 1,
    decreases rest.len(),
{
    if rest.len() == 0 {
        if cur.len() > 0 {
            assert(seq![cur].drop_last() =~= Seq::<Seq<char>>::empty());
            assert(line_cost(seq![cur]) == line_cost(Seq::<Seq<char>>::empty()) + cur.len() + 1);
        }
    } else if rest[0] == '\n' {
        lemma_lines_from_cost(seq![], rest.drop_first());
        let tail = lines_from(seq![], rest.drop_first());
        lemma_line_cost_concat(seq![strip_cr(cur)], tail);
        assert(seq![strip_cr(cur)].drop_last() =~= Seq::<Seq<char>>::empty());
        assert(line_cost(seq![strip_cr(cur)]) == line_cost(Seq::<Seq<char>>::empty()) + strip_cr(cur).len() + 1);
        assert(strip_cr(cur).len() <= cur.len());
    } else {
        lemma_lines_from_cost(cur.push(rest[0]), rest.drop_first());
    }
}

/// The lines of a text, each with its separator, take up at most one character more
/// than the text.
pub proof fn lemma_lines_cost(s: Seq<char>)
    ensures
        line_cost(lines(s)) <= s.len() + 1,
{
    lemma_lines_from_cost(seq![], s);
}

/// Joining lines takes no more characters than the lines and their separators.
pub proof fn lemma_join_len(ls: Seq<Seq<char>>)
    ensures
        join_nl(ls).len() <= line_cost(ls),
    decreases ls.len(),
{
    if ls.len() > 1 {
        lemma_join_len(ls.drop_last());
    }
}

/// Lines joined with `\n` between them (`[&str]::join("\n")`).
pub open spec fn join_nl(ls: Seq<Seq<char>>) -> Seq<char>
    decreases ls.len(),
{
    if ls.len() == 0 {
        seq![]
    } else if ls.len() == 1 {
        ls[0]
    } else {
        join_nl(ls.drop_last()) + seq!['\n'] + ls.last()
    }
}

pub fn join_lines(ls: &Vec<Vec<char>>) -> (r: Vec<char>)
    ensures
        r@ == join_nl(views(ls@)),
{
    let mut out: Vec<char> = Vec::new();
    let mut i: usize = 0;
    while i < ls.len()
        invariant
            i <= ls@.len(),
            out@ == join_nl(views(ls@).take(i as int)),
        decreases ls@.len() - i,
    {
        let ghost pre = views(ls@).take(i as int);
        if i > 0 {
            out.push('\n');
        }
        extend_chars(&mut out, ls[i].as_slice());
        i = i + 1;
        assert(views(ls@).take(i as int).drop_last() =~= pre);
    }
    assert(views(ls@).take(i as int) =~= views(ls@));
    out
}

// ───────────────────────────── words ─────────────────────────────

/// The whitespace-separated words of `cur + rest` (`str::split_whitespace`), where `cur`
/// is the part of the current word already read.
pub open spec fn words_from(cur: Seq<char>, rest: Seq<char>) -> Seq<Seq<char>>
    decreases rest.len(),
{
    if rest.len() == 0 {
        if cur.len() == 0 {
            seq![]
        } else {
            seq![cur]
        }
    } else if is_ws(rest[0]) {
        if cur.len() == 0 {
            words_from(seq![], rest.drop_first())
        } else {
            seq![cur] + words_from(seq![], rest.drop_first())
        }
    } else {
        words_from(cur.push(rest[0]), rest.drop_first())
    }
}

pub open spec fn words(s: Seq<char>) -> Seq<Seq<char>> {
    words_from(seq![], s)
}

pub fn split_words(s: &[char]) -> (r: Vec<Vec<char>>)
    ensures
        views(r@) == words(s@),
{
    let mut out: Vec<Vec<char>> = Vec::new();
    let mut cur: Vec<char> = Vec::new();
    let mut i: usize = 0;
    assert(s@.skip(0) =~= s@);
    assert(views(out@) =~= Seq::<Seq<char>>::empty());
    while i < s.len()
        invariant
            i <= s@.len(),
            words(s@) == views(out@) + words_from(cur@, s@.skip(i as int)),
        decreases s@.len() - i,
    {
        let ghost rest = s@.skip(i as int);
        assert(rest.drop_first() =~= s@.skip(i + 1));
        if is_whitespace(s[i]) {
            if cur.len() == 0 {
                assert(cur@ =~= seq![]);
                assert(words_from(cur@, rest) == words_from(seq![], rest.drop_first()));
            }
            if cur.len() > 0 {
                let ghost before = views(out@);
                let ghost c = cur@;
                out.push(cur);
                assert(views(out@) =~= before.push(c));
                cur = Vec::new();
                assert(cur@ =~= seq![]);
                assert(words_from(c, rest) == seq![c] + words_from(seq![], rest.drop_first()));
            }
        } else {
            assert(words_from(cur@, rest) == words_from(cur@.push(rest[0]), rest.drop_first()));
            cur.push(s[i]);
        }
        i = i + 1;
    }
    if cur.len() > 0 {
        let ghost before = views(out@);
        out.push(cur);
        assert(views(out@) =~= before.push(cur@));
    } else {
        assert(views(out@) =~= views(out@) + words_from(cur@, s@.skip(i as int)));
    }
    out
}

// ───────────────────────────── numbers ─────────────────────────────

/// The decimal digits of `n`, without leading zeros (`0` for zero).
pub open spec fn decimal(n: nat) -> Seq<char>
    decreases n,
{
    if n < 10 {
        seq![digit_char(n)]
    } else {
        decimal(n / 10).push(digit_char(n % 10))
    }
}

pub open spec fn digit_char(d: nat) -> char {
    if d == 0 { '0' }
    else if d == 1 { '1' }
    else if d == 2 { '2' }
    else if d == 3 { '3' }
    else if d == 4 { '4' }
    else if d == 5 { '5' }
    else if d == 6 { '6' }
    else if d == 7 { '7' }
    else if d == 8 { '8' }
    else { '9' }
}

fn digit(d: u64) -> (c: char)
    requires
        d < 10,
    ensures
        c == digit_char(d as nat),
{
    if d == 0 { '0' }
    else if d == 1 { '1' }
    else if d == 2 { '2' }
    else if d == 3 { '3' }
    else if d == 4 { '4' }
    else if d == 5 { '5' }
    else if d == 6 { '6' }
    else if d == 7 { '7' }
    else if d == 8 { '8' }
    else { '9' }
}

/// Appends the decimal digits of `n` to `out` (`{}` formatting of an unsigned integer).
pub fn push_decimal(out: &mut Vec<char>, n: u64)
    ensures
        final(out)@ == old(out)@ + decimal(n as nat),
    decreases n,
{
    if n < 10 {
        out.push(digit(n));
    } else {
        push_decimal(out, n / 10);
        out.push(digit(n % 10));
        assert(old(out)@ + decimal(n as nat) =~= old(out)@ + decimal((n / 10) as nat) + seq![digit_char((n % 10) as nat)]);
    }
}

/// The lowercase hexadecimal digits of `n`, without leading zeros (`{:x}` formatting).
pub open spec fn hex(n: nat) -> Seq<char>
    decreases n,
{
    if n < 16 {
        seq![hex_digit_char(n)]
    } else {
        hex(n / 16).push(hex_digit_char(n % 16))
    }
}

pub open spec fn hex_digit_char(d: nat) -> char {
    if d < 10 {
        digit_char(d)
    } else if d == 10 {
        'a'
    } else if d == 11 {
        'b'
    } else if d == 12 {
        'c'
    } else if d == 13 {
        'd'
    } else if d == 14 {
        'e'
    } else {
        'f'
    }
}

fn hex_digit(d: u64) -> (c: char)
    requires
        d < 16,
    ensures
        c == hex_digit_char(d as nat),
{
    if d < 10 {
        digit(d)
    } else if d == 10 {
        'a'
    } else if d == 11 {
        'b'
    } else if d == 12 {
        'c'
    } else if d == 13 {
        'd'
    } else if d == 14 {
        'e'
    } else {
        'f'
    }
}

/// Appends the lowercase hexadecimal digits of `n` to `out`.
pub fn push_hex(out: &mut Vec<char>, n: u64)
    ensures
        final(out)@ == old(out)@ + hex(n as nat),
    decreases n,
{
    if n < 16 {
        out.push(hex_digit(n));
    } else {
        push_hex(out, n / 16);
        out.push(hex_digit(n % 16));
        assert(old(out)@ + hex(n as nat) =~= old(out)@ + hex((n / 16) as nat) + seq![hex_digit_char((n % 16) as nat)]);
    }
}

} // verus!
