//! The presentation's font settings survive writing and reading back.
use vstd::prelude::*;
use crate::markdown::{
    attrs_from, attrs_of, comment_directive, crlf_to_lf, deserialize_s, escape_char,
    escape_s, find_attr, first_nonblank, key_end, parse_u8_s, presentation_meta, quoted_value,
    serialize_s, skip_aws, slides_md, token_end, word_len, digits_value, all_digits,
};
use crate::model::PresentationView;
use crate::text::{
    decimal, digit_char, has_prefix, has_suffix, is_ascii_ws, is_ws, lines, lines_from, strip_cr,
    trim_end_s, trim_s, trim_start_s,
};

verus! {

/// A character that an attribute value can hold and read back unchanged: anything but a
/// line break.
pub open spec fn plain_char(c: char) -> bool {
    c != '\n' && c != '\r'
}

pub open spec fn plain_text(s: Seq<char>) -> bool {
    forall|i: int| 0 <= i < s.len() ==> plain_char(#[trigger] s[i])
}

/// The first line that `serialize` writes.
pub open spec fn meta_line(p: PresentationView) -> Seq<char> {
    "<!-- slidecli:presentation font=\""@ + escape_s(p.font_name) + "\" font-size="@ + decimal(
        p.font_size as nat,
    ) + " -->"@
}

// ───────────────────────────── escaping ─────────────────────────────

pub(crate) proof fn lemma_escape_concat(a: Seq<char>, b: Seq<char>)
    ensures
        escape_s(a + b) == escape_s(a) + escape_s(b),
    decreases b.len(),
{
    if b.len() == 0 {
        assert(a + b =~= a);
        assert(escape_s(b) =~= Seq::<char>::empty());
        assert(escape_s(a) + escape_s(b) =~= escape_s(a));
    } else {
        assert((a + b).drop_last() =~= a + b.drop_last());
        assert((a + b).last() == b.last());
        lemma_escape_concat(a, b.drop_last());
        assert(escape_s(a + b) =~= escape_s(a) + escape_s(b));
    }
}

pub(crate) proof fn lemma_escape_cons(c: char, rest: Seq<char>)
    ensures
        escape_s(seq![c] + rest) == escape_char(c) + escape_s(rest),
{
    lemma_escape_concat(seq![c], rest);
    assert(seq![c].drop_last() =~= Seq::<char>::empty());
    assert(seq![c].last() == c);
    assert(escape_s(Seq::<char>::empty()) == Seq::<char>::empty());
    assert(escape_s(seq![c]) == escape_s(seq![c].drop_last()) + escape_char(c));
    assert(escape_s(seq![c]) =~= escape_char(c));
}

pub(crate) proof fn lemma_escape_plain(s: Seq<char>)
    requires
        plain_text(s),
    ensures
        plain_text(escape_s(s)),
    decreases s.len(),
{
    if s.len() > 0 {
        lemma_escape_plain(s.drop_last());
        assert(plain_char(s.last()));
        let e = escape_s(s);
        assert forall|i: int| 0 <= i < e.len() implies plain_char(#[trigger] e[i]) by {
            let d = escape_s(s.drop_last());
            if i >= d.len() {
                assert(e[i] == escape_char(s.last())[i - d.len()]);
            } else {
                assert(e[i] == d[i]);
            }
        }
    }
}

/// Any attribute value, written with `escape_s` between double quotes, reads back
/// unchanged, and reading stops just after the closing quote.
pub proof fn law_quoted_value_round_trip(p: Seq<char>, name: Seq<char>, r: Seq<char>)
    ensures
        quoted_value(p + escape_s(name) + seq!['"'] + r, p.len() as int) == (
            name,
            (p.len() + escape_s(name).len() + 1) as int,
        ),
    decreases name.len(),
{
    let s = p + escape_s(name) + seq!['"'] + r;
    let i = p.len() as int;
    if name.len() == 0 {
        assert(escape_s(name) =~= Seq::<char>::empty());
        assert(s[i] == '"');
        assert(name =~= Seq::<char>::empty());
    } else {
        let c = name[0];
        let rest = name.drop_first();
        assert(name =~= seq![c] + rest);
        lemma_escape_cons(c, rest);
        let p2 = p + escape_char(c);
        assert(s =~= p2 + escape_s(rest) + seq!['"'] + r);
        law_quoted_value_round_trip(p2, rest, r);
        if c == '\\' || c == '"' {
            assert(s[i] == '\\');
            assert(s[i + 1] == c);
            assert(quoted_value(s, i) == (seq![c] + quoted_value(s, i + 2).0, quoted_value(s, i + 2).1));
        } else {
            assert(s[i] == c);
            assert(quoted_value(s, i) == (seq![c] + quoted_value(s, i + 1).0, quoted_value(s, i + 1).1));
        }
        assert(seq![c] + rest == name);
    }
}

// ───────────────────────────── numerals ─────────────────────────────

proof fn lemma_digit_char(d: nat)
    requires
        d < 10,
    ensures
        '0' <= digit_char(d) <= '9',
        (digit_char(d) as u32) - ('0' as u32) == d,
{
}

pub(crate) proof fn lemma_decimal(n: nat)
    ensures
        decimal(n).len() >= 1,
        all_digits(decimal(n)),
        digits_value(decimal(n)) == n,
    decreases n,
{
    lemma_digit_char(n % 10);
    if n < 10 {
        let e = decimal(n);
        assert(e.drop_last() =~= Seq::<char>::empty());
        assert(digits_value(Seq::<char>::empty()) == 0);
    }
    if n >= 10 {
        lemma_decimal(n / 10);
        let d = decimal(n / 10);
        let e = decimal(n);
        assert(e == d.push(digit_char(n % 10)));
        assert(e.drop_last() =~= d);
        assert forall|k: int| 0 <= k < e.len() implies '0' <= #[trigger] e[k] && e[k] <= '9' by {
            if k < d.len() {
                assert(e[k] == d[k]);
            }
        }
    }
}

/// A font size written as a decimal numeral reads back as the same number.
pub proof fn law_font_size_numeral_round_trip(n: u8)
    ensures
        parse_u8_s(decimal(n as nat)) == Some(n),
{
    lemma_decimal(n as nat);
    let d = decimal(n as nat);
    assert('0' <= d[0] <= '9');
}

// ───────────────────────────── lines and trimming ─────────────────────────────

pub(crate) proof fn lemma_crlf_prefix(a: Seq<char>, b: Seq<char>)
    requires
        forall|i: int| 0 <= i < a.len() ==> #[trigger] a[i] != '\r',
    ensures
        crlf_to_lf(a + b) == a + crlf_to_lf(b),
    decreases a.len(),
{
    if a.len() > 0 {
        assert((a + b)[0] == a[0]);
        assert((a + b).drop_first() =~= a.drop_first() + b);
        lemma_crlf_prefix(a.drop_first(), b);
        assert(a =~= seq![a[0]] + a.drop_first());
        assert(crlf_to_lf(a + b) =~= a + crlf_to_lf(b));
    } else {
        assert(a + b =~= b);
    }
}

pub(crate) proof fn lemma_lines_first(cur: Seq<char>, a: Seq<char>, b: Seq<char>)
    requires
        forall|i: int| 0 <= i < a.len() ==> #[trigger] a[i] != '\n',
    ensures
        lines_from(cur, a + seq!['\n'] + b) == seq![strip_cr(cur + a)] + lines_from(seq![], b),
    decreases a.len(),
{
    let s = a + seq!['\n'] + b;
    if a.len() == 0 {
        assert(s[0] == '\n');
        assert(s.drop_first() =~= b);
        assert(cur + a =~= cur);
    } else {
        assert(s[0] == a[0]);
        assert(s.drop_first() =~= a.drop_first() + seq!['\n'] + b);
        lemma_lines_first(cur.push(a[0]), a.drop_first(), b);
        assert(cur.push(a[0]) + a.drop_first() =~= cur + a);
    }
}

pub(crate) proof fn lemma_trim_kept(s: Seq<char>)
    requires
        s.len() > 0,
        !is_ws(s[0]),
        !is_ws(s.last()),
    ensures
        trim_s(s) == s,
{
}

pub(crate) proof fn lemma_trim_spaced(x: Seq<char>)
    requires
        x.len() > 0,
        !is_ws(x[0]),
        !is_ws(x.last()),
    ensures
        trim_s(seq![' '] + x + seq![' ']) == x,
{
    let s = seq![' '] + x + seq![' '];
    assert(s[0] == ' ');
    assert(s.drop_first() =~= x + seq![' ']);
    assert((x + seq![' '])[0] == x[0]);
    assert(trim_start_s(x + seq![' ']) == x + seq![' ']);
    assert(trim_start_s(s) == trim_start_s(s.drop_first()));
    assert(trim_start_s(s) == x + seq![' ']);
    assert((x + seq![' ']).drop_last() =~= x);
    assert(trim_end_s(x + seq![' ']) == trim_end_s(x));
}

pub(crate) proof fn lemma_word_len(w: Seq<char>, rest: Seq<char>)
    requires
        forall|i: int| 0 <= i < w.len() ==> !is_ws(#[trigger] w[i]),
        rest.len() > 0,
        is_ws(rest[0]),
    ensures
        word_len(w + rest) == w.len(),
    decreases w.len(),
{
    if w.len() == 0 {
        assert(w + rest =~= rest);
    } else {
        assert((w + rest)[0] == w[0]);
        assert((w + rest).drop_first() =~= w.drop_first() + rest);
        lemma_word_len(w.drop_first(), rest);
    }
}

// ───────────────────────────── attributes ─────────────────────────────

pub(crate) proof fn lemma_key_end_run(s: Seq<char>, i: int, j: int)
    requires
        0 <= i <= j <= s.len(),
        forall|k: int| i <= k < j ==> !is_ascii_ws(#[trigger] s[k]) && s[k] != '=',
        j == s.len() || is_ascii_ws(s[j]) || s[j] == '=',
    ensures
        key_end(s, i) == j,
    decreases j - i,
{
    if i < j {
        lemma_key_end_run(s, i + 1, j);
    }
}

pub(crate) proof fn lemma_token_end_run(s: Seq<char>, i: int, j: int)
    requires
        0 <= i <= j <= s.len(),
        forall|k: int| i <= k < j ==> !is_ascii_ws(#[trigger] s[k]),
        j == s.len() || is_ascii_ws(s[j]),
    ensures
        token_end(s, i) == j,
    decreases j - i,
{
    if i < j {
        lemma_token_end_run(s, i + 1, j);
    }
}

/// The attributes written in a presentation directive read back as the font name and the
/// font size's numeral.
proof fn lemma_meta_attrs(name: Seq<char>, size: u8)
    requires
        plain_text(name),
    ensures
        attrs_of("font=\""@ + escape_s(name) + "\" font-size="@ + decimal(size as nat)) == seq![
            ("font"@, name),
            ("font-size"@, decimal(size as nat)),
        ],
{
    reveal_strlit("font=\"");
    reveal_strlit("\" font-size=");
    reveal_strlit("font");
    reveal_strlit("font-size");
    let esc = escape_s(name);
    let dec = decimal(size as nat);
    lemma_decimal(size as nat);
    lemma_escape_plain(name);
    let s = "font=\""@ + esc + "\" font-size="@ + dec;
    let p = "font=\""@;
    let r = " font-size="@ + dec;
    reveal_strlit(" font-size=");
    assert(s =~= p + esc + seq!['"'] + r);
    // the first attribute: font="…"
    assert(skip_aws(s, 0) == 0);
    lemma_key_end_run(s, 0, 4);
    assert(s.subrange(0, 4) =~= "font"@);
    assert(skip_aws(s, 4) == 4);
    assert(skip_aws(s, 5) == 5);
    law_quoted_value_round_trip(p, name, r);
    let e: int = (p.len() + esc.len() + 1) as int;
    assert(quoted_value(s, 6) == (name, e));
    // the second attribute: font-size=N
    assert(s[e] == ' ');
    assert(skip_aws(s, e + 1) == e + 1);
    assert(skip_aws(s, e) == e + 1);
    lemma_key_end_run(s, e + 1, e + 10);
    assert(s.subrange(e + 1, e + 10) =~= "font-size"@);
    assert(skip_aws(s, e + 10) == e + 10);
    assert(s[e + 11] == dec[0]);
    assert(skip_aws(s, e + 11) == e + 11);
    assert forall|k: int| e + 11 <= k < s.len() implies !is_ascii_ws(#[trigger] s[k]) by {
        assert(s[k] == dec[k - e - 11]);
    }
    lemma_token_end_run(s, e + 11, s.len() as int);
    assert(s.subrange(e + 11, s.len() as int) =~= dec);
    assert(skip_aws(s, s.len() as int) == s.len());
    assert(attrs_from(s, s.len() as int) =~= Seq::<(Seq<char>, Seq<char>)>::empty());
    assert(attrs_from(s, e) =~= seq![("font-size"@, dec)]);
    assert(attrs_from(s, 0) =~= seq![("font"@, name), ("font-size"@, dec)]);
}

/// The directive name holds no whitespace.
pub(crate) proof fn lemma_directive_word()
    ensures
        forall|i: int| 0 <= i < "slidecli:presentation"@.len() ==> !is_ws(#[trigger] "slidecli:presentation"@[i]),
        "slidecli:presentation"@.len() == 21,
        has_prefix("slidecli:presentation"@, "slidecli:"@),
{
    reveal_strlit("slidecli:presentation");
    reveal_strlit("slidecli:");
    let w = "slidecli:presentation"@;
    assert(w =~= seq!['s', 'l', 'i', 'd', 'e', 'c', 'l', 'i', ':', 'p', 'r', 'e', 's', 'e', 'n', 't', 'a', 't', 'i', 'o', 'n']);
    assert(w.take(9) =~= "slidecli:"@);
}

/// The attributes part of the presentation directive.
pub open spec fn meta_attrs_text(name: Seq<char>, size: u8) -> Seq<char> {
    "font=\""@ + escape_s(name) + "\" font-size="@ + decimal(size as nat)
}

/// The line that `serialize` writes first is a presentation directive.
pub(crate) proof fn lemma_meta_directive(p: PresentationView)
    requires
        plain_text(p.font_name),
    ensures
        comment_directive(meta_line(p)) == Some(
            ("slidecli:presentation"@, attrs_of(meta_attrs_text(p.font_name, p.font_size))),
        ),
{
    reveal_strlit("<!-- slidecli:presentation font=\"");
    reveal_strlit("\" font-size=");
    reveal_strlit(" -->");
    reveal_strlit("<!--");
    reveal_strlit("-->");
    reveal_strlit("font=\"");
    lemma_directive_word();
    let w = "slidecli:presentation"@;
    reveal_strlit("slidecli:presentation");
    let sa = meta_attrs_text(p.font_name, p.font_size);
    let dec = decimal(p.font_size as nat);
    lemma_decimal(p.font_size as nat);
    let t = meta_line(p);
    let x = w + seq![' '] + sa;
    assert(t =~= "<!--"@ + (seq![' '] + x + seq![' ']) + "-->"@);
    assert(t.take(4) =~= "<!--"@);
    assert(has_prefix(t, "<!--"@));
    assert(t.skip(4).skip(t.skip(4).len() - 3) =~= "-->"@);
    assert(has_suffix(t.skip(4), "-->"@));
    assert(t.subrange(4, t.len() - 3) =~= seq![' '] + x + seq![' ']);
    assert(x[0] == 's');
    assert(sa.last() == dec.last());
    assert(x.last() == dec.last());
    assert('0' <= dec[dec.len() - 1] <= '9');
    lemma_trim_spaced(x);
    let inner = trim_s(t.subrange(4, t.len() - 3));
    assert(inner == x);
    assert(x =~= w + (seq![' '] + sa));
    lemma_word_len(w, seq![' '] + sa);
    assert(word_len(inner) == 21);
    assert(inner.take(21) =~= w);
    assert(inner.skip(21) =~= seq![' '] + sa);
    assert(sa[0] == 'f');
    assert((seq![' '] + sa).drop_first() =~= sa);
    assert(trim_start_s(sa) == sa);
    assert(trim_start_s(seq![' '] + sa) == trim_start_s((seq![' '] + sa).drop_first()));
}

/// The first line of a written presentation, after line ends are normalized, is its
/// presentation directive.
pub(crate) proof fn lemma_meta_first_line(p: PresentationView)
    requires
        plain_text(p.font_name),
    ensures
        lines(crlf_to_lf(serialize_s(p))).len() > 0,
        lines(crlf_to_lf(serialize_s(p)))[0] == meta_line(p),
        first_nonblank(lines(crlf_to_lf(serialize_s(p))), 0) == 0,
        trim_s(meta_line(p)) == meta_line(p),
{
    reveal_strlit("<!-- slidecli:presentation font=\"");
    reveal_strlit("\" font-size=");
    reveal_strlit(" -->");
    reveal_strlit(" -->\n\n");
    let t = meta_line(p);
    let dec = decimal(p.font_size as nat);
    lemma_decimal(p.font_size as nat);
    lemma_escape_plain(p.font_name);
    let esc = escape_s(p.font_name);
    let rest = seq!['\n'] + slides_md(p.slides);
    assert(serialize_s(p) =~= t + seq!['\n'] + rest);
    assert forall|i: int| 0 <= i < t.len() implies #[trigger] t[i] != '\r' && t[i] != '\n' by {
        let a = "<!-- slidecli:presentation font=\""@;
        let b = "\" font-size="@;
        if i < a.len() {
            assert(t[i] == a[i]);
        } else if i < a.len() + esc.len() {
            assert(t[i] == esc[i - a.len()]);
            assert(plain_char(esc[i - a.len()]));
        } else if i < a.len() + esc.len() + b.len() {
            assert(t[i] == b[i - a.len() - esc.len()]);
        } else if i < a.len() + esc.len() + b.len() + dec.len() {
            assert(t[i] == dec[i - a.len() - esc.len() - b.len()]);
            assert('0' <= dec[i - a.len() - esc.len() - b.len()] <= '9');
        } else {
            assert(t[i] == " -->"@[i - a.len() - esc.len() - b.len() - dec.len()]);
        }
    }
    assert forall|i: int| 0 <= i < (t + seq!['\n']).len() implies #[trigger] (t + seq!['\n'])[i] != '\r' by {
        if i < t.len() {
            assert((t + seq!['\n'])[i] == t[i]);
        }
    }
    lemma_crlf_prefix(t + seq!['\n'], rest);
    let norm = crlf_to_lf(serialize_s(p));
    assert(norm =~= t + seq!['\n'] + crlf_to_lf(rest));
    lemma_lines_first(seq![], t, crlf_to_lf(rest));
    assert(seq![] + t =~= t);
    assert(t.last() == '>');
    assert(strip_cr(t) == t);
    assert(lines(norm)[0] == t);
    assert(t[0] == '<');
    lemma_trim_kept(t);
}

/// The font name and size of a presentation are read back from what `serialize` writes,
/// when the name is on one line; whenever the written text reads back at all, the
/// result has that font name and size.
pub proof fn law_font_settings_round_trip(p: PresentationView)
    requires
        plain_text(p.font_name),
    ensures
        presentation_meta(crlf_to_lf(serialize_s(p))) == Some((p.font_name, p.font_size)),
        deserialize_s(serialize_s(p)) matches Some(q) ==> q.font_name == p.font_name
            && q.font_size == p.font_size,
{
    reveal_strlit("slidecli:presentation");
    reveal_strlit("font");
    reveal_strlit("font-size");
    lemma_meta_first_line(p);
    lemma_meta_directive(p);
    lemma_meta_attrs(p.font_name, p.font_size);
    law_font_size_numeral_round_trip(p.font_size);
    let attrs = seq![("font"@, p.font_name), ("font-size"@, decimal(p.font_size as nat))];
    assert(find_attr(attrs, "font"@) == Some(p.font_name));
    assert("font"@.len() == 4);
    assert("font-size"@.len() == 9);
    assert("font"@ != "font-size"@);
    reveal_with_fuel(find_attr, 3);
    assert(attrs.drop_first() =~= seq![("font-size"@, decimal(p.font_size as nat))]);
    assert(find_attr(attrs, "font-size"@) == Some(decimal(p.font_size as nat)));
}

} // verus!
