//! Markdown import and export of presentations.
use vstd::prelude::*;
use crate::model::{copy_string, opt_view, Block, BlockKind, BlockView, KindView, Slide, SlideView, block_views};
use crate::text::{
    chars_eq_str, decimal, extend_chars, has_prefix, join_lines, join_nl, line_cost, lines, push_decimal, push_str, split_lines, has_suffix, is_ascii_whitespace, is_ascii_ws, is_whitespace, is_ws,
    push_char, slice_of, split_words, starts_with_str, string_from, tail_from, trim, trim_s,
    trim_start, trim_start_s, views, words,
};

verus! {

// ───────────────────────────── attribute escaping ─────────────────────────────

/// `c` as it is written inside a double-quoted attribute value.
pub open spec fn escape_char(c: char) -> Seq<char> {
    if c == '\\' {
        seq!['\\', '\\']
    } else if c == '"' {
        seq!['\\', '"']
    } else {
        seq![c]
    }
}

/// `s` with every backslash and double quote preceded by a backslash.
pub open spec fn escape_s(s: Seq<char>) -> Seq<char>
    decreases s.len(),
{
    if s.len() == 0 {
        seq![]
    } else {
        escape_s(s.drop_last()) + escape_char(s.last())
    }
}

fn escape_attr(value: &[char]) -> (r: Vec<char>)
    ensures
        r@ == escape_s(value@),
{
    let mut out: Vec<char> = Vec::new();
    let mut i: usize = 0;
    while i < value.len()
        invariant
            i <= value@.len(),
            out@ == escape_s(value@.take(i as int)),
        decreases value@.len() - i,
    {
        let c = value[i];
        if c == '\\' {
            out.push('\\');
            out.push('\\');
        } else if c == '"' {
            out.push('\\');
            out.push('"');
        } else {
            out.push(c);
        }
        assert(value@.take(i + 1).drop_last() =~= value@.take(i as int));
        i = i + 1;
        assert(out@ =~= escape_s(value@.take(i as int)));
    }
    assert(value@.take(i as int) =~= value@);
    out
}

// ───────────────────────────── attributes ─────────────────────────────

/// The first position at or after `i` that is not ASCII whitespace.
pub open spec fn skip_aws(s: Seq<char>, i: int) -> int
    decreases s.len() - i,
{
    if 0 <= i < s.len() && is_ascii_ws(s[i]) {
        skip_aws(s, i + 1)
    } else {
        i
    }
}

/// The end of an attribute key that starts at `i`: the first ASCII whitespace or `=`.
pub open spec fn key_end(s: Seq<char>, i: int) -> int
    decreases s.len() - i,
{
    if 0 <= i < s.len() && !is_ascii_ws(s[i]) && s[i] != '=' {
        key_end(s, i + 1)
    } else {
        i
    }
}

/// The end of an unquoted value that starts at `i`: the first ASCII whitespace.
pub open spec fn token_end(s: Seq<char>, i: int) -> int
    decreases s.len() - i,
{
    if 0 <= i < s.len() && !is_ascii_ws(s[i]) {
        token_end(s, i + 1)
    } else {
        i
    }
}

/// A double-quoted value read from position `i` (just after the opening quote): its
/// characters, and the position after the closing quote (or the end of the input).
/// A backslash takes the next character literally.
pub open spec fn quoted_value(s: Seq<char>, i: int) -> (Seq<char>, int)
    decreases s.len() - i,
{
    if i < 0 || i >= s.len() {
        (seq![], i)
    } else if s[i] == '\\' && i + 1 < s.len() {
        let (v, e) = quoted_value(s, i + 2);
        (seq![s[i + 1]] + v, e)
    } else if s[i] == '"' {
        (seq![], i + 1)
    } else {
        let (v, e) = quoted_value(s, i + 1);
        (seq![s[i]] + v, e)
    }
}

pub proof fn lemma_skip_aws(s: Seq<char>, i: int)
    requires
        0 <= i <= s.len(),
    ensures
        i <= skip_aws(s, i) <= s.len(),
        skip_aws(s, i) < s.len() ==> !is_ascii_ws(s[skip_aws(s, i)]),
    decreases s.len() - i,
{
    if i < s.len() && is_ascii_ws(s[i]) {
        lemma_skip_aws(s, i + 1);
    }
}

pub proof fn lemma_key_end(s: Seq<char>, i: int)
    requires
        0 <= i <= s.len(),
    ensures
        i <= key_end(s, i) <= s.len(),
        key_end(s, i) < s.len() ==> is_ascii_ws(s[key_end(s, i)]) || s[key_end(s, i)] == '=',
    decreases s.len() - i,
{
    if i < s.len() && !is_ascii_ws(s[i]) && s[i] != '=' {
        lemma_key_end(s, i + 1);
    }
}

pub proof fn lemma_token_end(s: Seq<char>, i: int)
    requires
        0 <= i <= s.len(),
    ensures
        i <= token_end(s, i) <= s.len(),
    decreases s.len() - i,
{
    if i < s.len() && !is_ascii_ws(s[i]) {
        lemma_token_end(s, i + 1);
    }
}

pub proof fn lemma_quoted_value(s: Seq<char>, i: int)
    requires
        0 <= i <= s.len(),
    ensures
        i <= quoted_value(s, i).1 <= s.len(),
        i < s.len() ==> i < quoted_value(s, i).1,
    decreases s.len() - i,
{
    if i < s.len() {
        if s[i] == '\\' && i + 1 < s.len() {
            lemma_quoted_value(s, i + 2);
        } else if s[i] != '"' {
            lemma_quoted_value(s, i + 1);
        }
    }
}

/// The `key=value` attributes read from position `i` on: keys end at ASCII whitespace
/// or `=`, values are double-quoted or run to the next ASCII whitespace, and a key with
/// no `=` gets the empty value.
pub open spec fn attrs_from(s: Seq<char>, i: int) -> Seq<(Seq<char>, Seq<char>)>
    decreases s.len() - i,
{
    if i < 0 || i > s.len() {
        seq![]
    } else {
        let a = skip_aws(s, i);
        if a >= s.len() {
            seq![]
        } else {
            let ke = key_end(s, a);
            let key = s.subrange(a, ke);
            let b = skip_aws(s, ke);
            proof {
                lemma_skip_aws(s, i);
                lemma_key_end(s, a);
                lemma_skip_aws(s, ke);
            }
            if b >= s.len() || s[b] != '=' {
                seq![(key, seq![])] + attrs_from(s, b)
            } else {
                let c = skip_aws(s, b + 1);
                proof {
                    lemma_skip_aws(s, b + 1);
                }
                if c < s.len() && s[c] == '"' {
                    let q = quoted_value(s, c + 1);
                    proof {
                        lemma_quoted_value(s, c + 1);
                    }
                    seq![(key, q.0)] + attrs_from(s, q.1)
                } else {
                    let e = token_end(s, c);
                    proof {
                        lemma_token_end(s, c);
                    }
                    seq![(key, s.subrange(c, e))] + attrs_from(s, e)
                }
            }
        }
    }
}

pub open spec fn attrs_of(s: Seq<char>) -> Seq<(Seq<char>, Seq<char>)> {
    attrs_from(s, 0)
}

pub open spec fn attr_views(v: Seq<(String, String)>) -> Seq<(Seq<char>, Seq<char>)> {
    v.map_values(|p: (String, String)| (p.0@, p.1@))
}

fn skip_ascii_ws(s: &[char], i: usize) -> (r: usize)
    requires
        i <= s@.len(),
    ensures
        r == skip_aws(s@, i as int),
        i <= r <= s@.len(),
{
    let mut j = i;
    while j < s.len() && is_ascii_whitespace(s[j])
        invariant
            i <= j <= s@.len(),
            skip_aws(s@, i as int) == skip_aws(s@, j as int),
        decreases s@.len() - j,
    {
        j = j + 1;
    }
    j
}

fn quoted_at(s: &[char], i: usize) -> (r: (Vec<char>, usize))
    requires
        i <= s@.len(),
    ensures
        r.0@ == quoted_value(s@, i as int).0,
        r.1 == quoted_value(s@, i as int).1,
        i <= r.1 <= s@.len(),
        i < s@.len() ==> i < r.1,
{
    proof {
        lemma_quoted_value(s@, i as int);
    }
    let mut value: Vec<char> = Vec::new();
    let mut idx = i;
    while idx < s.len()
        invariant
            i <= idx <= s@.len(),
            quoted_value(s@, i as int) == (value@ + quoted_value(s@, idx as int).0, quoted_value(
                s@,
                idx as int,
            ).1),
        decreases s@.len() - idx,
    {
        let ch = s[idx];
        let ghost old_value = value@;
        if ch == '\\' && idx + 1 < s.len() {
            value.push(s[idx + 1]);
            assert(value@ + quoted_value(s@, idx + 2).0 =~= old_value + (seq![s@[idx + 1]]
                + quoted_value(s@, idx + 2).0));
            idx = idx + 2;
        } else if ch == '"' {
            assert(value@ =~= value@ + quoted_value(s@, idx as int).0);
            return (value, idx + 1);
        } else {
            value.push(ch);
            assert(value@ + quoted_value(s@, idx + 1).0 =~= old_value + (seq![ch]
                + quoted_value(s@, idx + 1).0));
            idx = idx + 1;
        }
    }
    assert(value@ =~= value@ + quoted_value(s@, idx as int).0);
    (value, idx)
}

fn parse_attrs(input: &[char]) -> (r: Vec<(String, String)>)
    ensures
        attr_views(r@) == attrs_of(input@),
{
    let mut idx: usize = 0;
    let mut attrs: Vec<(String, String)> = Vec::new();
    let ghost s = input@;
    while idx < input.len()
        invariant
            s == input@,
            idx <= s.len(),
            attrs_of(s) == attr_views(attrs@) + attrs_from(s, idx as int),
        decreases s.len() - idx,
    {
        let ghost start = idx as int;
        let ghost before = attr_views(attrs@);
        idx = skip_ascii_ws(input, idx);
        proof {
            lemma_skip_aws(s, start);
        }
        if idx >= input.len() {
            assert(attrs_from(s, start) =~= seq![]);
            assert(skip_aws(s, idx as int) == idx);
            assert(attrs_from(s, idx as int) =~= seq![]);
            assert(attr_views(attrs@) =~= attr_views(attrs@) + attrs_from(s, idx as int));
            continue;
        }
        let key_start = idx;
        while idx < input.len() && !is_ascii_whitespace(input[idx]) && input[idx] != '='
            invariant
                key_start <= idx <= s.len(),
                s == input@,
                key_end(s, key_start as int) == key_end(s, idx as int),
            decreases s.len() - idx,
        {
            idx = idx + 1;
        }
        proof {
            lemma_key_end(s, key_start as int);
        }
        let key = string_from(slice_of(input, key_start, idx).as_slice());
        let ke = idx;
        idx = skip_ascii_ws(input, idx);
        if idx >= input.len() || input[idx] != '=' {
            assert(ke > key_start);
            attrs.push((key, String::new()));
            assert(attr_views(attrs@) =~= before.push((s.subrange(key_start as int, ke as int), seq![])));
            assert(attrs_from(s, start) == seq![(s.subrange(key_start as int, ke as int), Seq::<char>::empty())] + attrs_from(s, idx as int));
            continue;
        }
        idx = idx + 1;
        idx = skip_ascii_ws(input, idx);
        let value = if idx < input.len() && input[idx] == '"' {
            let (v, e) = quoted_at(input, idx + 1);
            idx = e;
            string_from(v.as_slice())
        } else {
            let value_start = idx;
            while idx < input.len() && !is_ascii_whitespace(input[idx])
                invariant
                    value_start <= idx <= s.len(),
                    s == input@,
                    token_end(s, value_start as int) == token_end(s, idx as int),
                decreases s.len() - idx,
            {
                idx = idx + 1;
            }
            string_from(slice_of(input, value_start, idx).as_slice())
        };
        let ghost kv = (key@, value@);
        attrs.push((key, value));
        assert(attr_views(attrs@) =~= before.push(kv));
        assert(attrs_from(s, start) == seq![kv] + attrs_from(s, idx as int));
    }
    assert(attr_views(attrs@) =~= attr_views(attrs@) + attrs_from(s, idx as int)) by {
        assert(skip_aws(s, idx as int) == idx);
        assert(attrs_from(s, idx as int) =~= seq![]);
    }
    attrs
}

/// The value of the first attribute named `key`, if any.
pub open spec fn find_attr(attrs: Seq<(Seq<char>, Seq<char>)>, key: Seq<char>) -> Option<Seq<char>>
    decreases attrs.len(),
{
    if attrs.len() == 0 {
        None
    } else if attrs[0].0 == key {
        Some(attrs[0].1)
    } else {
        find_attr(attrs.drop_first(), key)
    }
}

fn find_attr_value(attrs: &Vec<(String, String)>, key: &str) -> (r: Option<String>)
    ensures
        opt_view(r) == find_attr(attr_views(attrs@), key@),
{
    let mut i: usize = 0;
    assert(attr_views(attrs@).skip(0) =~= attr_views(attrs@));
    while i < attrs.len()
        invariant
            i <= attrs@.len(),
            find_attr(attr_views(attrs@), key@) == find_attr(attr_views(attrs@).skip(i as int), key@),
        decreases attrs@.len() - i,
    {
        let ghost rest = attr_views(attrs@).skip(i as int);
        assert(rest[0] == (attrs@[i as int].0@, attrs@[i as int].1@));
        let kc = chars_of_string(&attrs[i].0);
        if chars_eq_str(kc.as_slice(), key) {
            return Some(copy_string(&attrs[i].1));
        }
        assert(rest.drop_first() =~= attr_views(attrs@).skip(i + 1));
        i = i + 1;
    }
    None
}

// ───────────────────────────── comment directives ─────────────────────────────

/// The length of the leading run of `s` that holds no whitespace.
pub open spec fn word_len(s: Seq<char>) -> nat
    decreases s.len(),
{
    if s.len() == 0 || is_ws(s[0]) {
        0
    } else {
        1 + word_len(s.drop_first())
    }
}

/// An HTML comment `<!-- slidecli:... attrs -->` on a trimmed line: the directive name
/// (the first word, which must start with `slidecli:`) and the attributes after it.
pub open spec fn comment_directive(t: Seq<char>) -> Option<(Seq<char>, Seq<(Seq<char>, Seq<char>)>)> {
    if has_prefix(t, "<!--"@) && has_suffix(t.skip(4), "-->"@) {
        let inner = trim_s(t.subrange(4, t.len() - 3));
        let d = inner.take(word_len(inner) as int);
        if has_prefix(d, "slidecli:"@) {
            Some((d, attrs_of(trim_start_s(inner.skip(word_len(inner) as int)))))
        } else {
            None
        }
    } else {
        None
    }
}

fn parse_comment_directive(line: &[char]) -> (r: Option<(Vec<char>, Vec<(String, String)>)>)
    ensures
        match r {
            Some((d, a)) => comment_directive(line@) == Some((d@, attr_views(a@))),
            None => comment_directive(line@) is None,
        },
{
    proof {
        reveal_strlit("<!--");
        reveal_strlit("-->");
    }
    if !starts_with_str(line, "<!--") {
        return None;
    }
    let after = tail_from(line, 4);
    if !crate::text::ends_with_str(after.as_slice(), "-->") {
        return None;
    }
    let body = slice_of(line, 4, line.len() - 3);
    assert(body@ == line@.subrange(4, line@.len() - 3));
    let inner = trim(body.as_slice());
    let mut n: usize = 0;
    assert(inner@.skip(0) =~= inner@);
    while n < inner.len() && !is_whitespace(inner[n])
        invariant
            n <= inner@.len(),
            word_len(inner@) == n + word_len(inner@.skip(n as int)),
        decreases inner@.len() - n,
    {
        assert(inner@.skip(n as int).drop_first() =~= inner@.skip(n + 1));
        n = n + 1;
    }
    let directive = slice_of(inner.as_slice(), 0, n);
    assert(directive@ == inner@.take(word_len(inner@) as int));
    if !starts_with_str(directive.as_slice(), "slidecli:") {
        return None;
    }
    let rest = trim_start(tail_from(inner.as_slice(), n).as_slice());
    let attrs = parse_attrs(rest.as_slice());
    Some((directive, attrs))
}

// ───────────────────────────── headings and fences ─────────────────────────────

/// The number of `#` characters that `s` starts with.
pub open spec fn hash_run(s: Seq<char>) -> nat
    decreases s.len(),
{
    if s.len() > 0 && s[0] == '#' {
        1 + hash_run(s.drop_first())
    } else {
        0
    }
}

/// A heading line: one to three `#`, then a non-empty title.
pub open spec fn heading(t: Seq<char>) -> Option<(u8, Seq<char>)> {
    let n = hash_run(t);
    if 1 <= n <= 3 && trim_start_s(t.skip(n as int)).len() > 0 {
        Some((n as u8, trim_start_s(t.skip(n as int))))
    } else {
        None
    }
}

pub proof fn lemma_hash_run(s: Seq<char>)
    ensures
        hash_run(s) <= s.len(),
    decreases s.len(),
{
    if s.len() > 0 && s[0] == '#' {
        lemma_hash_run(s.drop_first());
    }
}

fn parse_heading(line: &[char]) -> (r: Option<(u8, Vec<char>)>)
    ensures
        match r {
            Some((lv, title)) => heading(line@) == Some((lv, title@)),
            None => heading(line@) is None,
        },
{
    let mut count: usize = 0;
    assert(line@.skip(0) =~= line@);
    while count < line.len() && line[count] == '#'
        invariant
            count <= line@.len(),
            hash_run(line@) == count + hash_run(line@.skip(count as int)),
        decreases line@.len() - count,
    {
        assert(line@.skip(count as int).drop_first() =~= line@.skip(count + 1));
        count = count + 1;
    }
    if count < 1 || count > 3 {
        return None;
    }
    let rest = trim_start(tail_from(line, count).as_slice());
    if rest.len() == 0 {
        return None;
    }
    Some((count as u8, rest))
}

/// `s` without the double quotes at its start and end (`trim_matches('"')`).
pub open spec fn trim_quotes_start(s: Seq<char>) -> Seq<char>
    decreases s.len(),
{
    if s.len() > 0 && s[0] == '"' {
        trim_quotes_start(s.drop_first())
    } else {
        s
    }
}

pub open spec fn trim_quotes_end(s: Seq<char>) -> Seq<char>
    decreases s.len(),
{
    if s.len() > 0 && s.last() == '"' {
        trim_quotes_end(s.drop_last())
    } else {
        s
    }
}

pub open spec fn trim_quotes(s: Seq<char>) -> Seq<char> {
    trim_quotes_end(trim_quotes_start(s))
}

fn trim_quote_chars(s: &[char]) -> (r: Vec<char>)
    ensures
        r@ == trim_quotes(s@),
{
    let mut i: usize = 0;
    assert(s@.skip(0) =~= s@);
    while i < s.len() && s[i] == '"'
        invariant
            i <= s@.len(),
            trim_quotes_start(s@) == trim_quotes_start(s@.skip(i as int)),
        decreases s@.len() - i,
    {
        assert(s@.skip(i as int).drop_first() =~= s@.skip(i + 1));
        i = i + 1;
    }
    let a = tail_from(s, i);
    let mut j: usize = a.len();
    assert(a@.take(a@.len() as int) =~= a@);
    while j > 0 && a[j - 1] == '"'
        invariant
            j <= a@.len(),
            trim_quotes_end(a@) == trim_quotes_end(a@.take(j as int)),
        decreases j,
    {
        assert(a@.take(j as int).drop_last() =~= a@.take(j - 1));
        j = j - 1;
    }
    let r = slice_of(a.as_slice(), 0, j);
    assert(r@ =~= a@.take(j as int));
    r
}

/// What a fence's info string says: the language, whether the block is an exec block,
/// and its signature; `acc` is what the earlier words said.
pub open spec fn fence_step(
    acc: (Option<Seq<char>>, bool, Option<Seq<char>>),
    token: Seq<char>,
) -> (Option<Seq<char>>, bool, Option<Seq<char>>) {
    if token == "exec"@ {
        (acc.0, true, acc.2)
    } else if has_prefix(token, "sig="@) {
        (acc.0, acc.1, Some(trim_quotes(token.skip(4))))
    } else if has_prefix(token, "sig:"@) {
        (acc.0, acc.1, Some(token))
    } else if acc.0 is None {
        (Some(token), acc.1, acc.2)
    } else {
        acc
    }
}

pub open spec fn fence_words(ws: Seq<Seq<char>>) -> (Option<Seq<char>>, bool, Option<Seq<char>>)
    decreases ws.len(),
{
    if ws.len() == 0 {
        (None, false, None)
    } else {
        fence_step(fence_words(ws.drop_last()), ws.last())
    }
}

pub open spec fn fence_info(info: Seq<char>) -> (Option<Seq<char>>, bool, Option<Seq<char>>) {
    fence_words(words(info))
}

pub open spec fn vopt(o: Option<Vec<char>>) -> Option<Seq<char>> {
    match o {
        Some(v) => Some(v@),
        None => None,
    }
}

fn parse_fence_info(info: &[char]) -> (r: (Option<Vec<char>>, bool, Option<Vec<char>>))
    ensures
        (vopt(r.0), r.1, vopt(r.2)) == fence_info(info@),
{
    let tokens = split_words(info);
    let mut lang: Option<Vec<char>> = None;
    let mut is_exec = false;
    let mut signature: Option<Vec<char>> = None;
    let mut i: usize = 0;
    while i < tokens.len()
        invariant
            i <= tokens@.len(),
            views(tokens@) == words(info@),
            (vopt(lang), is_exec, vopt(signature)) == fence_words(views(tokens@).take(i as int)),
        decreases tokens@.len() - i,
    {
        let token = &tokens[i];
        assert(views(tokens@).take(i + 1).drop_last() =~= views(tokens@).take(i as int));
        assert(views(tokens@).take(i + 1).last() == token@);
        if chars_eq_str(token.as_slice(), "exec") {
            is_exec = true;
        } else if starts_with_str(token.as_slice(), "sig=") {
            proof {
                reveal_strlit("sig=");
            }
            assert("sig="@.len() == 4);
            let v = tail_from(token.as_slice(), 4);
            signature = Some(trim_quote_chars(v.as_slice()));
        } else if starts_with_str(token.as_slice(), "sig:") {
            signature = Some(slice_of(token.as_slice(), 0, token.len()));
            assert(token@.subrange(0, token@.len() as int) =~= token@);
        } else if lang.is_none() {
            lang = Some(slice_of(token.as_slice(), 0, token.len()));
            assert(token@.subrange(0, token@.len() as int) =~= token@);
        }
        i = i + 1;
    }
    assert(views(tokens@).take(i as int) =~= views(tokens@));
    (lang, is_exec, signature)
}

// ───────────────────────────── slides ─────────────────────────────

/// What an exec or output directive announces for the next code fence.
pub enum PendingView {
    Exec { lang: Option<Seq<char>>, signature: Option<Seq<char>> },
    Output,
}

/// The parser's state inside one slide.
pub struct SlideState {
    pub blocks: Seq<BlockView>,
    pub text: Seq<Seq<char>>,
    pub pending: Option<PendingView>,
    pub title: Option<Seq<char>>,
}

pub open spec fn empty_state() -> SlideState {
    SlideState { blocks: seq![], text: seq![], pending: None, title: None }
}

/// `st` with one more block, numbered after the blocks before it.
pub open spec fn with_block(st: SlideState, kind: KindView, content: Seq<char>) -> SlideState {
    SlideState {
        blocks: st.blocks.push(BlockView { id: (st.blocks.len() + 1) as u64, kind, content }),
        text: st.text,
        pending: st.pending,
        title: st.title,
    }
}

/// The collected text lines become a text block.
pub open spec fn flush_text(st: SlideState) -> SlideState {
    if st.text.len() == 0 {
        st
    } else {
        let s1 = with_block(st, KindView::Text, join_nl(st.text));
        SlideState { blocks: s1.blocks, text: seq![], pending: s1.pending, title: s1.title }
    }
}

pub open spec fn text_or(o: Option<Seq<char>>) -> Seq<char> {
    match o {
        Some(x) => x,
        None => "text"@,
    }
}

pub open spec fn or_else(a: Option<Seq<char>>, b: Option<Seq<char>>) -> Option<Seq<char>> {
    if a is Some {
        a
    } else {
        b
    }
}

/// An announced block that no fence followed becomes an empty block.
pub open spec fn flush_pending(st: SlideState) -> SlideState {
    match st.pending {
        None => st,
        Some(PendingView::Exec { lang, signature }) => {
            let s1 = with_block(
                st,
                KindView::Exec { lang: text_or(lang), signature },
                seq![],
            );
            SlideState { blocks: s1.blocks, text: s1.text, pending: None, title: s1.title }
        },
        Some(PendingView::Output) => {
            let s1 = with_block(st, KindView::OutputPlaceholder, seq![]);
            SlideState { blocks: s1.blocks, text: s1.text, pending: None, title: s1.title }
        },
    }
}

pub open spec fn push_text(st: SlideState, line: Seq<char>) -> SlideState {
    SlideState { blocks: st.blocks, text: st.text.push(line), pending: st.pending, title: st.title }
}

pub open spec fn is_reveal_directive(d: Seq<char>) -> bool {
    d == "slidecli:next"@ || d == "slidecli:next:start"@ || d == "slidecli:next:end"@
}

/// The effect of a directive other than a reveal marker.
pub open spec fn apply_directive(
    st: SlideState,
    d: Seq<char>,
    attrs: Seq<(Seq<char>, Seq<char>)>,
    line: Seq<char>,
) -> SlideState {
    if d == "slidecli:presentation"@ {
        st
    } else if d == "slidecli:slide"@ {
        SlideState {
            blocks: st.blocks,
            text: st.text,
            pending: st.pending,
            title: find_attr(attrs, "title"@),
        }
    } else if d == "slidecli:block"@ {
        let ty = find_attr(attrs, "type"@);
        let s0 = flush_pending(st);
        if ty == Some("exec"@) {
            SlideState {
                blocks: s0.blocks,
                text: s0.text,
                pending: Some(
                    PendingView::Exec {
                        lang: find_attr(attrs, "lang"@),
                        signature: find_attr(attrs, "sig"@),
                    },
                ),
                title: s0.title,
            }
        } else if ty == Some("output"@) {
            SlideState {
                blocks: s0.blocks,
                text: s0.text,
                pending: Some(PendingView::Output),
                title: s0.title,
            }
        } else if ty == Some("separator"@) {
            with_block(s0, KindView::Separator, seq![])
        } else {
            st
        }
    } else {
        push_text(st, line)
    }
}

/// The kind of the block that a code fence makes, given what was announced before it
/// and what its info string says.
pub open spec fn fence_kind(
    pending: Option<PendingView>,
    info: (Option<Seq<char>>, bool, Option<Seq<char>>),
) -> KindView {
    match pending {
        Some(PendingView::Exec { lang, signature }) => KindView::Exec {
            lang: text_or(or_else(lang, info.0)),
            signature: or_else(signature, info.2),
        },
        Some(PendingView::Output) => KindView::OutputPlaceholder,
        None => if info.1 {
            KindView::Exec { lang: text_or(info.0), signature: info.2 }
        } else {
            KindView::Code { lang: text_or(info.0) }
        },
    }
}

pub open spec fn fenced_block(
    st: SlideState,
    info: (Option<Seq<char>>, bool, Option<Seq<char>>),
    content: Seq<char>,
) -> SlideState {
    let s0 = SlideState { blocks: st.blocks, text: st.text, pending: None, title: st.title };
    with_block(s0, fence_kind(st.pending, info), content)
}

/// `t` without the backticks of every leading fence marker (`trim_start_matches("```")`).
pub open spec fn strip_fences(t: Seq<char>) -> Seq<char>
    decreases t.len(),
{
    if t.len() >= 3 && has_prefix(t, "```"@) {
        strip_fences(t.skip(3))
    } else {
        t
    }
}

/// The first line at or after `j` that closes a fence, or the number of lines.
pub open spec fn fence_close(ls: Seq<Seq<char>>, j: int) -> int
    decreases ls.len() - j,
{
    if j < 0 || j >= ls.len() {
        ls.len() as int
    } else if trim_s(ls[j]) == "```"@ {
        j
    } else {
        fence_close(ls, j + 1)
    }
}

pub proof fn lemma_fence_close(ls: Seq<Seq<char>>, j: int)
    requires
        0 <= j,
    ensures
        j <= fence_close(ls, j) || fence_close(ls, j) == ls.len(),
        fence_close(ls, j) <= ls.len(),
        fence_close(ls, j) < ls.len() ==> trim_s(ls[fence_close(ls, j)]) == "```"@,
        forall|k: int| j <= k < fence_close(ls, j) ==> trim_s(#[trigger] ls[k]) != "```"@,
    decreases ls.len() - j,
{
    if j < ls.len() && trim_s(ls[j]) != "```"@ {
        lemma_fence_close(ls, j + 1);
    }
}

/// Runs the slide parser from line `idx` in state `st`; `None` when a code fence is
/// never closed.
pub open spec fn slide_run(ls: Seq<Seq<char>>, idx: int, st: SlideState) -> Option<SlideState>
    decreases ls.len() - idx,
{
    if idx < 0 || idx >= ls.len() {
        Some(flush_pending(flush_text(st)))
    } else {
        let line = ls[idx];
        let t = trim_s(line);
        if t.len() == 0 {
            slide_run(ls, idx + 1, flush_text(st))
        } else if comment_directive(t) is Some {
            let d = comment_directive(t).unwrap().0;
            let attrs = comment_directive(t).unwrap().1;
            if is_reveal_directive(d) {
                slide_run(ls, idx + 1, push_text(flush_pending(st), line))
            } else {
                slide_run(ls, idx + 1, apply_directive(flush_text(st), d, attrs, line))
            }
        } else if has_prefix(t, "```"@) {
            let end = fence_close(ls, idx + 1);
            proof {
                lemma_fence_close(ls, idx + 1);
            }
            if end >= ls.len() {
                None
            } else {
                slide_run(
                    ls,
                    end + 1,
                    fenced_block(
                        flush_text(st),
                        fence_info(trim_s(strip_fences(t))),
                        join_nl(ls.subrange(idx + 1, end)),
                    ),
                )
            }
        } else if heading(t) is Some {
            slide_run(
                ls,
                idx + 1,
                with_block(
                    flush_text(flush_pending(st)),
                    KindView::Heading { level: heading(t).unwrap().0 },
                    heading(t).unwrap().1,
                ),
            )
        } else {
            slide_run(ls, idx + 1, push_text(flush_pending(st), line))
        }
    }
}

/// The content of the first heading block, if any.
pub open spec fn first_heading(bs: Seq<BlockView>) -> Option<Seq<char>>
    decreases bs.len(),
{
    if bs.len() == 0 {
        None
    } else if bs[0].kind is Heading {
        Some(bs[0].content)
    } else {
        first_heading(bs.drop_first())
    }
}

/// Block `j` is the first heading among `bs`: a heading, with no heading before it.
pub open spec fn first_heading_at(bs: Seq<BlockView>, j: int) -> bool {
    &&& 0 <= j < bs.len()
    &&& bs[j].kind is Heading
    &&& forall|k: int| 0 <= k < j ==> !(#[trigger] bs[k].kind is Heading)
}

/// The first heading of some blocks is the content of the heading with the lowest index;
/// blocks without a heading have none.
pub proof fn law_first_heading_is_the_earliest(bs: Seq<BlockView>, j: int)
    ensures
        first_heading_at(bs, j) ==> first_heading(bs) == Some(bs[j].content),
        (forall|k: int| 0 <= k < bs.len() ==> !(#[trigger] bs[k].kind is Heading)) ==> first_heading(bs) is None,
    decreases bs.len(),
{
    if bs.len() > 0 {
        let rest = bs.drop_first();
        assert forall|k: int| 0 <= k < rest.len() implies #[trigger] rest[k] == bs[k + 1] by {}
        law_first_heading_is_the_earliest(rest, j - 1);
        if first_heading_at(bs, j) && j > 0 {
            assert(!(bs[0].kind is Heading));
            assert(first_heading_at(rest, j - 1)) by {
                assert forall|k: int| 0 <= k < j - 1 implies !(#[trigger] rest[k].kind is Heading) by {
                    assert(rest[k] == bs[k + 1]);
                }
            }
        }
        if forall|k: int| 0 <= k < bs.len() ==> !(#[trigger] bs[k].kind is Heading) {
            assert(!(bs[0].kind is Heading));
            assert forall|k: int| 0 <= k < rest.len() implies !(#[trigger] rest[k].kind is Heading) by {
                assert(rest[k] == bs[k + 1]);
            }
        }
    }
}

/// A slide section without a slide directive that names a title takes the content of its
/// first heading (the one with the lowest index) as its title.
pub proof fn law_slide_title_is_its_first_heading(section: Seq<char>, idx: nat, j: int)
    requires
        slide_run(lines(section), 0, empty_state()) matches Some(st) && st.title is None
            && first_heading_at(st.blocks, j),
    ensures
        parse_slide_s(section, idx) matches Some(sl) && sl.title == sl.blocks[j].content
            && first_heading_at(sl.blocks, j),
{
    let st = slide_run(lines(section), 0, empty_state()).unwrap();
    law_first_heading_is_the_earliest(st.blocks, j);
}

/// A slide is written with the content of its first heading as its title, when that
/// heading is not blank.
pub proof fn law_written_title_is_first_heading(sl: SlideView, idx: nat, j: int)
    requires
        first_heading_at(sl.blocks, j),
        trim_s(sl.blocks[j].content).len() > 0,
    ensures
        effective_title(sl, idx) == sl.blocks[j].content,
{
    law_first_heading_is_the_earliest(sl.blocks, j);
}

/// The default title of the slide at position `idx`.
pub open spec fn numbered_title(idx: nat) -> Seq<char> {
    "Slide "@ + decimal(idx + 1)
}

/// The slide that section `section` (the slide at position `idx`) describes, or `None`
/// when one of its code fences is not closed.
pub open spec fn parse_slide_s(section: Seq<char>, idx: nat) -> Option<SlideView> {
    match slide_run(lines(section), 0, empty_state()) {
        None => None,
        Some(st) => Some(
            SlideView {
                title: match st.title {
                    Some(t) => t,
                    None => match first_heading(st.blocks) {
                        Some(h) => h,
                        None => numbered_title(idx),
                    },
                },
                blocks: st.blocks,
            },
        ),
    }
}

/// The message of a slide whose code fence is never closed.
pub open spec fn unclosed_fence_message() -> Seq<char> {
    "コードブロックの終端 ``` がありません"@
}

enum PendingBlockMeta {
    Exec { lang: Option<String>, signature: Option<String> },
    Output,
}

spec fn pending_view(p: Option<PendingBlockMeta>) -> Option<PendingView> {
    match p {
        None => None,
        Some(PendingBlockMeta::Exec { lang, signature }) => Some(
            PendingView::Exec { lang: opt_view(lang), signature: opt_view(signature) },
        ),
        Some(PendingBlockMeta::Output) => Some(PendingView::Output),
    }
}

spec fn state_of(
    blocks: Seq<Block>,
    text: Seq<Vec<char>>,
    pending: Option<PendingBlockMeta>,
    title: Option<String>,
) -> SlideState {
    SlideState {
        blocks: block_views(blocks),
        text: views(text),
        pending: pending_view(pending),
        title: opt_view(title),
    }
}

/// How many lines the state has consumed at least.
spec fn used(st: SlideState) -> nat {
    st.blocks.len() + st.text.len() + if st.pending is Some { 1nat } else { 0nat }
}

fn push_block(blocks: &mut Vec<Block>, next_id: &mut u64, kind: BlockKind, content: String)
    requires
        *old(next_id) == old(blocks)@.len() + 1,
        old(blocks)@.len() + 2 <= u64::MAX,
    ensures
        block_views(final(blocks)@) == block_views(old(blocks)@).push(
            BlockView { id: (old(blocks)@.len() + 1) as u64, kind: kind@, content: content@ },
        ),
        *final(next_id) == final(blocks)@.len() + 1,
        final(blocks)@.len() == old(blocks)@.len() + 1,
{
    let ghost before = block_views(blocks@);
    blocks.push(Block::new(*next_id, kind, content));
    *next_id = *next_id + 1;
    assert(block_views(blocks@) =~= before.push(
        BlockView { id: (old(blocks)@.len() + 1) as u64, kind: kind@, content: content@ },
    ));
}

fn flush_text_block(blocks: &mut Vec<Block>, text_lines: &mut Vec<Vec<char>>, next_id: &mut u64)
    requires
        *old(next_id) == old(blocks)@.len() + 1,
        old(blocks)@.len() + 2 <= u64::MAX,
    ensures
        *final(next_id) == final(blocks)@.len() + 1,
        final(blocks)@.len() <= old(blocks)@.len() + 1,
        state_of(final(blocks)@, final(text_lines)@, None, None) == flush_text(
            state_of(old(blocks)@, old(text_lines)@, None, None),
        ),
{
    if text_lines.len() == 0 {
        assert(blocks@ == old(blocks)@);
        return;
    }
    let joined = join_lines(text_lines);
    push_block(blocks, next_id, BlockKind::Text, string_from(joined.as_slice()));
    *text_lines = Vec::new();
    assert(views(text_lines@) =~= seq![]);
}

fn flush_pending_block(
    blocks: &mut Vec<Block>,
    pending_block: &mut Option<PendingBlockMeta>,
    next_id: &mut u64,
)
    requires
        *old(next_id) == old(blocks)@.len() + 1,
        old(blocks)@.len() + 2 <= u64::MAX,
    ensures
        *final(next_id) == final(blocks)@.len() + 1,
        final(blocks)@.len() <= old(blocks)@.len() + 1,
        *final(pending_block) is None,
        state_of(final(blocks)@, seq![], None, None) == flush_pending(
            state_of(old(blocks)@, seq![], *old(pending_block), None),
        ),
{
    let meta = pending_block.take();
    match meta {
        None => {
            assert(blocks@ == old(blocks)@);
        },
        Some(PendingBlockMeta::Exec { lang, signature }) => {
            let lang = match lang {
                Some(l) => l,
                None => crate::model::owned("text"),
            };
            push_block(
                blocks,
                next_id,
                BlockKind::Exec { lang, signature },
                String::new(),
            );
        },
        Some(PendingBlockMeta::Output) => {
            push_block(blocks, next_id, BlockKind::OutputPlaceholder, String::new());
        },
    }
}

fn copy_chars(v: &Vec<char>) -> (r: Vec<char>)
    ensures
        r@ == v@,
{
    let r = slice_of(v.as_slice(), 0, v.len());
    assert(v@.subrange(0, v@.len() as int) =~= v@);
    r
}

fn strip_fence_markers(t: &[char]) -> (r: Vec<char>)
    ensures
        r@ == strip_fences(t@),
{
    let mut i: usize = 0;
    assert(t@.skip(0) =~= t@);
    loop
        invariant
            i <= t@.len(),
            strip_fences(t@) == strip_fences(t@.skip(i as int)),
        decreases t@.len() - i,
    {
        let rest = tail_from(t, i);
        if !starts_with_str(rest.as_slice(), "```") {
            assert(strip_fences(rest@) == rest@);
            return rest;
        }
        proof {
            reveal_strlit("```");
        }
        assert(i + 3 <= t.len());
        assert(rest@.skip(3) =~= t@.skip(i + 3));
        i = i + 3;
    }
}

fn first_heading_content(blocks: &Vec<Block>) -> (r: Option<String>)
    ensures
        opt_view(r) == first_heading(block_views(blocks@)),
{
    let mut k: usize = 0;
    assert(block_views(blocks@).skip(0) =~= block_views(blocks@));
    while k < blocks.len()
        invariant
            k <= blocks@.len(),
            first_heading(block_views(blocks@)) == first_heading(block_views(blocks@).skip(k as int)),
        decreases blocks@.len() - k,
    {
        assert(block_views(blocks@).skip(k as int).drop_first() =~= block_views(blocks@).skip(k + 1));
        if let BlockKind::Heading { .. } = blocks[k].kind {
            return Some(copy_string(&blocks[k].content));
        }
        k = k + 1;
    }
    None
}

fn parse_slide(section: &[char], slide_idx: usize) -> (r: Result<Slide, String>)
    requires
        section@.len() <= isize::MAX + 1,
        slide_idx < usize::MAX,
    ensures
        match r {
            Ok(sl) => parse_slide_s(section@, slide_idx as nat) == Some(sl@) && sl@.blocks.len()
                <= section@.len(),
            Err(e) => parse_slide_s(section@, slide_idx as nat) is None && e@
                == unclosed_fence_message(),
        },
{
    let all_lines = split_lines(section);
    let ghost ls = views(all_lines@);
    proof {
        crate::text::lemma_lines_len(section@);
    }
    let mut blocks: Vec<Block> = Vec::new();
    let mut text_lines: Vec<Vec<char>> = Vec::new();
    let mut pending_block: Option<PendingBlockMeta> = None;
    let mut explicit_title: Option<String> = None;
    let mut next_id: u64 = 1;
    let mut idx: usize = 0;
    assert(block_views(blocks@) =~= seq![]);
    assert(views(text_lines@) =~= seq![]);
    assert(state_of(blocks@, text_lines@, pending_block, explicit_title) == empty_state());

    while idx < all_lines.len()
        invariant
            ls == views(all_lines@),
            ls == lines(section@),
            ls.len() <= isize::MAX + 1,
            idx <= ls.len(),
            next_id == blocks@.len() + 1,
            used(state_of(blocks@, text_lines@, pending_block, explicit_title)) <= idx,
            slide_run(ls, 0, empty_state()) == slide_run(
                ls,
                idx as int,
                state_of(blocks@, text_lines@, pending_block, explicit_title),
            ),
        decreases ls.len() - idx,
    {
        let ghost st = state_of(blocks@, text_lines@, pending_block, explicit_title);
        let line = &all_lines[idx];
        assert(line@ == ls[idx as int]);
        let trimmed = trim(line.as_slice());

        if trimmed.len() == 0 {
            flush_text_block(&mut blocks, &mut text_lines, &mut next_id);
            assert(state_of(blocks@, text_lines@, pending_block, explicit_title) == flush_text(st));
            idx = idx + 1;
            continue;
        }

        if let Some((directive, attrs)) = parse_comment_directive(trimmed.as_slice()) {
            if chars_eq_str(directive.as_slice(), "slidecli:next") || chars_eq_str(
                directive.as_slice(),
                "slidecli:next:start",
            ) || chars_eq_str(directive.as_slice(), "slidecli:next:end") {
                let ghost tl = text_lines@;
                flush_pending_block(&mut blocks, &mut pending_block, &mut next_id);
                text_lines.push(copy_chars(line));
                assert(views(text_lines@) =~= views(tl).push(line@));
                assert(state_of(blocks@, text_lines@, pending_block, explicit_title) == push_text(
                    flush_pending(st),
                    line@,
                ));
                idx = idx + 1;
                continue;
            }
            flush_text_block(&mut blocks, &mut text_lines, &mut next_id);
            let ghost s1 = state_of(blocks@, text_lines@, pending_block, explicit_title);
            assert(s1 == flush_text(st));
            if chars_eq_str(directive.as_slice(), "slidecli:presentation") {
            } else if chars_eq_str(directive.as_slice(), "slidecli:slide") {
                explicit_title = find_attr_value(&attrs, "title");
            } else if chars_eq_str(directive.as_slice(), "slidecli:block") {
                let block_type = find_attr_value(&attrs, "type");
                let ty: Vec<char> = match &block_type {
                    Some(t) => chars_of_string(t),
                    None => Vec::new(),
                };
                if block_type.is_some() && chars_eq_str(ty.as_slice(), "exec") {
                    flush_pending_block(&mut blocks, &mut pending_block, &mut next_id);
                    let lang = find_attr_value(&attrs, "lang");
                    let signature = find_attr_value(&attrs, "sig");
                    pending_block = Some(PendingBlockMeta::Exec { lang, signature });
                } else if block_type.is_some() && chars_eq_str(ty.as_slice(), "output") {
                    flush_pending_block(&mut blocks, &mut pending_block, &mut next_id);
                    pending_block = Some(PendingBlockMeta::Output);
                } else if block_type.is_some() && chars_eq_str(ty.as_slice(), "separator") {
                    flush_pending_block(&mut blocks, &mut pending_block, &mut next_id);
                    push_block(&mut blocks, &mut next_id, BlockKind::Separator, String::new());
                } else {
                    proof {
                        let tyv = find_attr(attr_views(attrs@), "type"@);
                        if tyv is Some {
                            assert(tyv != Some("exec"@));
                            assert(tyv != Some("output"@));
                            assert(tyv != Some("separator"@));
                        }
                    }
                }
            } else {
                let ghost tl = text_lines@;
                text_lines.push(copy_chars(line));
                assert(views(text_lines@) =~= views(tl).push(line@));
            }
            assert(state_of(blocks@, text_lines@, pending_block, explicit_title) == apply_directive(
                s1,
                directive@,
                attr_views(attrs@),
                line@,
            ));
            idx = idx + 1;
            continue;
        }

        if starts_with_str(trimmed.as_slice(), "```") {
            flush_text_block(&mut blocks, &mut text_lines, &mut next_id);
            let ghost s1 = state_of(blocks@, text_lines@, pending_block, explicit_title);
            let info_chars = trim(strip_fence_markers(trimmed.as_slice()).as_slice());
            let start = idx + 1;
            let mut code_lines: Vec<Vec<char>> = Vec::new();
            idx = idx + 1;
            proof {
                lemma_fence_close(ls, start as int);
            }
            while idx < all_lines.len() && !chars_eq_str(trim(all_lines[idx].as_slice()).as_slice(), "```")
                invariant
                    ls == views(all_lines@),
                    start <= idx <= ls.len(),
                    fence_close(ls, start as int) == fence_close(ls, idx as int),
                    views(code_lines@) == ls.subrange(start as int, idx as int),
                decreases ls.len() - idx,
            {
                let ghost cl = views(code_lines@);
                assert(ls[idx as int] == all_lines@[idx as int]@);
                let cp = copy_chars(&all_lines[idx]);
                code_lines.push(cp);
                assert(views(code_lines@) =~= cl.push(ls[idx as int]));
                assert(views(code_lines@) =~= ls.subrange(start as int, idx + 1));
                idx = idx + 1;
            }
            if idx == all_lines.len() {
                return Err(crate::model::owned("コードブロックの終端 ``` がありません"));
            }
            assert(fence_close(ls, start as int) == idx);
            let content = join_lines(&code_lines);
            let (fence_lang, fence_exec, fence_sig) = parse_fence_info(info_chars.as_slice());
            let kind = match pending_block.take() {
                Some(PendingBlockMeta::Exec { lang, signature }) => {
                    let l = match lang {
                        Some(l) => l,
                        None => match fence_lang {
                            Some(f) => string_from(f.as_slice()),
                            None => crate::model::owned("text"),
                        },
                    };
                    let sg = match signature {
                        Some(s) => Some(s),
                        None => match fence_sig {
                            Some(f) => Some(string_from(f.as_slice())),
                            None => None,
                        },
                    };
                    BlockKind::Exec { lang: l, signature: sg }
                },
                Some(PendingBlockMeta::Output) => BlockKind::OutputPlaceholder,
                None => {
                    let l = match fence_lang {
                        Some(f) => string_from(f.as_slice()),
                        None => crate::model::owned("text"),
                    };
                    if fence_exec {
                        let sg = match fence_sig {
                            Some(f) => Some(string_from(f.as_slice())),
                            None => None,
                        };
                        BlockKind::Exec { lang: l, signature: sg }
                    } else {
                        BlockKind::Code { lang: l }
                    }
                },
            };
            assert(kind@ == fence_kind(s1.pending, fence_info(trim_s(strip_fences(trimmed@)))));
            push_block(&mut blocks, &mut next_id, kind, string_from(content.as_slice()));
            assert(state_of(blocks@, text_lines@, pending_block, explicit_title) == fenced_block(
                s1,
                fence_info(trim_s(strip_fences(trimmed@))),
                join_nl(ls.subrange(start as int, idx as int)),
            ));
            idx = idx + 1;
            continue;
        }

        if let Some((level, title)) = parse_heading(trimmed.as_slice()) {
            flush_pending_block(&mut blocks, &mut pending_block, &mut next_id);
            flush_text_block(&mut blocks, &mut text_lines, &mut next_id);
            push_block(
                &mut blocks,
                &mut next_id,
                BlockKind::Heading { level },
                string_from(title.as_slice()),
            );
            assert(state_of(blocks@, text_lines@, pending_block, explicit_title) == with_block(
                flush_text(flush_pending(st)),
                KindView::Heading { level },
                title@,
            ));
            idx = idx + 1;
            continue;
        }

        flush_pending_block(&mut blocks, &mut pending_block, &mut next_id);
        let ghost tl = text_lines@;
        text_lines.push(copy_chars(line));
        assert(views(text_lines@) =~= views(tl).push(line@));
        assert(state_of(blocks@, text_lines@, pending_block, explicit_title) == push_text(
            flush_pending(st),
            line@,
        ));
        idx = idx + 1;
    }

    let ghost st = state_of(blocks@, text_lines@, pending_block, explicit_title);
    flush_text_block(&mut blocks, &mut text_lines, &mut next_id);
    flush_pending_block(&mut blocks, &mut pending_block, &mut next_id);
    let ghost fin = state_of(blocks@, text_lines@, pending_block, explicit_title);
    assert(fin == flush_pending(flush_text(st)));
    assert(fin.blocks.len() <= used(st));

    let title = match explicit_title {
        Some(t) => t,
        None => match first_heading_content(&blocks) {
            Some(h) => h,
            None => {
                let mut t: Vec<char> = Vec::new();
                push_str(&mut t, "Slide ");
                push_decimal(&mut t, (slide_idx + 1) as u64);
                string_from(t.as_slice())
            },
        },
    };
    Ok(Slide { title, blocks })
}

// ───────────────────────────── sections and presentations ─────────────────────────────

/// `s` with every CR LF pair replaced by a single LF.
pub open spec fn crlf_to_lf(s: Seq<char>) -> Seq<char>
    decreases s.len(),
{
    if s.len() == 0 {
        seq![]
    } else if s.len() >= 2 && s[0] == '\r' && s[1] == '\n' {
        seq!['\n'] + crlf_to_lf(s.skip(2))
    } else {
        seq![s[0]] + crlf_to_lf(s.drop_first())
    }
}

pub proof fn lemma_crlf_len(s: Seq<char>)
    ensures
        crlf_to_lf(s).len() <= s.len(),
    decreases s.len(),
{
    if s.len() >= 2 && s[0] == '\r' && s[1] == '\n' {
        lemma_crlf_len(s.skip(2));
    } else if s.len() > 0 {
        lemma_crlf_len(s.drop_first());
    }
}

fn normalize_newlines(s: &[char]) -> (r: Vec<char>)
    ensures
        r@ == crlf_to_lf(s@),
{
    let mut out: Vec<char> = Vec::new();
    let mut i: usize = 0;
    assert(s@.skip(0) =~= s@);
    while i < s.len()
        invariant
            i <= s@.len(),
            crlf_to_lf(s@) == out@ + crlf_to_lf(s@.skip(i as int)),
        decreases s@.len() - i,
    {
        let ghost rest = s@.skip(i as int);
        if i + 1 < s.len() && s[i] == '\r' && s[i + 1] == '\n' {
            out.push('\n');
            assert(rest.skip(2) =~= s@.skip(i + 2));
            i = i + 2;
        } else {
            out.push(s[i]);
            assert(rest.drop_first() =~= s@.skip(i + 1));
            i = i + 1;
        }
    }
    assert(out@ + crlf_to_lf(s@.skip(i as int)) =~= out@);
    out
}

/// Splits lines into slide sections at `---` lines outside code fences; `secs` are the
/// finished sections, `cur` the lines of the current one.
pub open spec fn split_run(
    ls: Seq<Seq<char>>,
    i: int,
    secs: Seq<Seq<char>>,
    cur: Seq<Seq<char>>,
    in_fence: bool,
) -> Seq<Seq<char>>
    decreases ls.len() - i,
{
    if i < 0 || i >= ls.len() {
        secs.push(join_nl(cur))
    } else {
        let t = trim_s(ls[i]);
        let f = if has_prefix(t, "```"@) {
            !in_fence
        } else {
            in_fence
        };
        if !f && t == "---"@ {
            split_run(ls, i + 1, secs.push(join_nl(cur)), seq![], f)
        } else {
            split_run(ls, i + 1, secs, cur.push(ls[i]), f)
        }
    }
}

/// The slide sections of a (newline-normalized) text.
pub open spec fn sections(s: Seq<char>) -> Seq<Seq<char>> {
    split_run(lines(s), 0, seq![], seq![], false)
}

/// The total length of some texts.
pub open spec fn total_len(ss: Seq<Seq<char>>) -> nat
    decreases ss.len(),
{
    if ss.len() == 0 {
        0
    } else {
        total_len(ss.drop_last()) + ss.last().len()
    }
}

pub proof fn lemma_split_run_len(
    ls: Seq<Seq<char>>,
    i: int,
    secs: Seq<Seq<char>>,
    cur: Seq<Seq<char>>,
    in_fence: bool,
)
    requires
        0 <= i <= ls.len(),
    ensures
        total_len(split_run(ls, i, secs, cur, in_fence)) <= total_len(secs) + line_cost(cur)
            + line_cost(ls.skip(i)),
    decreases ls.len() - i,
{
    if i >= ls.len() {
        crate::text::lemma_join_len(cur);
        assert(secs.push(join_nl(cur)).drop_last() =~= secs);
    } else {
        let t = trim_s(ls[i]);
        let f = if has_prefix(t, "```"@) {
            !in_fence
        } else {
            in_fence
        };
        crate::text::lemma_line_cost_concat(seq![ls[i]], ls.skip(i + 1));
        assert(seq![ls[i]] + ls.skip(i + 1) =~= ls.skip(i));
        assert(seq![ls[i]].drop_last() =~= Seq::<Seq<char>>::empty());
        if !f && t == "---"@ {
            lemma_split_run_len(ls, i + 1, secs.push(join_nl(cur)), seq![], f);
            crate::text::lemma_join_len(cur);
            assert(secs.push(join_nl(cur)).drop_last() =~= secs);
        } else {
            lemma_split_run_len(ls, i + 1, secs, cur.push(ls[i]), f);
            assert(cur.push(ls[i]).drop_last() =~= cur);
        }
    }
}

pub proof fn lemma_sections_len(s: Seq<char>)
    ensures
        total_len(sections(s)) <= s.len() + 1,
{
    lemma_split_run_len(lines(s), 0, seq![], seq![], false);
    assert(lines(s).skip(0) =~= lines(s));
    crate::text::lemma_lines_cost(s);
}

fn split_slides(src: &[char]) -> (r: Vec<Vec<char>>)
    ensures
        views(r@) == sections(src@),
{
    let ls_vec = split_lines(src);
    let ghost ls = views(ls_vec@);
    let mut sections_out: Vec<Vec<char>> = Vec::new();
    let mut current: Vec<Vec<char>> = Vec::new();
    let mut in_fence = false;
    let mut i: usize = 0;
    assert(views(sections_out@) =~= seq![]);
    assert(views(current@) =~= seq![]);
    while i < ls_vec.len()
        invariant
            ls == views(ls_vec@),
            i <= ls.len(),
            sections(src@) == split_run(ls, i as int, views(sections_out@), views(current@), in_fence),
        decreases ls.len() - i,
    {
        let line = &ls_vec[i];
        assert(line@ == ls[i as int]);
        let trimmed = trim(line.as_slice());
        if starts_with_str(trimmed.as_slice(), "```") {
            in_fence = !in_fence;
        }
        if !in_fence && chars_eq_str(trimmed.as_slice(), "---") {
            let joined = join_lines(&current);
            let ghost before = views(sections_out@);
            sections_out.push(joined);
            assert(views(sections_out@) =~= before.push(join_nl(views(current@))));
            current = Vec::new();
            assert(views(current@) =~= seq![]);
            i = i + 1;
            continue;
        }
        let ghost cb = views(current@);
        current.push(copy_chars(line));
        assert(views(current@) =~= cb.push(ls[i as int]));
        i = i + 1;
    }
    let joined = join_lines(&current);
    let ghost before = views(sections_out@);
    sections_out.push(joined);
    assert(views(sections_out@) =~= before.push(join_nl(views(current@))));
    sections_out
}

/// Whether the slide parsed from `section` is kept: it has blocks, its text is not
/// blank, or it is the only section.
pub open spec fn keep_slide(sl: SlideView, section: Seq<char>, n: nat) -> bool {
    sl.blocks.len() > 0 || trim_s(section).len() > 0 || n == 1
}

/// The slides of the first `k` sections, or `None` when one of them does not parse.
pub open spec fn parse_sections(secs: Seq<Seq<char>>, k: nat) -> Option<Seq<SlideView>>
    decreases k,
{
    if k == 0 {
        Some(seq![])
    } else {
        match parse_sections(secs, (k - 1) as nat) {
            None => None,
            Some(acc) => match parse_slide_s(secs[k - 1], (k - 1) as nat) {
                None => None,
                Some(sl) => Some(
                    if keep_slide(sl, secs[k - 1], secs.len()) {
                        acc.push(sl)
                    } else {
                        acc
                    },
                ),
            },
        }
    }
}

/// The number of blocks of some slides.
pub open spec fn total_blocks(ss: Seq<SlideView>) -> nat
    decreases ss.len(),
{
    if ss.len() == 0 {
        0
    } else {
        total_blocks(ss.drop_last()) + ss.last().blocks.len()
    }
}

/// `bs` with the ids `start`, `start + 1`, ... in order.
pub open spec fn numbered_from(bs: Seq<BlockView>, start: nat) -> Seq<BlockView> {
    Seq::new(
        bs.len(),
        |j: int| BlockView { id: (start + j) as u64, kind: bs[j].kind, content: bs[j].content },
    )
}

/// The slides with their blocks numbered 1, 2, 3, ... in reading order.
pub open spec fn renumbered(ss: Seq<SlideView>) -> Seq<SlideView>
    decreases ss.len(),
{
    if ss.len() == 0 {
        seq![]
    } else {
        renumbered(ss.drop_last()).push(
            SlideView {
                title: ss.last().title,
                blocks: numbered_from(ss.last().blocks, total_blocks(ss.drop_last()) + 1),
            },
        )
    }
}

/// The value of a decimal numeral.
pub open spec fn digits_value(s: Seq<char>) -> nat
    decreases s.len(),
{
    if s.len() == 0 {
        0
    } else {
        digits_value(s.drop_last()) * 10 + ((s.last() as u32) - ('0' as u32)) as nat
    }
}

pub open spec fn all_digits(s: Seq<char>) -> bool {
    forall|k: int| 0 <= k < s.len() ==> '0' <= #[trigger] s[k] && s[k] <= '9'
}

/// `u8::from_str`: an optional `+` and one or more decimal digits, at most 255.
pub open spec fn parse_u8_s(s: Seq<char>) -> Option<u8> {
    let digits = if s.len() > 0 && s[0] == '+' {
        s.drop_first()
    } else {
        s
    };
    if digits.len() > 0 && all_digits(digits) && digits_value(digits) <= 255 {
        Some(digits_value(digits) as u8)
    } else {
        None
    }
}

pub proof fn lemma_digits_value_grows(s: Seq<char>, k: int)
    requires
        0 <= k <= s.len(),
        all_digits(s),
    ensures
        digits_value(s.take(k)) <= digits_value(s),
    decreases s.len() - k,
{
    if k < s.len() {
        lemma_digits_value_grows(s, k + 1);
        assert(s.take(k + 1).drop_last() =~= s.take(k));
        assert(s.take(k + 1).last() == s[k]);
    } else {
        assert(s.take(k) =~= s);
    }
}

fn parse_u8(s: &[char]) -> (r: Option<u8>)
    ensures
        r == parse_u8_s(s@),
{
    let start: usize = if s.len() > 0 && s[0] == '+' {
        1
    } else {
        0
    };
    let ghost digits = if s@.len() > 0 && s@[0] == '+' {
        s@.drop_first()
    } else {
        s@
    };
    assert(digits =~= s@.skip(start as int));
    if start >= s.len() {
        assert(digits.len() == 0);
        return None;
    }
    let mut value: u32 = 0;
    let mut i = start;
    while i < s.len()
        invariant
            start <= i <= s@.len(),
            digits == (if s@.len() > 0 && s@[0] == '+' {
                s@.drop_first()
            } else {
                s@
            }),
            digits =~= s@.skip(start as int),
            all_digits(digits.take(i - start)),
            value == digits_value(digits.take(i - start)),
            value <= 255,
        decreases s@.len() - i,
    {
        let c = s[i];
        if c < '0' || c > '9' {
            assert(digits[i - start] == c);
            assert(!all_digits(digits));
            return None;
        }
        let d = (c as u32) - ('0' as u32);
        let ghost pre = digits.take(i - start);
        assert(digits.take(i + 1 - start).drop_last() =~= pre);
        assert(digits.take(i + 1 - start).last() == c);
        value = value * 10 + d;
        i = i + 1;
        if value > 255 {
            proof {
                if all_digits(digits) {
                    lemma_digits_value_grows(digits, i - start);
                }
            }
            return None;
        }
    }
    assert(digits.take(i - start) =~= digits);
    Some(value as u8)
}

/// The index of the first line that is not blank, or the number of lines.
pub open spec fn first_nonblank(ls: Seq<Seq<char>>, i: int) -> int
    decreases ls.len() - i,
{
    if i < 0 || i >= ls.len() {
        ls.len() as int
    } else if trim_s(ls[i]).len() == 0 {
        first_nonblank(ls, i + 1)
    } else {
        i
    }
}

/// The font and font size that a `slidecli:presentation` directive on the first
/// non-blank line names.
pub open spec fn presentation_meta(src: Seq<char>) -> Option<(Seq<char>, u8)> {
    let ls = lines(src);
    let k = first_nonblank(ls, 0);
    if 0 <= k < ls.len() && comment_directive(trim_s(ls[k])) is Some && comment_directive(
        trim_s(ls[k]),
    ).unwrap().0 == "slidecli:presentation"@ {
        let attrs = comment_directive(trim_s(ls[k])).unwrap().1;
        let font = match find_attr(attrs, "font"@) {
            Some(f) => f,
            None => crate::model::default_font_name(),
        };
        let size = match find_attr(attrs, "font-size"@) {
            Some(v) => match parse_u8_s(v) {
                Some(n) => n,
                None => crate::model::default_font_size(),
            },
            None => crate::model::default_font_size(),
        };
        Some((font, size))
    } else {
        None
    }
}

fn parse_presentation_meta(src: &[char]) -> (r: Option<(String, u8)>)
    ensures
        match r {
            Some((f, n)) => presentation_meta(src@) == Some((f@, n)),
            None => presentation_meta(src@) is None,
        },
{
    let ls_vec = split_lines(src);
    let ghost ls = views(ls_vec@);
    let mut i: usize = 0;
    while i < ls_vec.len()
        invariant
            ls == views(ls_vec@),
            ls == lines(src@),
            i <= ls.len(),
            first_nonblank(ls, 0) == first_nonblank(ls, i as int),
        decreases ls.len() - i,
    {
        let trimmed = trim(ls_vec[i].as_slice());
        assert(ls_vec@[i as int]@ == ls[i as int]);
        if trimmed.len() == 0 {
            i = i + 1;
            continue;
        }
        let directive = parse_comment_directive(trimmed.as_slice());
        match directive {
            None => {
                return None;
            },
            Some((d, attrs)) => {
                if chars_eq_str(d.as_slice(), "slidecli:presentation") {
                    let font_name = match find_attr_value(&attrs, "font") {
                        Some(f) => f,
                        None => crate::model::owned("JetBrains Mono"),
                    };
                    let font_size = match find_attr_value(&attrs, "font-size") {
                        Some(v) => {
                            let vc = chars_of_string(&v);
                            match parse_u8(vc.as_slice()) {
                                Some(n) => n,
                                None => 14,
                            }
                        },
                        None => 14,
                    };
                    return Some((font_name, font_size));
                }
                return None;
            },
        }
    }
    None
}

/// What `deserialize` makes of a text: `None` when a code fence is never closed.
pub open spec fn deserialize_s(src: Seq<char>) -> Option<crate::model::PresentationView> {
    let norm = crlf_to_lf(src);
    let secs = sections(norm);
    match parse_sections(secs, secs.len()) {
        None => None,
        Some(ss) => {
            let kept = if ss.len() == 0 {
                seq![SlideView { title: "Slide 1"@, blocks: seq![] }]
            } else {
                ss
            };
            let meta = presentation_meta(norm);
            Some(
                crate::model::PresentationView {
                    slides: renumbered(kept),
                    font_name: match meta {
                        Some(m) => m.0,
                        None => crate::model::default_font_name(),
                    },
                    font_size: match meta {
                        Some(m) => m.1,
                        None => crate::model::default_font_size(),
                    },
                },
            )
        },
    }
}

fn renumber_blocks(slides: &Vec<Slide>) -> (r: Vec<Slide>)
    requires
        total_blocks(crate::model::slide_views(slides@)) + 1 < u64::MAX,
    ensures
        crate::model::slide_views(r@) == renumbered(crate::model::slide_views(slides@)),
{
    let ghost sv = crate::model::slide_views(slides@);
    let mut out: Vec<Slide> = Vec::new();
    let mut next_id: u64 = 1;
    let mut i: usize = 0;
    assert(crate::model::slide_views(out@) =~= renumbered(sv.take(0)));
    while i < slides.len()
        invariant
            sv == crate::model::slide_views(slides@),
            total_blocks(sv) + 1 < u64::MAX,
            i <= sv.len(),
            next_id == total_blocks(sv.take(i as int)) + 1,
            crate::model::slide_views(out@) == renumbered(sv.take(i as int)),
        decreases sv.len() - i,
    {
        proof {
            lemma_total_blocks_prefix(sv, i + 1);
            assert(sv.take(i + 1).drop_last() =~= sv.take(i as int));
        }
        let slide = &slides[i];
        let ghost bvs = block_views(slide.blocks@);
        let mut blocks: Vec<Block> = Vec::new();
        let start = next_id;
        let mut j: usize = 0;
        while j < slide.blocks.len()
            invariant
                bvs == block_views(slide.blocks@),
                j <= bvs.len(),
                next_id == start + j,
                start + bvs.len() <= u64::MAX,
                block_views(blocks@) == numbered_from(bvs.take(j as int), start as nat),
            decreases bvs.len() - j,
        {
            let b = &slide.blocks[j];
            assert(bvs[j as int] == b@);
            let nb = Block { id: next_id, kind: b.kind.duplicate(), content: copy_string(&b.content) };
            let ghost before = block_views(blocks@);
            let ghost nbv = nb@;
            assert(nbv == BlockView { id: (start + j) as u64, kind: bvs[j as int].kind, content: bvs[j as int].content });
            blocks.push(nb);
            assert(block_views(blocks@) =~= before.push(nbv));
            assert(numbered_from(bvs.take(j + 1), start as nat) =~= numbered_from(bvs.take(j as int), start as nat).push(nbv));
            next_id = next_id + 1;
            j = j + 1;
        }
        assert(bvs.take(j as int) =~= bvs);
        let ns = Slide { title: copy_string(&slide.title), blocks };
        let ghost before = crate::model::slide_views(out@);
        out.push(ns);
        assert(crate::model::slide_views(out@) =~= before.push(ns@));
        i = i + 1;
    }
    assert(sv.take(i as int) =~= sv);
    out
}

pub proof fn lemma_total_blocks_prefix(ss: Seq<SlideView>, k: int)
    requires
        0 <= k <= ss.len(),
    ensures
        total_blocks(ss.take(k)) <= total_blocks(ss),
    decreases ss.len() - k,
{
    if k < ss.len() {
        lemma_total_blocks_prefix(ss, k + 1);
        assert(ss.take(k + 1).drop_last() =~= ss.take(k));
    } else {
        assert(ss.take(k) =~= ss);
    }
}

/// Reads a presentation from Markdown. CR LF line ends count as LF; `---` lines outside
/// code fences separate slides; `<!-- slidecli:... -->` comments carry the presentation
/// font, slide titles and exec/output/separator blocks. Fails only on a code fence that
/// is never closed.
pub fn deserialize(src: &str) -> (r: Result<crate::model::Presentation, String>)
    requires
        src@.len() <= isize::MAX,
    ensures
        match r {
            Ok(p) => deserialize_s(src@) == Some(p@),
            Err(e) => deserialize_s(src@) is None && e@ == unclosed_fence_message(),
        },
{
    let src_chars = crate::text::chars_of(src);
    let normalized = normalize_newlines(src_chars.as_slice());
    let slide_sections = split_slides(normalized.as_slice());
    let ghost secs = views(slide_sections@);
    proof {
        lemma_crlf_len(src@);
        lemma_sections_len(normalized@);
    }
    let mut presentation = crate::model::Presentation::blank();
    let mut slides: Vec<Slide> = Vec::new();
    let mut k: usize = 0;
    assert(crate::model::slide_views(slides@) =~= seq![]);
    while k < slide_sections.len()
        invariant
            secs == views(slide_sections@),
            secs == sections(normalized@),
            normalized@ == crlf_to_lf(src@),
            total_len(secs) <= isize::MAX + 1,
            k <= secs.len(),
            parse_sections(secs, k as nat) == Some(crate::model::slide_views(slides@)),
            total_blocks(crate::model::slide_views(slides@)) <= total_len(secs.take(k as int)),
        decreases secs.len() - k,
    {
        let section = &slide_sections[k];
        assert(section@ == secs[k as int]);
        proof {
            lemma_total_len_prefix(secs, k + 1);
            assert(secs.take(k + 1).drop_last() =~= secs.take(k as int));
        }
        let parsed = parse_slide(section.as_slice(), k);
        match parsed {
            Err(e) => {
                proof {
                    assert(parse_sections(secs, (k + 1) as nat) is None);
                    lemma_parse_sections_none(secs, (k + 1) as nat, secs.len());
                }
                return Err(e);
            },
            Ok(sl) => {
                let t = trim(section.as_slice());
                if sl.blocks.len() > 0 || t.len() > 0 || slide_sections.len() == 1 {
                    let ghost before = crate::model::slide_views(slides@);
                    slides.push(sl);
                    assert(crate::model::slide_views(slides@) =~= before.push(sl@));
                    assert(crate::model::slide_views(slides@).drop_last() =~= before);
                }
            },
        }
        k = k + 1;
    }
    proof {
        lemma_total_len_prefix(secs, k as int);
        assert(secs.take(k as int) =~= secs);
    }
    if slides.len() == 0 {
        slides.push(Slide::new(crate::model::owned("Slide 1")));
        assert(crate::model::slide_views(slides@) =~= seq![SlideView { title: "Slide 1"@, blocks: seq![] }]);
        assert(total_blocks(crate::model::slide_views(slides@)) == 0) by {
            assert(crate::model::slide_views(slides@).drop_last() =~= seq![]);
        }
    }
    let numbered = renumber_blocks(&slides);
    presentation.slides = numbered;
    if let Some((font_name, font_size)) = parse_presentation_meta(normalized.as_slice()) {
        presentation.font_name = font_name;
        presentation.font_size = font_size;
    }
    Ok(presentation)
}

pub proof fn lemma_total_len_prefix(ss: Seq<Seq<char>>, k: int)
    requires
        0 <= k <= ss.len(),
    ensures
        total_len(ss.take(k)) <= total_len(ss),
        k > 0 ==> ss[k - 1].len() <= total_len(ss.take(k)),
    decreases ss.len() - k,
{
    if k < ss.len() {
        lemma_total_len_prefix(ss, k + 1);
        assert(ss.take(k + 1).drop_last() =~= ss.take(k));
    } else {
        assert(ss.take(k) =~= ss);
    }
    if k > 0 {
        assert(ss.take(k).last() == ss[k - 1]);
    }
}

pub proof fn lemma_parse_sections_none(secs: Seq<Seq<char>>, k: nat, n: nat)
    requires
        parse_sections(secs, k) is None,
        k <= n,
    ensures
        parse_sections(secs, n) is None,
    decreases n - k,
{
    if k < n {
        lemma_parse_sections_none(secs, k + 1, n);
    }
}

// ───────────────────────────── export ─────────────────────────────

/// The title written for a slide: its first heading unless that is blank, else its own
/// title unless that is blank, else its numbered default title.
pub open spec fn effective_title(sl: SlideView, idx: nat) -> Seq<char> {
    if first_heading(sl.blocks) is Some && trim_s(first_heading(sl.blocks).unwrap()).len() > 0 {
        first_heading(sl.blocks).unwrap()
    } else if trim_s(sl.title).len() == 0 {
        numbered_title(idx)
    } else {
        sl.title
    }
}

/// Code inside a fence, with a line end before the closing fence.
pub open spec fn fenced(content: Seq<char>) -> Seq<char> {
    (if content.len() > 0 && content.last() == '\n' {
        content
    } else {
        content + "\n"@
    }) + "```\n"@
}

/// The `#` marks of a heading level, clamped to 1..=3.
pub open spec fn heading_marks(level: u8) -> Seq<char> {
    if level <= 1 {
        "#"@
    } else if level == 2 {
        "##"@
    } else {
        "###"@
    }
}

/// The Markdown of one block.
pub open spec fn block_md(b: BlockView) -> Seq<char> {
    match b.kind {
        KindView::Heading { level } => heading_marks(level) + " "@ + b.content + "\n"@,
        KindView::Text => b.content + "\n"@,
        KindView::Code { lang } => "```"@ + lang + "\n"@ + fenced(b.content),
        KindView::Exec { lang, signature } => "<!-- slidecli:block type=exec lang=\""@ + escape_s(
            lang,
        ) + "\""@ + match signature {
            Some(sig) => " sig=\""@ + escape_s(sig) + "\""@,
            None => Seq::<char>::empty(),
        } + " -->\n"@ + "```"@ + lang + "\n"@ + fenced(b.content),
        KindView::OutputPlaceholder => "<!-- slidecli:block type=output -->\n"@ + if b.content.len()
            == 0 {
            Seq::<char>::empty()
        } else {
            "```text\n"@ + fenced(b.content)
        },
        KindView::Separator => "<!-- slidecli:block type=separator -->\n"@,
    }
}

/// The Markdown of a slide's blocks, with an empty line between blocks.
pub open spec fn blocks_md(bs: Seq<BlockView>) -> Seq<char>
    decreases bs.len(),
{
    if bs.len() == 0 {
        seq![]
    } else {
        blocks_md(bs.drop_last()) + (if bs.len() > 1 {
            "\n"@
        } else {
            Seq::<char>::empty()
        }) + block_md(bs.last())
    }
}

/// The Markdown of the slide at position `idx`.
pub open spec fn slide_md(sl: SlideView, idx: nat) -> Seq<char> {
    "<!-- slidecli:slide title=\""@ + escape_s(effective_title(sl, idx)) + "\" -->\n\n"@ + blocks_md(
        sl.blocks,
    )
}

/// The Markdown of the slides, separated by `---` lines.
pub open spec fn slides_md(ss: Seq<SlideView>) -> Seq<char>
    decreases ss.len(),
{
    if ss.len() == 0 {
        seq![]
    } else {
        slides_md(ss.drop_last()) + (if ss.len() > 1 {
            "\n---\n\n"@
        } else {
            Seq::<char>::empty()
        }) + slide_md(ss.last(), (ss.len() - 1) as nat)
    }
}

/// The Markdown of a presentation.
pub open spec fn serialize_s(p: crate::model::PresentationView) -> Seq<char> {
    "<!-- slidecli:presentation font=\""@ + escape_s(p.font_name) + "\" font-size="@ + decimal(
        p.font_size as nat,
    ) + " -->\n\n"@ + slides_md(p.slides)
}

fn push_fenced(out: &mut Vec<char>, content: &String)
    ensures
        final(out)@ == old(out)@ + fenced(content@),
{
    let cs = chars_of_string(content);
    extend_chars(out, cs.as_slice());
    if !(cs.len() > 0 && cs[cs.len() - 1] == '\n') {
        push_str(out, "\n");
    }
    push_str(out, "```\n");
    assert(out@ =~= old(out)@ + fenced(content@));
}

fn push_block_md(out: &mut Vec<char>, block: &Block)
    ensures
        final(out)@ == old(out)@ + block_md(block@),
{
    match &block.kind {
        BlockKind::Heading { level } => {
            if *level <= 1 {
                push_str(out, "#");
            } else if *level == 2 {
                push_str(out, "##");
            } else {
                push_str(out, "###");
            }
            push_str(out, " ");
            extend_chars(out, chars_of_string(&block.content).as_slice());
            push_str(out, "\n");
        },
        BlockKind::Text => {
            extend_chars(out, chars_of_string(&block.content).as_slice());
            push_str(out, "\n");
        },
        BlockKind::Code { lang } => {
            push_str(out, "```");
            extend_chars(out, chars_of_string(lang).as_slice());
            push_str(out, "\n");
            push_fenced(out, &block.content);
        },
        BlockKind::Exec { lang, signature } => {
            let lang_chars = chars_of_string(lang);
            push_str(out, "<!-- slidecli:block type=exec lang=\"");
            extend_chars(out, escape_attr(lang_chars.as_slice()).as_slice());
            push_str(out, "\"");
            match signature {
                Some(sig) => {
                    push_str(out, " sig=\"");
                    extend_chars(out, escape_attr(chars_of_string(sig).as_slice()).as_slice());
                    push_str(out, "\"");
                },
                None => {},
            }
            push_str(out, " -->\n");
            push_str(out, "```");
            extend_chars(out, lang_chars.as_slice());
            push_str(out, "\n");
            push_fenced(out, &block.content);
        },
        BlockKind::OutputPlaceholder => {
            push_str(out, "<!-- slidecli:block type=output -->\n");
            let cs = chars_of_string(&block.content);
            if cs.len() > 0 {
                push_str(out, "```text\n");
                push_fenced(out, &block.content);
            }
        },
        BlockKind::Separator => {
            push_str(out, "<!-- slidecli:block type=separator -->\n");
        },
    }
    assert(out@ =~= old(out)@ + block_md(block@));
}

fn effective_slide_title(slide: &Slide, slide_idx: usize) -> (r: Vec<char>)
    requires
        slide_idx < usize::MAX,
    ensures
        r@ == effective_title(slide@, slide_idx as nat),
{
    let heading = first_heading_content(&slide.blocks);
    if let Some(h) = heading {
        let hc = chars_of_string(&h);
        if trim(hc.as_slice()).len() > 0 {
            return hc;
        }
    }
    let tc = chars_of_string(&slide.title);
    if trim(tc.as_slice()).len() == 0 {
        let mut t: Vec<char> = Vec::new();
        push_str(&mut t, "Slide ");
        push_decimal(&mut t, (slide_idx + 1) as u64);
        t
    } else {
        tc
    }
}

/// Writes a presentation as Markdown: a `slidecli:presentation` comment with the font,
/// then each slide (a `slidecli:slide` comment with its title, then its blocks), with
/// `---` lines between slides.
pub fn serialize(presentation: &crate::model::Presentation) -> (r: String)
    ensures
        r@ == serialize_s(presentation@),
{
    let mut out: Vec<char> = Vec::new();
    push_str(&mut out, "<!-- slidecli:presentation font=\"");
    extend_chars(&mut out, escape_attr(chars_of_string(&presentation.font_name).as_slice()).as_slice());
    push_str(&mut out, "\" font-size=");
    push_decimal(&mut out, presentation.font_size as u64);
    push_str(&mut out, " -->\n\n");
    let ghost head = out@;
    let ghost sv = crate::model::slide_views(presentation.slides@);
    let mut slide_idx: usize = 0;
    assert(sv.take(0) =~= seq![]);
    while slide_idx < presentation.slides.len()
        invariant
            sv == crate::model::slide_views(presentation.slides@),
            slide_idx <= sv.len(),
            out@ == head + slides_md(sv.take(slide_idx as int)),
        decreases sv.len() - slide_idx,
    {
        let slide = &presentation.slides[slide_idx];
        assert(slide@ == sv[slide_idx as int]);
        if slide_idx > 0 {
            push_str(&mut out, "\n---\n\n");
        }
        push_str(&mut out, "<!-- slidecli:slide title=\"");
        let title = effective_slide_title(slide, slide_idx);
        extend_chars(&mut out, escape_attr(title.as_slice()).as_slice());
        push_str(&mut out, "\" -->\n\n");
        let ghost before_blocks = out@;
        let ghost bv = block_views(slide.blocks@);
        let mut block_idx: usize = 0;
        assert(bv.take(0) =~= seq![]);
        while block_idx < slide.blocks.len()
            invariant
                bv == block_views(slide.blocks@),
                block_idx <= bv.len(),
                out@ == before_blocks + blocks_md(bv.take(block_idx as int)),
            decreases bv.len() - block_idx,
        {
            assert(slide.blocks@[block_idx as int]@ == bv[block_idx as int]);
            if block_idx > 0 {
                push_str(&mut out, "\n");
            }
            push_block_md(&mut out, &slide.blocks[block_idx]);
            assert(bv.take(block_idx + 1).drop_last() =~= bv.take(block_idx as int));
            block_idx = block_idx + 1;
            assert(out@ =~= before_blocks + blocks_md(bv.take(block_idx as int)));
        }
        assert(bv.take(block_idx as int) =~= bv);
        assert(sv.take(slide_idx + 1).drop_last() =~= sv.take(slide_idx as int));
        slide_idx = slide_idx + 1;
        assert(out@ =~= head + slides_md(sv.take(slide_idx as int)));
    }
    assert(sv.take(slide_idx as int) =~= sv);
    string_from(out.as_slice())
}

// ───────────────────────────── staged reveals ─────────────────────────────

/// A marker line that reveals everything after it at the next step.
pub const REVEAL_MARKER: &'static str = "<!-- slidecli:next -->";
/// The start of a range that stays hidden until the next step.
pub const REVEAL_START_MARKER: &'static str = "<!-- slidecli:next:start -->";
/// The end of a range that [`REVEAL_START_MARKER`] started.
pub const REVEAL_END_MARKER: &'static str = "<!-- slidecli:next:end -->";

/// Whether a trimmed line starts a reveal step.
pub open spec fn is_step_marker(t: Seq<char>) -> bool {
    t == REVEAL_MARKER@ || t == REVEAL_START_MARKER@
}

/// How many lines of `ls` start a reveal step.
pub open spec fn count_markers(ls: Seq<Seq<char>>) -> nat
    decreases ls.len(),
{
    if ls.len() == 0 {
        0
    } else {
        count_markers(ls.drop_last()) + if is_step_marker(trim_s(ls.last())) {
            1nat
        } else {
            0nat
        }
    }
}

/// The number of reveal steps that a text block has.
pub open spec fn reveal_count_s(content: Seq<char>) -> nat {
    count_markers(lines(content))
}

/// The lines shown from line `i` on, when `seen` steps have been passed, the current
/// range is `hidden` or not, and `step` steps are revealed.
pub open spec fn reveal_run(
    ls: Seq<Seq<char>>,
    i: int,
    seen: nat,
    hidden: bool,
    step: nat,
) -> Seq<Seq<char>>
    decreases ls.len() - i,
{
    if i < 0 || i >= ls.len() {
        seq![]
    } else {
        let t = trim_s(ls[i]);
        if t == REVEAL_MARKER@ {
            if seen + 1 > step {
                seq![]
            } else {
                reveal_run(ls, i + 1, seen + 1, hidden, step)
            }
        } else if t == REVEAL_START_MARKER@ {
            reveal_run(ls, i + 1, seen + 1, seen + 1 > step, step)
        } else if t == REVEAL_END_MARKER@ {
            reveal_run(ls, i + 1, seen, false, step)
        } else if hidden {
            reveal_run(ls, i + 1, seen, hidden, step)
        } else {
            seq![ls[i]] + reveal_run(ls, i + 1, seen, hidden, step)
        }
    }
}

/// The text of a block as it shows after `step` reveal steps.
pub open spec fn visible_s(content: Seq<char>, step: nat) -> Seq<char> {
    join_nl(reveal_run(lines(content), 0, 0, false, step))
}

pub fn reveal_marker_count(content: &str) -> (r: usize)
    ensures
        r == reveal_count_s(content@),
{
    let cs = crate::text::chars_of(content);
    let ls_vec = split_lines(cs.as_slice());
    let ghost ls = views(ls_vec@);
    let mut n: usize = 0;
    let mut i: usize = 0;
    assert(ls.take(0) =~= seq![]);
    while i < ls_vec.len()
        invariant
            ls == views(ls_vec@),
            ls == lines(content@),
            i <= ls.len(),
            n == count_markers(ls.take(i as int)),
            n <= i,
        decreases ls.len() - i,
    {
        let t = trim(ls_vec[i].as_slice());
        assert(ls_vec@[i as int]@ == ls[i as int]);
        assert(ls.take(i + 1).drop_last() =~= ls.take(i as int));
        if chars_eq_str(t.as_slice(), REVEAL_MARKER) || chars_eq_str(t.as_slice(), REVEAL_START_MARKER) {
            n = n + 1;
        }
        i = i + 1;
    }
    assert(ls.take(i as int) =~= ls);
    n
}

pub fn visible_reveal_content(content: &str, reveal_step: usize) -> (r: String)
    ensures
        r@ == visible_s(content@, reveal_step as nat),
{
    let cs = crate::text::chars_of(content);
    let ls_vec = split_lines(cs.as_slice());
    let ghost ls = views(ls_vec@);
    let mut seen_markers: usize = 0;
    let mut in_hidden_region = false;
    let mut visible: Vec<Vec<char>> = Vec::new();
    let mut i: usize = 0;
    assert(views(visible@) =~= seq![]);
    while i < ls_vec.len()
        invariant
            ls == views(ls_vec@),
            ls == lines(content@),
            i <= ls.len(),
            seen_markers <= i,
            reveal_run(ls, 0, 0, false, reveal_step as nat) == views(visible@) + reveal_run(
                ls,
                i as int,
                seen_markers as nat,
                in_hidden_region,
                reveal_step as nat,
            ),
        decreases ls.len() - i,
    {
        let line = &ls_vec[i];
        assert(line@ == ls[i as int]);
        let trimmed = trim(line.as_slice());
        if chars_eq_str(trimmed.as_slice(), REVEAL_MARKER) {
            seen_markers = seen_markers + 1;
            if seen_markers > reveal_step {
                assert(views(visible@) =~= views(visible@) + Seq::<Seq<char>>::empty());
                let joined = join_lines(&visible);
                return string_from(joined.as_slice());
            }
            i = i + 1;
            continue;
        }
        if chars_eq_str(trimmed.as_slice(), REVEAL_START_MARKER) {
            seen_markers = seen_markers + 1;
            in_hidden_region = seen_markers > reveal_step;
            i = i + 1;
            continue;
        }
        if chars_eq_str(trimmed.as_slice(), REVEAL_END_MARKER) {
            in_hidden_region = false;
            i = i + 1;
            continue;
        }
        if in_hidden_region {
            i = i + 1;
            continue;
        }
        let ghost before = views(visible@);
        visible.push(copy_chars(line));
        assert(views(visible@) =~= before.push(ls[i as int]));
        assert(before + reveal_run(ls, i as int, seen_markers as nat, in_hidden_region, reveal_step as nat)
            =~= views(visible@) + reveal_run(ls, i + 1, seen_markers as nat, in_hidden_region, reveal_step as nat));
        i = i + 1;
    }
    assert(views(visible@) =~= views(visible@) + reveal_run(ls, i as int, seen_markers as nat, in_hidden_region, reveal_step as nat));
    let joined = join_lines(&visible);
    string_from(joined.as_slice())
}

fn chars_of_string(s: &String) -> (r: Vec<char>)
    ensures
        r@ == s@,
{
    crate::text::chars_of(s.as_str())
}

// ───────────────────────────── laws of staged reveal ─────────────────────────────

/// Whether a trimmed line is one of the reveal markers.
pub open spec fn is_marker_line(l: Seq<char>) -> bool {
    let t = trim_s(l);
    t == REVEAL_MARKER@ || t == REVEAL_START_MARKER@ || t == REVEAL_END_MARKER@
}

/// The lines from `i` on that are not reveal markers.
pub open spec fn plain_lines(ls: Seq<Seq<char>>, i: int) -> Seq<Seq<char>>
    decreases ls.len() - i,
{
    if i < 0 || i >= ls.len() {
        seq![]
    } else if is_marker_line(ls[i]) {
        plain_lines(ls, i + 1)
    } else {
        seq![ls[i]] + plain_lines(ls, i + 1)
    }
}

/// The reveal steps started from line `i` on.
pub open spec fn markers_from(ls: Seq<Seq<char>>, i: int) -> nat
    decreases ls.len() - i,
{
    if i < 0 || i >= ls.len() {
        0
    } else {
        (if is_step_marker(trim_s(ls[i])) {
            1nat
        } else {
            0nat
        }) + markers_from(ls, i + 1)
    }
}

proof fn lemma_markers_split(ls: Seq<Seq<char>>, k: int)
    requires
        0 <= k <= ls.len(),
    ensures
        count_markers(ls.take(k)) + markers_from(ls, k) == markers_from(ls, 0),
    decreases k,
{
    if k > 0 {
        lemma_markers_split(ls, k - 1);
        assert(ls.take(k).drop_last() =~= ls.take(k - 1));
        assert(ls.take(k).last() == ls[k - 1]);
    }
}

proof fn lemma_markers_differ()
    ensures
        REVEAL_MARKER@ != REVEAL_START_MARKER@,
        REVEAL_MARKER@ != REVEAL_END_MARKER@,
        REVEAL_START_MARKER@ != REVEAL_END_MARKER@,
{
    reveal_strlit("<!-- slidecli:next -->");
    reveal_strlit("<!-- slidecli:next:start -->");
    reveal_strlit("<!-- slidecli:next:end -->");
    assert(REVEAL_MARKER@.len() != REVEAL_START_MARKER@.len());
    assert(REVEAL_MARKER@.len() != REVEAL_END_MARKER@.len());
    assert(REVEAL_START_MARKER@.len() != REVEAL_END_MARKER@.len());
}

proof fn lemma_run_all(ls: Seq<Seq<char>>, i: int, seen: nat, step: nat)
    requires
        0 <= i <= ls.len(),
        seen + markers_from(ls, i) <= step,
    ensures
        reveal_run(ls, i, seen, false, step) == plain_lines(ls, i),
    decreases ls.len() - i,
{
    lemma_markers_differ();
    if i < ls.len() {
        let t = trim_s(ls[i]);
        if t == REVEAL_MARKER@ || t == REVEAL_START_MARKER@ {
            lemma_run_all(ls, i + 1, seen + 1, step);
        } else {
            lemma_run_all(ls, i + 1, seen, step);
        }
    }
}

/// Once every step is revealed, a text block shows all its lines except the markers.
pub proof fn law_full_reveal(content: Seq<char>, step: nat)
    requires
        step >= reveal_count_s(content),
    ensures
        visible_s(content, step) == join_nl(plain_lines(lines(content), 0)),
{
    let ls = lines(content);
    lemma_markers_split(ls, ls.len() as int);
    assert(ls.take(ls.len() as int) =~= ls);
    lemma_run_all(ls, 0, 0, step);
}

/// A text block without markers shows all its lines at every step.
pub proof fn law_no_markers_show_everything(content: Seq<char>, step: nat)
    requires
        forall|i: int| 0 <= i < lines(content).len() ==> !is_marker_line(#[trigger] lines(content)[i]),
    ensures
        visible_s(content, step) == join_nl(lines(content)),
{
    let ls = lines(content);
    lemma_plain_all(ls, 0);
    lemma_no_step_markers(ls, 0);
    lemma_markers_split(ls, ls.len() as int);
    assert(ls.take(ls.len() as int) =~= ls);
    assert(reveal_count_s(content) == 0);
    law_full_reveal(content, step);
    assert(ls.skip(0) =~= ls);
}

proof fn lemma_plain_all(ls: Seq<Seq<char>>, i: int)
    requires
        0 <= i <= ls.len(),
        forall|k: int| 0 <= k < ls.len() ==> !is_marker_line(#[trigger] ls[k]),
    ensures
        plain_lines(ls, i) == ls.skip(i),
    decreases ls.len() - i,
{
    if i < ls.len() {
        lemma_plain_all(ls, i + 1);
        assert(ls.skip(i) =~= seq![ls[i]] + ls.skip(i + 1));
    } else {
        assert(ls.skip(i) =~= Seq::<Seq<char>>::empty());
    }
}

proof fn lemma_no_step_markers(ls: Seq<Seq<char>>, i: int)
    requires
        0 <= i <= ls.len(),
        forall|k: int| 0 <= k < ls.len() ==> !is_marker_line(#[trigger] ls[k]),
    ensures
        markers_from(ls, i) == 0,
    decreases ls.len() - i,
{
    if i < ls.len() {
        assert(!is_marker_line(ls[i]));
        lemma_no_step_markers(ls, i + 1);
    }
}

} // verus!
