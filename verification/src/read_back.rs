//! Reading back what `serialize` writes: each slide section parses to the slide that was
//! written, and the whole text to the presentation that was written.
use vstd::prelude::*;
use crate::markdown::{
    apply_directive, attrs_from, attrs_of, comment_directive, escape_s, fence_close, fence_info,
    fence_step, fence_words, fenced_block, find_attr, flush_pending, flush_text, hash_run,
    heading, heading_marks, is_reveal_directive, push_text, slide_run, strip_fences,
    crlf_to_lf, deserialize_s, effective_title, empty_state, numbered_from, parse_sections, parse_slide_s,
    renumbered, sections, serialize_s, total_blocks, block_md, blocks_md, first_heading, numbered_title,
    slide_md, slides_md, with_block, PendingView, SlideState,
};
use crate::meta_law::{law_font_settings_round_trip, lemma_meta_directive, lemma_meta_first_line, lemma_trim_kept, meta_attrs_text, meta_line, plain_text};
use crate::model::{BlockView, KindView, PresentationView, SlideView};
use crate::roundtrip::{
    all_flat, block_lines, block_ok, blocks_lines, blocks_ok, code_body, doc_ok, head_lines, part_lines,
    lemma_lines_join, lemma_run_blank_tail, lemma_slide_directive, lemma_slide_lines_ok, lemma_meta_line_ok,
    lemma_all_flat_concat, slide_lines, lemma_unlines_concat, lemma_unlines_one, expected_sections,
    block_text_ok, doc_lines, flat, lemma_crlf_none, lemma_sections, lemma_serialize_lines, empty_output, exec_directive, fence_mark, heading_ok, key_ok, lang_ok, lemma_attr_quoted,
    lemma_attr_token, lemma_attrs_end, lemma_attrs_ws, lemma_blank_line, lemma_close_fence,
    lemma_directive_line, lemma_exec_directive_flat, lemma_join_nl_unlines, lemma_open_fence, lemma_unlines_lines, output_directive,
    separator_directive, slide_directive, text_line_ok, text_ok, unlines,
};
use crate::text::{
    has_prefix, is_ascii_ws, is_ws, join_nl, lines, trim_end_s, trim_s, trim_start_s, words, words_from,
};

verus! {

// ───────────────────────────── the directives that are written ─────────────────────────────

/// The names of the attributes that `serialize` writes are keys that read back.
proof fn lemma_keys()
    ensures
        key_ok("title"@),
        key_ok("type"@),
        key_ok("lang"@),
        key_ok("sig"@),
        "title"@.len() == 5,
        "type"@.len() == 4,
        "lang"@.len() == 4,
        "sig"@.len() == 3,
        "type"@ != "lang"@,
        "type"@ != "sig"@,
        "lang"@ != "sig"@,
{
    reveal_strlit("title");
    reveal_strlit("type");
    reveal_strlit("lang");
    reveal_strlit("sig");
    assert("type"@[0] != "lang"@[0]);
}

/// The directive names that `serialize` writes are words that start with `slidecli:`.
proof fn lemma_directive_names()
    ensures
        forall|i: int| 0 <= i < "slidecli:slide"@.len() ==> !is_ws(#[trigger] "slidecli:slide"@[i]),
        has_prefix("slidecli:slide"@, "slidecli:"@),
        "slidecli:slide"@.len() > 0,
        forall|i: int| 0 <= i < "slidecli:block"@.len() ==> !is_ws(#[trigger] "slidecli:block"@[i]),
        has_prefix("slidecli:block"@, "slidecli:"@),
        "slidecli:block"@.len() > 0,
        !is_reveal_directive("slidecli:block"@),
        !is_reveal_directive("slidecli:slide"@),
        !is_reveal_directive("slidecli:presentation"@),
        "slidecli:block"@ != "slidecli:presentation"@,
        "slidecli:block"@ != "slidecli:slide"@,
        "slidecli:slide"@ != "slidecli:presentation"@,
        "output"@ != "exec"@,
        "separator"@ != "exec"@,
        "separator"@ != "output"@,
{
    reveal_strlit("slidecli:slide");
    reveal_strlit("slidecli:block");
    reveal_strlit("slidecli:");
    reveal_strlit("slidecli:presentation");
    reveal_strlit("slidecli:next");
    reveal_strlit("slidecli:next:start");
    reveal_strlit("slidecli:next:end");
    reveal_strlit("output");
    reveal_strlit("exec");
    reveal_strlit("separator");
    assert("output"@.len() == 6);
    assert("exec"@.len() == 4);
    assert("separator"@.len() == 9);
    assert("slidecli:block"@[9] != "slidecli:slide"@[9]);
    assert("slidecli:block"@[9] != "slidecli:next"@[9]);
    assert("slidecli:slide"@[9] != "slidecli:next"@[9]);
    assert("slidecli:presentation"@[9] != "slidecli:next"@[9]);
    assert("slidecli:slide"@.take(9) =~= "slidecli:"@);
    assert("slidecli:block"@.take(9) =~= "slidecli:"@);
}

/// The slide directive reads back as the title that was written.
pub(crate) proof fn lemma_slide_directive_reads(title: Seq<char>)
    requires
        flat(title),
    ensures
        trim_s(slide_directive(title)) == slide_directive(title),
        comment_directive(slide_directive(title)) == Some(("slidecli:slide"@, seq![("title"@, title)])),
{
    reveal_strlit("<!-- slidecli:slide title=\"");
    reveal_strlit("\" -->");
    reveal_strlit("<!-- ");
    reveal_strlit(" ");
    reveal_strlit(" -->");
    reveal_strlit("slidecli:slide");
    reveal_strlit("title=\"");
    reveal_strlit("title");
    reveal_strlit("=\"");
    reveal_strlit("\"");
    lemma_keys();
    lemma_directive_names();
    let w = "slidecli:slide"@;
    let e = escape_s(title);
    let a = "title=\""@ + e + "\""@;
    assert(slide_directive(title) =~= "<!-- "@ + w + " "@ + a + " -->"@);
    lemma_directive_line(w, a);
    let z = Seq::<char>::empty();
    assert(a =~= z + "title"@ + "=\""@ + e + "\""@ + z);
    lemma_attr_quoted(z, "title"@, title, z);
    assert((z.len() + 5 + 2 + e.len() + 1) as int == a.len());
    lemma_attrs_end(a);
    assert(attrs_of(a) =~= seq![("title"@, title)]);
}

/// The separator directive reads back as a separator.
pub(crate) proof fn lemma_separator_directive_reads()
    ensures
        trim_s(separator_directive()) == separator_directive(),
        comment_directive(separator_directive()) == Some(("slidecli:block"@, seq![("type"@, "separator"@)])),
{
    reveal_strlit("<!-- slidecli:block type=separator -->");
    reveal_strlit("<!-- ");
    reveal_strlit(" ");
    reveal_strlit(" -->");
    reveal_strlit("slidecli:block");
    reveal_strlit("type=separator");
    reveal_strlit("type");
    reveal_strlit("separator");
    reveal_strlit("=");
    lemma_keys();
    lemma_directive_names();
    let w = "slidecli:block"@;
    let a = "type=separator"@;
    assert(separator_directive() =~= "<!-- "@ + w + " "@ + a + " -->"@);
    lemma_directive_line(w, a);
    let z = Seq::<char>::empty();
    assert(a =~= z + "type"@ + "="@ + "separator"@ + z);
    lemma_attr_token(z, "type"@, "separator"@, z);
    lemma_attrs_end(a);
    assert(attrs_of(a) =~= seq![("type"@, "separator"@)]);
}

/// The output directive reads back as an output area.
pub(crate) proof fn lemma_output_directive_reads()
    ensures
        trim_s(output_directive()) == output_directive(),
        comment_directive(output_directive()) == Some(("slidecli:block"@, seq![("type"@, "output"@)])),
{
    reveal_strlit("<!-- slidecli:block type=output -->");
    reveal_strlit("<!-- ");
    reveal_strlit(" ");
    reveal_strlit(" -->");
    reveal_strlit("slidecli:block");
    reveal_strlit("type=output");
    reveal_strlit("type");
    reveal_strlit("output");
    reveal_strlit("=");
    lemma_keys();
    lemma_directive_names();
    let w = "slidecli:block"@;
    let a = "type=output"@;
    assert(output_directive() =~= "<!-- "@ + w + " "@ + a + " -->"@);
    lemma_directive_line(w, a);
    let z = Seq::<char>::empty();
    assert(a =~= z + "type"@ + "="@ + "output"@ + z);
    lemma_attr_token(z, "type"@, "output"@, z);
    lemma_attrs_end(a);
    assert(attrs_of(a) =~= seq![("type"@, "output"@)]);
}

/// The attributes written for an exec block.
pub open spec fn exec_attrs(lang: Seq<char>, sig: Option<Seq<char>>) -> Seq<(Seq<char>, Seq<char>)> {
    seq![("type"@, "exec"@), ("lang"@, lang)] + match sig {
        Some(s) => seq![("sig"@, s)],
        None => Seq::<(Seq<char>, Seq<char>)>::empty(),
    }
}

/// The text of an exec block's attributes.
pub open spec fn exec_attrs_text(lang: Seq<char>, sig: Option<Seq<char>>) -> Seq<char> {
    "type=exec lang=\""@ + escape_s(lang) + "\""@ + match sig {
        Some(s) => " sig=\""@ + escape_s(s) + "\""@,
        None => Seq::<char>::empty(),
    }
}

/// The `type` attribute of an exec block reads back.
proof fn lemma_exec_attrs_type(lang: Seq<char>, sig: Option<Seq<char>>)
    ensures
        attrs_of(exec_attrs_text(lang, sig)) == seq![("type"@, "exec"@)] + attrs_from(exec_attrs_text(lang, sig), 10),
{
    reveal_strlit("type=exec lang=\"");
    reveal_strlit("type");
    reveal_strlit("exec");
    reveal_strlit("=");
    reveal_strlit(" lang=\"");
    lemma_keys();
    let a = exec_attrs_text(lang, sig);
    let z = Seq::<char>::empty();
    let post1 = a.skip(9);
    assert(a =~= z + "type"@ + "="@ + "exec"@ + post1);
    assert(post1[0] == ' ');
    lemma_attr_token(z, "type"@, "exec"@, post1);
    lemma_attrs_ws(a, 9);
}

/// The `type` and `lang` attributes of an exec block read back, up to where the
/// signature starts.
#[verifier::spinoff_prover]
#[verifier::rlimit(40)]
proof fn lemma_exec_attrs_head(lang: Seq<char>, sig: Option<Seq<char>>)
    requires
        plain_text(lang),
    ensures
        attrs_of(exec_attrs_text(lang, sig)) == seq![("type"@, "exec"@), ("lang"@, lang)] + attrs_from(
            exec_attrs_text(lang, sig),
            (17 + escape_s(lang).len()) as int,
        ),
{
    reveal_strlit("type=exec lang=\"");
    reveal_strlit("\"");
    reveal_strlit("lang");
    reveal_strlit("=\"");
    reveal_strlit("type=exec ");
    lemma_keys();
    lemma_exec_attrs_type(lang, sig);
    let a = exec_attrs_text(lang, sig);
    let e = escape_s(lang);
    let pre2 = "type=exec "@;
    let after = (17 + e.len()) as int;
    let m = a.skip(after);
    assert(a =~= pre2 + "lang"@ + "=\""@ + e + "\""@ + m);
    lemma_attr_quoted(pre2, "lang"@, lang, m);
    assert((pre2.len() + 4 + 2 + e.len() + 1) as int == 17 + e.len());
    assert(seq![("type"@, "exec"@)] + (seq![("lang"@, lang)] + attrs_from(a, after)) =~= seq![("type"@, "exec"@), ("lang"@, lang)] + attrs_from(a, after));
}

/// The attributes written for an exec block read back.
proof fn lemma_exec_attrs_read(lang: Seq<char>, sig: Option<Seq<char>>)
    requires
        plain_text(lang),
        sig matches Some(s) ==> plain_text(s),
    ensures
        attrs_of(exec_attrs_text(lang, sig)) == exec_attrs(lang, sig),
{
    reveal_strlit("type=exec lang=\"");
    reveal_strlit("\"");
    reveal_strlit(" sig=\"");
    reveal_strlit("sig");
    reveal_strlit("=\"");
    reveal_strlit(" ");
    lemma_keys();
    lemma_exec_attrs_head(lang, sig);
    let a = exec_attrs_text(lang, sig);
    let e = escape_s(lang);
    let after = (17 + e.len()) as int;
    let z = Seq::<char>::empty();
    match sig {
        Some(s) => {
            let es = escape_s(s);
            assert(a[after] == ' ');
            lemma_attrs_ws(a, after);
            let pre3 = "type=exec lang=\""@ + e + "\""@ + " "@;
            assert(a =~= pre3 + "sig"@ + "=\""@ + es + "\""@ + z);
            lemma_attr_quoted(pre3, "sig"@, s, z);
            assert((pre3.len() + 3 + 2 + es.len() + 1) as int == a.len());
            lemma_attrs_end(a);
        },
        None => {
            assert(after == a.len());
            lemma_attrs_end(a);
        },
    }
    assert(attrs_of(a) =~= exec_attrs(lang, sig));
}

/// What the parser looks up in an exec block's attributes.
proof fn lemma_exec_attrs_find(lang: Seq<char>, sig: Option<Seq<char>>)
    ensures
        find_attr(exec_attrs(lang, sig), "type"@) == Some("exec"@),
        find_attr(exec_attrs(lang, sig), "lang"@) == Some(lang),
        find_attr(exec_attrs(lang, sig), "sig"@) == sig,
{
    lemma_keys();
    let x = exec_attrs(lang, sig);
    assert(x[0] == ("type"@, "exec"@));
    assert(x[1] == ("lang"@, lang));
    match sig {
        Some(s) => {
            assert(x.drop_first() =~= seq![("lang"@, lang), ("sig"@, s)]);
            assert(x.drop_first().drop_first() =~= seq![("sig"@, s)]);
        },
        None => {
            assert(x.drop_first() =~= seq![("lang"@, lang)]);
            assert(x.drop_first().drop_first() =~= Seq::<(Seq<char>, Seq<char>)>::empty());
        },
    }
    reveal_with_fuel(find_attr, 4);
}

/// The exec directive reads back as the language and signature that were written.
pub(crate) proof fn lemma_exec_directive_reads(lang: Seq<char>, sig: Option<Seq<char>>)
    requires
        plain_text(lang),
        sig matches Some(s) ==> plain_text(s),
    ensures
        trim_s(exec_directive(lang, sig)) == exec_directive(lang, sig),
        comment_directive(exec_directive(lang, sig)) == Some(("slidecli:block"@, exec_attrs(lang, sig))),
        find_attr(exec_attrs(lang, sig), "type"@) == Some("exec"@),
        find_attr(exec_attrs(lang, sig), "lang"@) == Some(lang),
        find_attr(exec_attrs(lang, sig), "sig"@) == sig,
{
    reveal_strlit("<!-- slidecli:block type=exec lang=\"");
    reveal_strlit("\"");
    reveal_strlit(" sig=\"");
    reveal_strlit(" -->");
    reveal_strlit("<!-- ");
    reveal_strlit(" ");
    reveal_strlit("slidecli:block");
    reveal_strlit("type=exec lang=\"");
    lemma_directive_names();
    let w = "slidecli:block"@;
    let a = exec_attrs_text(lang, sig);
    assert(exec_directive(lang, sig) =~= "<!-- "@ + w + " "@ + a + " -->"@);
    assert(a.last() == '"');
    lemma_directive_line(w, a);
    lemma_exec_attrs_read(lang, sig);
    lemma_exec_attrs_find(lang, sig);
}

// ───────────────────────────── reading lines ─────────────────────────────

/// Lines of a text that is written line by line, joined again, are the text.
pub(crate) proof fn lemma_join_lines(c: Seq<char>)
    requires
        text_ok(c),
        c.len() > 0,
    ensures
        lines(c).len() > 0,
        join_nl(lines(c)) == c,
{
    let ls = lines(c);
    lemma_unlines_lines(c);
    if ls.len() == 0 {
        assert(unlines(ls) =~= Seq::<char>::empty());
        assert(c.push('\n').len() > 0);
    }
    lemma_join_nl_unlines(ls);
    assert(unlines(ls) == unlines(ls.drop_last()) + ls.last().push('\n'));
    assert(join_nl(ls).push('\n') =~= c.push('\n'));
    assert(join_nl(ls) =~= join_nl(ls).push('\n').drop_last());
    assert(c =~= c.push('\n').drop_last());
}

/// The lines inside a fence, joined, are the code.
pub(crate) proof fn lemma_join_code(c: Seq<char>)
    requires
        text_ok(c),
    ensures
        join_nl(code_body(c)) == c,
{
    if c.len() == 0 {
        assert(join_nl(code_body(c)) == code_body(c)[0]);
        assert(c =~= Seq::<char>::empty());
    } else {
        lemma_join_lines(c);
    }
}

/// An empty line ends the text collected so far.
proof fn lemma_read_blank(ls: Seq<Seq<char>>, i: int, st: SlideState)
    requires
        0 <= i < ls.len(),
        ls[i] == Seq::<char>::empty(),
    ensures
        slide_run(ls, i, st) == slide_run(ls, i + 1, flush_text(st)),
{
    lemma_blank_line();
}

/// A directive line other than a reveal marker takes effect on the state.
proof fn lemma_read_directive(ls: Seq<Seq<char>>, i: int, st: SlideState, d: Seq<char>, attrs: Seq<(Seq<char>, Seq<char>)>)
    requires
        0 <= i < ls.len(),
        trim_s(ls[i]) == ls[i],
        ls[i].len() > 0,
        comment_directive(ls[i]) == Some((d, attrs)),
        !is_reveal_directive(d),
    ensures
        slide_run(ls, i, st) == slide_run(ls, i + 1, apply_directive(flush_text(st), d, attrs, ls[i])),
{
}

/// A line of a text block is collected as text.
proof fn lemma_read_text_line(ls: Seq<Seq<char>>, i: int, st: SlideState)
    requires
        0 <= i < ls.len(),
        text_line_ok(ls[i]),
    ensures
        slide_run(ls, i, st) == slide_run(ls, i + 1, push_text(flush_pending(st), ls[i])),
        slide_run(ls, i, flush_pending(st)) == slide_run(ls, i, st),
{
    assert(flush_pending(flush_pending(st)) == flush_pending(st));
}

/// The lines of a text block are collected as text, one after another.
proof fn lemma_read_text_lines(ls: Seq<Seq<char>>, pre: Seq<Seq<char>>, tl: Seq<Seq<char>>, post: Seq<Seq<char>>, st: SlideState)
    requires
        ls == pre + tl + post,
        forall|k: int| 0 <= k < tl.len() ==> text_line_ok(#[trigger] tl[k]),
        st.pending is None,
    ensures
        slide_run(ls, pre.len() as int, st) == slide_run(
            ls,
            (pre.len() + tl.len()) as int,
            SlideState { blocks: st.blocks, text: st.text + tl, pending: st.pending, title: st.title },
        ),
    decreases tl.len(),
{
    if tl.len() == 0 {
        assert(st.text + tl =~= st.text);
    } else {
        let i = pre.len() as int;
        assert(ls[i] == tl[0]);
        assert(text_line_ok(tl[0]));
        lemma_read_text_line(ls, i, st);
        let st2 = push_text(st, tl[0]);
        let rest = tl.drop_first();
        assert(ls =~= (pre + seq![tl[0]]) + rest + post);
        assert forall|k: int| 0 <= k < rest.len() implies text_line_ok(#[trigger] rest[k]) by {
            assert(rest[k] == tl[k + 1]);
        }
        lemma_read_text_lines(ls, pre + seq![tl[0]], rest, post, st2);
        assert(st2.text + rest =~= st.text + tl);
    }
}

/// A heading line as `serialize` writes it.
pub open spec fn heading_line(level: u8, c: Seq<char>) -> Seq<char> {
    heading_marks(level) + " "@ + c
}

/// A heading line reads back as its level and text.
proof fn lemma_heading_line(level: u8, c: Seq<char>)
    requires
        heading_ok(level, c),
    ensures
        trim_s(heading_line(level, c)) == heading_line(level, c),
        comment_directive(heading_line(level, c)) is None,
        !has_prefix(heading_line(level, c), "```"@),
        heading(heading_line(level, c)) == Some((level, c)),
        heading_line(level, c).len() > 0,
{
    reveal_strlit("#");
    reveal_strlit("##");
    reveal_strlit("###");
    reveal_strlit(" ");
    reveal_strlit("```");
    reveal_strlit("<!--");
    let m = heading_marks(level);
    let h = heading_line(level, c);
    assert(h[0] == '#');
    assert(h.last() == c.last());
    lemma_trim_kept(h);
    assert(h.take(3)[0] == '#');
    if h.len() >= 4 {
        assert(h.take(4)[0] == '#');
    }
    assert(m.len() == level);
    assert(h =~= m + (seq![' '] + c));
    assert(h.skip(level as int) =~= seq![' '] + c);
    assert(hash_run(h) == level) by {
        reveal_with_fuel(hash_run, 5);
        assert(h.drop_first() =~= h.skip(1));
        assert(h.skip(1).drop_first() =~= h.skip(2));
        assert(h.skip(2).drop_first() =~= h.skip(3));
        assert(h[level as int] == ' ');
        if level >= 2 {
            assert(h[1] == '#');
            assert(h.skip(1)[0] == '#');
        }
        if level >= 3 {
            assert(h[2] == '#');
            assert(h.skip(2)[0] == '#');
        }
        assert(h.skip(level as int)[0] == ' ');
    }
    assert((seq![' '] + c).drop_first() =~= c);
    assert(trim_start_s(c) == c);
    assert(trim_start_s(seq![' '] + c) == trim_start_s(c));
}

/// The first line at or after `a` that closes a fence.
proof fn lemma_fence_close_at(ls: Seq<Seq<char>>, a: int, b: int)
    requires
        0 <= a <= b < ls.len(),
        forall|k: int| a <= k < b ==> trim_s(#[trigger] ls[k]) != "```"@,
        trim_s(ls[b]) == "```"@,
    ensures
        fence_close(ls, a) == b,
    decreases b - a,
{
    if a < b {
        lemma_fence_close_at(ls, a + 1, b);
    }
}

/// A fenced block: the opening line, lines that close nothing, the closing line.
proof fn lemma_read_fence(
    ls: Seq<Seq<char>>,
    pre: Seq<Seq<char>>,
    open: Seq<char>,
    body: Seq<Seq<char>>,
    post: Seq<Seq<char>>,
    st: SlideState,
)
    requires
        ls == pre + seq![open] + body + seq!["```"@] + post,
        trim_s(open) == open,
        open.len() > 0,
        open[0] == '`',
        has_prefix(open, "```"@),
        forall|k: int| 0 <= k < body.len() ==> !fence_mark(#[trigger] body[k]),
    ensures
        slide_run(ls, pre.len() as int, st) == slide_run(
            ls,
            (pre.len() + body.len() + 2) as int,
            fenced_block(flush_text(st), fence_info(trim_s(strip_fences(open))), join_nl(body)),
        ),
{
    reveal_strlit("<!--");
    reveal_strlit("```");
    lemma_close_fence();
    let i = pre.len() as int;
    assert(ls[i] == open);
    if open.len() >= 4 {
        assert(open.take(4)[0] == '`');
    }
    assert(comment_directive(open) is None);
    let b = i + 1 + body.len();
    assert(ls[b] == "```"@);
    assert forall|k: int| i + 1 <= k < b implies trim_s(#[trigger] ls[k]) != "```"@ by {
        assert(ls[k] == body[k - i - 1]);
        assert(!fence_mark(body[k - i - 1]));
        assert("```"@.take(3) =~= "```"@);
    }
    lemma_fence_close_at(ls, i + 1, b);
    assert(ls.subrange(i + 1, b) =~= body);
}

/// The info string of an opening fence names its language and nothing else.
proof fn lemma_fence_info(lang: Seq<char>)
    requires
        lang_ok(lang),
    ensures
        fence_info(trim_s(strip_fences("```"@ + lang))) == (Some(lang), false, None::<Seq<char>>),
{
    reveal_strlit("```");
    let o = "```"@ + lang;
    assert(o.take(3) =~= "```"@);
    assert(o.skip(3) =~= lang);
    if lang.len() >= 3 {
        assert(!has_prefix(lang, "```"@));
    }
    assert(strip_fences(lang) == lang);
    assert(strip_fences(o) == strip_fences(o.skip(3)));
    lemma_trim_kept(lang);
    lemma_word_one(seq![], lang);
    assert(seq![] + lang =~= lang);
    assert(words(lang) == seq![lang]);
    let ws = seq![lang];
    assert(ws.drop_last() =~= Seq::<Seq<char>>::empty());
    assert(fence_words(ws) == fence_step(fence_words(ws.drop_last()), lang));
}

/// Characters without whitespace make one word.
proof fn lemma_word_one(cur: Seq<char>, rest: Seq<char>)
    requires
        forall|i: int| 0 <= i < rest.len() ==> !is_ws(#[trigger] rest[i]),
        cur.len() + rest.len() > 0,
    ensures
        words_from(cur, rest) == seq![cur + rest],
    decreases rest.len(),
{
    if rest.len() == 0 {
        assert(cur + rest =~= cur);
    } else {
        lemma_word_one(cur.push(rest[0]), rest.drop_first());
        assert(cur.push(rest[0]) + rest.drop_first() =~= cur + rest);
    }
}

// ───────────────────────────── reading the blocks of a slide ─────────────────────────────

/// The parser's state once blocks `0..j` of a slide titled `t` are read: those blocks,
/// numbered from 1, and nothing collected or announced.
pub open spec fn settled(bs: Seq<BlockView>, j: int, t: Seq<char>) -> SlideState {
    SlideState { blocks: numbered_from(bs.take(j), 1), text: seq![], pending: None, title: Some(t) }
}

/// The parser's state just after the lines of blocks `0..j`: as [`settled`], but an empty
/// output area at the end is still announced and not yet made a block.
pub open spec fn state_at(bs: Seq<BlockView>, j: int, t: Seq<char>) -> SlideState {
    if j > 0 && empty_output(bs[j - 1]) {
        SlideState {
            blocks: numbered_from(bs.take(j - 1), 1),
            text: seq![],
            pending: Some(PendingView::Output),
            title: Some(t),
        }
    } else {
        settled(bs, j, t)
    }
}

/// The lines of a block and the empty line after it.
pub open spec fn unit(b: BlockView) -> Seq<Seq<char>> {
    block_lines(b).push(Seq::<char>::empty())
}

/// The lines of blocks `j..`, each followed by an empty line.
pub open spec fn units(bs: Seq<BlockView>, j: int) -> Seq<Seq<char>>
    decreases bs.len() - j,
{
    if j < 0 || j >= bs.len() {
        seq![]
    } else {
        unit(bs[j]) + units(bs, j + 1)
    }
}

/// Adding block `j` to the blocks before it, numbered from 1.
proof fn lemma_with_block_next(bs: Seq<BlockView>, j: int, st: SlideState)
    requires
        0 <= j < bs.len(),
        st.blocks == numbered_from(bs.take(j), 1),
    ensures
        with_block(st, bs[j].kind, bs[j].content) == (SlideState {
            blocks: numbered_from(bs.take(j + 1), 1),
            text: st.text,
            pending: st.pending,
            title: st.title,
        }),
{
    let a = numbered_from(bs.take(j), 1);
    assert(a.len() == j);
    assert(numbered_from(bs.take(j + 1), 1) =~= a.push(
        BlockView { id: (a.len() + 1) as u64, kind: bs[j].kind, content: bs[j].content },
    ));
}

/// Closing what is still open after blocks `0..j`.
proof fn lemma_settle(bs: Seq<BlockView>, j: int, t: Seq<char>)
    requires
        0 <= j <= bs.len(),
    ensures
        flush_pending(state_at(bs, j, t)) == settled(bs, j, t),
        flush_text(state_at(bs, j, t)) == state_at(bs, j, t),
        flush_text(settled(bs, j, t)) == settled(bs, j, t),
        flush_pending(settled(bs, j, t)) == settled(bs, j, t),
{
    if j > 0 && empty_output(bs[j - 1]) {
        let st = state_at(bs, j, t);
        lemma_with_block_next(bs, j - 1, st);
        assert(bs[j - 1].content =~= Seq::<char>::empty());
    }
}

/// A heading and the empty line after it.
proof fn lemma_unit_heading(ls: Seq<Seq<char>>, pre: Seq<Seq<char>>, post: Seq<Seq<char>>, bs: Seq<BlockView>, j: int, t: Seq<char>)
    requires
        0 <= j < bs.len(),
        ls == pre + unit(bs[j]) + post,
        bs[j].kind is Heading,
        block_ok(bs[j]),
    ensures
        slide_run(ls, pre.len() as int, state_at(bs, j, t)) == slide_run(
            ls,
            (pre.len() + unit(bs[j]).len()) as int,
            state_at(bs, j + 1, t),
        ),
{
    let b = bs[j];
    let level = b.kind->level;
    let i = pre.len() as int;
    let h = heading_line(level, b.content);
    lemma_heading_line(level, b.content);
    assert(block_lines(b) == seq![h]);
    assert(ls[i] == h);
    assert(ls[i + 1] == Seq::<char>::empty());
    lemma_settle(bs, j, t);
    let st = state_at(bs, j, t);
    let s1 = with_block(flush_text(flush_pending(st)), KindView::Heading { level }, b.content);
    assert(slide_run(ls, i, st) == slide_run(ls, i + 1, s1));
    lemma_with_block_next(bs, j, settled(bs, j, t));
    lemma_read_blank(ls, i + 1, s1);
    lemma_settle(bs, j + 1, t);
}

/// A text block and the empty line after it.
proof fn lemma_unit_text(ls: Seq<Seq<char>>, pre: Seq<Seq<char>>, post: Seq<Seq<char>>, bs: Seq<BlockView>, j: int, t: Seq<char>)
    requires
        0 <= j < bs.len(),
        ls == pre + unit(bs[j]) + post,
        bs[j].kind is Text,
        block_ok(bs[j]),
    ensures
        slide_run(ls, pre.len() as int, state_at(bs, j, t)) == slide_run(
            ls,
            (pre.len() + unit(bs[j]).len()) as int,
            state_at(bs, j + 1, t),
        ),
{
    let b = bs[j];
    let i = pre.len() as int;
    let tl = lines(b.content);
    lemma_join_lines(b.content);
    assert(block_lines(b) == tl);
    assert(ls[i] == tl[0]);
    lemma_settle(bs, j, t);
    let st = state_at(bs, j, t);
    lemma_read_text_line(ls, i, st);
    let s0 = settled(bs, j, t);
    assert(ls =~= pre + tl + (seq![Seq::<char>::empty()] + post));
    lemma_read_text_lines(ls, pre, tl, seq![Seq::<char>::empty()] + post, s0);
    let s1 = SlideState { blocks: s0.blocks, text: s0.text + tl, pending: s0.pending, title: s0.title };
    assert(s0.text + tl =~= tl);
    let k = i + tl.len();
    assert(ls[k] == Seq::<char>::empty());
    lemma_read_blank(ls, k, s1);
    lemma_with_block_next(bs, j, s1);
    lemma_settle(bs, j + 1, t);
    assert(flush_text(s1) == settled(bs, j + 1, t));
}

/// A code block and the empty line after it.
proof fn lemma_unit_code(ls: Seq<Seq<char>>, pre: Seq<Seq<char>>, post: Seq<Seq<char>>, bs: Seq<BlockView>, j: int, t: Seq<char>)
    requires
        0 <= j < bs.len(),
        ls == pre + unit(bs[j]) + post,
        bs[j].kind is Code,
        block_ok(bs[j]),
        state_at(bs, j, t) == settled(bs, j, t),
    ensures
        slide_run(ls, pre.len() as int, state_at(bs, j, t)) == slide_run(
            ls,
            (pre.len() + unit(bs[j]).len()) as int,
            state_at(bs, j + 1, t),
        ),
{
    reveal_strlit("```");
    let b = bs[j];
    let lang = b.kind->Code_lang;
    let i = pre.len() as int;
    let open = "```"@ + lang;
    let body = code_body(b.content);
    lemma_open_fence(lang);
    assert(open.take(3) =~= "```"@);
    assert(block_lines(b) == seq![open] + body + seq!["```"@]);
    let post2 = seq![Seq::<char>::empty()] + post;
    assert(ls =~= pre + seq![open] + body + seq!["```"@] + post2);
    let s0 = settled(bs, j, t);
    lemma_settle(bs, j, t);
    lemma_read_fence(ls, pre, open, body, post2, s0);
    lemma_fence_info(lang);
    lemma_join_code(b.content);
    lemma_with_block_next(bs, j, s0);
    let s1 = fenced_block(flush_text(s0), fence_info(trim_s(strip_fences(open))), join_nl(body));
    assert(s1 == with_block(s0, bs[j].kind, bs[j].content));
    let k = i + body.len() + 2;
    assert(ls[k] == Seq::<char>::empty());
    lemma_read_blank(ls, k, s1);
    lemma_settle(bs, j + 1, t);
}

/// An exec block and the empty line after it.
proof fn lemma_unit_exec(ls: Seq<Seq<char>>, pre: Seq<Seq<char>>, post: Seq<Seq<char>>, bs: Seq<BlockView>, j: int, t: Seq<char>)
    requires
        0 <= j < bs.len(),
        ls == pre + unit(bs[j]) + post,
        bs[j].kind is Exec,
        block_ok(bs[j]),
    ensures
        slide_run(ls, pre.len() as int, state_at(bs, j, t)) == slide_run(
            ls,
            (pre.len() + unit(bs[j]).len()) as int,
            state_at(bs, j + 1, t),
        ),
{
    reveal_strlit("```");
    let b = bs[j];
    let lang = b.kind->Exec_lang;
    let sig = b.kind->signature;
    let i = pre.len() as int;
    let d = exec_directive(lang, sig);
    let open = "```"@ + lang;
    let body = code_body(b.content);
    lemma_open_fence(lang);
    assert(open.take(3) =~= "```"@);
    assert(block_lines(b) == seq![d] + (seq![open] + body + seq!["```"@]));
    let post2 = seq![Seq::<char>::empty()] + post;
    assert(ls =~= (pre + seq![d]) + seq![open] + body + seq!["```"@] + post2);
    let s0 = settled(bs, j, t);
    lemma_settle(bs, j, t);
    lemma_directive_names();
    lemma_exec_directive_reads(lang, sig);
    lemma_exec_directive_flat(lang, sig);
    assert(ls[i] == d);
    lemma_read_directive(ls, i, state_at(bs, j, t), "slidecli:block"@, exec_attrs(lang, sig));
    let s1 = apply_directive(flush_text(state_at(bs, j, t)), "slidecli:block"@, exec_attrs(lang, sig), d);
    assert(s1 == SlideState {
        blocks: s0.blocks,
        text: s0.text,
        pending: Some(PendingView::Exec { lang: Some(lang), signature: sig }),
        title: s0.title,
    });
    lemma_read_fence(ls, pre + seq![d], open, body, post2, s1);
    lemma_fence_info(lang);
    lemma_join_code(b.content);
    lemma_with_block_next(bs, j, s0);
    let s2 = fenced_block(flush_text(s1), fence_info(trim_s(strip_fences(open))), join_nl(body));
    assert(s2 == with_block(s0, bs[j].kind, bs[j].content));
    let k = i + 1 + body.len() + 2;
    assert(ls[k] == Seq::<char>::empty());
    lemma_read_blank(ls, k, s2);
    lemma_settle(bs, j + 1, t);
}

/// An output area with what it shows, and the empty line after it.
proof fn lemma_unit_output_full(ls: Seq<Seq<char>>, pre: Seq<Seq<char>>, post: Seq<Seq<char>>, bs: Seq<BlockView>, j: int, t: Seq<char>)
    requires
        0 <= j < bs.len(),
        ls == pre + unit(bs[j]) + post,
        bs[j].kind is OutputPlaceholder,
        bs[j].content.len() > 0,
        block_ok(bs[j]),
    ensures
        slide_run(ls, pre.len() as int, state_at(bs, j, t)) == slide_run(
            ls,
            (pre.len() + unit(bs[j]).len()) as int,
            state_at(bs, j + 1, t),
        ),
{
    reveal_strlit("```");
    reveal_strlit("```text");
    reveal_strlit("type");
    let b = bs[j];
    let i = pre.len() as int;
    let d = output_directive();
    let open = "```text"@;
    let body = code_body(b.content);
    assert(open[0] == '`');
    assert(open.last() == 't');
    lemma_trim_kept(open);
    assert(open.take(3) =~= "```"@);
    assert(block_lines(b) == seq![d] + (seq![open] + body + seq!["```"@]));
    let post2 = seq![Seq::<char>::empty()] + post;
    assert(ls =~= (pre + seq![d]) + seq![open] + body + seq!["```"@] + post2);
    let s0 = settled(bs, j, t);
    lemma_settle(bs, j, t);
    lemma_directive_names();
    lemma_output_directive_reads();
    reveal_strlit("<!-- slidecli:block type=output -->");
    assert(ls[i] == d);
    let attrs = seq![("type"@, "output"@)];
    assert(find_attr(attrs, "type"@) == Some("output"@));
    lemma_read_directive(ls, i, state_at(bs, j, t), "slidecli:block"@, attrs);
    let s1 = apply_directive(flush_text(state_at(bs, j, t)), "slidecli:block"@, attrs, d);
    assert(s1 == SlideState { blocks: s0.blocks, text: s0.text, pending: Some(PendingView::Output), title: s0.title });
    lemma_read_fence(ls, pre + seq![d], open, body, post2, s1);
    lemma_join_code(b.content);
    lemma_with_block_next(bs, j, s0);
    let s2 = fenced_block(flush_text(s1), fence_info(trim_s(strip_fences(open))), join_nl(body));
    assert(s2 == with_block(s0, bs[j].kind, bs[j].content));
    let k = i + 1 + body.len() + 2;
    assert(ls[k] == Seq::<char>::empty());
    lemma_read_blank(ls, k, s2);
    lemma_settle(bs, j + 1, t);
}

/// An empty output area and the empty line after it: the area stays announced.
proof fn lemma_unit_output_empty(ls: Seq<Seq<char>>, pre: Seq<Seq<char>>, post: Seq<Seq<char>>, bs: Seq<BlockView>, j: int, t: Seq<char>)
    requires
        0 <= j < bs.len(),
        ls == pre + unit(bs[j]) + post,
        empty_output(bs[j]),
    ensures
        slide_run(ls, pre.len() as int, state_at(bs, j, t)) == slide_run(
            ls,
            (pre.len() + unit(bs[j]).len()) as int,
            state_at(bs, j + 1, t),
        ),
{
    reveal_strlit("type");
    let b = bs[j];
    let i = pre.len() as int;
    let d = output_directive();
    assert(block_lines(b) =~= seq![d]);
    assert(ls[i] == d);
    assert(ls[i + 1] == Seq::<char>::empty());
    let s0 = settled(bs, j, t);
    lemma_settle(bs, j, t);
    lemma_directive_names();
    lemma_output_directive_reads();
    reveal_strlit("<!-- slidecli:block type=output -->");
    let attrs = seq![("type"@, "output"@)];
    assert(find_attr(attrs, "type"@) == Some("output"@));
    lemma_read_directive(ls, i, state_at(bs, j, t), "slidecli:block"@, attrs);
    let s1 = apply_directive(flush_text(state_at(bs, j, t)), "slidecli:block"@, attrs, d);
    assert(s1 == SlideState { blocks: s0.blocks, text: s0.text, pending: Some(PendingView::Output), title: s0.title });
    lemma_read_blank(ls, i + 1, s1);
    assert(bs.take(j + 1 - 1) =~= bs.take(j));
    assert(flush_text(s1) == state_at(bs, j + 1, t));
}

/// A separator and the empty line after it.
proof fn lemma_unit_separator(ls: Seq<Seq<char>>, pre: Seq<Seq<char>>, post: Seq<Seq<char>>, bs: Seq<BlockView>, j: int, t: Seq<char>)
    requires
        0 <= j < bs.len(),
        ls == pre + unit(bs[j]) + post,
        bs[j].kind is Separator,
        block_ok(bs[j]),
    ensures
        slide_run(ls, pre.len() as int, state_at(bs, j, t)) == slide_run(
            ls,
            (pre.len() + unit(bs[j]).len()) as int,
            state_at(bs, j + 1, t),
        ),
{
    reveal_strlit("type");
    let b = bs[j];
    let i = pre.len() as int;
    let d = separator_directive();
    assert(block_lines(b) =~= seq![d]);
    assert(ls[i] == d);
    assert(ls[i + 1] == Seq::<char>::empty());
    let s0 = settled(bs, j, t);
    lemma_settle(bs, j, t);
    lemma_directive_names();
    lemma_separator_directive_reads();
    reveal_strlit("<!-- slidecli:block type=separator -->");
    let attrs = seq![("type"@, "separator"@)];
    assert(find_attr(attrs, "type"@) == Some("separator"@));
    lemma_read_directive(ls, i, state_at(bs, j, t), "slidecli:block"@, attrs);
    lemma_with_block_next(bs, j, s0);
    assert(b.content =~= Seq::<char>::empty());
    let s1 = apply_directive(flush_text(state_at(bs, j, t)), "slidecli:block"@, attrs, d);
    assert(s1 == settled(bs, j + 1, t));
    lemma_read_blank(ls, i + 1, s1);
    lemma_settle(bs, j + 1, t);
}

/// Any block that can be carried, and the empty line after it.
proof fn lemma_unit_step(ls: Seq<Seq<char>>, pre: Seq<Seq<char>>, post: Seq<Seq<char>>, bs: Seq<BlockView>, j: int, t: Seq<char>)
    requires
        0 <= j < bs.len(),
        ls == pre + unit(bs[j]) + post,
        blocks_ok(bs),
    ensures
        slide_run(ls, pre.len() as int, state_at(bs, j, t)) == slide_run(
            ls,
            (pre.len() + unit(bs[j]).len()) as int,
            state_at(bs, j + 1, t),
        ),
{
    assert(block_ok(bs[j]));
    if j > 0 && empty_output(bs[j - 1]) {
        assert(0 <= j - 1 < bs.len() - 1);
        assert(bs[(j - 1) + 1] == bs[j]);
        assert(!(bs[j].kind is Code));
    } else {
        assert(state_at(bs, j, t) == settled(bs, j, t));
    }
    match bs[j].kind {
        KindView::Heading { .. } => lemma_unit_heading(ls, pre, post, bs, j, t),
        KindView::Text => lemma_unit_text(ls, pre, post, bs, j, t),
        KindView::Code { .. } => lemma_unit_code(ls, pre, post, bs, j, t),
        KindView::Exec { .. } => lemma_unit_exec(ls, pre, post, bs, j, t),
        KindView::OutputPlaceholder => {
            if bs[j].content.len() == 0 {
                lemma_unit_output_empty(ls, pre, post, bs, j, t);
            } else {
                lemma_unit_output_full(ls, pre, post, bs, j, t);
            }
        },
        KindView::Separator => lemma_unit_separator(ls, pre, post, bs, j, t),
    }
}

/// Reading the blocks from `j` on gives all the blocks, numbered from 1.
proof fn lemma_run_units(ls: Seq<Seq<char>>, pre: Seq<Seq<char>>, bs: Seq<BlockView>, j: int, t: Seq<char>)
    requires
        0 <= j <= bs.len(),
        ls == pre + units(bs, j),
        blocks_ok(bs),
    ensures
        slide_run(ls, pre.len() as int, state_at(bs, j, t)) == Some(settled(bs, bs.len() as int, t)),
    decreases bs.len() - j,
{
    if j == bs.len() {
        assert(units(bs, j) =~= Seq::<Seq<char>>::empty());
        assert(ls =~= pre);
        lemma_settle(bs, j, t);
    } else {
        let post = units(bs, j + 1);
        assert(ls =~= pre + unit(bs[j]) + post);
        lemma_unit_step(ls, pre, post, bs, j, t);
        assert(ls =~= (pre + unit(bs[j])) + units(bs, j + 1));
        lemma_run_units(ls, pre + unit(bs[j]), bs, j + 1, t);
    }
}

/// The lines of some blocks with an empty line after them are the blocks' units.
proof fn lemma_units_split(bs: Seq<BlockView>, j: int)
    requires
        1 <= j <= bs.len(),
    ensures
        units(bs, 0) == blocks_lines(bs.take(j)) + seq![Seq::<char>::empty()] + units(bs, j),
    decreases j,
{
    if j == 1 {
        assert(bs.take(1).drop_last() =~= Seq::<BlockView>::empty());
        assert(bs.take(1).last() == bs[0]);
        assert(blocks_lines(bs.take(1).drop_last()) =~= Seq::<Seq<char>>::empty());
        assert(blocks_lines(bs.take(1)) =~= block_lines(bs[0]));
        assert(units(bs, 0) == unit(bs[0]) + units(bs, 1));
        assert(units(bs, 0) =~= blocks_lines(bs.take(j)) + seq![Seq::<char>::empty()] + units(bs, j));
    } else {
        lemma_units_split(bs, j - 1);
        assert(bs.take(j).drop_last() =~= bs.take(j - 1));
        assert(bs.take(j).last() == bs[j - 1]);
        assert(units(bs, j - 1) == unit(bs[j - 1]) + units(bs, j));
        assert(units(bs, 0) =~= blocks_lines(bs.take(j)) + seq![Seq::<char>::empty()] + units(bs, j));
    }
}

// ───────────────────────────── reading a slide ─────────────────────────────

/// The lines of the section of slide `i`, without the blank line before the next rule,
/// read as the slide's title and its blocks numbered from 1.
proof fn lemma_read_head(p: PresentationView, i: int)
    requires
        doc_ok(p),
        0 <= i < p.slides.len(),
    ensures
        slide_run(head_lines(p, i), 0, empty_state()) == Some(
            settled(p.slides[i].blocks, p.slides[i].blocks.len() as int, effective_title(p.slides[i], i as nat)),
        ),
{
    let sl = p.slides[i];
    let bs = sl.blocks;
    let t = effective_title(sl, i as nat);
    let bt = t;
    assert(blocks_ok(p.slides[i].blocks) && flat(effective_title(p.slides[i], i as nat)));
    let z = Seq::<char>::empty();
    let dir = slide_directive(t);
    let a = if i == 0 {
        seq![meta_line(p), z]
    } else {
        seq![z]
    };
    let top = a + seq![dir, z];
    let h = head_lines(p, i);
    assert(h =~= top + blocks_lines(bs));
    let r = top + units(bs, 0);
    let e = empty_state();
    if bs.len() > 0 {
        lemma_units_split(bs, bs.len() as int);
        assert(bs.take(bs.len() as int) =~= bs);
        assert(units(bs, bs.len() as int) =~= Seq::<Seq<char>>::empty());
        assert(r =~= h.push(z));
        lemma_run_blank_tail(h, 0, e);
    } else {
        assert(units(bs, 0) =~= Seq::<Seq<char>>::empty());
        assert(blocks_lines(bs) =~= Seq::<Seq<char>>::empty());
        assert(r =~= h);
    }
    lemma_slide_directive_reads(t);
    lemma_slide_directive(t);
    lemma_directive_names();
    let k = a.len() as int;
    assert(flush_text(e) == e);
    if i == 0 {
        lemma_meta_first_line(p);
        lemma_meta_directive(p);
        assert(r[0] == meta_line(p));
        assert(meta_line(p).len() > 0) by {
            reveal_strlit("<!-- slidecli:presentation font=\"");
            assert(meta_line(p)[0] == '<');
        }
        let ma = attrs_of(meta_attrs_text(p.font_name, p.font_size));
        lemma_read_directive(r, 0, e, "slidecli:presentation"@, ma);
        assert(apply_directive(flush_text(e), "slidecli:presentation"@, ma, r[0]) == e);
        assert(r[1] == z);
        lemma_read_blank(r, 1, e);
    } else {
        assert(r[0] == z);
        lemma_read_blank(r, 0, e);
    }
    assert(slide_run(r, 0, e) == slide_run(r, k, e));
    assert(r[k] == dir);
    assert(dir.len() > 0) by {
        reveal_strlit("<!-- slidecli:slide title=\"");
        assert(dir[0] == '<');
    }
    let ta = seq![("title"@, bt)];
    lemma_read_directive(r, k, e, "slidecli:slide"@, ta);
    let s1 = apply_directive(flush_text(e), "slidecli:slide"@, ta, dir);
    assert(find_attr(ta, "title"@) == Some(bt));
    assert(bs.take(0) =~= Seq::<BlockView>::empty());
    assert(numbered_from(bs.take(0), 1) =~= Seq::<BlockView>::empty());
    assert(s1 == settled(bs, 0, bt));
    assert(r[k + 1] == z);
    lemma_read_blank(r, k + 1, s1);
    lemma_settle(bs, 0, bt);
    assert(r =~= top + units(bs, 0));
    assert(top.len() == k + 2);
    lemma_run_units(r, top, bs, 0, bt);
}

/// The section of slide `i` parses to the slide's title and blocks, numbered from 1.
proof fn lemma_read_section(p: PresentationView, i: int)
    requires
        doc_ok(p),
        0 <= i < p.slides.len(),
        all_flat(part_lines(p, i)),
    ensures
        parse_slide_s(join_nl(part_lines(p, i)), i as nat) == Some(
            SlideView {
                title: effective_title(p.slides[i], i as nat),
                blocks: numbered_from(p.slides[i].blocks, 1),
            },
        ),
{
    let h = head_lines(p, i);
    let part = part_lines(p, i);
    let e = empty_state();
    lemma_read_head(p, i);
    assert(h.len() > 0);
    lemma_lines_join(part);
    if i + 1 < p.slides.len() {
        assert(part.last() == Seq::<char>::empty());
        assert(part.drop_last() =~= h);
    } else {
        assert(part =~= h);
        if h.last().len() == 0 {
            assert(h.last() =~= Seq::<char>::empty());
            assert(h.drop_last().push(Seq::<char>::empty()) =~= h);
            lemma_run_blank_tail(h.drop_last(), 0, e);
        }
    }
    assert(slide_run(lines(join_nl(part)), 0, e) == slide_run(h, 0, e));
    let bs = p.slides[i].blocks;
    assert(bs.take(bs.len() as int) =~= bs);
}

/// The section lines of a slide are flat.
proof fn lemma_part_flat(p: PresentationView, i: int)
    requires
        doc_ok(p),
        0 <= i < p.slides.len(),
    ensures
        all_flat(part_lines(p, i)),
{
    assert(blocks_ok(p.slides[i].blocks) && flat(effective_title(p.slides[i], i as nat)));
    lemma_slide_lines_ok(p.slides[i], i as nat);
    lemma_meta_line_ok(p);
    lemma_blank_line();
    let z = Seq::<char>::empty();
    let a = if i == 0 {
        seq![meta_line(p), z]
    } else {
        seq![z]
    };
    let c = if i + 1 < p.slides.len() {
        seq![z]
    } else {
        Seq::<Seq<char>>::empty()
    };
    assert(all_flat(a));
    assert(all_flat(c));
    lemma_all_flat_concat(a, slide_lines(p.slides[i], i as nat));
    lemma_all_flat_concat(a + slide_lines(p.slides[i], i as nat), c);
    assert(part_lines(p, i) =~= a + slide_lines(p.slides[i], i as nat) + c);
}

/// A text with a character that is not whitespace is not blank once trimmed.
proof fn lemma_trim_start_nonblank(s: Seq<char>, k: int)
    requires
        0 <= k < s.len(),
        !is_ws(s[k]),
    ensures
        trim_start_s(s).len() > 0,
        !is_ws(trim_start_s(s)[0]),
    decreases s.len(),
{
    if is_ws(s[0]) {
        assert(s.drop_first()[k - 1] == s[k]);
        lemma_trim_start_nonblank(s.drop_first(), k - 1);
    }
}

proof fn lemma_trim_end_nonblank(x: Seq<char>)
    requires
        x.len() > 0,
        !is_ws(x[0]),
    ensures
        trim_end_s(x).len() > 0,
    decreases x.len(),
{
    if is_ws(x.last()) {
        assert(x.len() > 1);
        assert(x.drop_last()[0] == x[0]);
        lemma_trim_end_nonblank(x.drop_last());
    }
}

proof fn lemma_trim_nonblank(s: Seq<char>, k: int)
    requires
        0 <= k < s.len(),
        !is_ws(s[k]),
    ensures
        trim_s(s).len() > 0,
{
    lemma_trim_start_nonblank(s, k);
    lemma_trim_end_nonblank(trim_start_s(s));
}

/// The section of a slide is not blank: it holds the slide directive.
proof fn lemma_section_nonblank(p: PresentationView, i: int)
    requires
        doc_ok(p),
        0 <= i < p.slides.len(),
    ensures
        trim_s(join_nl(part_lines(p, i))).len() > 0,
{
    reveal_strlit("<!-- slidecli:slide title=\"");
    let z = Seq::<char>::empty();
    let part = part_lines(p, i);
    let dir = slide_directive(effective_title(p.slides[i], i as nat));
    let a = if i == 0 {
        seq![meta_line(p), z]
    } else {
        seq![z]
    };
    let rest = part.drop_last().skip((a.len() + 1) as int);
    assert(part.drop_last() =~= a + seq![dir] + rest);
    lemma_join_nl_unlines(part);
    lemma_unlines_concat(a + seq![dir], rest);
    lemma_unlines_concat(a, seq![dir]);
    lemma_unlines_one(dir);
    let s = join_nl(part);
    let k = unlines(a).len() as int;
    assert(s[k] == dir[0]);
    assert(dir[0] == '<');
    lemma_trim_nonblank(s, k);
}

/// The slides as they are read back: the titles that were written, the blocks numbered
/// from 1 in each slide.
pub open spec fn read_slides(p: PresentationView, k: int) -> Seq<SlideView> {
    Seq::new(
        k as nat,
        |i: int|
            SlideView {
                title: effective_title(p.slides[i], i as nat),
                blocks: numbered_from(p.slides[i].blocks, 1),
            },
    )
}

proof fn lemma_parse_sections(p: PresentationView, k: nat)
    requires
        doc_ok(p),
        k <= p.slides.len(),
    ensures
        parse_sections(expected_sections(p, p.slides.len() as int), k) == Some(read_slides(p, k as int)),
    decreases k,
{
    let n = p.slides.len() as int;
    let secs = expected_sections(p, n);
    if k == 0 {
        assert(read_slides(p, 0) =~= Seq::<SlideView>::empty());
    } else {
        let i = k - 1;
        lemma_parse_sections(p, (k - 1) as nat);
        lemma_part_flat(p, i);
        lemma_read_section(p, i);
        lemma_section_nonblank(p, i);
        assert(secs[i] == join_nl(part_lines(p, i)));
        assert(read_slides(p, (k - 1) as int).push(read_slides(p, k as int)[i]) =~= read_slides(p, k as int));
    }
}

// ───────────────────────────── reading a presentation ─────────────────────────────

/// Two lists of blocks that differ at most in their ids.
pub open spec fn same_blocks(a: Seq<BlockView>, b: Seq<BlockView>) -> bool {
    &&& a.len() == b.len()
    &&& forall|j: int| #![trigger a[j]] 0 <= j < a.len() ==> a[j].kind == b[j].kind && a[j].content == b[j].content
}

/// Two lists of slides that differ at most in the ids of their blocks.
pub open spec fn same_slides(x: Seq<SlideView>, y: Seq<SlideView>) -> bool {
    &&& x.len() == y.len()
    &&& forall|i: int| #![trigger x[i]] 0 <= i < x.len() ==> x[i].title == y[i].title && same_blocks(x[i].blocks, y[i].blocks)
}

/// The slides with the titles that `serialize` writes for them.
pub open spec fn titled(ss: Seq<SlideView>) -> Seq<SlideView> {
    Seq::new(
        ss.len(),
        |i: int| SlideView { title: effective_title(ss[i], i as nat), blocks: ss[i].blocks },
    )
}

proof fn lemma_total_blocks_same(x: Seq<SlideView>, y: Seq<SlideView>)
    requires
        same_slides(x, y),
    ensures
        total_blocks(x) == total_blocks(y),
    decreases x.len(),
{
    if x.len() > 0 {
        assert(x[x.len() - 1].blocks.len() == y[y.len() - 1].blocks.len());
        lemma_same_slides_drop_last(x, y);
        lemma_total_blocks_same(x.drop_last(), y.drop_last());
    }
}

proof fn lemma_same_slides_drop_last(x: Seq<SlideView>, y: Seq<SlideView>)
    requires
        same_slides(x, y),
        x.len() > 0,
    ensures
        same_slides(x.drop_last(), y.drop_last()),
{
    assert forall|i: int| #![trigger x.drop_last()[i]] 0 <= i < x.drop_last().len() implies x.drop_last()[i].title
        == y.drop_last()[i].title && same_blocks(x.drop_last()[i].blocks, y.drop_last()[i].blocks) by {
        assert(x.drop_last()[i] == x[i]);
        assert(y.drop_last()[i] == y[i]);
    }
}

/// Numbering the blocks forgets the ids they had.
proof fn lemma_renumbered_same(x: Seq<SlideView>, y: Seq<SlideView>)
    requires
        same_slides(x, y),
    ensures
        renumbered(x) == renumbered(y),
    decreases x.len(),
{
    if x.len() > 0 {
        lemma_same_slides_drop_last(x, y);
        lemma_renumbered_same(x.drop_last(), y.drop_last());
        lemma_total_blocks_same(x.drop_last(), y.drop_last());
        let s = total_blocks(x.drop_last()) + 1;
        assert(x[x.len() - 1] == x.last());
        assert(y[y.len() - 1] == y.last());
        assert(numbered_from(x.last().blocks, s) =~= numbered_from(y.last().blocks, s));
    }
}

/// Flat lines written one per line hold no carriage return.
proof fn lemma_unlines_no_cr(ls: Seq<Seq<char>>)
    requires
        all_flat(ls),
    ensures
        forall|i: int| 0 <= i < unlines(ls).len() ==> #[trigger] unlines(ls)[i] != '\r',
    decreases ls.len(),
{
    if ls.len() > 0 {
        let a = ls.drop_last();
        assert(all_flat(a)) by {
            assert forall|i: int| 0 <= i < a.len() implies flat(#[trigger] a[i]) by {
                assert(a[i] == ls[i]);
            }
        }
        lemma_unlines_no_cr(a);
        let l = ls.last();
        assert(flat(ls[ls.len() - 1]));
        let u = unlines(ls);
        assert forall|i: int| 0 <= i < u.len() implies #[trigger] u[i] != '\r' by {
            if i < unlines(a).len() {
                assert(u[i] == unlines(a)[i]);
            } else if i < unlines(a).len() + l.len() {
                assert(u[i] == l[i - unlines(a).len()]);
            } else {
                assert(u[i] == '\n');
            }
        }
    }
}

/// Reading back what `serialize` writes gives the presentation that was written: the same
/// font name and size, the same slides in the same order, each with the title written for
/// it and with the same blocks, numbered 1, 2, 3, ... in reading order. This holds for the
/// presentations that [`doc_ok`] describes: at least one slide, a font name on one line, slide
/// titles on one line, and blocks whose text the format carries unchanged.
pub proof fn law_read_back_written(p: PresentationView)
    requires
        doc_ok(p),
    ensures
        deserialize_s(serialize_s(p)) == Some(
            PresentationView { slides: renumbered(titled(p.slides)), font_name: p.font_name, font_size: p.font_size },
        ),
{
    let n = p.slides.len() as int;
    assert forall|i: int, j: int|
        0 <= i < p.slides.len() && 0 <= j < p.slides[i].blocks.len() implies block_text_ok(#[trigger] p.slides[i].blocks[j]) by {
        assert(blocks_ok(p.slides[i].blocks));
        assert(block_ok(p.slides[i].blocks[j]));
    }
    lemma_serialize_lines(p);
    lemma_sections(p);
    let doc = doc_lines(p);
    lemma_unlines_no_cr(doc);
    lemma_crlf_none(unlines(doc));
    assert(crlf_to_lf(serialize_s(p)) == unlines(doc));
    let secs = sections(unlines(doc));
    assert(secs == expected_sections(p, n));
    assert(secs.len() == n);
    lemma_parse_sections(p, n as nat);
    law_font_settings_round_trip(p);
    let rs = read_slides(p, n);
    assert(rs.len() > 0);
    assert(same_slides(rs, titled(p.slides))) by {
        assert forall|i: int| #![trigger rs[i]] 0 <= i < rs.len() implies rs[i].title == titled(p.slides)[i].title
            && same_blocks(rs[i].blocks, titled(p.slides)[i].blocks) by {
            assert(titled(p.slides)[i].blocks == p.slides[i].blocks);
        }
    }
    lemma_renumbered_same(rs, titled(p.slides));
}

// ───────────────────────────── writing again ─────────────────────────────

/// Numbering blocks keeps the slides' titles and the blocks' kinds and contents.
proof fn lemma_renumbered_shape(ss: Seq<SlideView>)
    ensures
        same_slides(renumbered(ss), ss),
    decreases ss.len(),
{
    if ss.len() > 0 {
        let a = ss.drop_last();
        lemma_renumbered_shape(a);
        let r = renumbered(ss);
        assert(r == renumbered(a).push(
            SlideView { title: ss.last().title, blocks: numbered_from(ss.last().blocks, total_blocks(a) + 1) },
        ));
        assert forall|i: int| #![trigger r[i]] 0 <= i < r.len() implies r[i].title == ss[i].title && same_blocks(
            r[i].blocks,
            ss[i].blocks,
        ) by {
            if i < a.len() {
                assert(r[i] == renumbered(a)[i]);
                assert(renumbered(a)[i].title == a[i].title);
                assert(a[i] == ss[i]);
            } else {
                assert(ss[i] == ss.last());
            }
        }
    }
}

/// The first heading of some blocks does not depend on their ids.
proof fn lemma_first_heading_same(x: Seq<BlockView>, y: Seq<BlockView>)
    requires
        same_blocks(x, y),
    ensures
        first_heading(x) == first_heading(y),
    decreases x.len(),
{
    if x.len() > 0 {
        assert(x[0].kind == y[0].kind && x[0].content == y[0].content);
        assert(same_blocks(x.drop_first(), y.drop_first())) by {
            assert forall|j: int| #![trigger x.drop_first()[j]] 0 <= j < x.drop_first().len() implies x.drop_first()[j].kind
                == y.drop_first()[j].kind && x.drop_first()[j].content == y.drop_first()[j].content by {
                assert(x.drop_first()[j] == x[j + 1]);
                assert(y.drop_first()[j] == y[j + 1]);
            }
        }
        lemma_first_heading_same(x.drop_first(), y.drop_first());
    }
}

/// The Markdown of some blocks does not depend on their ids.
proof fn lemma_blocks_md_same(x: Seq<BlockView>, y: Seq<BlockView>)
    requires
        same_blocks(x, y),
    ensures
        blocks_md(x) == blocks_md(y),
    decreases x.len(),
{
    if x.len() > 0 {
        assert(x[x.len() - 1].kind == y[y.len() - 1].kind && x[x.len() - 1].content == y[y.len() - 1].content);
        assert(x.last() == x[x.len() - 1]);
        assert(y.last() == y[y.len() - 1]);
        assert(block_md(x.last()) == block_md(y.last()));
        assert(same_blocks(x.drop_last(), y.drop_last())) by {
            assert forall|j: int| #![trigger x.drop_last()[j]] 0 <= j < x.drop_last().len() implies x.drop_last()[j].kind
                == y.drop_last()[j].kind && x.drop_last()[j].content == y.drop_last()[j].content by {
                assert(x.drop_last()[j] == x[j]);
                assert(y.drop_last()[j] == y[j]);
            }
        }
        lemma_blocks_md_same(x.drop_last(), y.drop_last());
    }
}

/// The Markdown of some slides depends only on the titles written for them and the
/// Markdown of their blocks.
proof fn lemma_slides_md_same(x: Seq<SlideView>, y: Seq<SlideView>)
    requires
        x.len() == y.len(),
        forall|i: int| #![trigger x[i]] 0 <= i < x.len() ==> effective_title(x[i], i as nat) == effective_title(y[i], i as nat)
            && blocks_md(x[i].blocks) == blocks_md(y[i].blocks),
    ensures
        slides_md(x) == slides_md(y),
    decreases x.len(),
{
    if x.len() > 0 {
        let k = x.len() - 1;
        assert(x.last() == x[k]);
        assert(y.last() == y[k]);
        assert(effective_title(x[k], k as nat) == effective_title(y[k], k as nat));
        assert(slide_md(x.last(), k as nat) == slide_md(y.last(), k as nat));
        assert forall|i: int| #![trigger x.drop_last()[i]] 0 <= i < x.drop_last().len() implies effective_title(
            x.drop_last()[i],
            i as nat,
        ) == effective_title(y.drop_last()[i], i as nat) && blocks_md(x.drop_last()[i].blocks) == blocks_md(
            y.drop_last()[i].blocks,
        ) by {
            assert(x.drop_last()[i] == x[i]);
            assert(y.drop_last()[i] == y[i]);
        }
        lemma_slides_md_same(x.drop_last(), y.drop_last());
    }
}

/// A slide's default title is not blank.
proof fn lemma_numbered_title_nonblank(idx: nat)
    ensures
        trim_s(numbered_title(idx)).len() > 0,
{
    reveal_strlit("Slide ");
    assert(numbered_title(idx)[0] == 'S');
    lemma_trim_nonblank(numbered_title(idx), 0);
}

/// A slide that carries the title written for it is written with that title again.
proof fn lemma_title_again(sl: SlideView, q: SlideView, idx: nat)
    requires
        q.title == effective_title(sl, idx),
        same_blocks(q.blocks, sl.blocks),
    ensures
        effective_title(q, idx) == effective_title(sl, idx),
{
    lemma_first_heading_same(q.blocks, sl.blocks);
    lemma_numbered_title_nonblank(idx);
}

/// Writing again what was read back gives the same text: for the presentations that
/// [`doc_ok`] describes, reading back what `serialize` writes gives a presentation whose
/// Markdown is that text again.
pub proof fn law_write_after_read_back(p: PresentationView)
    requires
        doc_ok(p),
    ensures
        deserialize_s(serialize_s(p)) is Some,
        serialize_s(deserialize_s(serialize_s(p)).unwrap()) == serialize_s(p),
{
    law_read_back_written(p);
    let ts = titled(p.slides);
    let qs = renumbered(ts);
    lemma_renumbered_shape(ts);
    assert forall|i: int| #![trigger qs[i]] 0 <= i < qs.len() implies effective_title(qs[i], i as nat) == effective_title(
        p.slides[i],
        i as nat,
    ) && blocks_md(qs[i].blocks) == blocks_md(p.slides[i].blocks) by {
        assert(qs[i].title == ts[i].title);
        assert(same_blocks(qs[i].blocks, ts[i].blocks));
        assert(ts[i].blocks == p.slides[i].blocks);
        lemma_title_again(p.slides[i], qs[i], i as nat);
        lemma_blocks_md_same(qs[i].blocks, p.slides[i].blocks);
    }
    lemma_slides_md_same(qs, p.slides);
}

} // verus!
