//! What `serialize` writes, line by line: the lines of each block and slide, which
//! presentations the Markdown format carries unchanged, and how the section splitter and
//! the directive reader see those lines.
use vstd::prelude::*;
use crate::markdown::{attrs_from, attrs_of, escape_char, skip_aws, apply_directive, blocks_md, block_md, comment_directive, crlf_to_lf, fence_close, fence_info, fenced_block, flush_pending, flush_text, heading, is_reveal_directive, lemma_fence_close, push_text, sections, slide_run, split_run, strip_fences, with_block, SlideState, effective_title, escape_s, fenced, heading_marks, serialize_s, slide_md, slides_md};
use crate::meta_law::{law_quoted_value_round_trip, lemma_key_end_run, lemma_token_end_run, lemma_trim_spaced, lemma_word_len, lemma_crlf_prefix, lemma_escape_plain, lemma_lines_first, lemma_trim_kept, meta_line, plain_char, plain_text};
use crate::model::{BlockView, KindView, PresentationView, SlideView};
use crate::text::{
    decimal, has_prefix, has_suffix, is_ascii_ws, is_ws, join_nl, lines, lines_from, strip_cr,
    trim_end_s, trim_s, trim_start_s, words, words_from,
};

verus! {

// ───────────────────────────── lines ─────────────────────────────

/// Lines, each followed by a line feed.
pub open spec fn unlines(ls: Seq<Seq<char>>) -> Seq<char>
    decreases ls.len(),
{
    if ls.len() == 0 {
        seq![]
    } else {
        unlines(ls.drop_last()) + ls.last().push('\n')
    }
}

/// A line holds neither a line feed nor a carriage return.
pub open spec fn flat(l: Seq<char>) -> bool {
    forall|i: int| 0 <= i < l.len() ==> #[trigger] l[i] != '\n' && l[i] != '\r'
}

pub open spec fn all_flat(ls: Seq<Seq<char>>) -> bool {
    forall|i: int| 0 <= i < ls.len() ==> flat(#[trigger] ls[i])
}

pub(crate) proof fn lemma_unlines_concat(a: Seq<Seq<char>>, b: Seq<Seq<char>>)
    ensures
        unlines(a + b) == unlines(a) + unlines(b),
    decreases b.len(),
{
    if b.len() == 0 {
        assert(a + b =~= a);
        assert(unlines(b) =~= Seq::<char>::empty());
        assert(unlines(a) + unlines(b) =~= unlines(a));
    } else {
        assert((a + b).drop_last() =~= a + b.drop_last());
        lemma_unlines_concat(a, b.drop_last());
        assert(unlines(a + b) =~= unlines(a) + unlines(b));
    }
}

pub(crate) proof fn lemma_unlines_one(x: Seq<char>)
    ensures
        unlines(seq![x]) == x.push('\n'),
{
    assert(seq![x].drop_last() =~= Seq::<Seq<char>>::empty());
    assert(unlines(Seq::<Seq<char>>::empty()) == Seq::<char>::empty());
    assert(unlines(seq![x]) =~= x.push('\n'));
}

/// A flat text is one line.
proof fn lemma_lines_from_flat(cur: Seq<char>, rest: Seq<char>)
    requires
        flat(rest),
    ensures
        lines_from(cur, rest) == if cur.len() + rest.len() == 0 {
            Seq::<Seq<char>>::empty()
        } else {
            seq![cur + rest]
        },
    decreases rest.len(),
{
    if rest.len() == 0 {
        assert(cur + rest =~= cur);
    } else {
        assert(rest[0] != '\n');
        assert(flat(rest.drop_first())) by {
            assert forall|i: int| 0 <= i < rest.drop_first().len() implies #[trigger] rest.drop_first()[i] != '\n'
                && rest.drop_first()[i] != '\r' by {
                assert(rest.drop_first()[i] == rest[i + 1]);
            }
        }
        lemma_lines_from_flat(cur.push(rest[0]), rest.drop_first());
        assert(cur.push(rest[0]) + rest.drop_first() =~= cur + rest);
    }
}

/// Reading the lines of lines written one per line gives them back, followed by the
/// lines of what comes after.
pub(crate) proof fn lemma_lines_unlines_then(ls: Seq<Seq<char>>, x: Seq<char>)
    requires
        all_flat(ls),
        flat(x),
    ensures
        lines(unlines(ls) + x) == ls + (if x.len() == 0 {
            Seq::<Seq<char>>::empty()
        } else {
            seq![x]
        }),
    decreases ls.len(),
{
    if ls.len() == 0 {
        assert(unlines(ls) + x =~= x);
        lemma_lines_from_flat(seq![], x);
        assert(seq![] + x =~= x);
        assert(ls + (if x.len() == 0 { Seq::<Seq<char>>::empty() } else { seq![x] }) =~= (if x.len() == 0 { Seq::<Seq<char>>::empty() } else { seq![x] }));
    } else {
        let first = ls[0];
        let rest = ls.drop_first();
        assert(ls =~= seq![first] + rest);
        lemma_unlines_concat(seq![first], rest);
        lemma_unlines_one(first);
        assert(flat(first));
        assert(all_flat(rest)) by {
            assert forall|i: int| 0 <= i < rest.len() implies flat(#[trigger] rest[i]) by {
                assert(rest[i] == ls[i + 1]);
            }
        }
        let tail = unlines(rest) + x;
        assert(unlines(ls) + x =~= first + seq!['\n'] + tail);
        assert forall|i: int| 0 <= i < first.len() implies #[trigger] first[i] != '\n' by {}
        lemma_lines_first(seq![], first, tail);
        assert(seq![] + first =~= first);
        assert(first.len() == 0 || first.last() != '\r');
        assert(strip_cr(first) == first);
        lemma_lines_unlines_then(rest, x);
        assert(lines(unlines(ls) + x) =~= ls + (if x.len() == 0 { Seq::<Seq<char>>::empty() } else { seq![x] }));
    }
}

pub(crate) proof fn lemma_lines_unlines(ls: Seq<Seq<char>>)
    requires
        all_flat(ls),
    ensures
        lines(unlines(ls)) == ls,
{
    lemma_lines_unlines_then(ls, seq![]);
    assert(unlines(ls) + Seq::<char>::empty() =~= unlines(ls));
    assert(ls + Seq::<Seq<char>>::empty() =~= ls);
}

/// Lines joined with line feeds are the lines but the last one written one per line, then
/// the last one.
pub(crate) proof fn lemma_join_nl_unlines(ls: Seq<Seq<char>>)
    requires
        ls.len() > 0,
    ensures
        join_nl(ls) == unlines(ls.drop_last()) + ls.last(),
    decreases ls.len(),
{
    if ls.len() == 1 {
        assert(ls.drop_last() =~= Seq::<Seq<char>>::empty());
        assert(unlines(ls.drop_last()) + ls.last() =~= ls[0]);
    } else {
        lemma_join_nl_unlines(ls.drop_last());
        let a = ls.drop_last();
        assert(a.drop_last() =~= ls.drop_last().drop_last());
        assert(unlines(a) == unlines(a.drop_last()) + a.last().push('\n'));
        assert(join_nl(ls) =~= unlines(ls.drop_last()) + ls.last());
    }
}

/// Without carriage returns, normalizing line ends changes nothing.
pub(crate) proof fn lemma_crlf_none(s: Seq<char>)
    requires
        forall|i: int| 0 <= i < s.len() ==> #[trigger] s[i] != '\r',
    ensures
        crlf_to_lf(s) == s,
{
    lemma_crlf_prefix(s, seq![]);
    assert(s + Seq::<char>::empty() =~= s);
    assert(crlf_to_lf(Seq::<char>::empty()) == Seq::<char>::empty());
}

// ───────────────────────────── the lines that are written ─────────────────────────────

/// A text that is written and read back line by line unchanged: no carriage return, and no
/// line feed at its end.
pub open spec fn text_ok(c: Seq<char>) -> bool {
    &&& forall|i: int| 0 <= i < c.len() ==> #[trigger] c[i] != '\r'
    &&& (c.len() == 0 || c.last() != '\n')
}

/// The lines of code inside a fence: one empty line for no code.
pub open spec fn code_body(c: Seq<char>) -> Seq<Seq<char>> {
    if c.len() == 0 {
        seq![seq![]]
    } else {
        lines(c)
    }
}

pub open spec fn fence_lines(open: Seq<char>, c: Seq<char>) -> Seq<Seq<char>> {
    seq![open] + code_body(c) + seq!["```"@]
}

pub open spec fn exec_directive(lang: Seq<char>, sig: Option<Seq<char>>) -> Seq<char> {
    "<!-- slidecli:block type=exec lang=\""@ + escape_s(lang) + "\""@ + match sig {
        Some(s) => " sig=\""@ + escape_s(s) + "\""@,
        None => Seq::<char>::empty(),
    } + " -->"@
}

pub open spec fn output_directive() -> Seq<char> {
    "<!-- slidecli:block type=output -->"@
}

pub open spec fn separator_directive() -> Seq<char> {
    "<!-- slidecli:block type=separator -->"@
}

pub open spec fn slide_directive(title: Seq<char>) -> Seq<char> {
    "<!-- slidecli:slide title=\""@ + escape_s(title) + "\" -->"@
}

/// The lines written for one block.
pub open spec fn block_lines(b: BlockView) -> Seq<Seq<char>> {
    match b.kind {
        KindView::Heading { level } => seq![heading_marks(level) + " "@ + b.content],
        KindView::Text => lines(b.content),
        KindView::Code { lang } => fence_lines("```"@ + lang, b.content),
        KindView::Exec { lang, signature } => seq![exec_directive(lang, signature)] + fence_lines(
            "```"@ + lang,
            b.content,
        ),
        KindView::OutputPlaceholder => seq![output_directive()] + (if b.content.len() == 0 {
            Seq::<Seq<char>>::empty()
        } else {
            fence_lines("```text"@, b.content)
        }),
        KindView::Separator => seq![separator_directive()],
    }
}

/// The lines written for some blocks, an empty line between two blocks.
pub open spec fn blocks_lines(bs: Seq<BlockView>) -> Seq<Seq<char>>
    decreases bs.len(),
{
    if bs.len() == 0 {
        seq![]
    } else {
        blocks_lines(bs.drop_last()) + (if bs.len() > 1 {
            seq![seq![]]
        } else {
            Seq::<Seq<char>>::empty()
        }) + block_lines(bs.last())
    }
}

pub open spec fn slide_lines(sl: SlideView, idx: nat) -> Seq<Seq<char>> {
    seq![slide_directive(effective_title(sl, idx)), seq![]] + blocks_lines(sl.blocks)
}

pub open spec fn rule_lines() -> Seq<Seq<char>> {
    seq![seq![], "---"@, seq![]]
}

pub open spec fn slides_lines(ss: Seq<SlideView>) -> Seq<Seq<char>>
    decreases ss.len(),
{
    if ss.len() == 0 {
        seq![]
    } else {
        slides_lines(ss.drop_last()) + (if ss.len() > 1 {
            rule_lines()
        } else {
            Seq::<Seq<char>>::empty()
        }) + slide_lines(ss.last(), (ss.len() - 1) as nat)
    }
}

/// The lines that `serialize` writes.
pub open spec fn doc_lines(p: PresentationView) -> Seq<Seq<char>> {
    seq![meta_line(p), seq![]] + slides_lines(p.slides)
}

/// The content that a block writes can be written line by line.
pub open spec fn block_text_ok(b: BlockView) -> bool {
    match b.kind {
        KindView::Text => text_ok(b.content) && b.content.len() > 0,
        KindView::Code { .. } => text_ok(b.content),
        KindView::Exec { .. } => text_ok(b.content),
        KindView::OutputPlaceholder => text_ok(b.content),
        _ => true,
    }
}

pub(crate) proof fn lemma_unlines_lines_from(cur: Seq<char>, rest: Seq<char>)
    requires
        flat(cur),
        forall|i: int| 0 <= i < rest.len() ==> #[trigger] rest[i] != '\r',
        rest.len() > 0 ==> rest.last() != '\n',
        cur.len() + rest.len() > 0,
    ensures
        unlines(lines_from(cur, rest)) == cur + rest + seq!['\n'],
    decreases rest.len(),
{
    if rest.len() == 0 {
        lemma_unlines_one(cur);
        assert(cur + rest + seq!['\n'] =~= cur.push('\n'));
    } else if rest[0] == '\n' {
        let r2 = rest.drop_first();
        assert(r2.len() > 0);
        assert(r2.last() == rest.last());
        assert(cur.len() == 0 || cur.last() != '\r');
        assert(strip_cr(cur) == cur);
        lemma_unlines_lines_from(seq![], r2);
        lemma_unlines_concat(seq![cur], lines_from(seq![], r2));
        lemma_unlines_one(cur);
        assert(seq![] + r2 =~= r2);
        assert(cur + rest + seq!['\n'] =~= cur.push('\n') + (r2 + seq!['\n']));
    } else {
        let c2 = cur.push(rest[0]);
        assert(flat(c2)) by {
            assert forall|i: int| 0 <= i < c2.len() implies #[trigger] c2[i] != '\n' && c2[i] != '\r' by {
                if i < cur.len() {
                    assert(c2[i] == cur[i]);
                }
            }
        }
        let r2 = rest.drop_first();
        if r2.len() > 0 {
            assert(r2.last() == rest.last());
        }
        lemma_unlines_lines_from(c2, r2);
        assert(c2 + r2 =~= cur + rest);
    }
}

/// A nonempty text without carriage returns or a final line feed is its lines, written one
/// per line.
pub(crate) proof fn lemma_unlines_lines(c: Seq<char>)
    requires
        text_ok(c),
        c.len() > 0,
    ensures
        unlines(lines(c)) == c.push('\n'),
{
    lemma_unlines_lines_from(seq![], c);
    assert(seq![] + c + seq!['\n'] =~= c.push('\n'));
}

proof fn lemma_fenced(c: Seq<char>)
    requires
        text_ok(c),
    ensures
        fenced(c) == unlines(code_body(c) + seq!["```"@]),
{
    reveal_strlit("```\n");
    reveal_strlit("```");
    reveal_strlit("\n");
    lemma_unlines_concat(code_body(c), seq!["```"@]);
    lemma_unlines_one("```"@);
    if c.len() == 0 {
        lemma_unlines_one(seq![]);
        assert(fenced(c) =~= unlines(code_body(c) + seq!["```"@]));
    } else {
        lemma_unlines_lines(c);
        assert(fenced(c) =~= unlines(code_body(c) + seq!["```"@]));
    }
}

proof fn lemma_fence_block(open: Seq<char>, c: Seq<char>)
    requires
        text_ok(c),
    ensures
        open + "\n"@ + fenced(c) == unlines(fence_lines(open, c)),
{
    reveal_strlit("\n");
    lemma_fenced(c);
    lemma_unlines_one(open);
    lemma_unlines_concat(seq![open], code_body(c) + seq!["```"@]);
    assert(fence_lines(open, c) =~= seq![open] + (code_body(c) + seq!["```"@]));
    assert(open + "\n"@ + fenced(c) =~= unlines(fence_lines(open, c)));
}

proof fn lemma_block_md(b: BlockView)
    requires
        block_text_ok(b),
    ensures
        block_md(b) == unlines(block_lines(b)),
{
    reveal_strlit("\n");
    reveal_strlit(" ");
    reveal_strlit(" -->\n");
    reveal_strlit(" -->");
    reveal_strlit("<!-- slidecli:block type=output -->\n");
    reveal_strlit("<!-- slidecli:block type=output -->");
    reveal_strlit("<!-- slidecli:block type=separator -->\n");
    reveal_strlit("<!-- slidecli:block type=separator -->");
    reveal_strlit("```text\n");
    reveal_strlit("```text");
    reveal_strlit("```");
    match b.kind {
        KindView::Heading { level } => {
            lemma_unlines_one(heading_marks(level) + " "@ + b.content);
            assert(block_md(b) =~= unlines(block_lines(b)));
        },
        KindView::Text => {
            lemma_unlines_lines(b.content);
            assert(block_md(b) =~= unlines(block_lines(b)));
        },
        KindView::Code { lang } => {
            lemma_fence_block("```"@ + lang, b.content);
            assert(block_md(b) =~= unlines(block_lines(b)));
        },
        KindView::Exec { lang, signature } => {
            lemma_fence_block("```"@ + lang, b.content);
            let d = exec_directive(lang, signature);
            lemma_unlines_one(d);
            lemma_unlines_concat(seq![d], fence_lines("```"@ + lang, b.content));
            assert(block_md(b) =~= unlines(block_lines(b)));
        },
        KindView::OutputPlaceholder => {
            lemma_unlines_one(output_directive());
            if b.content.len() == 0 {
                assert(seq![output_directive()] + Seq::<Seq<char>>::empty() =~= seq![output_directive()]);
                assert(block_md(b) =~= unlines(block_lines(b)));
            } else {
                lemma_fence_block("```text"@, b.content);
                lemma_unlines_concat(seq![output_directive()], fence_lines("```text"@, b.content));
                assert(block_md(b) =~= unlines(block_lines(b)));
            }
        },
        KindView::Separator => {
            lemma_unlines_one(separator_directive());
            assert(block_md(b) =~= unlines(block_lines(b)));
        },
    }
}

proof fn lemma_blocks_md(bs: Seq<BlockView>)
    requires
        forall|i: int| 0 <= i < bs.len() ==> block_text_ok(#[trigger] bs[i]),
    ensures
        blocks_md(bs) == unlines(blocks_lines(bs)),
    decreases bs.len(),
{
    if bs.len() > 0 {
        lemma_blocks_md(bs.drop_last());
        lemma_block_md(bs.last());
        let sep = if bs.len() > 1 {
            seq![seq![]]
        } else {
            Seq::<Seq<char>>::empty()
        };
        lemma_unlines_concat(blocks_lines(bs.drop_last()) + sep, block_lines(bs.last()));
        lemma_unlines_concat(blocks_lines(bs.drop_last()), sep);
        lemma_unlines_one(seq![]);
        reveal_strlit("\n");
        assert(blocks_md(bs) =~= unlines(blocks_lines(bs)));
    }
}

/// What `serialize` writes is the lines of [`doc_lines`], one per line.
pub(crate) proof fn lemma_serialize_lines(p: PresentationView)
    requires
        forall|i: int, j: int|
            0 <= i < p.slides.len() && 0 <= j < p.slides[i].blocks.len() ==> block_text_ok(
                #[trigger] p.slides[i].blocks[j],
            ),
    ensures
        serialize_s(p) == unlines(doc_lines(p)),
{
    lemma_slides_md(p.slides);
    reveal_strlit("<!-- slidecli:presentation font=\"");
    reveal_strlit("\" font-size=");
    reveal_strlit(" -->\n\n");
    reveal_strlit(" -->");
    lemma_unlines_one(meta_line(p));
    lemma_unlines_one(seq![]);
    lemma_unlines_concat(seq![meta_line(p)], seq![seq![]]);
    lemma_unlines_concat(seq![meta_line(p), seq![]], slides_lines(p.slides));
    assert(seq![meta_line(p)] + seq![seq![]] =~= seq![meta_line(p), seq![]]);
    assert(serialize_s(p) =~= unlines(doc_lines(p)));
}

proof fn lemma_slides_md(ss: Seq<SlideView>)
    requires
        forall|i: int, j: int|
            0 <= i < ss.len() && 0 <= j < ss[i].blocks.len() ==> block_text_ok(#[trigger] ss[i].blocks[j]),
    ensures
        slides_md(ss) == unlines(slides_lines(ss)),
    decreases ss.len(),
{
    if ss.len() > 0 {
        let a = ss.drop_last();
        assert forall|i: int, j: int|
            0 <= i < a.len() && 0 <= j < a[i].blocks.len() implies block_text_ok(#[trigger] a[i].blocks[j]) by {
            assert(a[i] == ss[i]);
        }
        lemma_slides_md(a);
        let sl = ss.last();
        let idx = (ss.len() - 1) as nat;
        assert forall|j: int| 0 <= j < sl.blocks.len() implies block_text_ok(#[trigger] sl.blocks[j]) by {
            assert(ss[ss.len() - 1] == sl);
        }
        lemma_blocks_md(sl.blocks);
        reveal_strlit("<!-- slidecli:slide title=\"");
        reveal_strlit("\" -->\n\n");
        reveal_strlit("\" -->");
        reveal_strlit("\n---\n\n");
        reveal_strlit("---");
        let d = slide_directive(effective_title(sl, idx));
        lemma_unlines_one(d);
        lemma_unlines_one(seq![]);
        lemma_unlines_concat(seq![d], seq![seq![]]);
        assert(seq![d] + seq![seq![]] =~= seq![d, seq![]]);
        lemma_unlines_concat(seq![d, seq![]], blocks_lines(sl.blocks));
        assert(slide_md(sl, idx) =~= unlines(slide_lines(sl, idx)));
        let sep = if ss.len() > 1 {
            rule_lines()
        } else {
            Seq::<Seq<char>>::empty()
        };
        if ss.len() > 1 {
            lemma_unlines_one("---"@);
            lemma_unlines_concat(seq![seq![]], seq!["---"@]);
            lemma_unlines_concat(seq![seq![]] + seq!["---"@], seq![seq![]]);
            assert(seq![seq![]] + seq!["---"@] + seq![seq![]] =~= rule_lines());
            assert(unlines(rule_lines()) =~= "\n---\n\n"@);
        }
        lemma_unlines_concat(slides_lines(a) + sep, slide_lines(sl, idx));
        lemma_unlines_concat(slides_lines(a), sep);
        assert(slides_md(ss) =~= unlines(slides_lines(ss)));
    }
}

// ───────────────────────────── slide sections ─────────────────────────────

/// Whether a line opens or closes a code fence for the section splitter.
pub open spec fn fence_mark(l: Seq<char>) -> bool {
    has_prefix(trim_s(l), "```"@)
}

/// Lines that the section splitter passes over without splitting, from fence state `f`;
/// and the fence state after them.
pub open spec fn no_rule(ls: Seq<Seq<char>>, f: bool) -> bool
    decreases ls.len(),
{
    if ls.len() == 0 {
        true
    } else {
        let f2 = if fence_mark(ls[0]) {
            !f
        } else {
            f
        };
        !(!f2 && trim_s(ls[0]) == "---"@) && no_rule(ls.drop_first(), f2)
    }
}

pub open spec fn fence_after(ls: Seq<Seq<char>>, f: bool) -> bool
    decreases ls.len(),
{
    if ls.len() == 0 {
        f
    } else {
        fence_after(ls.drop_first(), if fence_mark(ls[0]) {
            !f
        } else {
            f
        })
    }
}

/// Lines that leave the splitter outside a fence and hold no rule outside one.
pub open spec fn quiet(ls: Seq<Seq<char>>) -> bool {
    no_rule(ls, false) && !fence_after(ls, false)
}

/// Over lines that hold no rule, the splitter only collects them.
proof fn lemma_split_over(ls: Seq<Seq<char>>, i: int, c: Seq<Seq<char>>, secs: Seq<Seq<char>>, cur: Seq<Seq<char>>, f: bool)
    requires
        0 <= i,
        i + c.len() <= ls.len(),
        ls.subrange(i, i + c.len()) == c,
        no_rule(c, f),
    ensures
        split_run(ls, i, secs, cur, f) == split_run(ls, i + c.len(), secs, cur + c, fence_after(c, f)),
    decreases c.len(),
{
    if c.len() == 0 {
        assert(cur + c =~= cur);
    } else {
        assert(ls[i] == c[0]);
        let f2 = if fence_mark(c[0]) {
            !f
        } else {
            f
        };
        assert(ls.subrange(i + 1, i + c.len()) =~= c.drop_first());
        lemma_split_over(ls, i + 1, c.drop_first(), secs, cur.push(c[0]), f2);
        assert(cur.push(c[0]) + c.drop_first() =~= cur + c);
    }
}

proof fn lemma_no_rule_concat(a: Seq<Seq<char>>, b: Seq<Seq<char>>, f: bool)
    ensures
        no_rule(a + b, f) == (no_rule(a, f) && no_rule(b, fence_after(a, f))),
        fence_after(a + b, f) == fence_after(b, fence_after(a, f)),
    decreases a.len(),
{
    if a.len() == 0 {
        assert(a + b =~= b);
    } else {
        assert((a + b)[0] == a[0]);
        assert((a + b).drop_first() =~= a.drop_first() + b);
        let f2 = if fence_mark(a[0]) {
            !f
        } else {
            f
        };
        lemma_no_rule_concat(a.drop_first(), b, f2);
    }
}

pub(crate) proof fn lemma_quiet_concat(a: Seq<Seq<char>>, b: Seq<Seq<char>>)
    requires
        quiet(a),
        quiet(b),
    ensures
        quiet(a + b),
{
    lemma_no_rule_concat(a, b, false);
}

/// A line that is not a fence mark and not a rule is quiet.
pub(crate) proof fn lemma_quiet_line(l: Seq<char>)
    requires
        !fence_mark(l),
        trim_s(l) != "---"@,
    ensures
        quiet(seq![l]),
{
    assert(seq![l].drop_first() =~= Seq::<Seq<char>>::empty());
    reveal_with_fuel(no_rule, 2);
    reveal_with_fuel(fence_after, 2);
}

/// A fence: an opening mark, lines that are no marks, a closing mark.
pub(crate) proof fn lemma_quiet_fence(open: Seq<char>, body: Seq<Seq<char>>)
    requires
        fence_mark(open),
        fence_mark("```"@),
        forall|k: int| 0 <= k < body.len() ==> !fence_mark(#[trigger] body[k]),
    ensures
        quiet(seq![open] + body + seq!["```"@]),
{
    lemma_inside_fence(body);
    let l = seq![open] + body + seq!["```"@];
    lemma_no_rule_concat(seq![open], body + seq!["```"@], false);
    assert(l =~= seq![open] + (body + seq!["```"@]));
    assert(seq![open].drop_first() =~= Seq::<Seq<char>>::empty());
    lemma_no_rule_concat(body, seq!["```"@], true);
    assert(seq!["```"@].drop_first() =~= Seq::<Seq<char>>::empty());
    reveal_with_fuel(no_rule, 2);
    reveal_with_fuel(fence_after, 2);
    reveal_strlit("```");
    reveal_strlit("---");
    assert(trim_s("```"@) == "```"@) by {
        lemma_trim_kept("```"@);
    }
    assert(no_rule(seq![open], false));
    assert(fence_after(seq![open], false));
    assert(no_rule(seq!["```"@], true));
    assert(!fence_after(seq!["```"@], true));
}

proof fn lemma_inside_fence(body: Seq<Seq<char>>)
    requires
        forall|k: int| 0 <= k < body.len() ==> !fence_mark(#[trigger] body[k]),
    ensures
        no_rule(body, true),
        fence_after(body, true),
    decreases body.len(),
{
    if body.len() > 0 {
        assert(!fence_mark(body[0]));
        assert forall|k: int| 0 <= k < body.drop_first().len() implies !fence_mark(#[trigger] body.drop_first()[k]) by {
            assert(body.drop_first()[k] == body[k + 1]);
        }
        lemma_inside_fence(body.drop_first());
    }
}

// ───────────────────────────── what can be carried ─────────────────────────────

/// A line of a text block that reads back as text: not blank, no directive but a reveal
/// marker, no fence, no heading, no rule.
pub open spec fn text_line_ok(l: Seq<char>) -> bool {
    let t = trim_s(l);
    &&& t.len() > 0
    &&& (comment_directive(t) is None || is_reveal_directive(comment_directive(t).unwrap().0))
    &&& !has_prefix(t, "```"@)
    &&& heading(t) is None
    &&& t != "---"@
}

/// Code that reads back from inside a fence: no line of it looks like a fence mark.
pub open spec fn code_ok(c: Seq<char>) -> bool {
    &&& text_ok(c)
    &&& forall|k: int| 0 <= k < code_body(c).len() ==> !fence_mark(#[trigger] code_body(c)[k])
}

/// A fence language that reads back: one word that says nothing else to the fence parser.
pub open spec fn lang_ok(lang: Seq<char>) -> bool {
    &&& lang.len() > 0
    &&& forall|i: int| 0 <= i < lang.len() ==> !is_ws(#[trigger] lang[i])
    &&& !has_prefix(lang, "```"@)
    &&& lang != "exec"@
    &&& !has_prefix(lang, "sig="@)
    &&& !has_prefix(lang, "sig:"@)
}

/// A heading that reads back: level 1 to 3, text on one line that neither starts nor ends
/// with whitespace.
pub open spec fn heading_ok(level: u8, c: Seq<char>) -> bool {
    &&& 1 <= level <= 3
    &&& c.len() > 0
    &&& flat(c)
    &&& !is_ws(c[0])
    &&& !is_ws(c.last())
}

pub open spec fn block_ok(b: BlockView) -> bool {
    match b.kind {
        KindView::Heading { level } => heading_ok(level, b.content),
        KindView::Text => text_ok(b.content) && b.content.len() > 0 && forall|k: int|
            0 <= k < lines(b.content).len() ==> text_line_ok(#[trigger] lines(b.content)[k]),
        KindView::Code { lang } => lang_ok(lang) && code_ok(b.content),
        KindView::Exec { lang, signature } => lang_ok(lang) && plain_text(lang) && code_ok(b.content) && (
        signature matches Some(sg) ==> plain_text(sg)),
        KindView::OutputPlaceholder => b.content.len() == 0 || code_ok(b.content),
        KindView::Separator => b.content.len() == 0,
    }
}

pub open spec fn empty_output(b: BlockView) -> bool {
    b.kind is OutputPlaceholder && b.content.len() == 0
}

/// Blocks that read back: each can be carried, and no empty output area is followed by a
/// code block (whose fence would read as what the area shows).
pub open spec fn blocks_ok(bs: Seq<BlockView>) -> bool {
    &&& forall|i: int| 0 <= i < bs.len() ==> block_ok(#[trigger] bs[i])
    &&& forall|i: int|
        0 <= i < bs.len() - 1 && empty_output(#[trigger] bs[i]) ==> !(bs[i + 1].kind is Code)
}

/// A presentation that reads back: at least one slide, a font name on one line, slide titles on
/// one line, and blocks that can be carried.
pub open spec fn doc_ok(p: PresentationView) -> bool {
    &&& p.slides.len() > 0
    &&& plain_text(p.font_name)
    &&& forall|i: int|
        0 <= i < p.slides.len() ==> blocks_ok(#[trigger] p.slides[i].blocks) && flat(
            effective_title(p.slides[i], i as nat),
        )
}

/// Plain text is flat.
pub(crate) proof fn lemma_plain_flat(s: Seq<char>)
    requires
        plain_text(s),
    ensures
        flat(s),
{
    assert forall|i: int| 0 <= i < s.len() implies #[trigger] s[i] != '\n' && s[i] != '\r' by {
        assert(plain_char(s[i]));
    }
}

proof fn lemma_lines_from_flat_all(cur: Seq<char>, rest: Seq<char>)
    requires
        flat(cur),
        forall|i: int| 0 <= i < rest.len() ==> #[trigger] rest[i] != '\r',
    ensures
        all_flat(lines_from(cur, rest)),
    decreases rest.len(),
{
    if rest.len() == 0 {
    } else if rest[0] == '\n' {
        lemma_lines_from_flat_all(seq![], rest.drop_first());
        assert(cur.len() == 0 || cur.last() != '\r');
        assert(strip_cr(cur) == cur);
        let r = lines_from(cur, rest);
        assert(r == seq![cur] + lines_from(seq![], rest.drop_first()));
        assert forall|i: int| 0 <= i < r.len() implies flat(#[trigger] r[i]) by {
            if i > 0 {
                assert(r[i] == lines_from(seq![], rest.drop_first())[i - 1]);
            }
        }
    } else {
        let c2 = cur.push(rest[0]);
        assert(flat(c2)) by {
            assert forall|i: int| 0 <= i < c2.len() implies #[trigger] c2[i] != '\n' && c2[i] != '\r' by {
                if i < cur.len() {
                    assert(c2[i] == cur[i]);
                }
            }
        }
        lemma_lines_from_flat_all(c2, rest.drop_first());
    }
}

/// The lines of a text without carriage returns are flat.
pub(crate) proof fn lemma_lines_flat(c: Seq<char>)
    requires
        forall|i: int| 0 <= i < c.len() ==> #[trigger] c[i] != '\r',
    ensures
        all_flat(lines(c)),
{
    lemma_lines_from_flat_all(seq![], c);
}

/// Lines that are neither fence marks nor rules are quiet.
proof fn lemma_quiet_plain(ls: Seq<Seq<char>>)
    requires
        forall|k: int| 0 <= k < ls.len() ==> !fence_mark(#[trigger] ls[k]) && trim_s(ls[k]) != "---"@,
    ensures
        quiet(ls),
    decreases ls.len(),
{
    if ls.len() == 0 {
    } else {
        let a = ls.drop_last();
        assert forall|k: int| 0 <= k < a.len() implies !fence_mark(#[trigger] a[k]) && trim_s(a[k]) != "---"@ by {
            assert(a[k] == ls[k]);
        }
        lemma_quiet_plain(a);
        lemma_quiet_line(ls.last());
        lemma_quiet_concat(a, seq![ls.last()]);
        assert(a + seq![ls.last()] =~= ls);
    }
}

pub(crate) proof fn lemma_flat_concat(a: Seq<char>, b: Seq<char>)
    requires
        flat(a),
        flat(b),
    ensures
        flat(a + b),
{
    assert forall|i: int| 0 <= i < (a + b).len() implies #[trigger] (a + b)[i] != '\n' && (a + b)[i] != '\r' by {
        if i < a.len() {
            assert((a + b)[i] == a[i]);
        } else {
            assert((a + b)[i] == b[i - a.len()]);
        }
    }
}

pub(crate) proof fn lemma_all_flat_concat(a: Seq<Seq<char>>, b: Seq<Seq<char>>)
    requires
        all_flat(a),
        all_flat(b),
    ensures
        all_flat(a + b),
{
    assert forall|i: int| 0 <= i < (a + b).len() implies flat(#[trigger] (a + b)[i]) by {
        if i < a.len() {
            assert((a + b)[i] == a[i]);
        } else {
            assert((a + b)[i] == b[i - a.len()]);
        }
    }
}

/// Escaping a flat text keeps it flat.
pub(crate) proof fn lemma_escape_flat(s: Seq<char>)
    requires
        flat(s),
    ensures
        flat(escape_s(s)),
    decreases s.len(),
{
    if s.len() > 0 {
        let a = s.drop_last();
        assert(flat(a)) by {
            assert forall|i: int| 0 <= i < a.len() implies #[trigger] a[i] != '\n' && a[i] != '\r' by {
                assert(a[i] == s[i]);
            }
        }
        lemma_escape_flat(a);
        assert(s[s.len() - 1] == s.last());
        let e = escape_char(s.last());
        assert(flat(e));
        lemma_flat_concat(escape_s(a), e);
    }
}

/// A line that starts with `<` and ends with `>` is neither a fence mark nor a rule.
pub(crate) proof fn lemma_tag_line_quiet(l: Seq<char>)
    requires
        l.len() > 0,
        l[0] == '<',
        l.last() == '>',
    ensures
        quiet(seq![l]),
        trim_s(l) == l,
{
    lemma_trim_kept(l);
    reveal_strlit("```");
    reveal_strlit("---");
    if l.len() >= 3 {
        assert(l.take(3)[0] == l[0]);
    }
    assert(l[0] != "---"@[0]);
    lemma_quiet_line(l);
}

pub(crate) proof fn lemma_exec_directive_flat(lang: Seq<char>, sig: Option<Seq<char>>)
    requires
        plain_text(lang),
        sig matches Some(s) ==> plain_text(s),
    ensures
        flat(exec_directive(lang, sig)),
        exec_directive(lang, sig)[0] == '<',
        exec_directive(lang, sig).last() == '>',
{
    reveal_strlit("<!-- slidecli:block type=exec lang=\"");
    reveal_strlit("\"");
    reveal_strlit(" sig=\"");
    reveal_strlit(" -->");
    lemma_plain_flat(lang);
    lemma_escape_flat(lang);
    let a = "<!-- slidecli:block type=exec lang=\""@ + escape_s(lang) + "\""@;
    lemma_flat_concat("<!-- slidecli:block type=exec lang=\""@, escape_s(lang));
    lemma_flat_concat("<!-- slidecli:block type=exec lang=\""@ + escape_s(lang), "\""@);
    let m = match sig {
        Some(s) => " sig=\""@ + escape_s(s) + "\""@,
        None => Seq::<char>::empty(),
    };
    if let Some(sg) = sig {
        lemma_plain_flat(sg);
        lemma_escape_flat(sg);
        lemma_flat_concat(" sig=\""@, escape_s(sg));
        lemma_flat_concat(" sig=\""@ + escape_s(sg), "\""@);
    }
    lemma_flat_concat(a, m);
    lemma_flat_concat(a + m, " -->"@);
    assert(exec_directive(lang, sig) == a + m + " -->"@);
}

pub(crate) proof fn lemma_open_fence(lang: Seq<char>)
    requires
        lang_ok(lang),
    ensures
        fence_mark("```"@ + lang),
        flat("```"@ + lang),
        trim_s("```"@ + lang) == "```"@ + lang,
{
    reveal_strlit("```");
    let o = "```"@ + lang;
    assert(o[0] == '`');
    assert(o.last() == lang.last());
    assert(!is_ws(lang[lang.len() - 1]));
    lemma_trim_kept(o);
    assert(o.take(3) =~= "```"@);
    assert(flat(lang)) by {
        assert forall|i: int| 0 <= i < lang.len() implies #[trigger] lang[i] != '\n' && lang[i] != '\r' by {
            assert(!is_ws(lang[i]));
        }
    }
    lemma_flat_concat("```"@, lang);
}

pub(crate) proof fn lemma_code_lines(c: Seq<char>)
    requires
        text_ok(c),
    ensures
        all_flat(code_body(c)),
        all_flat(seq!["```"@]),
{
    reveal_strlit("```");
    if c.len() > 0 {
        lemma_lines_flat(c);
    }
}

pub(crate) proof fn lemma_close_fence()
    ensures
        fence_mark("```"@),
        trim_s("```"@) == "```"@,
        flat("```"@),
{
    reveal_strlit("```");
    lemma_trim_kept("```"@);
    assert("```"@.take(3) =~= "```"@);
}

/// The lines written for a block that can be carried are flat and quiet.
pub(crate) proof fn lemma_block_lines_ok(b: BlockView)
    requires
        block_ok(b),
    ensures
        all_flat(block_lines(b)),
        quiet(block_lines(b)),
{
    reveal_strlit("```");
    reveal_strlit("---");
    reveal_strlit(" ");
    lemma_close_fence();
    match b.kind {
        KindView::Heading { level } => {
            reveal_strlit("#");
            reveal_strlit("##");
            reveal_strlit("###");
            let h = heading_marks(level) + " "@ + b.content;
            assert(h[0] == '#');
            assert(h.last() == b.content.last());
            lemma_trim_kept(h);
            assert(h.take(3)[0] == '#');
            lemma_quiet_line(h);
            lemma_flat_concat(heading_marks(level), " "@);
            lemma_flat_concat(heading_marks(level) + " "@, b.content);
        },
        KindView::Text => {
            lemma_lines_flat(b.content);
            lemma_quiet_plain(lines(b.content));
        },
        KindView::Code { lang } => {
            lemma_open_fence(lang);
            lemma_code_lines(b.content);
            lemma_quiet_fence("```"@ + lang, code_body(b.content));
            lemma_all_flat_concat(seq!["```"@ + lang], code_body(b.content));
            lemma_all_flat_concat(seq!["```"@ + lang] + code_body(b.content), seq!["```"@]);
        },
        KindView::Exec { lang, signature } => {
            lemma_open_fence(lang);
            lemma_code_lines(b.content);
            lemma_quiet_fence("```"@ + lang, code_body(b.content));
            lemma_all_flat_concat(seq!["```"@ + lang], code_body(b.content));
            lemma_all_flat_concat(seq!["```"@ + lang] + code_body(b.content), seq!["```"@]);
            lemma_exec_directive_flat(lang, signature);
            let d = exec_directive(lang, signature);
            lemma_tag_line_quiet(d);
            lemma_quiet_concat(seq![d], fence_lines("```"@ + lang, b.content));
            lemma_all_flat_concat(seq![d], fence_lines("```"@ + lang, b.content));
        },
        KindView::OutputPlaceholder => {
            reveal_strlit("<!-- slidecli:block type=output -->");
            lemma_tag_line_quiet(output_directive());
            if b.content.len() > 0 {
                reveal_strlit("```text");
                let o = "```text"@;
                assert(o[0] == '`');
                lemma_trim_kept(o);
                assert(o.take(3) =~= "```"@);
                lemma_code_lines(b.content);
                lemma_quiet_fence(o, code_body(b.content));
                lemma_all_flat_concat(seq![o], code_body(b.content));
                lemma_all_flat_concat(seq![o] + code_body(b.content), seq!["```"@]);
                lemma_quiet_concat(seq![output_directive()], fence_lines(o, b.content));
                lemma_all_flat_concat(seq![output_directive()], fence_lines(o, b.content));
            } else {
                assert(block_lines(b) =~= seq![output_directive()]);
            }
        },
        KindView::Separator => {
            reveal_strlit("<!-- slidecli:block type=separator -->");
            lemma_tag_line_quiet(separator_directive());
        },
    }
}

/// The empty line is flat and quiet.
pub(crate) proof fn lemma_blank_line()
    ensures
        flat(Seq::<char>::empty()),
        quiet(seq![Seq::<char>::empty()]),
        trim_s(Seq::<char>::empty()) == Seq::<char>::empty(),
        !fence_mark(Seq::<char>::empty()),
{
    reveal_strlit("```");
    reveal_strlit("---");
    lemma_quiet_line(Seq::<char>::empty());
}

pub(crate) proof fn lemma_blocks_lines_ok(bs: Seq<BlockView>)
    requires
        forall|i: int| 0 <= i < bs.len() ==> block_ok(#[trigger] bs[i]),
    ensures
        all_flat(blocks_lines(bs)),
        quiet(blocks_lines(bs)),
    decreases bs.len(),
{
    if bs.len() > 0 {
        let a = bs.drop_last();
        assert forall|i: int| 0 <= i < a.len() implies block_ok(#[trigger] a[i]) by {
            assert(a[i] == bs[i]);
        }
        lemma_blocks_lines_ok(a);
        lemma_block_lines_ok(bs.last());
        lemma_blank_line();
        let sep = if bs.len() > 1 {
            seq![Seq::<char>::empty()]
        } else {
            Seq::<Seq<char>>::empty()
        };
        assert(all_flat(sep));
        assert(quiet(sep)) by {
            if bs.len() <= 1 {
                assert(sep =~= Seq::<Seq<char>>::empty());
            }
        }
        lemma_quiet_concat(blocks_lines(a), sep);
        lemma_quiet_concat(blocks_lines(a) + sep, block_lines(bs.last()));
        lemma_all_flat_concat(blocks_lines(a), sep);
        lemma_all_flat_concat(blocks_lines(a) + sep, block_lines(bs.last()));
    } else {
        assert(blocks_lines(bs) =~= Seq::<Seq<char>>::empty());
    }
}

pub(crate) proof fn lemma_slide_directive(t: Seq<char>)
    requires
        flat(t),
    ensures
        flat(slide_directive(t)),
        quiet(seq![slide_directive(t)]),
        trim_s(slide_directive(t)) == slide_directive(t),
{
    reveal_strlit("<!-- slidecli:slide title=\"");
    reveal_strlit("\" -->");
    lemma_escape_flat(t);
    lemma_flat_concat("<!-- slidecli:slide title=\""@, escape_s(t));
    lemma_flat_concat("<!-- slidecli:slide title=\""@ + escape_s(t), "\" -->"@);
    lemma_tag_line_quiet(slide_directive(t));
}

pub(crate) proof fn lemma_slide_lines_ok(sl: SlideView, idx: nat)
    requires
        blocks_ok(sl.blocks),
        flat(effective_title(sl, idx)),
    ensures
        all_flat(slide_lines(sl, idx)),
        quiet(slide_lines(sl, idx)),
{
    lemma_slide_directive(effective_title(sl, idx));
    lemma_blocks_lines_ok(sl.blocks);
    lemma_blank_line();
    let d = slide_directive(effective_title(sl, idx));
    lemma_quiet_concat(seq![d], seq![Seq::<char>::empty()]);
    assert(seq![d] + seq![Seq::<char>::empty()] =~= seq![d, Seq::<char>::empty()]);
    lemma_quiet_concat(seq![d, Seq::<char>::empty()], blocks_lines(sl.blocks));
    assert(all_flat(seq![d, Seq::<char>::empty()]));
    lemma_all_flat_concat(seq![d, Seq::<char>::empty()], blocks_lines(sl.blocks));
}

pub(crate) proof fn lemma_meta_line_ok(p: PresentationView)
    requires
        plain_text(p.font_name),
    ensures
        flat(meta_line(p)),
        quiet(seq![meta_line(p)]),
{
    reveal_strlit("<!-- slidecli:presentation font=\"");
    reveal_strlit("\" font-size=");
    reveal_strlit(" -->");
    lemma_plain_flat(p.font_name);
    lemma_escape_flat(p.font_name);
    crate::meta_law::lemma_decimal(p.font_size as nat);
    let dec = decimal(p.font_size as nat);
    assert(flat(dec)) by {
        assert forall|i: int| 0 <= i < dec.len() implies #[trigger] dec[i] != '\n' && dec[i] != '\r' by {
            assert('0' <= dec[i] <= '9');
        }
    }
    let a = "<!-- slidecli:presentation font=\""@;
    lemma_flat_concat(a, escape_s(p.font_name));
    lemma_flat_concat(a + escape_s(p.font_name), "\" font-size="@);
    lemma_flat_concat(a + escape_s(p.font_name) + "\" font-size="@, dec);
    lemma_flat_concat(a + escape_s(p.font_name) + "\" font-size="@ + dec, " -->"@);
    lemma_tag_line_quiet(meta_line(p));
}

// ───────────────────────────── sections of the written text ─────────────────────────────

/// The lines of the section of slide `i`, without the blank line before the next rule.
pub open spec fn head_lines(p: PresentationView, i: int) -> Seq<Seq<char>> {
    (if i == 0 {
        seq![meta_line(p), seq![]]
    } else {
        seq![seq![]]
    }) + slide_lines(p.slides[i], i as nat)
}

/// The lines of the section of slide `i`.
pub open spec fn part_lines(p: PresentationView, i: int) -> Seq<Seq<char>> {
    head_lines(p, i) + (if i + 1 < p.slides.len() {
        seq![seq![]]
    } else {
        Seq::<Seq<char>>::empty()
    })
}

pub open spec fn expected_sections(p: PresentationView, n: int) -> Seq<Seq<char>> {
    Seq::new(n as nat, |i: int| join_nl(part_lines(p, i)))
}

proof fn lemma_slides_lines_take(ss: Seq<SlideView>, j: int)
    requires
        1 <= j < ss.len(),
    ensures
        slides_lines(ss.take(j + 1)) == slides_lines(ss.take(j)) + rule_lines() + slide_lines(ss[j], j as nat),
{
    assert(ss.take(j + 1).drop_last() =~= ss.take(j));
    assert(ss.take(j + 1).last() == ss[j]);
}

/// The lines written for the slides from `j` on, each after a rule.
pub open spec fn tail_lines(ss: Seq<SlideView>, j: int) -> Seq<Seq<char>>
    decreases ss.len() - j,
{
    if j < 0 || j >= ss.len() {
        seq![]
    } else {
        rule_lines() + slide_lines(ss[j], j as nat) + tail_lines(ss, j + 1)
    }
}

proof fn lemma_slides_split(ss: Seq<SlideView>, j: int)
    requires
        1 <= j <= ss.len(),
    ensures
        slides_lines(ss) == slides_lines(ss.take(j)) + tail_lines(ss, j),
    decreases ss.len() - j,
{
    if j == ss.len() {
        assert(ss.take(j) =~= ss);
        assert(slides_lines(ss) + tail_lines(ss, j) =~= slides_lines(ss));
    } else {
        lemma_slides_split(ss, j + 1);
        lemma_slides_lines_take(ss, j);
        assert(slides_lines(ss.take(j)) + tail_lines(ss, j) =~= slides_lines(ss.take(j + 1)) + tail_lines(ss, j + 1));
    }
}

pub(crate) proof fn lemma_sections(p: PresentationView)
    requires
        doc_ok(p),
    ensures
        sections(unlines(doc_lines(p))) == expected_sections(p, p.slides.len() as int),
        all_flat(doc_lines(p)),
{
    let ss = p.slides;
    let doc = doc_lines(p);
    let top = seq![meta_line(p), Seq::<char>::empty()];
    lemma_meta_line_ok(p);
    lemma_blank_line();
    lemma_quiet_concat(seq![meta_line(p)], seq![Seq::<char>::empty()]);
    assert(seq![meta_line(p)] + seq![Seq::<char>::empty()] =~= top);
    assert(all_flat(top));
    assert(ss.take(1).drop_last() =~= Seq::<SlideView>::empty());
    assert(ss.take(1).last() == ss[0]);
    assert(slides_lines(ss.take(1).drop_last()) == Seq::<Seq<char>>::empty());
    assert(slides_lines(ss.take(1)) =~= slide_lines(ss[0], 0));
    assert(blocks_ok(ss[0].blocks) && flat(effective_title(ss[0], 0)));
    lemma_slide_lines_ok(ss[0], 0);
    let c0 = top + slide_lines(ss[0], 0);
    lemma_quiet_concat(top, slide_lines(ss[0], 0));
    lemma_all_flat_concat(top, slide_lines(ss[0], 0));
    lemma_slides_split(ss, 1);
    assert(doc =~= c0 + tail_lines(ss, 1));
    assert(doc.subrange(0, c0.len() as int) =~= c0);
    lemma_split_over(doc, 0, c0, seq![], seq![], false);
    assert(Seq::<Seq<char>>::empty() + c0 =~= head_lines(p, 0));
    assert(expected_sections(p, 0) =~= Seq::<Seq<char>>::empty());
    lemma_sections_from(p, 1, c0);
    lemma_lines_unlines(doc);
}

#[verifier::rlimit(50)]
proof fn lemma_sections_from(p: PresentationView, j: int, pre: Seq<Seq<char>>)
    requires
        doc_ok(p),
        1 <= j <= p.slides.len(),
        doc_lines(p) == pre + tail_lines(p.slides, j),
        all_flat(pre),
    ensures
        split_run(doc_lines(p), pre.len() as int, expected_sections(p, j - 1), head_lines(p, j - 1), false)
            == expected_sections(p, p.slides.len() as int),
        all_flat(doc_lines(p)),
    decreases p.slides.len() - j,
{
    let ss = p.slides;
    let n = ss.len() as int;
    let doc = doc_lines(p);
    let pos = pre.len() as int;
    if j == n {
        assert(tail_lines(ss, j) =~= Seq::<Seq<char>>::empty());
        assert(doc =~= pre);
        assert(head_lines(p, n - 1) =~= part_lines(p, n - 1));
        assert(expected_sections(p, n - 1).push(join_nl(head_lines(p, n - 1))) =~= expected_sections(p, n));
    } else {
        let sl = slide_lines(ss[j], j as nat);
        let rest = tail_lines(ss, j + 1);
        assert(tail_lines(ss, j) == rule_lines() + sl + rest);
        assert(doc =~= pre + rule_lines() + sl + rest);
        assert(doc[pos] == Seq::<char>::empty());
        assert(doc[pos + 1] == "---"@);
        assert(doc[pos + 2] == Seq::<char>::empty());
        reveal_strlit("---");
        reveal_strlit("```");
        lemma_trim_kept("---"@);
        lemma_blank_line();
        let cur = head_lines(p, j - 1);
        let secs = expected_sections(p, j - 1);
        assert(split_run(doc, pos, secs, cur, false) == split_run(doc, pos + 1, secs, cur.push(Seq::<char>::empty()), false));
        assert(!fence_mark("---"@)) by {
            assert("---"@.take(3)[0] == '-');
        }
        assert(split_run(doc, pos + 1, secs, cur.push(Seq::<char>::empty()), false) == split_run(
            doc,
            pos + 2,
            secs.push(join_nl(cur.push(Seq::<char>::empty()))),
            seq![],
            false,
        ));
        assert(cur.push(Seq::<char>::empty()) =~= part_lines(p, j - 1));
        assert(secs.push(join_nl(cur.push(Seq::<char>::empty()))) =~= expected_sections(p, j));
        assert(split_run(doc, pos + 2, expected_sections(p, j), seq![], false) == split_run(
            doc,
            pos + 3,
            expected_sections(p, j),
            seq![Seq::<char>::empty()],
            false,
        ));
        assert(blocks_ok(ss[j].blocks) && flat(effective_title(ss[j], j as nat)));
        lemma_slide_lines_ok(ss[j], j as nat);
        assert(doc.subrange(pos + 3, pos + 3 + sl.len()) =~= sl);
        lemma_split_over(doc, pos + 3, sl, expected_sections(p, j), seq![Seq::<char>::empty()], false);
        assert(seq![Seq::<char>::empty()] + sl =~= head_lines(p, j));
        assert(all_flat(rule_lines()));
        let pre2 = pre + rule_lines() + sl;
        lemma_all_flat_concat(pre, rule_lines());
        lemma_all_flat_concat(pre + rule_lines(), sl);
        assert(doc =~= pre2 + rest);
        lemma_sections_from(p, j + 1, pre2);
    }
}

// ───────────────────────────── reading a section ─────────────────────────────

/// The lines of lines joined with line feeds: the same lines, but a final empty one.
pub(crate) proof fn lemma_lines_join(ls: Seq<Seq<char>>)
    requires
        all_flat(ls),
        ls.len() > 0,
    ensures
        lines(join_nl(ls)) == if ls.last().len() == 0 {
            ls.drop_last()
        } else {
            ls
        },
{
    lemma_join_nl_unlines(ls);
    let a = ls.drop_last();
    assert(all_flat(a)) by {
        assert forall|i: int| 0 <= i < a.len() implies flat(#[trigger] a[i]) by {
            assert(a[i] == ls[i]);
        }
    }
    assert(flat(ls.last()));
    lemma_lines_unlines_then(a, ls.last());
    if ls.last().len() == 0 {
        assert(a + Seq::<Seq<char>>::empty() =~= a);
    } else {
        assert(a + seq![ls.last()] =~= ls);
    }
}

proof fn lemma_fence_close_push(ls: Seq<Seq<char>>, j: int)
    requires
        0 <= j,
    ensures
        fence_close(ls.push(Seq::<char>::empty()), j) == if fence_close(ls, j) < ls.len() {
            fence_close(ls, j)
        } else {
            ls.len() + 1 as int
        },
    decreases ls.len() - j,
{
    let l2 = ls.push(Seq::<char>::empty());
    reveal_strlit("```");
    if j < ls.len() {
        assert(l2[j] == ls[j]);
        if trim_s(ls[j]) != "```"@ {
            lemma_fence_close_push(ls, j + 1);
        }
    } else if j == ls.len() {
        lemma_blank_line();
        assert(l2[j] == Seq::<char>::empty());
        assert(trim_s(l2[j]) != "```"@);
        assert(fence_close(l2, j + 1) == l2.len());
    }
}

/// A blank line at the end changes nothing that the slide parser makes.
pub(crate) proof fn lemma_run_blank_tail(ls: Seq<Seq<char>>, idx: int, st: SlideState)
    requires
        0 <= idx <= ls.len(),
    ensures
        slide_run(ls.push(Seq::<char>::empty()), idx, st) == slide_run(ls, idx, st),
    decreases ls.len() - idx,
{
    let l2 = ls.push(Seq::<char>::empty());
    lemma_blank_line();
    if idx == ls.len() {
        assert(l2[idx] == Seq::<char>::empty());
        assert(flush_text(flush_text(st)) == flush_text(st));
    } else {
        assert(l2[idx] == ls[idx]);
        let t = trim_s(ls[idx]);
        if t.len() == 0 {
            lemma_run_blank_tail(ls, idx + 1, flush_text(st));
        } else if comment_directive(t) is Some {
            let d = comment_directive(t).unwrap().0;
            let attrs = comment_directive(t).unwrap().1;
            if is_reveal_directive(d) {
                lemma_run_blank_tail(ls, idx + 1, push_text(flush_pending(st), ls[idx]));
            } else {
                lemma_run_blank_tail(ls, idx + 1, apply_directive(flush_text(st), d, attrs, ls[idx]));
            }
        } else if has_prefix(t, "```"@) {
            lemma_fence_close_push(ls, idx + 1);
            lemma_fence_close(ls, idx + 1);
            let end = fence_close(ls, idx + 1);
            if end < ls.len() {
                assert(l2.subrange(idx + 1, end) =~= ls.subrange(idx + 1, end));
                lemma_run_blank_tail(
                    ls,
                    end + 1,
                    fenced_block(flush_text(st), fence_info(trim_s(strip_fences(t))), join_nl(ls.subrange(idx + 1, end))),
                );
            }
        } else if heading(t) is Some {
            lemma_run_blank_tail(
                ls,
                idx + 1,
                with_block(flush_text(flush_pending(st)), KindView::Heading { level: heading(t).unwrap().0 }, heading(t).unwrap().1),
            );
        } else {
            lemma_run_blank_tail(ls, idx + 1, push_text(flush_pending(st), ls[idx]));
        }
    }
}

// ───────────────────────────── reading directives ─────────────────────────────

/// A `<!-- w a -->` line reads as the directive `w` with the attributes of `a`.
pub(crate) proof fn lemma_directive_line(w: Seq<char>, a: Seq<char>)
    requires
        w.len() > 0,
        forall|i: int| 0 <= i < w.len() ==> !is_ws(#[trigger] w[i]),
        has_prefix(w, "slidecli:"@),
        a.len() > 0,
        !is_ws(a[0]),
        !is_ws(a.last()),
    ensures
        comment_directive("<!-- "@ + w + " "@ + a + " -->"@) == Some((w, attrs_of(a))),
        trim_s("<!-- "@ + w + " "@ + a + " -->"@) == "<!-- "@ + w + " "@ + a + " -->"@,
{
    reveal_strlit("<!-- ");
    reveal_strlit(" ");
    reveal_strlit(" -->");
    reveal_strlit("<!--");
    reveal_strlit("-->");
    let t = "<!-- "@ + w + " "@ + a + " -->"@;
    let x = w + seq![' '] + a;
    assert(t =~= "<!--"@ + (seq![' '] + x + seq![' ']) + "-->"@);
    assert(t.take(4) =~= "<!--"@);
    assert(t.skip(4).skip(t.skip(4).len() - 3) =~= "-->"@);
    assert(t.subrange(4, t.len() - 3) =~= seq![' '] + x + seq![' ']);
    assert(x[0] == w[0]);
    assert(x.last() == a.last());
    lemma_trim_spaced(x);
    assert(x =~= w + (seq![' '] + a));
    lemma_word_len(w, seq![' '] + a);
    assert(x.take(w.len() as int) =~= w);
    assert(x.skip(w.len() as int) =~= seq![' '] + a);
    assert((seq![' '] + a).drop_first() =~= a);
    assert(trim_start_s(a) == a);
    assert(trim_start_s(seq![' '] + a) == trim_start_s((seq![' '] + a).drop_first()));
    assert(t[0] == '<');
    assert(t.last() == '>');
    lemma_trim_kept(t);
}

pub(crate) proof fn lemma_attrs_ws(s: Seq<char>, i: int)
    requires
        0 <= i < s.len(),
        is_ascii_ws(s[i]),
    ensures
        attrs_from(s, i) == attrs_from(s, i + 1),
{
}

pub(crate) proof fn lemma_attrs_end(s: Seq<char>)
    ensures
        attrs_from(s, s.len() as int) == Seq::<(Seq<char>, Seq<char>)>::empty(),
{
}

pub open spec fn key_ok(key: Seq<char>) -> bool {
    key.len() > 0 && forall|k: int| 0 <= k < key.len() ==> !is_ascii_ws(#[trigger] key[k]) && key[k] != '='
}

/// A `key="value"` attribute reads back.
pub(crate) proof fn lemma_attr_quoted(pre: Seq<char>, key: Seq<char>, val: Seq<char>, post: Seq<char>)
    requires
        key_ok(key),
    ensures
        attrs_from(pre + key + "=\""@ + escape_s(val) + "\""@ + post, pre.len() as int) == seq![(key, val)]
            + attrs_from(
            pre + key + "=\""@ + escape_s(val) + "\""@ + post,
            (pre.len() + key.len() + 2 + escape_s(val).len() + 1) as int,
        ),
{
    reveal_strlit("=\"");
    reveal_strlit("\"");
    let s = pre + key + "=\""@ + escape_s(val) + "\""@ + post;
    let i = pre.len() as int;
    let k = key.len() as int;
    assert(s[i] == key[0]);
    assert(skip_aws(s, i) == i);
    assert forall|m: int| i <= m < i + k implies !is_ascii_ws(#[trigger] s[m]) && s[m] != '=' by {
        assert(s[m] == key[m - i]);
    }
    assert(s[i + k] == '=');
    lemma_key_end_run(s, i, i + k);
    assert(s.subrange(i, i + k) =~= key);
    assert(skip_aws(s, i + k) == i + k);
    assert(s[i + k + 1] == '"');
    assert(skip_aws(s, i + k + 1) == i + k + 1);
    let pq = pre + key + "=\""@;
    assert(s =~= pq + escape_s(val) + seq!['"'] + post);
    law_quoted_value_round_trip(pq, val, post);
    assert(pq.len() == i + k + 2);
}

/// Any attribute written as `key="value"`, with the value escaped, reads back as that key
/// and value, whatever the value holds.
pub proof fn law_attribute_round_trip(key: Seq<char>, val: Seq<char>)
    requires
        key_ok(key),
    ensures
        attrs_of(key + "=\""@ + escape_s(val) + "\""@) == seq![(key, val)],
{
    reveal_strlit("=\"");
    reveal_strlit("\"");
    let z = Seq::<char>::empty();
    let a = key + "=\""@ + escape_s(val) + "\""@;
    assert(a =~= z + key + "=\""@ + escape_s(val) + "\""@ + z);
    lemma_attr_quoted(z, key, val, z);
    assert((z.len() + key.len() + 2 + escape_s(val).len() + 1) as int == a.len());
    lemma_attrs_end(a);
    assert(seq![(key, val)] + Seq::<(Seq<char>, Seq<char>)>::empty() =~= seq![(key, val)]);
}

/// A `key=value` attribute with an unquoted value reads back.
pub(crate) proof fn lemma_attr_token(pre: Seq<char>, key: Seq<char>, val: Seq<char>, post: Seq<char>)
    requires
        key_ok(key),
        val.len() > 0,
        forall|m: int| 0 <= m < val.len() ==> !is_ascii_ws(#[trigger] val[m]),
        val[0] != '"',
        post.len() == 0 || is_ascii_ws(post[0]),
    ensures
        attrs_from(pre + key + "="@ + val + post, pre.len() as int) == seq![(key, val)] + attrs_from(
            pre + key + "="@ + val + post,
            (pre.len() + key.len() + 1 + val.len()) as int,
        ),
{
    reveal_strlit("=");
    let s = pre + key + "="@ + val + post;
    let i = pre.len() as int;
    let k = key.len() as int;
    let c = i + k + 1;
    assert(s[i] == key[0]);
    assert(skip_aws(s, i) == i);
    assert forall|m: int| i <= m < i + k implies !is_ascii_ws(#[trigger] s[m]) && s[m] != '=' by {
        assert(s[m] == key[m - i]);
    }
    assert(s[i + k] == '=');
    lemma_key_end_run(s, i, i + k);
    assert(s.subrange(i, i + k) =~= key);
    assert(skip_aws(s, i + k) == i + k);
    assert(s[c] == val[0]);
    assert(skip_aws(s, c) == c);
    assert forall|m: int| c <= m < c + val.len() implies !is_ascii_ws(#[trigger] s[m]) by {
        assert(s[m] == val[m - c]);
    }
    if post.len() > 0 {
        assert(s[c + val.len()] == post[0]);
    }
    lemma_token_end_run(s, c, c + val.len());
    assert(s.subrange(c, c + val.len()) =~= val);
}

} // verus!
