//! The Kitty graphics protocol: which terminals speak it, and the escape sequences that
//! show a PNG image in terminal cells (the image travels base64-encoded, in chunks).
use base64::Engine;
use vstd::prelude::*;
use crate::text::{decimal, extend_chars, push_decimal, push_str, string_from, chars_of};

verus! {

// ───────────────────────────── detection ─────────────────────────────

/// `c` with ASCII capitals made small.
pub open spec fn ascii_lower(c: char) -> char {
    if 'A' <= c && c <= 'Z' {
        ((c as u32) + 32) as char
    } else {
        c
    }
}

pub open spec fn lower_s(s: Seq<char>) -> Seq<char> {
    s.map_values(|c: char| ascii_lower(c))
}

/// Whether `needle` occurs in `hay`.
pub open spec fn contains_s(hay: Seq<char>, needle: Seq<char>) -> bool {
    exists|i: int| 0 <= i <= hay.len() - needle.len() && #[trigger] hay.subrange(i, i + needle.len()) == needle
}

fn to_ascii_lower(s: &str) -> (r: Vec<char>)
    ensures
        r@ == lower_s(s@),
{
    let cs = chars_of(s);
    let mut out: Vec<char> = Vec::new();
    let mut i: usize = 0;
    while i < cs.len()
        invariant
            i <= cs@.len(),
            cs@ == s@,
            out@ == lower_s(cs@.take(i as int)),
        decreases cs@.len() - i,
    {
        let c = cs[i];
        let l = if 'A' <= c && c <= 'Z' {
            let b: u8 = ((c as u32) + 32) as u8;
            b as char
        } else {
            c
        };
        out.push(l);
        i = i + 1;
        assert(out@ =~= lower_s(cs@.take(i as int)));
    }
    assert(cs@.take(i as int) =~= cs@);
    out
}

fn contains(hay: &[char], needle: &str) -> (r: bool)
    ensures
        r == contains_s(hay@, needle@),
{
    let n = chars_of(needle);
    if n.len() > hay.len() {
        return false;
    }
    let hl = hay.len();
    let mut i: usize = 0;
    while i <= hl - n.len()
        invariant
            hl == hay@.len(),
            n@ == needle@,
            n@.len() <= hay@.len(),
            i <= hay@.len() - n@.len() + 1,
            forall|j: int| 0 <= j < i ==> #[trigger] hay@.subrange(j, j + n@.len()) != n@,
        decreases hay@.len() - n@.len() + 1 - i,
    {
        let mut k: usize = 0;
        let mut same = true;
        assert(hay@.subrange(i as int, i as int) =~= n@.take(0));
        while k < n.len()
            invariant
                hl == hay@.len(),
                n@.len() <= hay@.len(),
                i + n@.len() <= hay@.len(),
                k <= n@.len(),
                same == (hay@.subrange(i as int, i + k) == n@.take(k as int)),
            decreases n@.len() - k,
        {
            if hay[i + k] != n[k] {
                same = false;
            }
            proof {
                assert(hay@.subrange(i as int, i + k + 1) =~= hay@.subrange(i as int, i + k).push(hay@[i + k]));
                assert(n@.take(k + 1) =~= n@.take(k as int).push(n@[k as int]));
                if !same {
                    assert(hay@.subrange(i as int, i + k + 1) != n@.take(k + 1)) by {
                        if hay@.subrange(i as int, i + k) != n@.take(k as int) {
                            assert(hay@.subrange(i as int, i + k + 1).take(k as int) =~= hay@.subrange(i as int, i + k));
                            assert(n@.take(k + 1).take(k as int) =~= n@.take(k as int));
                        } else {
                            assert(hay@.subrange(i as int, i + k + 1)[k as int] == hay@[i + k]);
                        }
                    }
                }
            }
            k = k + 1;
        }
        assert(n@.take(k as int) =~= n@);
        if same {
            return true;
        }
        i = i + 1;
    }
    false
}

/// Whether a terminal with these `TERM` and `TERM_PROGRAM` values shows Kitty graphics:
/// Ghostty and Kitty (named in either, in any case), or WezTerm (named as the program).
pub open spec fn supports_kgp_s(term: Option<Seq<char>>, program: Option<Seq<char>>) -> bool {
    (term matches Some(t) && (contains_s(lower_s(t), "ghostty"@) || contains_s(lower_s(t), "kitty"@)))
        || (program matches Some(p) && (contains_s(lower_s(p), "ghostty"@) || contains_s(
        lower_s(p),
        "kitty"@,
    ) || contains_s(lower_s(p), "wezterm"@)))
}

/// Decides from `TERM` and `TERM_PROGRAM` (`None` where unset) whether the terminal shows
/// Kitty graphics.
pub fn supports_kgp(term: Option<&str>, program: Option<&str>) -> (r: bool)
    ensures
        r == supports_kgp_s(
            match term {
                Some(t) => Some(t@),
                None => None,
            },
            match program {
                Some(p) => Some(p@),
                None => None,
            },
        ),
{
    if let Some(t) = term {
        let l = to_ascii_lower(t);
        if contains(l.as_slice(), "ghostty") || contains(l.as_slice(), "kitty") {
            return true;
        }
    }
    if let Some(p) = program {
        let l = to_ascii_lower(p);
        if contains(l.as_slice(), "ghostty") || contains(l.as_slice(), "kitty") || contains(
            l.as_slice(),
            "wezterm",
        ) {
            return true;
        }
    }
    false
}

/// The line that reports whether Kitty graphics are used, with the terminal's names.
pub fn capability_text(supported: bool, term: &str, program: &str) -> (r: String)
    ensures
        r@ == if supported {
            "KGP supported (TERM="@ + term@ + ", TERM_PROGRAM="@ + program@ + ")"@
        } else {
            "KGP not supported (fallback to Ratatui)"@
        },
{
    let mut out: Vec<char> = Vec::new();
    if supported {
        push_str(&mut out, "KGP supported (TERM=");
        push_str(&mut out, term);
        push_str(&mut out, ", TERM_PROGRAM=");
        push_str(&mut out, program);
        push_str(&mut out, ")");
    } else {
        push_str(&mut out, "KGP not supported (fallback to Ratatui)");
    }
    string_from(out.as_slice())
}

// ───────────────────────────── the escape sequences ─────────────────────────────

/// The character of a six-bit value in the standard base64 alphabet.
pub open spec fn b64_digit(v: int) -> char {
    if v < 26 {
        (65 + v) as char
    } else if v < 52 {
        (97 + v - 26) as char
    } else if v < 62 {
        (48 + v - 52) as char
    } else if v == 62 {
        '+'
    } else {
        '/'
    }
}

/// The base64 text of some bytes, with the standard alphabet and padding: every three
/// bytes become four characters, six bits each, and a last group of one or two bytes is
/// padded with `=` to four characters.
pub open spec fn base64_standard(data: Seq<u8>) -> Seq<char>
    decreases data.len(),
{
    if data.len() == 0 {
        seq![]
    } else if data.len() == 1 {
        let a = data[0] as int;
        seq![b64_digit(a / 4), b64_digit((a % 4) * 16), '=', '=']
    } else if data.len() == 2 {
        let a = data[0] as int;
        let b = data[1] as int;
        seq![b64_digit(a / 4), b64_digit((a % 4) * 16 + b / 16), b64_digit((b % 16) * 4), '=']
    } else {
        let a = data[0] as int;
        let b = data[1] as int;
        let c = data[2] as int;
        seq![b64_digit(a / 4), b64_digit((a % 4) * 16 + b / 16), b64_digit((b % 16) * 4 + c / 64), b64_digit(c % 64)]
            + base64_standard(data.skip(3))
    }
}

/// Base64 text is four ASCII characters for every three bytes or part of them.
pub proof fn lemma_base64_shape(data: Seq<u8>)
    ensures
        base64_standard(data).len() == (data.len() + 2) / 3 * 4,
        forall|i: int| 0 <= i < base64_standard(data).len() ==> (#[trigger] base64_standard(data)[i] as u32) < 128,
    decreases data.len(),
{
    if data.len() >= 3 {
        lemma_base64_shape(data.skip(3));
        let r = base64_standard(data);
        let rest = base64_standard(data.skip(3));
        assert forall|i: int| 0 <= i < r.len() implies (#[trigger] r[i] as u32) < 128 by {
            if i >= 4 {
                assert(r[i] == rest[i - 4]);
            }
        }
    }
}

/// `base64::engine::general_purpose::STANDARD.encode`: the standard-alphabet, padded base64
/// text of `data`. It panics when the length of that text overflows `usize`.
#[verifier::external_body]
fn encode_base64(data: &[u8]) -> (r: String)
    requires
        (data@.len() + 2) / 3 * 4 <= usize::MAX,
    ensures
        r@ == base64_standard(data@),
{
    base64::engine::general_purpose::STANDARD.encode(data)
}

/// `s` cut into pieces of `n` characters (the last may be shorter).
pub open spec fn chunks_of(s: Seq<char>, n: nat) -> Seq<Seq<char>>
    decreases s.len(),
{
    if s.len() == 0 || n == 0 {
        seq![]
    } else if s.len() <= n {
        seq![s]
    } else {
        seq![s.take(n as int)] + chunks_of(s.skip(n as int), n)
    }
}

/// The transfer command of one chunk: the first one carries the whole header (transmit and
/// display a PNG as image 1, quietly, over `cols` × `rows` cells when both are set), every
/// one says whether more follow.
pub open spec fn chunk_command_s(chunk: Seq<char>, first: bool, last: bool, cols: u16, rows: u16) -> Seq<char> {
    let m: Seq<char> = if last {
        "0"@
    } else {
        "1"@
    };
    let head: Seq<char> = if first {
        if cols > 0 && rows > 0 {
            "a=T,f=100,i=1,q=2,c="@ + decimal(cols as nat) + ",r="@ + decimal(rows as nat) + ",m="@ + m
        } else {
            "a=T,f=100,i=1,q=2,m="@ + m
        }
    } else {
        "m="@ + m
    };
    "\x1b_G"@ + head + ";"@ + chunk + "\x1b\\"@
}

/// The transfer commands of the first `k` of the chunks `cs`.
pub open spec fn chunk_commands_s(cs: Seq<Seq<char>>, k: int, cols: u16, rows: u16) -> Seq<char>
    decreases k,
{
    if k <= 0 {
        seq![]
    } else {
        chunk_commands_s(cs, k - 1, cols, rows) + chunk_command_s(
            cs[k - 1],
            k - 1 == 0,
            k - 1 == cs.len() - 1,
            cols,
            rows,
        )
    }
}

/// What is written to show the base64 image `encoded` with its top left corner at cell
/// (`x`, `y`): a cursor move, then the image in chunks of 4096 characters.
pub open spec fn display_sequence_s(encoded: Seq<char>, x: u16, y: u16, cols: u16, rows: u16) -> Seq<char> {
    let cs = chunks_of(encoded, 4096);
    "\x1b["@ + decimal((y + 1) as nat) + ";"@ + decimal((x + 1) as nat) + "H"@ + chunk_commands_s(
        cs,
        cs.len() as int,
        cols,
        rows,
    )
}

/// Cuts `s` into pieces of at most `n` characters.
fn split_chunks(s: &[char], n: usize) -> (r: Vec<Vec<char>>)
    requires
        n > 0,
    ensures
        crate::text::views(r@) == chunks_of(s@, n as nat),
{
    let mut out: Vec<Vec<char>> = Vec::new();
    let mut start: usize = 0;
    assert(s@.skip(0) =~= s@);
    while start < s.len()
        invariant
            n > 0,
            start <= s@.len(),
            crate::text::views(out@) + chunks_of(s@.skip(start as int), n as nat) == chunks_of(s@, n as nat),
        decreases s@.len() - start,
    {
        let rest = s.len() - start;
        let end: usize = if rest <= n {
            s.len()
        } else {
            start + n
        };
        let piece = crate::text::slice_of(s, start, end);
        let ghost before = crate::text::views(out@);
        let ghost tail = s@.skip(start as int);
        out.push(piece);
        assert(crate::text::views(out@) =~= before.push(piece@));
        if rest <= n {
            assert(piece@ =~= tail);
            assert(s@.skip(end as int).len() == 0);
            assert(chunks_of(s@.skip(end as int), n as nat) =~= Seq::<Seq<char>>::empty());
        } else {
            assert(piece@ =~= tail.take(n as int));
            assert(tail.skip(n as int) =~= s@.skip(end as int));
        }
        start = end;
    }
    assert(s@.skip(start as int).len() == 0);
    assert(chunks_of(s@.skip(start as int), n as nat) =~= Seq::<Seq<char>>::empty());
    assert(crate::text::views(out@) + Seq::<Seq<char>>::empty() =~= crate::text::views(out@));
    out
}

/// The escape sequence that shows the base64 image `encoded` at cell (`x`, `y`) over
/// `cols` × `rows` cells (both zero: the terminal decides).
pub fn display_sequence(encoded: &str, x: u16, y: u16, cols: u16, rows: u16) -> (r: String)
    requires
        x < u16::MAX,
        y < u16::MAX,
    ensures
        r@ == display_sequence_s(encoded@, x, y, cols, rows),
{
    let mut out: Vec<char> = Vec::new();
    push_str(&mut out, "\x1b[");
    push_decimal(&mut out, (y + 1) as u64);
    push_str(&mut out, ";");
    push_decimal(&mut out, (x + 1) as u64);
    push_str(&mut out, "H");
    let ghost prefix = out@;
    let chars = chars_of(encoded);
    let cs = split_chunks(chars.as_slice(), 4096);
    let ghost csv = crate::text::views(cs@);
    let total = cs.len();
    let mut i: usize = 0;
    while i < total
        invariant
            total == cs@.len(),
            csv == crate::text::views(cs@),
            csv == chunks_of(encoded@, 4096),
            i <= total,
            out@ == prefix + chunk_commands_s(csv, i as int, cols, rows),
        decreases total - i,
    {
        let last = i == total - 1;
        push_str(&mut out, "\x1b_G");
        if i == 0 {
            push_str(&mut out, "a=T,f=100,i=1,q=2,");
            if cols > 0 && rows > 0 {
                push_str(&mut out, "c=");
                push_decimal(&mut out, cols as u64);
                push_str(&mut out, ",r=");
                push_decimal(&mut out, rows as u64);
                push_str(&mut out, ",");
            }
        }
        push_str(&mut out, "m=");
        push_str(&mut out, if last {
            "0"
        } else {
            "1"
        });
        push_str(&mut out, ";");
        extend_chars(&mut out, cs[i].as_slice());
        push_str(&mut out, "\x1b\\");
        proof {
            reveal_strlit("\x1b_G");
            reveal_strlit("a=T,f=100,i=1,q=2,");
            reveal_strlit("a=T,f=100,i=1,q=2,c=");
            reveal_strlit("a=T,f=100,i=1,q=2,m=");
            reveal_strlit("c=");
            reveal_strlit(",r=");
            reveal_strlit(",");
            reveal_strlit(",m=");
            reveal_strlit("m=");
            reveal_strlit(";");
            reveal_strlit("0");
            reveal_strlit("1");
            reveal_strlit("\x1b\\");
            assert(csv[i as int] == cs@[i as int]@);
            assert(out@ =~= prefix + chunk_commands_s(csv, i + 1, cols, rows));
        }
        i = i + 1;
    }
    proof {
        reveal_strlit("\x1b[");
        reveal_strlit(";");
        reveal_strlit("H");
    }
    string_from(out.as_slice())
}

/// The escape sequence that shows the PNG image `png` at cell (`x`, `y`) over `cols` ×
/// `rows` cells.
pub fn png_display_sequence(png: &[u8], x: u16, y: u16, cols: u16, rows: u16) -> (r: String)
    requires
        x < u16::MAX,
        y < u16::MAX,
        (png@.len() + 2) / 3 * 4 <= usize::MAX,
    ensures
        r@ == display_sequence_s(base64_standard(png@), x, y, cols, rows),
{
    let encoded = encode_base64(png);
    display_sequence(encoded.as_str(), x, y, cols, rows)
}

/// The base64 text in which a PNG frame travels.
pub fn encode_frame(png: &[u8]) -> (r: String)
    requires
        (png@.len() + 2) / 3 * 4 <= usize::MAX,
    ensures
        r@ == base64_standard(png@),
        r@.len() == (png@.len() + 2) / 3 * 4,
{
    proof {
        lemma_base64_shape(png@);
    }
    encode_base64(png)
}

/// The escape sequence that deletes image 1 (the one shown).
pub const CLEAR_IMAGE: &'static str = "\x1b_Ga=d,d=I,i=1,q=2;\x1b\\";

} // verus!
