//! Turning a slide into an RGBA canvas: the canvas size, line wrapping, and the lines and
//! rectangles drawn on the pixel buffer (four bytes a pixel, row after row), and the PNG
//! file a finished canvas is sent as.
use image::ImageEncoder;
use vstd::prelude::*;
use crate::model::copy_string;
use crate::text::{chars_of, lines, split_lines, string_from, views};

verus! {

/// The terminal area that a presentation frame covers, and the size of one cell.
#[derive(Debug, Clone, Copy)]
pub struct RenderConfig {
    /// Columns of the terminal, in cells.
    pub term_cols: u16,
    /// Rows of the terminal, in cells.
    pub term_rows: u16,
    /// Width of one cell in pixels (it depends on the terminal's font).
    pub cell_w: u16,
    /// Height of one cell in pixels.
    pub cell_h: u16,
}

impl RenderConfig {
    /// The canvas size in pixels: the terminal's cells times the cell size.
    pub fn canvas_px(&self) -> (r: (u32, u32))
        ensures
            r.0 == self.term_cols * self.cell_w,
            r.1 == self.term_rows * self.cell_h,
    {
        assert(self.term_cols * self.cell_w <= u32::MAX) by (nonlinear_arith)
            requires
                self.term_cols <= u16::MAX,
                self.cell_w <= u16::MAX,
        ;
        assert(self.term_rows * self.cell_h <= u32::MAX) by (nonlinear_arith)
            requires
                self.term_rows <= u16::MAX,
                self.cell_h <= u16::MAX,
        ;
        (
            (self.term_cols as u32) * (self.cell_w as u32),
            (self.term_rows as u32) * (self.cell_h as u32),
        )
    }
}

impl Default for RenderConfig {
    fn default() -> (r: RenderConfig)
        ensures
            r.term_cols == 120,
            r.term_rows == 36,
            r.cell_w == 8,
            r.cell_h == 16,
    {
        RenderConfig { term_cols: 120, term_rows: 36, cell_w: 8, cell_h: 16 }
    }
}

// ───────────────────────────── wrapping ─────────────────────────────

/// The cells a character takes: one for ASCII, two for anything else.
pub open spec fn char_cells(c: char) -> int {
    if (c as u32) < 128 {
        1
    } else {
        2
    }
}

/// The lines that `cs` adds to a line `cur` already `count` cells wide, breaking before a
/// character that would make a nonempty line wider than `max` cells.
pub open spec fn wrap_from(cs: Seq<char>, cur: Seq<char>, count: int, max: int) -> Seq<Seq<char>>
    decreases cs.len(),
{
    if cs.len() == 0 {
        if cur.len() > 0 {
            seq![cur]
        } else {
            seq![]
        }
    } else {
        let w = char_cells(cs[0]);
        if count + w > max && cur.len() > 0 {
            seq![cur] + wrap_from(cs.drop_first(), seq![cs[0]], w, max)
        } else {
            wrap_from(cs.drop_first(), cur.push(cs[0]), count + w, max)
        }
    }
}

/// `text` broken into lines of at most `max` cells (a single character wider than that
/// gets a line of its own); the empty text is one empty line.
pub open spec fn wrap_s(text: Seq<char>, max: int) -> Seq<Seq<char>> {
    if text.len() == 0 {
        seq![seq![]]
    } else {
        wrap_from(text, seq![], 0, max)
    }
}

/// The views of some strings.
pub open spec fn string_views(v: Seq<String>) -> Seq<Seq<char>> {
    v.map_values(|s: String| s@)
}

/// Breaks `text` into lines of at most `max_chars` cells, counting one cell for an ASCII
/// character and two for any other.
pub fn wrap_text(text: &str, max_chars: usize) -> (r: Vec<String>)
    ensures
        string_views(r@) == wrap_s(text@, max_chars as int),
{
    let cs = chars_of(text);
    wrap_chars(cs.as_slice(), max_chars)
}

/// [`wrap_text`] on the characters of a text.
pub fn wrap_chars(cs: &[char], max_chars: usize) -> (r: Vec<String>)
    ensures
        string_views(r@) == wrap_s(cs@, max_chars as int),
{
    if cs.len() == 0 {
        let mut r: Vec<String> = Vec::new();
        r.push(String::new());
        assert(string_views(r@) =~= seq![Seq::<char>::empty()]);
        return r;
    }
    let mut lines: Vec<String> = Vec::new();
    let mut current: Vec<char> = Vec::new();
    let mut count: usize = 0;
    let mut i: usize = 0;
    assert(cs@.skip(0) =~= cs@);
    while i < cs.len()
        invariant
            i <= cs@.len(),
            current@.len() == 0 ==> count == 0,
            count <= (if max_chars >= 2 { max_chars as int } else { 2 }),
            string_views(lines@) + wrap_from(cs@.skip(i as int), current@, count as int, max_chars as int)
                == wrap_from(cs@, seq![], 0, max_chars as int),
        decreases cs@.len() - i,
    {
        let c = cs[i];
        let w: usize = if (c as u32) < 128 {
            1
        } else {
            2
        };
        let ghost rest = cs@.skip(i as int);
        assert(rest[0] == c);
        assert(rest.drop_first() =~= cs@.skip(i + 1));
        let over = w > max_chars || count > max_chars - w;
        if over && current.len() > 0 {
            let ghost before = string_views(lines@);
            let line = string_from(current.as_slice());
            lines.push(line);
            assert(string_views(lines@) =~= before + seq![current@]);
            current = Vec::new();
            current.push(c);
            count = w;
            assert(current@ =~= seq![c]);
        } else {
            current.push(c);
            count = count + w;
        }
        i = i + 1;
    }
    if current.len() > 0 {
        let ghost before = string_views(lines@);
        let line = string_from(current.as_slice());
        lines.push(line);
        assert(string_views(lines@) =~= before + seq![current@]);
    }
    assert(string_views(lines@) =~= wrap_from(cs@, seq![], 0, max_chars as int)) by {
        assert(cs@.skip(i as int).len() == 0);
    }
    lines
}

/// Each of `ls` wrapped to `max` cells, one after another.
pub open spec fn wrap_all(ls: Seq<Seq<char>>, max: int) -> Seq<Seq<char>>
    decreases ls.len(),
{
    if ls.len() == 0 {
        seq![]
    } else {
        wrap_all(ls.drop_last(), max) + wrap_s(ls.last(), max)
    }
}

/// The lines of a text block as drawn: each line of `text` wrapped to `max` cells.
pub open spec fn text_lines_s(text: Seq<char>, max: int) -> Seq<Seq<char>> {
    wrap_all(lines(text), max)
}

/// The lines of a panel: those of the text, or one empty line when the text has none.
pub open spec fn panel_lines_s(text: Seq<char>, max: int) -> Seq<Seq<char>> {
    if text_lines_s(text, max).len() == 0 {
        seq![seq![]]
    } else {
        text_lines_s(text, max)
    }
}

/// The lines of a text block: each line of `text` wrapped to `max_chars` cells.
pub fn text_lines(text: &str, max_chars: usize) -> (r: Vec<String>)
    ensures
        string_views(r@) == text_lines_s(text@, max_chars as int),
{
    let cs = chars_of(text);
    let ls = split_lines(cs.as_slice());
    let ghost lv = views(ls@);
    let mut out: Vec<String> = Vec::new();
    let mut i: usize = 0;
    assert(lv.take(0) =~= Seq::<Seq<char>>::empty());
    assert(string_views(out@) =~= Seq::<Seq<char>>::empty());
    while i < ls.len()
        invariant
            i <= ls@.len(),
            lv == views(ls@),
            lv == lines(text@),
            string_views(out@) == wrap_all(lv.take(i as int), max_chars as int),
        decreases ls@.len() - i,
    {
        let wrapped = wrap_chars(ls[i].as_slice(), max_chars);
        let ghost before = string_views(out@);
        let mut j: usize = 0;
        while j < wrapped.len()
            invariant
                j <= wrapped@.len(),
                string_views(out@) == before + string_views(wrapped@).take(j as int),
            decreases wrapped@.len() - j,
        {
            let ghost mid = string_views(out@);
            out.push(copy_string(&wrapped[j]));
            assert(string_views(out@) =~= mid.push(wrapped@[j as int]@));
            assert(string_views(wrapped@).take(j + 1) =~= string_views(wrapped@).take(j as int).push(
                wrapped@[j as int]@,
            ));
            j = j + 1;
        }
        assert(string_views(wrapped@).take(j as int) =~= string_views(wrapped@));
        assert(lv.take(i + 1).drop_last() =~= lv.take(i as int));
        assert(lv[i as int] == ls@[i as int]@);
        i = i + 1;
    }
    assert(lv.take(i as int) =~= lv);
    out
}

/// The lines of a panel: those of the text block, or one empty line when there are none.
pub fn panel_lines(text: &str, max_chars: usize) -> (r: Vec<String>)
    ensures
        string_views(r@) == panel_lines_s(text@, max_chars as int),
{
    let mut r = text_lines(text, max_chars);
    if r.len() == 0 {
        r.push(String::new());
        assert(string_views(r@) =~= seq![Seq::<char>::empty()]);
    }
    r
}

// ───────────────────────────── drawing on the pixel buffer ─────────────────────────────

/// Where byte `k` of the pixel at column `x`, row `y` of a `w`-pixel-wide canvas is.
pub open spec fn byte_at(w: int, x: int, y: int, k: int) -> int {
    (y * w + x) * 4 + k
}

/// `new` is the `w` × `h` canvas `old` with the pixels where `inside` holds set to `color`,
/// and every other pixel unchanged.
pub open spec fn painted(
    old: Seq<u8>,
    new: Seq<u8>,
    w: int,
    h: int,
    inside: spec_fn(int, int) -> bool,
    color: [u8; 4],
) -> bool {
    &&& new.len() == old.len()
    &&& forall|x: int, y: int, k: int|
        0 <= x < w && 0 <= y < h && 0 <= k < 4 ==> #[trigger] new[byte_at(w, x, y, k)] == if inside(
            x,
            y,
        ) {
            color[k]
        } else {
            old[byte_at(w, x, y, k)]
        }
}

/// A pixel's bytes lie inside the canvas.
proof fn lemma_byte_at_bounds(w: int, h: int, x: int, y: int, k: int)
    requires
        0 <= x < w,
        0 <= y < h,
        0 <= k < 4,
    ensures
        0 <= byte_at(w, x, y, k) < w * h * 4,
        byte_at(w, x, y, k) == byte_at(w, x, y, 0) + k,
{
    assert(0 <= y * w + x < w * h) by (nonlinear_arith)
        requires
            0 <= x < w,
            0 <= y < h,
    ;
    assert((y * w + x) * 4 + k < w * h * 4) by (nonlinear_arith)
        requires
            0 <= y * w + x < w * h,
            0 <= k < 4,
    ;
}

/// Different pixels (or bytes) of a canvas lie at different places.
proof fn lemma_byte_at_injective(w: int, x1: int, y1: int, k1: int, x2: int, y2: int, k2: int)
    requires
        0 <= x1 < w,
        0 <= y1,
        0 <= k1 < 4,
        0 <= x2 < w,
        0 <= y2,
        0 <= k2 < 4,
        byte_at(w, x1, y1, k1) == byte_at(w, x2, y2, k2),
    ensures
        x1 == x2 && y1 == y2 && k1 == k2,
{
    let b = byte_at(w, x1, y1, k1);
    vstd::arithmetic::div_mod::lemma_fundamental_div_mod_converse(b, 4, y1 * w + x1, k1);
    vstd::arithmetic::div_mod::lemma_fundamental_div_mod_converse(b, 4, y2 * w + x2, k2);
    vstd::arithmetic::div_mod::lemma_fundamental_div_mod_converse(y1 * w + x1, w, y1, x1);
    vstd::arithmetic::div_mod::lemma_fundamental_div_mod_converse(y2 * w + x2, w, y2, x2);
}

/// Sets the pixel at column `x`, row `y` to `color`.
pub fn put_pixel(img: &mut Vec<u8>, img_w: i32, img_h: i32, x: i32, y: i32, color: [u8; 4])
    requires
        0 <= x < img_w,
        0 <= y < img_h,
        old(img)@.len() == img_w * img_h * 4,
    ensures
        painted(old(img)@, final(img)@, img_w as int, img_h as int, |px: int, py: int| px == x && py == y, color),
{
    let ghost w = img_w as int;
    let ghost h = img_h as int;
    proof {
        lemma_byte_at_bounds(w, h, x as int, y as int, 3);
        assert((y * img_w + x) * 4 + 3 < img@.len());
    }
    let n = img.len();
    assert(y * img_w + x < n);
    let base: usize = ((y as usize) * (img_w as usize) + (x as usize)) * 4;
    let ghost before = img@;
    img.set(base, color[0]);
    img.set(base + 1, color[1]);
    img.set(base + 2, color[2]);
    img.set(base + 3, color[3]);
    proof {
        assert forall|px: int, py: int, k: int|
            0 <= px < w && 0 <= py < h && 0 <= k < 4 implies #[trigger] img@[byte_at(w, px, py, k)]
            == if px == x && py == y {
            color[k]
        } else {
            before[byte_at(w, px, py, k)]
        } by {
            lemma_byte_at_bounds(w, h, px, py, k);
            if px == x && py == y {
                assert(byte_at(w, px, py, k) == base + k);
            } else {
                let (xx, yy) = (x as int, y as int);
                let b = byte_at(w, px, py, k);
                lemma_byte_at_bounds(w, h, xx, yy, 1);
                lemma_byte_at_bounds(w, h, xx, yy, 2);
                lemma_byte_at_bounds(w, h, xx, yy, 3);
                assert(base == byte_at(w, xx, yy, 0));
                if b == byte_at(w, xx, yy, 0) {
                    lemma_byte_at_injective(w, px, py, k, xx, yy, 0);
                }
                if b == byte_at(w, xx, yy, 1) {
                    lemma_byte_at_injective(w, px, py, k, xx, yy, 1);
                }
                if b == byte_at(w, xx, yy, 2) {
                    lemma_byte_at_injective(w, px, py, k, xx, yy, 2);
                }
                if b == byte_at(w, xx, yy, 3) {
                    lemma_byte_at_injective(w, px, py, k, xx, yy, 3);
                }
            }
        }
    }
}

/// Draws a horizontal line of `w` pixels from column `x` on row `y`, clipped to the canvas.
pub fn draw_hline(img: &mut Vec<u8>, img_w: i32, img_h: i32, x: i32, y: i32, w: i32, color: [u8; 4])
    requires
        img_w >= 0,
        img_h >= 0,
        old(img)@.len() == img_w * img_h * 4,
        x + w <= i32::MAX,
    ensures
        painted(
            old(img)@,
            final(img)@,
            img_w as int,
            img_h as int,
            |px: int, py: int| py == y && x <= px < x + w,
            color,
        ),
{
    let ghost start = img@;
    if y < 0 || y >= img_h {
        return;
    }
    let mut dx: i32 = 0;
    while dx < w
        invariant
            0 <= dx,
            w > 0 ==> dx <= w,
            w <= 0 ==> dx == 0,
            0 <= y < img_h,
            img_w >= 0,
            x + w <= i32::MAX,
            img@.len() == img_w * img_h * 4,
            painted(start, img@, img_w as int, img_h as int, |px: int, py: int| py == y && x <= px < x + dx, color),
        decreases w - dx,
    {
        let px = x + dx;
        if px >= 0 && px < img_w {
            put_pixel(img, img_w, img_h, px, y, color);
        }
        dx = dx + 1;
    }
}

/// Fills the `w` × `h` rectangle whose top left pixel is at (`x`, `y`), clipped to the
/// canvas.
pub fn fill_rect(
    img: &mut Vec<u8>,
    x: i32,
    y: i32,
    w: i32,
    h: i32,
    color: [u8; 4],
    img_w: i32,
    img_h: i32,
)
    requires
        img_w >= 0,
        img_h >= 0,
        old(img)@.len() == img_w * img_h * 4,
        x + w <= i32::MAX,
        y + h <= i32::MAX,
    ensures
        painted(
            old(img)@,
            final(img)@,
            img_w as int,
            img_h as int,
            |px: int, py: int| x <= px < x + w && y <= py < y + h,
            color,
        ),
{
    let ghost start = img@;
    let mut dy: i32 = 0;
    while dy < h
        invariant
            0 <= dy,
            h > 0 ==> dy <= h,
            h <= 0 ==> dy == 0,
            img_w >= 0,
            img_h >= 0,
            x + w <= i32::MAX,
            y + h <= i32::MAX,
            img@.len() == img_w * img_h * 4,
            painted(
                start,
                img@,
                img_w as int,
                img_h as int,
                |px: int, py: int| x <= px < x + w && y <= py < y + dy,
                color,
            ),
        decreases h - dy,
    {
        let py = y + dy;
        if py >= 0 && py < img_h {
            draw_hline(img, img_w, img_h, x, py, w, color);
        }
        dy = dy + 1;
    }
}

/// Draws the one-pixel border of the `w` × `h` rectangle whose top left pixel is at
/// (`x`, `y`), clipped to the canvas.
pub fn draw_rect_border(
    img: &mut Vec<u8>,
    x: i32,
    y: i32,
    w: i32,
    h: i32,
    color: [u8; 4],
    img_w: i32,
    img_h: i32,
)
    requires
        img_w >= 0,
        img_h >= 0,
        old(img)@.len() == img_w * img_h * 4,
        x + w <= i32::MAX,
        y + h <= i32::MAX,
        y + h - 1 >= i32::MIN,
        x + w - 1 >= i32::MIN,
    ensures
        painted(
            old(img)@,
            final(img)@,
            img_w as int,
            img_h as int,
            |px: int, py: int|
                (x <= px < x + w && (py == y || py == y + h - 1)) || (y <= py < y + h && (px == x
                    || px == x + w - 1)),
            color,
        ),
{
    let ghost start = img@;
    let mut dx: i32 = 0;
    while dx < w
        invariant
            0 <= dx,
            w > 0 ==> dx <= w,
            w <= 0 ==> dx == 0,
            img_w >= 0,
            img_h >= 0,
            x + w <= i32::MAX,
            y + h - 1 >= i32::MIN,
            y + h <= i32::MAX,
            img@.len() == img_w * img_h * 4,
            painted(
                start,
                img@,
                img_w as int,
                img_h as int,
                |px: int, py: int| x <= px < x + dx && (py == y || py == y + h - 1),
                color,
            ),
        decreases w - dx,
    {
        let px = x + dx;
        if px >= 0 && px < img_w {
            if y >= 0 && y < img_h {
                put_pixel(img, img_w, img_h, px, y, color);
            }
            let by = y + h - 1;
            if by >= 0 && by < img_h {
                put_pixel(img, img_w, img_h, px, by, color);
            }
        }
        dx = dx + 1;
    }
    let ghost mid = img@;
    let mut dy: i32 = 0;
    while dy < h
        invariant
            0 <= dy,
            h > 0 ==> dy <= h,
            h <= 0 ==> dy == 0,
            img_w >= 0,
            img_h >= 0,
            y + h <= i32::MAX,
            x + w - 1 >= i32::MIN,
            x + w <= i32::MAX,
            img@.len() == img_w * img_h * 4,
            painted(
                start,
                img@,
                img_w as int,
                img_h as int,
                |px: int, py: int|
                    (x <= px < x + w && (py == y || py == y + h - 1)) || (y <= py < y + dy && (px
                        == x || px == x + w - 1)),
                color,
            ),
        decreases h - dy,
    {
        let py = y + dy;
        if py >= 0 && py < img_h {
            if x >= 0 && x < img_w {
                put_pixel(img, img_w, img_h, x, py, color);
            }
            let rx = x + w - 1;
            if rx >= 0 && rx < img_w {
                put_pixel(img, img_w, img_h, rx, py, color);
            }
        }
        dy = dy + 1;
    }
}


// ───────────────────────────── the PNG file ─────────────────────────────

/// The PNG file that the `image` crate's PNG encoder makes of the 8-bit RGBA image `rgba`
/// of `w` × `h` pixels.
pub uninterp spec fn png_of(rgba: Seq<u8>, w: u32, h: u32) -> Seq<u8>;

/// `image::codecs::png::PngEncoder::write_image` with `ColorType::Rgba8`: the PNG file of
/// the image. It depends on its arguments alone. It panics when the buffer is not `w` × `h`
/// × 4 bytes long; the `png` crate's writer refuses a zero width or height, and nothing else
/// fails when the file is written into a `Vec`.
#[verifier::external_body]
fn png_encode(rgba: &[u8], w: u32, h: u32) -> (r: Option<Vec<u8>>)
    requires
        rgba@.len() == (w as int) * (h as int) * 4,
    ensures
        (r matches Some(_)) == (w > 0 && h > 0),
        r matches Some(b) ==> b@ == png_of(rgba@, w, h),
{
    let mut out: Vec<u8> = Vec::new();
    match image::codecs::png::PngEncoder::new(&mut out).write_image(rgba, w, h, image::ColorType::Rgba8) {
        Ok(()) => Some(out),
        Err(_) => None,
    }
}

/// The PNG file of a finished `w` × `h` canvas; `None` for an empty canvas (a zero width or
/// height), which a PNG file cannot hold.
pub fn canvas_png(canvas: &[u8], w: u32, h: u32) -> (r: Option<Vec<u8>>)
    requires
        canvas@.len() == (w as int) * (h as int) * 4,
    ensures
        r is Some <==> w > 0 && h > 0,
        r matches Some(b) ==> b@ == png_of(canvas@, w, h),
{
    png_encode(canvas, w, h)
}

} // verus!
