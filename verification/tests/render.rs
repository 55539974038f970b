use slidecli::render::{
    draw_hline, draw_rect_border, fill_rect, panel_lines, put_pixel, text_lines, wrap_text,
    RenderConfig,
};

#[test]
fn wrap_text_works() {
    let lines = wrap_text("Hello World", 6);
    assert!(lines.len() >= 2, "expected wrap, got {:?}", lines);
}

#[test]
fn wrap_text_breaks_before_the_overflowing_character() {
    assert_eq!(wrap_text("Hello World", 6), vec!["Hello ", "World"]);
    assert_eq!(wrap_text("", 6), vec![""]);
    assert_eq!(wrap_text("日本語", 4), vec!["日本", "語"]);
    assert_eq!(wrap_text("日本", 1), vec!["日", "本"]);
    assert_eq!(wrap_text("abc", 0), vec!["a", "b", "c"]);
}

#[test]
fn text_and_panel_lines_wrap_each_line() {
    assert_eq!(text_lines("ab cd\nef", 3), vec!["ab ", "cd", "ef"]);
    assert_eq!(text_lines("", 3), Vec::<String>::new());
    assert_eq!(panel_lines("", 3), vec![""]);
    assert_eq!(panel_lines("a\n\nb", 3), vec!["a", "", "b"]);
}

#[test]
fn default_canvas_is_960_by_576() {
    let cfg = RenderConfig::default();
    assert_eq!(cfg.canvas_px(), (960, 576));
    let big = RenderConfig { term_cols: 120, term_rows: 36, cell_w: 12, cell_h: 24 };
    assert_eq!(big.canvas_px(), (1440, 864));
}

fn pixel(img: &[u8], w: i32, x: i32, y: i32) -> [u8; 4] {
    let i = ((y * w + x) * 4) as usize;
    [img[i], img[i + 1], img[i + 2], img[i + 3]]
}

#[test]
fn drawing_is_clipped_to_the_canvas() {
    let (w, h) = (5, 4);
    let mut img = vec![0u8; (w * h * 4) as usize];
    put_pixel(&mut img, w, h, 4, 3, [1, 2, 3, 4]);
    assert_eq!(pixel(&img, w, 4, 3), [1, 2, 3, 4]);
    draw_hline(&mut img, w, h, -2, 1, 4, [9, 9, 9, 9]);
    assert_eq!(pixel(&img, w, 0, 1), [9, 9, 9, 9]);
    assert_eq!(pixel(&img, w, 1, 1), [9, 9, 9, 9]);
    assert_eq!(pixel(&img, w, 2, 1), [0, 0, 0, 0]);
    draw_hline(&mut img, w, h, 0, 7, 5, [5, 5, 5, 5]);
    assert!(img.iter().all(|b| *b != 5));
}

#[test]
fn rectangles_fill_and_outline() {
    let (w, h) = (6, 6);
    let mut img = vec![0u8; (w * h * 4) as usize];
    fill_rect(&mut img, 1, 1, 3, 2, [7, 7, 7, 7], w, h);
    assert_eq!(pixel(&img, w, 1, 1), [7, 7, 7, 7]);
    assert_eq!(pixel(&img, w, 3, 2), [7, 7, 7, 7]);
    assert_eq!(pixel(&img, w, 4, 2), [0, 0, 0, 0]);
    assert_eq!(pixel(&img, w, 1, 3), [0, 0, 0, 0]);
    let mut border = vec![0u8; (w * h * 4) as usize];
    draw_rect_border(&mut border, 0, 0, 4, 3, [2, 2, 2, 2], w, h);
    assert_eq!(pixel(&border, w, 0, 0), [2, 2, 2, 2]);
    assert_eq!(pixel(&border, w, 3, 2), [2, 2, 2, 2]);
    assert_eq!(pixel(&border, w, 0, 1), [2, 2, 2, 2]);
    assert_eq!(pixel(&border, w, 1, 1), [0, 0, 0, 0]);
    assert_eq!(pixel(&border, w, 4, 0), [0, 0, 0, 0]);
}

#[test]
fn a_finished_canvas_is_sent_as_a_png_file() {
    let canvas = vec![255u8, 0, 0, 255, 0, 255, 0, 255];
    let png = slidecli::render::canvas_png(&canvas, 2, 1).unwrap();
    assert_eq!(&png[0..8], &[0x89, b'P', b'N', b'G', 0x0d, 0x0a, 0x1a, 0x0a]);
    assert_ne!(png, canvas);
    assert_eq!(slidecli::render::canvas_png(&canvas, 2, 1).unwrap(), png);
}

#[test]
fn an_empty_canvas_has_no_png_file() {
    assert_eq!(slidecli::render::canvas_png(&[], 0, 3), None);
    assert_eq!(slidecli::render::canvas_png(&[], 3, 0), None);
}
