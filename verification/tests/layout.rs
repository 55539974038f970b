use slidecli::layout::{layout_slide, DrawOp, SlideMetrics, TextMetrics, TextStyle};
use slidecli::model::{Block, BlockKind};

fn metrics(top: i64) -> SlideMetrics {
    let text = |line_h: i64, pad: i64| TextMetrics { line_h, max_chars: 60, pad };
    SlideMetrics {
        canvas_h: 576,
        margin_x: 96,
        top,
        content_w: 768,
        heading1: text(33, 0),
        heading2: text(25, 0),
        text: text(24, 0),
        code: text(20, 7),
        output: text(20, 7),
        line_gap_body: 6,
        line_gap_heading: 10,
        block_gap: 17,
    }
}

fn describe(op: &DrawOp) -> String {
    match op {
        DrawOp::Text { x, y, style, text } => format!("text {} {} {:?} {}", x, y, style, text),
        DrawOp::Fill { x, y, w, h, color } => format!("fill {} {} {} {} {:?}", x, y, w, h, color),
        DrawOp::Border { x, y, w, h, color } => format!("border {} {} {} {} {:?}", x, y, w, h, color),
        DrawOp::HLine { x, y, w, color } => format!("hline {} {} {} {:?}", x, y, w, color),
    }
}

#[test]
fn blocks_are_laid_out_one_under_another() {
    let blocks = vec![
        Block::new(1, BlockKind::Heading { level: 1 }, "Title".to_string()),
        Block::new(2, BlockKind::Exec { lang: "bash".to_string(), signature: None }, "ls".to_string()),
        Block::new(3, BlockKind::Separator, String::new()),
        Block::new(4, BlockKind::OutputPlaceholder, String::new()),
    ];
    let ops: Vec<String> = layout_slide(&blocks, &metrics(48)).iter().map(describe).collect();
    assert_eq!(
        ops,
        vec![
            "text 96 48 Heading1 Title".to_string(),
            "hline 96 81 768 [42, 42, 42, 255]".to_string(),
            "fill 96 103 768 34 [24, 24, 24, 255]".to_string(),
            "border 96 103 768 34 [255, 107, 107, 255]".to_string(),
            format!("text 103 110 {:?} $ ls", TextStyle::Code),
            "hline 96 151 768 [42, 42, 42, 255]".to_string(),
            "fill 96 176 768 34 [24, 24, 24, 255]".to_string(),
            "border 96 176 768 34 [42, 42, 42, 255]".to_string(),
            format!("text 103 183 {:?} ← output will appear here", TextStyle::Output),
        ]
    );
}

#[test]
fn text_below_the_canvas_is_left_out() {
    let blocks = vec![Block::new(1, BlockKind::Text, "a\nb\nc".to_string())];
    let ops: Vec<String> = layout_slide(&blocks, &metrics(530)).iter().map(describe).collect();
    assert_eq!(ops, vec![format!("text 116 530 {:?} a", TextStyle::Text)]);
    assert!(layout_slide(&blocks, &metrics(600)).is_empty());
}
