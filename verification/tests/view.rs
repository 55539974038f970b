use slidecli::app::AppMode;
use slidecli::model::{Block, BlockKind, Presentation, Slide};
use slidecli::view::{
    block_body, block_colors, estimate_block_height, mode_label, present_lines, slide_icon,
    truncate, PresentTone,
};

#[test]
fn truncate_marks_a_cut() {
    assert_eq!(truncate("short", 12), "short");
    assert_eq!(truncate("スライドのタイトルです", 5), "スライド…");
    assert_eq!(truncate("abc", 3), "abc");
    assert_eq!(truncate("abcd", 1), "…");
}

#[test]
fn present_view_lines_follow_the_blocks() {
    let demo = Presentation::demo();
    let lines = present_lines(&demo.slides[2]);
    let texts: Vec<(&str, PresentTone)> = lines.iter().map(|l| (l.text.as_str(), l.tone)).collect();
    assert_eq!(texts[0], ("Cargo テスト実行デモ", PresentTone::Title));
    assert_eq!(texts[1], ("", PresentTone::Blank));
    assert_eq!(texts[2], ("  テストスイートを実際に動かしてみます", PresentTone::Body));
    assert_eq!(texts[4], ("  ▶ exec ", PresentTone::ExecHeader));
    assert_eq!(texts[5], ("    cargo test --release 2>&1", PresentTone::Code));
    assert_eq!(texts.len(), 7);
}

#[test]
fn output_is_shown_at_most_ten_lines() {
    let mut slide = Slide::new("s".to_string());
    let out: Vec<String> = (0..12).map(|i| i.to_string()).collect();
    slide.blocks.push(Block::new(1, BlockKind::OutputPlaceholder, out.join("\n")));
    slide.blocks.push(Block::new(2, BlockKind::OutputPlaceholder, String::new()));
    slide.blocks.push(Block::new(3, BlockKind::Heading { level: 2 }, "sub".to_string()));
    let lines = present_lines(&slide);
    assert_eq!(lines[0].text, "  [出力]");
    assert_eq!(lines[10].text, "    9");
    assert_eq!(lines[11].tone, PresentTone::Blank);
    assert_eq!(lines[12].text, "  sub");
    assert_eq!(lines[12].tone, PresentTone::Subtitle);
    assert_eq!(lines.len(), 14);
}

#[test]
fn block_heights_follow_the_kind() {
    let h = Block::new(1, BlockKind::Heading { level: 1 }, "t".to_string());
    assert_eq!(estimate_block_height(&h, "anything", 10), 3);
    let sep = Block::new(2, BlockKind::Separator, String::new());
    assert_eq!(estimate_block_height(&sep, "", 10), 1);
    let text = Block::new(3, BlockKind::Text, String::new());
    assert_eq!(estimate_block_height(&text, "a\nb", 10), 4);
    assert_eq!(estimate_block_height(&text, "abcdefghijkl", 4), 6);
    assert_eq!(estimate_block_height(&text, "", 0), 3);
    assert_eq!(estimate_block_height(&text, &"x".repeat(100), 10), 8);
}

#[test]
fn block_look_depends_on_kind_and_selection() {
    let unsigned = BlockKind::Exec { lang: "bash".to_string(), signature: None };
    assert_eq!(block_colors(&unsigned, true), ([20, 50, 20], [255, 107, 107]));
    let signed = BlockKind::Exec { lang: "bash".to_string(), signature: Some("s".to_string()) };
    assert_eq!(block_colors(&signed, true), ([20, 50, 20], [106, 176, 76]));
    assert_eq!(block_colors(&BlockKind::Text, true), ([20, 30, 50], [74, 158, 255]));
    assert_eq!(block_colors(&BlockKind::Text, false), ([36, 36, 36], [42, 42, 42]));
    assert_eq!(block_body(&BlockKind::Text, "ab", true, 5), "ab▋");
    assert_eq!(block_body(&signed, "ls", false, 5), " ls");
    assert_eq!(block_body(&BlockKind::OutputPlaceholder, "", false, 5), "← 実行時にここに stdout が表示されます");
    assert_eq!(block_body(&BlockKind::Separator, "", false, 3), "───");
}

#[test]
fn labels_and_icons() {
    assert_eq!(mode_label(AppMode::Present), "プレゼン");
    assert_eq!(mode_label(AppMode::Normal), "編集モード");
    let demo = Presentation::demo();
    assert_eq!(slide_icon(&demo.slides[0]), "H1");
    assert_eq!(slide_icon(&demo.slides[2]), "▶");
    assert_eq!(slide_icon(&Slide::new("x".to_string())), " ≡");
}
