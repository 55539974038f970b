use slidecli::markdown::{
    deserialize, reveal_marker_count, serialize, visible_reveal_content, REVEAL_END_MARKER,
    REVEAL_MARKER, REVEAL_START_MARKER,
};
use slidecli::model::{Block, BlockKind, Presentation, Slide};

#[test]
fn round_trips_demo_presentation() {
    let presentation = Presentation::demo();
    let markdown = serialize(&presentation);
    let reparsed = deserialize(&markdown).unwrap();
    let markdown_again = serialize(&reparsed);
    assert_eq!(markdown_again, markdown);
}

#[test]
fn parses_existing_markdown_with_exec_comments() {
    let src = r#"<!-- slidecli:presentation font="Fira Code" font-size=20 -->

<!-- slidecli:slide title="Demo" -->

# Demo

Intro text

<!-- slidecli:block type=exec lang="bash" sig="sig:ed25519:abc123" -->
```bash
echo hi
```

<!-- slidecli:block type=output -->
```text
hi
```
"#;

    let presentation = deserialize(src).unwrap();
    assert_eq!(presentation.font_name, "Fira Code");
    assert_eq!(presentation.font_size, 20);
    assert_eq!(presentation.slides.len(), 1);
    assert_eq!(presentation.slides[0].title, "Demo");
    assert_eq!(presentation.slides[0].blocks.len(), 4);
}

#[test]
fn keeps_reveal_markers_inside_text_blocks() {
    let src = "# Intro\n\nline 1\n<!-- slidecli:next:start -->\nline 2\nline 3\n<!-- slidecli:next:end -->\nline 4\n";
    let presentation = deserialize(src).unwrap();
    let text = &presentation.slides[0].blocks[1].content;
    assert!(text.contains(REVEAL_START_MARKER));
    assert!(text.contains(REVEAL_END_MARKER));
    assert_eq!(reveal_marker_count(text), 1);
    assert_eq!(visible_reveal_content(text, 0), "line 1\nline 4");
    assert_eq!(visible_reveal_content(text, 1), "line 1\nline 2\nline 3\nline 4");
}

#[test]
fn keeps_legacy_reveal_marker_working() {
    let src = "# Intro\n\nline 1\n<!-- slidecli:next -->\nline 2\n";
    let presentation = deserialize(src).unwrap();
    let text = &presentation.slides[0].blocks[1].content;
    assert!(text.contains(REVEAL_MARKER));
    assert_eq!(reveal_marker_count(text), 1);
    assert_eq!(visible_reveal_content(text, 0), "line 1");
    assert_eq!(visible_reveal_content(text, 1), "line 1\nline 2");
}

#[test]
fn unclosed_fence_is_an_error() {
    let src = "# Title\n\n```bash\necho hi\n";
    let r = deserialize(src);
    assert!(r.is_err());
}

#[test]
fn exec_block_keeps_its_signature_through_a_round_trip() {
    let src = "<!-- slidecli:block type=exec lang=\"bash\" sig=\"sig:x\" -->\n```bash\nls\n```\n";
    let p = deserialize(src).unwrap();
    let block = &p.slides[0].blocks[0];
    assert_eq!(block.content, "ls");
    match &block.kind {
        BlockKind::Exec { lang, signature } => {
            assert_eq!(lang, "bash");
            assert_eq!(signature.as_deref(), Some("sig:x"));
        }
        other => panic!("unexpected kind {:?}", other),
    }
    let again = deserialize(&serialize(&p)).unwrap();
    assert_eq!(serialize(&again), serialize(&p));
}

#[test]
fn slides_are_split_on_rules_and_numbered() {
    let src = "# One\n\nfirst\n\n---\n\n# Two\n\nsecond\n";
    let p = deserialize(src).unwrap();
    assert_eq!(p.slides.len(), 2);
    assert_eq!(p.slides[0].title, "One");
    assert_eq!(p.slides[1].title, "Two");
    let ids: Vec<u64> = p.slides.iter().flat_map(|s| s.blocks.iter().map(|b| b.id)).collect();
    let mut sorted = ids.clone();
    sorted.sort();
    sorted.dedup();
    assert_eq!(sorted.len(), ids.len());
}

#[test]
fn presentation_meta_sets_font() {
    let src = "<!-- slidecli:presentation font=\"Menlo\" font-size=18 -->\n\n# Hi\n";
    let p = deserialize(src).unwrap();
    assert_eq!(p.font_name, "Menlo");
    assert_eq!(p.font_size, 18);
}

#[test]
fn reveal_beyond_the_last_step_shows_everything() {
    let text = "a\n<!-- slidecli:next -->\nb\n<!-- slidecli:next -->\nc";
    assert_eq!(reveal_marker_count(text), 2);
    assert_eq!(visible_reveal_content(text, 0), "a");
    assert_eq!(visible_reveal_content(text, 2), "a\nb\nc");
    assert_eq!(visible_reveal_content(text, 9), "a\nb\nc");
}

#[test]
fn font_settings_survive_a_round_trip() {
    let mut p = Presentation::demo();
    p.font_name = "Fira \"Code\" \\ Mono".to_string();
    p.font_size = 255;
    let back = deserialize(&serialize(&p)).unwrap();
    assert_eq!(back.font_name, p.font_name);
    assert_eq!(back.font_size, 255);
}

#[test]
fn non_ascii_font_names_come_back_unchanged() {
    let mut p = Presentation::blank();
    p.font_name = "é \"源ノ角\" \\ Gothic".to_string();
    let back = deserialize(&serialize(&p)).unwrap();
    assert_eq!(back.font_name, p.font_name);
}

#[test]
fn an_empty_output_area_before_an_exec_block_is_kept() {
    let src = "<!-- slidecli:block type=output -->\n\n<!-- slidecli:block type=exec lang=\"bash\" -->\n```bash\nls\n```\n";
    let p = deserialize(src).unwrap();
    assert_eq!(p.slides[0].blocks.len(), 2);
    assert_eq!(p.slides[0].blocks[0].kind, BlockKind::OutputPlaceholder);
    assert_eq!(p.slides[0].blocks[0].content, "");
    assert!(matches!(p.slides[0].blocks[1].kind, BlockKind::Exec { .. }));
}

#[test]
fn empty_output_areas_before_other_directives_survive_a_round_trip() {
    let mut slide = Slide::new("S".to_string());
    slide.blocks.push(block(1, BlockKind::OutputPlaceholder, ""));
    slide.blocks.push(block(2, BlockKind::Exec { lang: "bash".to_string(), signature: None }, "echo"));
    slide.blocks.push(block(3, BlockKind::OutputPlaceholder, ""));
    slide.blocks.push(block(4, BlockKind::OutputPlaceholder, ""));
    slide.blocks.push(block(5, BlockKind::Separator, ""));
    let mut p = Presentation::blank();
    p.slides = vec![slide];
    p.font_name = "F".to_string();
    let back = deserialize(&serialize(&p)).unwrap();
    assert_eq!(back.slides[0].blocks, p.slides[0].blocks);
}

fn block(id: u64, kind: BlockKind, content: &str) -> Block {
    Block::new(id, kind, content.to_string())
}

#[test]
fn reading_back_gives_the_written_slides_renumbered() {
    let mut first = Slide::new("Ignored".to_string());
    first.blocks.push(block(40, BlockKind::Heading { level: 2 }, "Plan"));
    first.blocks.push(block(7, BlockKind::Text, "one\ntwo\n<!-- slidecli:next -->\nthree"));
    first.blocks.push(block(9, BlockKind::Code { lang: "rust".to_string() }, "fn main() {}\n\n  x"));
    first.blocks.push(block(3, BlockKind::Exec { lang: "bash".to_string(), signature: Some("sig:a\"b".to_string()) }, ""));
    first.blocks.push(block(3, BlockKind::OutputPlaceholder, ""));
    first.blocks.push(block(11, BlockKind::Text, "after"));
    let mut second = Slide::new("  ".to_string());
    second.blocks.push(block(2, BlockKind::Separator, ""));
    second.blocks.push(block(5, BlockKind::OutputPlaceholder, "done"));
    let third = Slide::new("Back \\ slash".to_string());
    let mut p = Presentation::blank();
    p.slides = vec![first, second, third];
    p.font_name = "Menlo".to_string();
    p.font_size = 16;

    let text = serialize(&p);
    let back = deserialize(&text).unwrap();
    assert_eq!(back.font_name, "Menlo");
    assert_eq!(back.font_size, 16);
    assert_eq!(back.slides.len(), 3);
    assert_eq!(back.slides[0].title, "Plan");
    assert_eq!(back.slides[1].title, "Slide 2");
    assert_eq!(back.slides[2].title, "Back \\ slash");
    let mut next_id = 1;
    for (read, written) in back.slides.iter().zip(p.slides.iter()) {
        assert_eq!(read.blocks.len(), written.blocks.len());
        for (r, w) in read.blocks.iter().zip(written.blocks.iter()) {
            assert_eq!(r.kind, w.kind);
            assert_eq!(r.content, w.content);
            assert_eq!(r.id, next_id);
            next_id += 1;
        }
    }
    assert_eq!(serialize(&back), text);
}

#[test]
fn a_separator_comes_back_without_content() {
    let mut slide = Slide::new("S".to_string());
    slide.blocks.push(block(1, BlockKind::Separator, "hidden"));
    let mut p = Presentation::blank();
    p.slides = vec![slide];
    let back = deserialize(&serialize(&p)).unwrap();
    assert_eq!(back.slides[0].blocks.len(), 1);
    assert_eq!(back.slides[0].blocks[0].kind, BlockKind::Separator);
    assert_eq!(back.slides[0].blocks[0].content, "");
}

#[test]
fn a_heading_title_written_again_is_the_same_text() {
    let mut slide = Slide::new("ignored".to_string());
    slide.blocks.push(block(1, BlockKind::Heading { level: 1 }, "é"));
    let mut p = Presentation::blank();
    p.slides = vec![slide];
    let text = serialize(&p);
    let back = deserialize(&text).unwrap();
    assert_eq!(back.slides[0].title, "é");
    assert_eq!(back.slides[0].blocks[0].content, "é");
    assert_eq!(serialize(&back), text);
}

#[test]
fn a_heading_that_starts_with_a_hash_reads_back() {
    let mut slide = Slide::new("S".to_string());
    slide.blocks.push(block(1, BlockKind::Heading { level: 2 }, "#x"));
    let mut p = Presentation::blank();
    p.slides = vec![slide];
    let text = serialize(&p);
    let back = deserialize(&text).unwrap();
    assert_eq!(back.slides[0].blocks[0].kind, BlockKind::Heading { level: 2 });
    assert_eq!(back.slides[0].blocks[0].content, "#x");
    assert_eq!(serialize(&back), text);
}

#[test]
fn any_quoted_title_reads_back() {
    let p = deserialize("<!-- slidecli:slide title=\"a \\\"b\\\" \\\\ é=c\" -->\n\ntext\n").unwrap();
    assert_eq!(p.slides[0].title, "a \"b\" \\ é=c");
}
