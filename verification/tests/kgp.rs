use slidecli::kgp::{capability_text, display_sequence, encode_frame, png_display_sequence, supports_kgp, CLEAR_IMAGE};

#[test]
fn terminals_with_kitty_graphics_are_recognised() {
    assert!(supports_kgp(Some("xterm-ghostty"), None));
    assert!(supports_kgp(Some("XTERM-KITTY"), None));
    assert!(supports_kgp(None, Some("WezTerm")));
    assert!(!supports_kgp(Some("xterm-256color"), Some("Apple_Terminal")));
    assert!(!supports_kgp(Some("wezterm"), None));
    assert!(!supports_kgp(None, None));
}

#[test]
fn capability_text_names_the_terminal() {
    assert_eq!(capability_text(true, "xterm-kitty", ""), "KGP supported (TERM=xterm-kitty, TERM_PROGRAM=)");
    assert_eq!(capability_text(false, "x", "y"), "KGP not supported (fallback to Ratatui)");
}

#[test]
fn small_images_go_in_one_chunk() {
    assert_eq!(
        display_sequence("QUJD", 0, 2, 10, 5),
        "\x1b[3;1H\x1b_Ga=T,f=100,i=1,q=2,c=10,r=5,m=0;QUJD\x1b\\"
    );
    assert_eq!(display_sequence("QUJD", 4, 0, 0, 5), "\x1b[1;5H\x1b_Ga=T,f=100,i=1,q=2,m=0;QUJD\x1b\\");
    assert_eq!(png_display_sequence(b"ABC", 0, 0, 0, 0), "\x1b[1;1H\x1b_Ga=T,f=100,i=1,q=2,m=0;QUJD\x1b\\");
    assert_eq!(display_sequence("", 0, 0, 0, 0), "\x1b[1;1H");
}

#[test]
fn large_images_are_sent_in_chunks_of_4096() {
    let encoded = "A".repeat(4096 * 2 + 10);
    let seq = display_sequence(&encoded, 0, 0, 0, 0);
    let first = format!("\x1b_Ga=T,f=100,i=1,q=2,m=1;{}\x1b\\", "A".repeat(4096));
    let second = format!("\x1b_Gm=1;{}\x1b\\", "A".repeat(4096));
    let third = format!("\x1b_Gm=0;{}\x1b\\", "A".repeat(10));
    assert_eq!(seq, format!("\x1b[1;1H{}{}{}", first, second, third));
    assert_eq!(CLEAR_IMAGE, "\x1b_Ga=d,d=I,i=1,q=2;\x1b\\");
}

#[test]
fn frames_travel_as_padded_standard_base64() {
    assert_eq!(encode_frame(b""), "");
    assert_eq!(encode_frame(b"M"), "TQ==");
    assert_eq!(encode_frame(b"Ma"), "TWE=");
    assert_eq!(encode_frame(b"Man"), "TWFu");
    assert_eq!(encode_frame(&[0xfb, 0xff]), "+/8=");
    assert_eq!(encode_frame(b"Many hands"), "TWFueSBoYW5kcw==");
}
