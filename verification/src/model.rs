//! The document model: presentations made of slides made of blocks.
use vstd::prelude::*;

verus! {

/// The kind of a block, with the data that only that kind carries.
#[derive(Debug, Clone, PartialEq)]
pub enum BlockKind {
    /// A heading; levels 1 to 3 are written as `#` to `###`.
    Heading { level: u8 },
    /// A paragraph or list, kept as plain text.
    Text,
    /// A code block that is shown but never run.
    Code { lang: String },
    /// A command block that can be run once it is signed.
    Exec { lang: String, signature: Option<String> },
    /// The area that shows what the preceding exec block printed.
    OutputPlaceholder,
    /// A separator inside a slide.
    Separator,
}

/// The mathematical model of a [`BlockKind`].
pub enum KindView {
    Heading { level: u8 },
    Text,
    Code { lang: Seq<char> },
    Exec { lang: Seq<char>, signature: Option<Seq<char>> },
    OutputPlaceholder,
    Separator,
}

pub open spec fn opt_view(o: Option<String>) -> Option<Seq<char>> {
    match o {
        Some(s) => Some(s@),
        None => None,
    }
}

impl View for BlockKind {
    type V = KindView;

    open spec fn view(&self) -> KindView {
        match self {
            BlockKind::Heading { level } => KindView::Heading { level: *level },
            BlockKind::Text => KindView::Text,
            BlockKind::Code { lang } => KindView::Code { lang: lang@ },
            BlockKind::Exec { lang, signature } => KindView::Exec {
                lang: lang@,
                signature: opt_view(*signature),
            },
            BlockKind::OutputPlaceholder => KindView::OutputPlaceholder,
            BlockKind::Separator => KindView::Separator,
        }
    }
}

/// One block of a slide.
#[derive(Debug, Clone, PartialEq)]
pub struct Block {
    pub id: u64,
    pub kind: BlockKind,
    pub content: String,
}

/// The mathematical model of a [`Block`].
pub struct BlockView {
    pub id: u64,
    pub kind: KindView,
    pub content: Seq<char>,
}

impl View for Block {
    type V = BlockView;

    open spec fn view(&self) -> BlockView {
        BlockView { id: self.id, kind: self.kind@, content: self.content@ }
    }
}

/// The labels that the editor shows beside a block of each kind.
pub open spec fn kind_label(k: KindView) -> Seq<char> {
    match k {
        KindView::Heading { .. } => "見出し"@,
        KindView::Text => "テキスト"@,
        KindView::Code { .. } => "コード"@,
        KindView::Exec { signature, .. } => if signature is Some {
            "exec · 署名済"@
        } else {
            "exec · 未署名"@
        },
        KindView::OutputPlaceholder => "出力プレースホルダ"@,
        KindView::Separator => "区切り"@,
    }
}

pub open spec fn is_exec_kind(k: KindView) -> bool {
    k is Exec
}

pub open spec fn is_signed_kind(k: KindView) -> bool {
    k matches KindView::Exec { signature: Some(_), .. }
}

/// A copy of a string with the same characters.
pub fn copy_string(s: &String) -> (r: String)
    ensures
        r@ == s@,
{
    s.clone()
}

impl BlockKind {
    /// A copy of this kind.
    pub fn duplicate(&self) -> (r: BlockKind)
        ensures
            r@ == self@,
    {
        match self {
            BlockKind::Heading { level } => BlockKind::Heading { level: *level },
            BlockKind::Text => BlockKind::Text,
            BlockKind::Code { lang } => BlockKind::Code { lang: copy_string(lang) },
            BlockKind::Exec { lang, signature } => BlockKind::Exec {
                lang: copy_string(lang),
                signature: match signature {
                    Some(s) => Some(copy_string(s)),
                    None => None,
                },
            },
            BlockKind::OutputPlaceholder => BlockKind::OutputPlaceholder,
            BlockKind::Separator => BlockKind::Separator,
        }
    }
}

impl Block {
    pub fn new(id: u64, kind: BlockKind, content: String) -> (r: Block)
        ensures
            r@ == (BlockView { id, kind: kind@, content: content@ }),
    {
        Block { id, kind, content }
    }

    /// A copy of this block.
    pub fn duplicate(&self) -> (r: Block)
        ensures
            r@ == self@,
    {
        Block { id: self.id, kind: self.kind.duplicate(), content: copy_string(&self.content) }
    }

    pub fn label(&self) -> (r: &'static str)
        ensures
            r@ == kind_label(self.kind@),
    {
        match &self.kind {
            BlockKind::Heading { .. } => "見出し",
            BlockKind::Text => "テキスト",
            BlockKind::Code { .. } => "コード",
            BlockKind::Exec { signature, .. } => {
                if signature.is_some() {
                    "exec · 署名済"
                } else {
                    "exec · 未署名"
                }
            },
            BlockKind::OutputPlaceholder => "出力プレースホルダ",
            BlockKind::Separator => "区切り",
        }
    }

    pub fn is_exec(&self) -> (r: bool)
        ensures
            r == is_exec_kind(self.kind@),
    {
        match &self.kind {
            BlockKind::Exec { .. } => true,
            _ => false,
        }
    }

    pub fn is_signed(&self) -> (r: bool)
        ensures
            r == is_signed_kind(self.kind@),
    {
        match &self.kind {
            BlockKind::Exec { signature: Some(_), .. } => true,
            _ => false,
        }
    }
}

/// A slide: a title for the sidebar and its blocks in order.
#[derive(Debug, Clone, PartialEq)]
pub struct Slide {
    pub title: String,
    pub blocks: Vec<Block>,
}

/// The mathematical model of a [`Slide`].
pub struct SlideView {
    pub title: Seq<char>,
    pub blocks: Seq<BlockView>,
}

pub open spec fn block_views(bs: Seq<Block>) -> Seq<BlockView> {
    bs.map_values(|b: Block| b@)
}

impl View for Slide {
    type V = SlideView;

    open spec fn view(&self) -> SlideView {
        SlideView { title: self.title@, blocks: block_views(self.blocks@) }
    }
}

/// How many of `bs` are exec blocks.
pub open spec fn count_exec(bs: Seq<BlockView>) -> nat
    decreases bs.len(),
{
    if bs.len() == 0 {
        0
    } else {
        count_exec(bs.drop_last()) + if is_exec_kind(bs.last().kind) { 1nat } else { 0nat }
    }
}

/// How many of `bs` are signed exec blocks.
pub open spec fn count_signed(bs: Seq<BlockView>) -> nat
    decreases bs.len(),
{
    if bs.len() == 0 {
        0
    } else {
        count_signed(bs.drop_last()) + if is_signed_kind(bs.last().kind) { 1nat } else { 0nat }
    }
}

pub proof fn lemma_count_exec_bound(bs: Seq<BlockView>)
    ensures
        count_exec(bs) <= bs.len(),
        count_signed(bs) <= count_exec(bs),
    decreases bs.len(),
{
    if bs.len() > 0 {
        lemma_count_exec_bound(bs.drop_last());
    }
}

impl Slide {
    pub fn new(title: String) -> (r: Slide)
        ensures
            r@ == (SlideView { title: title@, blocks: seq![] }),
    {
        let r = Slide { title, blocks: Vec::new() };
        assert(block_views(r.blocks@) =~= seq![]);
        r
    }

    pub fn exec_count(&self) -> (r: usize)
        ensures
            r == count_exec(self@.blocks),
    {
        let mut n: usize = 0;
        let mut i: usize = 0;
        while i < self.blocks.len()
            invariant
                i <= self.blocks@.len(),
                n == count_exec(block_views(self.blocks@).take(i as int)),
                n <= i,
            decreases self.blocks@.len() - i,
        {
            proof {
                let t = block_views(self.blocks@).take(i + 1);
                assert(t.drop_last() =~= block_views(self.blocks@).take(i as int));
            }
            if self.blocks[i].is_exec() {
                n = n + 1;
            }
            i = i + 1;
        }
        assert(block_views(self.blocks@).take(i as int) =~= block_views(self.blocks@));
        n
    }

    pub fn signed_count(&self) -> (r: usize)
        ensures
            r == count_signed(self@.blocks),
    {
        let mut n: usize = 0;
        let mut i: usize = 0;
        while i < self.blocks.len()
            invariant
                i <= self.blocks@.len(),
                n == count_signed(block_views(self.blocks@).take(i as int)),
                n <= i,
            decreases self.blocks@.len() - i,
        {
            proof {
                let t = block_views(self.blocks@).take(i + 1);
                assert(t.drop_last() =~= block_views(self.blocks@).take(i as int));
            }
            if self.blocks[i].is_signed() {
                n = n + 1;
            }
            i = i + 1;
        }
        assert(block_views(self.blocks@).take(i as int) =~= block_views(self.blocks@));
        n
    }
}

/// A whole presentation: slides, and the font the slides are shown in.
#[derive(Debug, Clone, PartialEq)]
pub struct Presentation {
    pub slides: Vec<Slide>,
    pub font_name: String,
    pub font_size: u8,
}

/// The mathematical model of a [`Presentation`].
pub struct PresentationView {
    pub slides: Seq<SlideView>,
    pub font_name: Seq<char>,
    pub font_size: u8,
}

pub open spec fn slide_views(ss: Seq<Slide>) -> Seq<SlideView> {
    ss.map_values(|s: Slide| s@)
}

impl View for Presentation {
    type V = PresentationView;

    open spec fn view(&self) -> PresentationView {
        PresentationView {
            slides: slide_views(self.slides@),
            font_name: self.font_name@,
            font_size: self.font_size,
        }
    }
}

/// The font a presentation uses when it names none.
pub open spec fn default_font_name() -> Seq<char> {
    "JetBrains Mono"@
}

/// The font size a presentation uses when it names none.
pub open spec fn default_font_size() -> u8 {
    14
}

/// A presentation with one empty slide.
pub open spec fn blank_view() -> PresentationView {
    PresentationView {
        slides: seq![SlideView { title: "Slide 1"@, blocks: seq![] }],
        font_name: default_font_name(),
        font_size: default_font_size(),
    }
}

pub open spec fn bv(id: u64, kind: KindView, content: Seq<char>) -> BlockView {
    BlockView { id, kind, content }
}

/// The built-in demo presentation.
pub open spec fn demo_view() -> PresentationView {
    PresentationView {
        slides: seq![
            SlideView {
                title: "タイトル"@,
                blocks: seq![
                    bv(1, KindView::Heading { level: 1 }, "slidecli デモ"@),
                    bv(2, KindView::Text, "CLIで完結するスライド作成ツール"@),
                ],
            },
            SlideView {
                title: "概要"@,
                blocks: seq![
                    bv(3, KindView::Heading { level: 1 }, "概要"@),
                    bv(4, KindView::Text, "• Markdown互換の内部ブロックモデル\n• ローカル秘密鍵による実行ブロック署名\n• AI審査連携"@),
                ],
            },
            SlideView {
                title: "デモ実行"@,
                blocks: seq![
                    bv(5, KindView::Heading { level: 1 }, "Cargo テスト実行デモ"@),
                    bv(6, KindView::Text, "テストスイートを実際に動かしてみます"@),
                    bv(7, KindView::Exec { lang: "rust"@, signature: Some("sig:ed25519:3f8a2c..."@) }, "cargo test --release 2>&1"@),
                    bv(8, KindView::OutputPlaceholder, ""@),
                ],
            },
            SlideView {
                title: "結果"@,
                blocks: seq![
                    bv(9, KindView::Heading { level: 1 }, "実行結果"@),
                    bv(10, KindView::Text, "テスト結果がここに表示されます"@),
                ],
            },
            SlideView {
                title: "まとめ"@,
                blocks: seq![
                    bv(11, KindView::Heading { level: 2 }, "まとめ"@),
                    bv(12, KindView::Text, "• CLI完結のビジュアルエディタ\n• デフォルト安全な実行モデル\n• AI支援の署名フロー"@),
                ],
            },
        ],
        font_name: default_font_name(),
        font_size: default_font_size(),
    }
}

/// A string with the characters of a literal.
pub fn owned(s: &str) -> (r: String)
    ensures
        r@ == s@,
{
    s.to_string()
}

fn slide_of(title: &str, blocks: Vec<Block>) -> (r: Slide)
    ensures
        r@ == (SlideView { title: title@, blocks: block_views(blocks@) }),
{
    Slide { title: owned(title), blocks }
}

fn block_of(id: u64, kind: BlockKind, content: &str) -> (r: Block)
    ensures
        r@ == bv(id, kind@, content@),
{
    Block::new(id, kind, owned(content))
}

impl Presentation {
    pub fn blank() -> (r: Presentation)
        ensures
            r@ == blank_view(),
    {
        let mut slides: Vec<Slide> = Vec::new();
        slides.push(Slide::new(owned("Slide 1")));
        let r = Presentation { slides, font_name: owned("JetBrains Mono"), font_size: 14 };
        assert(r@.slides =~= blank_view().slides);
        r
    }

    pub fn demo() -> (r: Presentation)
        ensures
            r@ == demo_view(),
    {
        let mut slides: Vec<Slide> = Vec::new();

        let mut b1: Vec<Block> = Vec::new();
        b1.push(block_of(1, BlockKind::Heading { level: 1 }, "slidecli デモ"));
        b1.push(block_of(2, BlockKind::Text, "CLIで完結するスライド作成ツール"));
        let s1 = slide_of("タイトル", b1);
        assert(s1@.blocks =~= demo_view().slides[0].blocks);
        slides.push(s1);

        let mut b2: Vec<Block> = Vec::new();
        b2.push(block_of(3, BlockKind::Heading { level: 1 }, "概要"));
        b2.push(
            block_of(
                4,
                BlockKind::Text,
                "• Markdown互換の内部ブロックモデル\n• ローカル秘密鍵による実行ブロック署名\n• AI審査連携",
            ),
        );
        let s2 = slide_of("概要", b2);
        assert(s2@.blocks =~= demo_view().slides[1].blocks);
        slides.push(s2);

        let mut b3: Vec<Block> = Vec::new();
        b3.push(block_of(5, BlockKind::Heading { level: 1 }, "Cargo テスト実行デモ"));
        b3.push(block_of(6, BlockKind::Text, "テストスイートを実際に動かしてみます"));
        let exec_kind = BlockKind::Exec {
            lang: owned("rust"),
            signature: Some(owned("sig:ed25519:3f8a2c...")),
        };
        b3.push(block_of(7, exec_kind, "cargo test --release 2>&1"));
        b3.push(block_of(8, BlockKind::OutputPlaceholder, ""));
        let s3 = slide_of("デモ実行", b3);
        assert(s3@.blocks =~= demo_view().slides[2].blocks);
        slides.push(s3);

        let mut b4: Vec<Block> = Vec::new();
        b4.push(block_of(9, BlockKind::Heading { level: 1 }, "実行結果"));
        b4.push(block_of(10, BlockKind::Text, "テスト結果がここに表示されます"));
        let s4 = slide_of("結果", b4);
        assert(s4@.blocks =~= demo_view().slides[3].blocks);
        slides.push(s4);

        let mut b5: Vec<Block> = Vec::new();
        b5.push(block_of(11, BlockKind::Heading { level: 2 }, "まとめ"));
        b5.push(
            block_of(
                12,
                BlockKind::Text,
                "• CLI完結のビジュアルエディタ\n• デフォルト安全な実行モデル\n• AI支援の署名フロー",
            ),
        );
        let s5 = slide_of("まとめ", b5);
        assert(s5@.blocks =~= demo_view().slides[4].blocks);
        slides.push(s5);

        let r = Presentation { slides, font_name: owned("JetBrains Mono"), font_size: 14 };
        assert(r@.slides =~= demo_view().slides);
        r
    }
}

} // verus!
