//! The renderable blocks of a document.
use vstd::prelude::*;

verus! {

/// A run of text inside a paragraph.
#[derive(Debug, Clone)]
pub enum Inline {
    Text(String),
    Bold(String),
    Italic(String),
    Strikethrough(String),
    Code(String),
    Link { text: String, url: String },
    Math { source: String },
    SoftBreak,
    LineBreak,
}

/// The mathematical value of an [`Inline`].
pub enum InlineV {
    Text(Seq<char>),
    Bold(Seq<char>),
    Italic(Seq<char>),
    Strikethrough(Seq<char>),
    Code(Seq<char>),
    Link { text: Seq<char>, url: Seq<char> },
    Math { source: Seq<char> },
    SoftBreak,
    LineBreak,
}

impl DeepView for Inline {
    type V = InlineV;

    open spec fn deep_view(&self) -> InlineV {
        match *self {
            Inline::Text(t) => InlineV::Text(t@),
            Inline::Bold(t) => InlineV::Bold(t@),
            Inline::Italic(t) => InlineV::Italic(t@),
            Inline::Strikethrough(t) => InlineV::Strikethrough(t@),
            Inline::Code(t) => InlineV::Code(t@),
            Inline::Link { text, url } => InlineV::Link { text: text@, url: url@ },
            Inline::Math { source } => InlineV::Math { source: source@ },
            Inline::SoftBreak => InlineV::SoftBreak,
            Inline::LineBreak => InlineV::LineBreak,
        }
    }
}

/// Pre-rendered image data (RGBA pixels).
#[derive(Debug)]
pub struct RenderedImage {
    pub rgba: Vec<u8>,
    pub width: u32,
    pub height: u32,
}

/// The mathematical value of a [`RenderedImage`].
pub struct ImageV {
    pub rgba: Seq<u8>,
    pub width: u32,
    pub height: u32,
}

impl DeepView for RenderedImage {
    type V = ImageV;

    open spec fn deep_view(&self) -> ImageV {
        ImageV { rgba: self.rgba@, width: self.width, height: self.height }
    }
}

impl ImageV {
    /// Whether there are four bytes for each pixel.
    pub open spec fn wf(self) -> bool {
        self.rgba.len() == self.width * self.height * 4
    }
}

impl Clone for RenderedImage {
    fn clone(&self) -> (r: Self)
        ensures
            r.deep_view() == self.deep_view(),
    {
        let rgba = self.rgba.clone();
        assert(rgba@ =~= self.rgba@);
        RenderedImage { rgba, width: self.width, height: self.height }
    }
}

/// A block of the document.
#[derive(Debug, Clone)]
#[allow(clippy::enum_variant_names)]
pub enum Block {
    Heading { level: u8, text: String },
    Paragraph { inlines: Vec<Inline> },
    CodeBlock { lang: Option<String>, code: String },
    Mermaid { source: String, image: Option<RenderedImage> },
    Math { source: String, display: bool },
    List { items: Vec<String> },
    BlockQuote { text: String },
    ThematicBreak,
    Table { headers: Vec<String>, rows: Vec<Vec<String>> },
}

/// The mathematical value of a [`Block`].
pub enum BlockV {
    Heading { level: u8, text: Seq<char> },
    Paragraph { inlines: Seq<InlineV> },
    CodeBlock { lang: Option<Seq<char>>, code: Seq<char> },
    Mermaid { source: Seq<char>, image: Option<ImageV> },
    Math { source: Seq<char>, display: bool },
    List { items: Seq<Seq<char>> },
    BlockQuote { text: Seq<char> },
    ThematicBreak,
    Table { headers: Seq<Seq<char>>, rows: Seq<Seq<Seq<char>>> },
}

impl DeepView for Block {
    type V = BlockV;

    open spec fn deep_view(&self) -> BlockV {
        match *self {
            Block::Heading { level, text } => BlockV::Heading { level, text: text@ },
            Block::Paragraph { inlines } => BlockV::Paragraph { inlines: inlines.deep_view() },
            Block::CodeBlock { lang, code } => BlockV::CodeBlock {
                lang: lang.deep_view(),
                code: code@,
            },
            Block::Mermaid { source, image } => BlockV::Mermaid {
                source: source@,
                image: image.deep_view(),
            },
            Block::Math { source, display } => BlockV::Math { source: source@, display },
            Block::List { items } => BlockV::List { items: items.deep_view() },
            Block::BlockQuote { text } => BlockV::BlockQuote { text: text@ },
            Block::ThematicBreak => BlockV::ThematicBreak,
            Block::Table { headers, rows } => BlockV::Table {
                headers: headers.deep_view(),
                rows: rows.deep_view(),
            },
        }
    }
}

impl BlockV {
    /// Whether the block's image, if it has one, has four bytes for each pixel.
    pub open spec fn wf(self) -> bool {
        self matches BlockV::Mermaid { source: _, image: Some(image) } ==> image.wf()
    }

    /// Whether the block is a diagram that has no image yet.
    pub open spec fn is_pending(self) -> bool {
        self matches BlockV::Mermaid { source: _, image } && image is None
    }
}

/// Whether every image of the blocks has four bytes for each pixel.
pub open spec fn blocks_wf(blocks: Seq<BlockV>) -> bool {
    forall|i: int| 0 <= i < blocks.len() ==> (#[trigger] blocks[i]).wf()
}

} // verus!
