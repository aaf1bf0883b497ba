use vstd::prelude::*;

verus! {

/// Associates a place in a text with an identifier, so that corresponding
/// places of two parallel texts can be linked.
#[derive(Clone, Debug)]
pub struct AnchorPoint {
    pub identifier: String,
    pub anchor_type: AnchorPointType,
}

/// What an anchor marks the start of.
#[derive(Clone, Copy, Debug, PartialEq, Eq, Structural)]
pub enum AnchorPointType {
    ChapterStart,
    ParagraphStart,
}

/// How two texts are combined.
#[derive(Clone, Copy, Debug, Hash, PartialEq, Eq, Structural)]
pub enum MergeType {
    /// Alternates between text a and b every chapter: A1, B1, A2, B2, ...
    AlternateChapters,
    /// Alternates between text a and b every paragraph within each pair of chapters.
    AlternateParagraphs,
    /// All of text a, then all of text b, with links between corresponding chapters.
    HyperlinkChapters,
    /// All of text a, then all of text b, with links between corresponding paragraphs.
    HyperlinkParagraphs,
}

/// A book's cover image: its bytes and their media type.
#[derive(Clone, Debug)]
pub struct Cover {
    pub data: Vec<u8>,
    pub mime: String,
}

/// The descriptive fields of a book.
#[derive(Clone, Debug, Default)]
pub struct Metadata {
    pub title: String,
    pub authors: Vec<String>,
    pub description: Vec<String>,
    pub cover: Option<Cover>,
}

/// A book cut into chapters, with what precedes and follows them.
#[derive(Clone, Debug, Default)]
pub struct EpubText {
    pub metadata: Metadata,
    pub table_of_contents: Option<String>,
    pub preamble: Option<String>,
    pub chapters: Vec<Chapter>,
    pub epilogue: Option<String>,
}

/// A chapter of a book: its heading and the markup of its body, one entry per
/// top-level node that followed the heading.
#[derive(Clone, Debug, Default)]
pub struct Chapter {
    pub title: String,
    /// The markup of the chapter's heading.
    pub heading_html: String,
    pub subtitle: Option<String>,
    pub paragraphs: Vec<String>,
}

} // verus!
