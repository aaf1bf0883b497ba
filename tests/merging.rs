use chimera_text::data::{Chapter, Cover, EpubText, MergeType, Metadata};
use chimera_text::merge::{merge, merge_chapters, BlockKey, ChapterRange, ContentBlock, Passage, TextSide};

const ALL: [MergeType; 4] = [
    MergeType::AlternateChapters,
    MergeType::AlternateParagraphs,
    MergeType::HyperlinkChapters,
    MergeType::HyperlinkParagraphs,
];

fn chapter(title: &str, paragraphs: usize) -> Chapter {
    Chapter {
        title: title.to_string(),
        heading_html: format!("<h1>{title}</h1>"),
        subtitle: None,
        paragraphs: (0..paragraphs).map(|i| format!("<p>{title} {i}</p>")).collect(),
    }
}

fn key(side: TextSide, chapter: usize) -> BlockKey {
    BlockKey { side, chapter }
}

fn keys(blocks: &[ContentBlock]) -> Vec<BlockKey> {
    blocks.iter().map(|b| b.key).collect()
}

fn a_chapters() -> Vec<Chapter> {
    vec![chapter("A1", 2), chapter("A2", 1), chapter("A3", 3)]
}

fn b_chapters() -> Vec<Chapter> {
    vec![chapter("B1", 1), chapter("B2", 2)]
}

fn full(n: usize) -> ChapterRange {
    ChapterRange { start: 0, count: n }
}

fn unique(blocks: &[ContentBlock]) -> bool {
    let ks = keys(blocks);
    (0..ks.len()).all(|p| (p + 1..ks.len()).all(|q| ks[p] != ks[q]))
}

#[test]
fn alternate_chapters_interleaves() {
    let blocks = merge_chapters(&a_chapters(), full(3), &b_chapters(), full(2), MergeType::AlternateChapters);
    assert_eq!(
        keys(&blocks),
        vec![key(TextSide::A, 0), key(TextSide::B, 0), key(TextSide::A, 1), key(TextSide::B, 1), key(TextSide::A, 2)]
    );
    assert!(blocks.iter().all(|b| b.link.is_none()));
    assert_eq!(blocks[4].passages.len(), 3);
    assert!(blocks[4].passages.iter().all(|p| !p.linked));
}

#[test]
fn hyperlink_chapters_links_pairs() {
    let blocks = merge_chapters(&a_chapters(), full(3), &b_chapters(), full(2), MergeType::HyperlinkChapters);
    assert_eq!(
        keys(&blocks),
        vec![key(TextSide::A, 0), key(TextSide::A, 1), key(TextSide::A, 2), key(TextSide::B, 0), key(TextSide::B, 1)]
    );
    assert_eq!(blocks[0].link, Some(key(TextSide::B, 0)));
    assert_eq!(blocks[3].link, Some(key(TextSide::A, 0)));
    assert_eq!(blocks[1].link, Some(key(TextSide::B, 1)));
    assert_eq!(blocks[4].link, Some(key(TextSide::A, 1)));
    assert_eq!(blocks[2].link, None);
    assert!(blocks.iter().all(|b| b.link != Some(key(TextSide::A, 2))));
}

#[test]
fn alternate_paragraphs_interleaves_within_pairs() {
    let blocks = merge_chapters(&a_chapters(), full(3), &b_chapters(), full(2), MergeType::AlternateParagraphs);
    assert_eq!(keys(&blocks), vec![key(TextSide::A, 0), key(TextSide::A, 1), key(TextSide::A, 2)]);
    let p = |side, chapter, paragraph| Passage { side, chapter, paragraph, linked: false };
    assert_eq!(
        blocks[0].passages,
        vec![p(TextSide::A, 0, 0), p(TextSide::B, 0, 0), p(TextSide::A, 0, 1)]
    );
    assert_eq!(
        blocks[1].passages,
        vec![p(TextSide::A, 1, 0), p(TextSide::B, 1, 0), p(TextSide::B, 1, 1)]
    );
    assert_eq!(blocks[2].passages, vec![p(TextSide::A, 2, 0), p(TextSide::A, 2, 1), p(TextSide::A, 2, 2)]);
}

#[test]
fn hyperlink_paragraphs_links_matching_paragraphs() {
    let blocks = merge_chapters(&a_chapters(), full(3), &b_chapters(), full(2), MergeType::HyperlinkParagraphs);
    assert!(blocks.iter().all(|b| b.link.is_none()));
    let linked: Vec<bool> = blocks[0].passages.iter().map(|p| p.linked).collect();
    assert_eq!(linked, vec![true, false]);
    let linked: Vec<bool> = blocks[1].passages.iter().map(|p| p.linked).collect();
    assert_eq!(linked, vec![true]);
    let linked: Vec<bool> = blocks[2].passages.iter().map(|p| p.linked).collect();
    assert_eq!(linked, vec![false, false, false]);
    let linked: Vec<bool> = blocks[4].passages.iter().map(|p| p.linked).collect();
    assert_eq!(linked, vec![true, false]);
}

#[test]
fn block_keys_are_unique_for_every_strategy() {
    for mt in ALL {
        let blocks = merge_chapters(&a_chapters(), full(3), &b_chapters(), full(2), mt);
        assert!(unique(&blocks));
    }
}

#[test]
fn ranges_offset_chapter_indices() {
    let blocks = merge_chapters(&a_chapters(), ChapterRange { start: 1, count: 2 }, &b_chapters(), ChapterRange { start: 1, count: 1 }, MergeType::AlternateChapters);
    assert_eq!(keys(&blocks), vec![key(TextSide::A, 1), key(TextSide::B, 1), key(TextSide::A, 2)]);
}

fn book(title: &str, author: &str, chapters: Vec<Chapter>) -> EpubText {
    EpubText {
        metadata: Metadata { title: title.to_string(), authors: vec![author.to_string()], description: vec!["d".to_string()], cover: None },
        table_of_contents: None,
        preamble: None,
        chapters,
        epilogue: None,
    }
}

#[test]
fn merged_metadata_is_that_of_text_a() {
    let a = book("Title A", "Author A", vec![chapter("Preface", 1), chapter("Chapter 1", 1), chapter("Chapter 2", 1)]);
    let b = book("Title B", "Author B", vec![chapter("Chapter I", 1), chapter("Chapter II", 1), chapter("Notes", 1)]);
    for mt in ALL {
        let m = merge(&a, &b, mt);
        assert_eq!(m.metadata.title, "Title A");
        assert_eq!(m.metadata.authors, vec!["Author A".to_string()]);
        assert_eq!(m.metadata.description, vec!["d".to_string()]);
        assert_eq!(m.a_range, ChapterRange { start: 1, count: 2 });
        assert_eq!(m.b_range, ChapterRange { start: 0, count: 2 });
        assert!(unique(&m.blocks));
    }
}

#[test]
fn merging_books_without_chapters_gives_no_block() {
    let a = book("A", "x", vec![]);
    let b = book("B", "y", vec![]);
    let m = merge(&a, &b, MergeType::AlternateChapters);
    assert_eq!(m.a_range, ChapterRange { start: 0, count: 0 });
    assert!(m.blocks.is_empty());
}

#[test]
fn merged_cover_is_that_of_text_a() {
    let mut a = book("Title A", "Author A", vec![chapter("Chapter 1", 1)]);
    a.metadata.cover = Some(Cover { data: vec![1, 2, 3], mime: "image/png".to_string() });
    let mut b = book("Title B", "Author B", vec![chapter("Chapter 1", 1)]);
    b.metadata.cover = Some(Cover { data: vec![9], mime: "image/jpeg".to_string() });
    for mt in ALL {
        let m = merge(&a, &b, mt);
        let cover = m.metadata.cover.unwrap();
        assert_eq!(cover.data, vec![1, 2, 3]);
        assert_eq!(cover.mime, "image/png");
    }
    let plain = book("Title C", "Author C", vec![chapter("Chapter 1", 1)]);
    assert!(merge(&plain, &b, MergeType::AlternateChapters).metadata.cover.is_none());
}
