use vstd::prelude::*;

use crate::align::{chapter_numbers, get_main_chapter_indices, is_main_range};
use crate::data::{Chapter, Cover, EpubText, MergeType, Metadata};

verus! {

/// Which of the two merged texts something comes from; text a is the primary.
#[derive(Clone, Copy, Debug, PartialEq, Eq, Structural)]
pub enum TextSide {
    A,
    B,
}

/// Names a content block by the chapter it holds, or opens.
#[derive(Clone, Copy, Debug, PartialEq, Eq, Structural)]
pub struct BlockKey {
    pub side: TextSide,
    pub chapter: usize,
}

/// A paragraph placed in the merged text: where it comes from, and whether
/// it carries a link to the paragraph at the same place of the other text.
#[derive(Clone, Copy, Debug, PartialEq, Eq, Structural)]
pub struct Passage {
    pub side: TextSide,
    pub chapter: usize,
    pub paragraph: usize,
    pub linked: bool,
}

/// One unit of the merged text, written as a file of its own: its paragraphs
/// in order and, where chapters are linked, the block it links to.
#[derive(Clone, Debug)]
pub struct ContentBlock {
    pub key: BlockKey,
    pub passages: Vec<Passage>,
    pub link: Option<BlockKey>,
}

/// A run of chapters of a text: `count` chapters from `start` on.
#[derive(Clone, Copy, Debug, PartialEq, Eq, Structural)]
pub struct ChapterRange {
    pub start: usize,
    pub count: usize,
}

pub open spec fn min(x: int, y: int) -> int {
    if x <= y { x } else { y }
}

/// The item at position `p` when `x` items of text a and `y` items of text b
/// alternate, a first, the leftover of the longer one following in order:
/// its side and its index within that side.
pub open spec fn interleaved(x: int, y: int, p: int) -> (TextSide, int) {
    let m = min(x, y);
    if p < 2 * m {
        if p % 2 == 0 { (TextSide::A, p / 2) } else { (TextSide::B, p / 2) }
    } else if x > y {
        (TextSide::A, p - m)
    } else {
        (TextSide::B, p - m)
    }
}

pub open spec fn pick<T>(side: TextSide, a: T, b: T) -> T {
    match side {
        TextSide::A => a,
        TextSide::B => b,
    }
}

pub open spec fn other(side: TextSide) -> TextSide {
    match side {
        TextSide::A => TextSide::B,
        TextSide::B => TextSide::A,
    }
}

/// The range fits within the chapters.
pub open spec fn range_within(r: ChapterRange, chapters: Seq<Chapter>) -> bool {
    r.start + r.count <= chapters.len()
}

/// The number of paragraphs of the `k`-th chapter of a range.
pub open spec fn paragraph_count(chapters: Seq<Chapter>, r: ChapterRange, k: int) -> int {
    chapters[r.start + k].paragraphs@.len() as int
}

/// The paragraphs of one chapter in order; each linked where the chapter at
/// the same place of the other text has a paragraph at the same place
/// (`other_count` of them), none linked where `other_count` is 0.
pub open spec fn chapter_passages(side: TextSide, chapter: int, n: int, other_count: int) -> Seq<Passage> {
    Seq::new(n as nat, |j: int| Passage {
        side,
        chapter: chapter as usize,
        paragraph: j as usize,
        linked: j < other_count,
    })
}

/// The paragraphs of two chapters, alternating, a first.
pub open spec fn alternating_passages(ca: int, na: int, cb: int, nb: int) -> Seq<Passage> {
    Seq::new((na + nb) as nat, |p: int| {
        let (side, j) = interleaved(na, nb, p);
        Passage { side, chapter: pick(side, ca, cb) as usize, paragraph: j as usize, linked: false }
    })
}

/// The number of blocks that a strategy makes of ranges of `na` and `nb` chapters.
pub open spec fn block_count(merge_type: MergeType, na: int, nb: int) -> int {
    match merge_type {
        MergeType::AlternateParagraphs => if na >= nb { na } else { nb },
        _ => na + nb,
    }
}

/// The block at position `p` of the merged text: its key, the block it links
/// to, and its paragraphs.
pub open spec fn expected_block(
    a: Seq<Chapter>,
    ra: ChapterRange,
    b: Seq<Chapter>,
    rb: ChapterRange,
    merge_type: MergeType,
    p: int,
) -> (BlockKey, Option<BlockKey>, Seq<Passage>) {
    let na = ra.count as int;
    let nb = rb.count as int;
    match merge_type {
        MergeType::AlternateChapters => {
            let (side, k) = interleaved(na, nb, p);
            let c = pick(side, ra.start as int, rb.start as int) + k;
            let n = pick(side, paragraph_count(a, ra, k), paragraph_count(b, rb, k));
            (BlockKey { side, chapter: c as usize }, None, chapter_passages(side, c, n, 0))
        },
        MergeType::AlternateParagraphs => {
            let ca = ra.start + p;
            let cb = rb.start + p;
            if p < na && p < nb {
                (
                    BlockKey { side: TextSide::A, chapter: ca as usize },
                    None,
                    alternating_passages(ca, paragraph_count(a, ra, p), cb, paragraph_count(b, rb, p)),
                )
            } else if p < na {
                (
                    BlockKey { side: TextSide::A, chapter: ca as usize },
                    None,
                    chapter_passages(TextSide::A, ca, paragraph_count(a, ra, p), 0),
                )
            } else {
                (
                    BlockKey { side: TextSide::B, chapter: cb as usize },
                    None,
                    chapter_passages(TextSide::B, cb, paragraph_count(b, rb, p), 0),
                )
            }
        },
        MergeType::HyperlinkChapters | MergeType::HyperlinkParagraphs => {
            let by_paragraph = merge_type == MergeType::HyperlinkParagraphs;
            let side = if p < na { TextSide::A } else { TextSide::B };
            let k = if p < na { p } else { p - na };
            let c = pick(side, ra.start as int, rb.start as int) + k;
            let oc = pick(side, rb.start as int, ra.start as int) + k;
            let has_other = k < pick(side, nb, na);
            let n = pick(side, paragraph_count(a, ra, k), paragraph_count(b, rb, k));
            let on = if has_other && by_paragraph {
                pick(side, paragraph_count(b, rb, k), paragraph_count(a, ra, k))
            } else {
                0
            };
            (
                BlockKey { side, chapter: c as usize },
                if has_other && !by_paragraph {
                    Some(BlockKey { side: other(side), chapter: oc as usize })
                } else {
                    None
                },
                chapter_passages(side, c, n, on),
            )
        },
    }
}

/// The block is the one expected at position `p`.
pub open spec fn block_matches(
    a: Seq<Chapter>,
    ra: ChapterRange,
    b: Seq<Chapter>,
    rb: ChapterRange,
    merge_type: MergeType,
    p: int,
    block: ContentBlock,
) -> bool {
    (block.key, block.link, block.passages@) == expected_block(a, ra, b, rb, merge_type, p)
}

/// The blocks of the merged text for two ranges and a strategy.
pub open spec fn merged_blocks(
    a: Seq<Chapter>,
    ra: ChapterRange,
    b: Seq<Chapter>,
    rb: ChapterRange,
    merge_type: MergeType,
    blocks: Seq<ContentBlock>,
) -> bool {
    &&& blocks.len() == block_count(merge_type, ra.count as int, rb.count as int)
    &&& forall|p: int| 0 <= p < blocks.len() ==> #[trigger] block_matches(a, ra, b, rb, merge_type, p, blocks[p])
}

/// No two blocks share a key.
pub open spec fn keys_unique(blocks: Seq<ContentBlock>) -> bool {
    forall|p: int, q: int| 0 <= p < q < blocks.len() ==> (#[trigger] blocks[p]).key != (#[trigger] blocks[q]).key
}

fn chapter_blocks_passages(side: TextSide, chapter: usize, n: usize, other_count: usize) -> (r: Vec<Passage>)
    ensures
        r@ == chapter_passages(side, chapter as int, n as int, other_count as int),
{
    let mut r: Vec<Passage> = Vec::new();
    let mut j: usize = 0;
    while j < n
        invariant
            j <= n,
            r@ =~= chapter_passages(side, chapter as int, j as int, other_count as int),
        decreases n - j,
    {
        r.push(Passage { side, chapter, paragraph: j, linked: j < other_count });
        j = j + 1;
    }
    r
}

fn alternate_passages(ca: usize, na: usize, cb: usize, nb: usize) -> (r: Vec<Passage>)
    ensures
        r@ == alternating_passages(ca as int, na as int, cb as int, nb as int),
{
    let mut r: Vec<Passage> = Vec::new();
    let m = if na <= nb { na } else { nb };
    let mut j: usize = 0;
    while j < m
        invariant
            j <= m,
            m == min(na as int, nb as int),
            r@.len() == 2 * j,
            forall|p: int| 0 <= p < 2 * j ==> #[trigger] r@[p] == alternating_passages(ca as int, na as int, cb as int, nb as int)[p],
        decreases m - j,
    {
        r.push(Passage { side: TextSide::A, chapter: ca, paragraph: j, linked: false });
        r.push(Passage { side: TextSide::B, chapter: cb, paragraph: j, linked: false });
        j = j + 1;
    }
    let mx = if na <= nb { nb } else { na };
    let mut k: usize = m;
    while k < mx
        invariant
            m == min(na as int, nb as int),
            mx == if na <= nb { nb } else { na },
            m <= k <= mx,
            r@.len() == m + k,
            forall|p: int| 0 <= p < r@.len() ==> #[trigger] r@[p] == alternating_passages(ca as int, na as int, cb as int, nb as int)[p],
        decreases mx - k,
    {
        if na > nb {
            r.push(Passage { side: TextSide::A, chapter: ca, paragraph: k, linked: false });
        } else {
            r.push(Passage { side: TextSide::B, chapter: cb, paragraph: k, linked: false });
        }
        k = k + 1;
    }
    assert(r@ =~= alternating_passages(ca as int, na as int, cb as int, nb as int));
    r
}

fn chapter_block(
    chapters: &Vec<Chapter>,
    side: TextSide,
    c: usize,
    other_count: usize,
    link: Option<BlockKey>,
) -> (r: ContentBlock)
    requires
        c < chapters@.len(),
    ensures
        r.key == (BlockKey { side, chapter: c }),
        r.link == link,
        r.passages@ == chapter_passages(side, c as int, chapters@[c as int].paragraphs@.len() as int, other_count as int),
{
    let n = chapters[c].paragraphs.len();
    ContentBlock { key: BlockKey { side, chapter: c }, passages: chapter_blocks_passages(side, c, n, other_count), link }
}

fn alternate_chapters(a: &Vec<Chapter>, ra: ChapterRange, b: &Vec<Chapter>, rb: ChapterRange) -> (r: Vec<ContentBlock>)
    requires
        range_within(ra, a@),
        range_within(rb, b@),
    ensures
        merged_blocks(a@, ra, b@, rb, MergeType::AlternateChapters, r@),
{
    let ghost mt = MergeType::AlternateChapters;
    let alen = a.len();
    let blen = b.len();
    let na = ra.count;
    let nb = rb.count;
    let m = if na <= nb { na } else { nb };
    let mut r: Vec<ContentBlock> = Vec::new();
    let mut i: usize = 0;
    while i < m
        invariant
            range_within(ra, a@),
            range_within(rb, b@),
            alen == a@.len(),
            mt == MergeType::AlternateChapters,
            blen == b@.len(),
            na == ra.count,
            nb == rb.count,
            m == min(na as int, nb as int),
            i <= m,
            r@.len() == 2 * i,
            forall|p: int| 0 <= p < r@.len() ==> #[trigger] block_matches(a@, ra, b@, rb, mt, p, r@[p]),
        decreases m - i,
    {
        r.push(chapter_block(a, TextSide::A, ra.start + i, 0, None));
        r.push(chapter_block(b, TextSide::B, rb.start + i, 0, None));
        assert(block_matches(a@, ra, b@, rb, mt, 2 * i, r@[2 * i]));
        assert(block_matches(a@, ra, b@, rb, mt, 2 * i + 1, r@[2 * i + 1]));
        i = i + 1;
    }
    let mx = if na <= nb { nb } else { na };
    let mut k: usize = m;
    while k < mx
        invariant
            range_within(ra, a@),
            range_within(rb, b@),
            alen == a@.len(),
            mt == MergeType::AlternateChapters,
            blen == b@.len(),
            na == ra.count,
            nb == rb.count,
            m == min(na as int, nb as int),
            mx == if na <= nb { nb } else { na },
            m <= k <= mx,
            r@.len() == m + k,
            forall|p: int| 0 <= p < r@.len() ==> #[trigger] block_matches(a@, ra, b@, rb, mt, p, r@[p]),
        decreases mx - k,
    {
        if na > nb {
            r.push(chapter_block(a, TextSide::A, ra.start + k, 0, None));
        } else {
            r.push(chapter_block(b, TextSide::B, rb.start + k, 0, None));
        }
        assert(block_matches(a@, ra, b@, rb, mt, m + k, r@[m + k]));
        k = k + 1;
    }
    r
}

fn alternate_paragraphs(a: &Vec<Chapter>, ra: ChapterRange, b: &Vec<Chapter>, rb: ChapterRange) -> (r: Vec<ContentBlock>)
    requires
        range_within(ra, a@),
        range_within(rb, b@),
    ensures
        merged_blocks(a@, ra, b@, rb, MergeType::AlternateParagraphs, r@),
{
    let ghost mt = MergeType::AlternateParagraphs;
    let alen = a.len();
    let blen = b.len();
    let na = ra.count;
    let nb = rb.count;
    let mx = if na <= nb { nb } else { na };
    let mut r: Vec<ContentBlock> = Vec::new();
    let mut p: usize = 0;
    while p < mx
        invariant
            range_within(ra, a@),
            range_within(rb, b@),
            alen == a@.len(),
            mt == MergeType::AlternateParagraphs,
            blen == b@.len(),
            na == ra.count,
            nb == rb.count,
            mx == if na <= nb { nb } else { na },
            p <= mx,
            r@.len() == p,
            forall|q: int| 0 <= q < r@.len() ==> #[trigger] block_matches(a@, ra, b@, rb, mt, q, r@[q]),
        decreases mx - p,
    {
        if p < na && p < nb {
            let ca = ra.start + p;
            let cb = rb.start + p;
            let passages = alternate_passages(ca, a[ca].paragraphs.len(), cb, b[cb].paragraphs.len());
            r.push(ContentBlock { key: BlockKey { side: TextSide::A, chapter: ca }, passages, link: None });
        } else if p < na {
            r.push(chapter_block(a, TextSide::A, ra.start + p, 0, None));
        } else {
            r.push(chapter_block(b, TextSide::B, rb.start + p, 0, None));
        }
        assert(block_matches(a@, ra, b@, rb, mt, p as int, r@[p as int]));
        p = p + 1;
    }
    r
}

fn hyperlinked(
    a: &Vec<Chapter>,
    ra: ChapterRange,
    b: &Vec<Chapter>,
    rb: ChapterRange,
    merge_type: MergeType,
) -> (r: Vec<ContentBlock>)
    requires
        range_within(ra, a@),
        range_within(rb, b@),
        merge_type == MergeType::HyperlinkChapters || merge_type == MergeType::HyperlinkParagraphs,
    ensures
        merged_blocks(a@, ra, b@, rb, merge_type, r@),
{
    let by_paragraph = merge_type == MergeType::HyperlinkParagraphs;
    let alen = a.len();
    let blen = b.len();
    let na = ra.count;
    let nb = rb.count;
    let mut r: Vec<ContentBlock> = Vec::new();
    let mut k: usize = 0;
    while k < na
        invariant
            range_within(ra, a@),
            range_within(rb, b@),
            alen == a@.len(),
            blen == b@.len(),
            merge_type == MergeType::HyperlinkChapters || merge_type == MergeType::HyperlinkParagraphs,
            by_paragraph == (merge_type == MergeType::HyperlinkParagraphs),
            na == ra.count,
            nb == rb.count,
            k <= na,
            r@.len() == k,
            forall|q: int| 0 <= q < r@.len() ==> #[trigger] block_matches(a@, ra, b@, rb, merge_type, q, r@[q]),
        decreases na - k,
    {
        let has_other = k < nb;
        let on = if has_other && by_paragraph { b[rb.start + k].paragraphs.len() } else { 0 };
        let link = if has_other && !by_paragraph {
            Some(BlockKey { side: TextSide::B, chapter: rb.start + k })
        } else {
            None
        };
        r.push(chapter_block(a, TextSide::A, ra.start + k, on, link));
        assert(block_matches(a@, ra, b@, rb, merge_type, k as int, r@[k as int]));
        k = k + 1;
    }
    let mut k: usize = 0;
    while k < nb
        invariant
            range_within(ra, a@),
            range_within(rb, b@),
            alen == a@.len(),
            blen == b@.len(),
            merge_type == MergeType::HyperlinkChapters || merge_type == MergeType::HyperlinkParagraphs,
            by_paragraph == (merge_type == MergeType::HyperlinkParagraphs),
            na == ra.count,
            nb == rb.count,
            k <= nb,
            r@.len() == na + k,
            forall|q: int| 0 <= q < r@.len() ==> #[trigger] block_matches(a@, ra, b@, rb, merge_type, q, r@[q]),
        decreases nb - k,
    {
        let has_other = k < na;
        let on = if has_other && by_paragraph { a[ra.start + k].paragraphs.len() } else { 0 };
        let link = if has_other && !by_paragraph {
            Some(BlockKey { side: TextSide::A, chapter: ra.start + k })
        } else {
            None
        };
        r.push(chapter_block(b, TextSide::B, rb.start + k, on, link));
        assert(block_matches(a@, ra, b@, rb, merge_type, na + k, r@[na + k]));
        k = k + 1;
    }
    r
}

proof fn lemma_interleaved_injective(x: int, y: int, p: int, q: int)
    requires
        0 <= x,
        0 <= y,
        0 <= p < q < x + y,
    ensures
        interleaved(x, y, p) != interleaved(x, y, q),
{
}

/// The ranges lie within the chapters, and their chapter indices fit a `usize`.
pub open spec fn ranges_valid(a: Seq<Chapter>, ra: ChapterRange, b: Seq<Chapter>, rb: ChapterRange) -> bool {
    &&& range_within(ra, a)
    &&& range_within(rb, b)
    &&& ra.start + ra.count <= usize::MAX
    &&& rb.start + rb.count <= usize::MAX
}

/// Whatever the strategy, no two blocks of the merged text share a key, so
/// each can be written under a name of its own.
pub proof fn lemma_block_keys_unique(
    a: Seq<Chapter>,
    ra: ChapterRange,
    b: Seq<Chapter>,
    rb: ChapterRange,
    merge_type: MergeType,
    blocks: Seq<ContentBlock>,
)
    requires
        ranges_valid(a, ra, b, rb),
        merged_blocks(a, ra, b, rb, merge_type, blocks),
    ensures
        keys_unique(blocks),
{
    assert forall|p: int, q: int| 0 <= p < q < blocks.len() implies (#[trigger] blocks[p]).key != (#[trigger] blocks[q]).key by {
        assert(block_matches(a, ra, b, rb, merge_type, p, blocks[p]));
        assert(block_matches(a, ra, b, rb, merge_type, q, blocks[q]));
        if merge_type == MergeType::AlternateChapters {
            lemma_interleaved_injective(ra.count as int, rb.count as int, p, q);
        }
    }
}

/// Under HyperlinkChapters links go both ways: one block links to another
/// exactly when that one links back to it.
pub proof fn lemma_chapter_links_mutual(
    a: Seq<Chapter>,
    ra: ChapterRange,
    b: Seq<Chapter>,
    rb: ChapterRange,
    blocks: Seq<ContentBlock>,
)
    requires
        ranges_valid(a, ra, b, rb),
        merged_blocks(a, ra, b, rb, MergeType::HyperlinkChapters, blocks),
    ensures
        forall|p: int, q: int| 0 <= p < blocks.len() && 0 <= q < blocks.len() ==>
            ((#[trigger] blocks[p]).link == Some((#[trigger] blocks[q]).key) <==> blocks[q].link == Some(blocks[p].key)),
{
    assert forall|p: int, q: int| 0 <= p < blocks.len() && 0 <= q < blocks.len() implies
        ((#[trigger] blocks[p]).link == Some((#[trigger] blocks[q]).key) <==> blocks[q].link == Some(blocks[p].key)) by {
        assert(block_matches(a, ra, b, rb, MergeType::HyperlinkChapters, p, blocks[p]));
        assert(block_matches(a, ra, b, rb, MergeType::HyperlinkChapters, q, blocks[q]));
    }
}

/// Under HyperlinkChapters the `k`-th chapter of each range links to the
/// `k`-th of the other where that exists, and a chapter without a
/// counterpart links nowhere.
pub proof fn lemma_chapter_links_pair_up(
    a: Seq<Chapter>,
    ra: ChapterRange,
    b: Seq<Chapter>,
    rb: ChapterRange,
    blocks: Seq<ContentBlock>,
)
    requires
        ranges_valid(a, ra, b, rb),
        merged_blocks(a, ra, b, rb, MergeType::HyperlinkChapters, blocks),
    ensures
        forall|k: int| 0 <= k < ra.count ==> (#[trigger] blocks[k]).link == if k < rb.count {
            Some(BlockKey { side: TextSide::B, chapter: (rb.start + k) as usize })
        } else {
            None
        },
        forall|k: int| 0 <= k < rb.count ==> (#[trigger] blocks[ra.count + k]).link == if k < ra.count {
            Some(BlockKey { side: TextSide::A, chapter: (ra.start + k) as usize })
        } else {
            None
        },
{
    assert forall|k: int| 0 <= k < ra.count implies (#[trigger] blocks[k]).link == if k < rb.count {
        Some(BlockKey { side: TextSide::B, chapter: (rb.start + k) as usize })
    } else {
        None
    } by {
        assert(block_matches(a, ra, b, rb, MergeType::HyperlinkChapters, k, blocks[k]));
    }
    assert forall|k: int| 0 <= k < rb.count implies (#[trigger] blocks[ra.count + k]).link == if k < ra.count {
        Some(BlockKey { side: TextSide::A, chapter: (ra.start + k) as usize })
    } else {
        None
    } by {
        assert(block_matches(a, ra, b, rb, MergeType::HyperlinkChapters, ra.count + k, blocks[ra.count + k]));
    }
}

/// Merges two runs of chapters under a strategy into the blocks of the
/// merged text.
pub fn merge_chapters(
    a: &Vec<Chapter>,
    ra: ChapterRange,
    b: &Vec<Chapter>,
    rb: ChapterRange,
    merge_type: MergeType,
) -> (r: Vec<ContentBlock>)
    requires
        range_within(ra, a@),
        range_within(rb, b@),
    ensures
        merged_blocks(a@, ra, b@, rb, merge_type, r@),
        keys_unique(r@),
{
    let r = match merge_type {
        MergeType::AlternateChapters => alternate_chapters(a, ra, b, rb),
        MergeType::AlternateParagraphs => alternate_paragraphs(a, ra, b, rb),
        MergeType::HyperlinkChapters => hyperlinked(a, ra, b, rb, merge_type),
        MergeType::HyperlinkParagraphs => hyperlinked(a, ra, b, rb, merge_type),
    };
    // Reading the lengths bounds the ranges' ends by `usize::MAX` for the proof.
    let _ = (a.len(), b.len());
    proof {
        lemma_block_keys_unique(a@, ra, b@, rb, merge_type, r@);
    }
    r
}

/// The merged text: the primary text's metadata, the main range taken from
/// each text, and the blocks in order.
#[derive(Clone, Debug)]
pub struct MergedDocument {
    pub metadata: Metadata,
    pub a_range: ChapterRange,
    pub b_range: ChapterRange,
    pub blocks: Vec<ContentBlock>,
}

/// The strings of a list, as the contracts see them.
pub open spec fn strings_view(v: Seq<String>) -> Seq<Seq<char>> {
    v.map_values(|s: String| s@)
}

/// A cover as the contracts see it: its bytes and media type.
pub open spec fn cover_view(c: Option<Cover>) -> Option<(Seq<u8>, Seq<char>)> {
    match c {
        Some(c) => Some((c.data@, c.mime@)),
        None => None,
    }
}

/// Metadata as the contracts see it: title, authors, description, cover.
pub open spec fn metadata_view(m: Metadata) -> (Seq<char>, Seq<Seq<char>>, Seq<Seq<char>>, Option<(Seq<u8>, Seq<char>)>) {
    (m.title@, strings_view(m.authors@), strings_view(m.description@), cover_view(m.cover))
}

/// `r` is the main range of the chapters (see `is_main_range`), as a start
/// and a count; empty for a text without chapters.
pub open spec fn is_main_chapter_range(chapters: Seq<Chapter>, r: ChapterRange) -> bool {
    if chapters.len() == 0 {
        r == ChapterRange { start: 0, count: 0 }
    } else {
        r.count >= 1 && is_main_range(chapter_numbers(chapters), r.start as int, r.start + r.count - 1)
    }
}

fn copy_strings(v: &Vec<String>) -> (r: Vec<String>)
    ensures
        strings_view(r@) == strings_view(v@),
{
    let mut r: Vec<String> = Vec::new();
    let mut i: usize = 0;
    while i < v.len()
        invariant
            i <= v@.len(),
            strings_view(r@) =~= strings_view(v@.take(i as int)),
        decreases v@.len() - i,
    {
        let c = v[i].clone();
        r.push(c);
        assert(strings_view(r@) =~= strings_view(v@.take(i as int)).push(v@[i as int]@));
        assert(v@.take(i + 1) =~= v@.take(i as int).push(v@[i as int]));
        i = i + 1;
    }
    assert(v@.take(i as int) =~= v@);
    r
}

fn copy_bytes(v: &Vec<u8>) -> (r: Vec<u8>)
    ensures
        r@ == v@,
{
    let mut r: Vec<u8> = Vec::new();
    let mut i: usize = 0;
    while i < v.len()
        invariant
            i <= v@.len(),
            r@ =~= v@.take(i as int),
        decreases v@.len() - i,
    {
        r.push(v[i]);
        i = i + 1;
    }
    assert(v@.take(i as int) =~= v@);
    r
}

/// Copies a book's metadata: title, authors, description and cover.
pub fn copy_metadata(m: &Metadata) -> (r: Metadata)
    ensures
        metadata_view(r) == metadata_view(*m),
{
    let cover = match &m.cover {
        Some(c) => Some(Cover { data: copy_bytes(&c.data), mime: c.mime.clone() }),
        None => None,
    };
    Metadata { title: m.title.clone(), authors: copy_strings(&m.authors), description: copy_strings(&m.description), cover }
}

fn main_chapter_range(chapters: &Vec<Chapter>) -> (r: ChapterRange)
    ensures
        is_main_chapter_range(chapters@, r),
        range_within(r, chapters@),
{
    if chapters.len() == 0 {
        return ChapterRange { start: 0, count: 0 };
    }
    let (i, j) = get_main_chapter_indices(chapters);
    ChapterRange { start: i, count: j - i + 1 }
}

/// Merges two texts: takes the main range of chapters of each, and combines
/// the two under the strategy. The metadata is that of text a, whatever the
/// strategy.
pub fn merge(a: &EpubText, b: &EpubText, merge_type: MergeType) -> (r: MergedDocument)
    ensures
        metadata_view(r.metadata) == metadata_view(a.metadata),
        is_main_chapter_range(a.chapters@, r.a_range),
        is_main_chapter_range(b.chapters@, r.b_range),
        merged_blocks(a.chapters@, r.a_range, b.chapters@, r.b_range, merge_type, r.blocks@),
        keys_unique(r.blocks@),
{
    let a_range = main_chapter_range(&a.chapters);
    let b_range = main_chapter_range(&b.chapters);
    let blocks = merge_chapters(&a.chapters, a_range, &b.chapters, b_range, merge_type);
    MergedDocument { metadata: copy_metadata(&a.metadata), a_range, b_range, blocks }
}

} // verus!
