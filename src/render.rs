use vstd::prelude::*;
use vstd::string::*;

use crate::data::{Chapter, EpubText, MergeType};
use crate::merge::{
    block_matches, is_main_chapter_range, keys_unique, merge, merged_blocks, metadata_view, other, pick, ranges_valid,
    BlockKey, ChapterRange, ContentBlock, MergedDocument, Passage, TextSide,
};

verus! {

/// One file of the merged book: its name, the title it has in the table of
/// contents, and its XHTML text.
#[derive(Clone, Debug)]
pub struct RenderedBlock {
    pub file_name: String,
    pub title: String,
    pub xhtml: String,
}

/// The decimal digit `d`.
pub open spec fn digit_char(d: int) -> char {
    seq!['0', '1', '2', '3', '4', '5', '6', '7', '8', '9'][d]
}

/// `n` in decimal, without leading zeros.
pub open spec fn decimal(n: nat) -> Seq<char>
    decreases n,
{
    if n < 10 {
        seq![digit_char(n as int)]
    } else {
        decimal(n / 10) + seq![digit_char((n % 10) as int)]
    }
}

fn digit_str(d: usize) -> (r: &'static str)
    requires
        d < 10,
    ensures
        r@ == seq![digit_char(d as int)],
{
    proof {
        reveal_strlit("0");
        reveal_strlit("1");
        reveal_strlit("2");
        reveal_strlit("3");
        reveal_strlit("4");
        reveal_strlit("5");
        reveal_strlit("6");
        reveal_strlit("7");
        reveal_strlit("8");
        reveal_strlit("9");
    }
    let r = if d == 0 { "0" } else if d == 1 { "1" } else if d == 2 { "2" } else if d == 3 { "3" }
        else if d == 4 { "4" } else if d == 5 { "5" } else if d == 6 { "6" } else if d == 7 { "7" }
        else if d == 8 { "8" } else { "9" };
    assert(r@ =~= seq![digit_char(d as int)]);
    r
}

/// Writes `n` in decimal.
pub fn decimal_string(n: usize) -> (r: String)
    ensures
        r@ == decimal(n as nat),
    decreases n,
{
    if n < 10 {
        String::from_str(digit_str(n))
    } else {
        let mut r = decimal_string(n / 10);
        r.append(digit_str(n % 10));
        r
    }
}

pub open spec fn side_letter(side: TextSide) -> Seq<char> {
    match side {
        TextSide::A => "a"@,
        TextSide::B => "b"@,
    }
}

/// The name of a block: `a_3` for the block of chapter 3 of text a.
pub open spec fn block_name(key: BlockKey) -> Seq<char> {
    side_letter(key.side) + "_"@ + decimal(key.chapter as nat)
}

/// The identifier of a paragraph: `a_3_p0` for the first paragraph of
/// chapter 3 of text a.
pub open spec fn paragraph_anchor(side: TextSide, chapter: int, paragraph: int) -> Seq<char> {
    block_name(BlockKey { side, chapter: chapter as usize }) + "_p"@ + decimal(paragraph as nat)
}

/// A link, shown as a double arrow, to a place of the merged book.
pub open spec fn link_markup(target: Seq<char>) -> Seq<char> {
    "<p><a href=\""@ + target + "\">&#8644;</a></p>\n"@
}

/// The paragraph that a passage places.
pub open spec fn passage_text(a: Seq<Chapter>, b: Seq<Chapter>, p: Passage) -> Seq<char> {
    pick(p.side, a, b)[p.chapter as int].paragraphs@[p.paragraph as int]@
}

/// The chapter at the same place of the other text's range.
pub open spec fn counterpart_chapter(ra: ChapterRange, rb: ChapterRange, side: TextSide, chapter: int) -> int {
    match side {
        TextSide::A => rb.start + (chapter - ra.start),
        TextSide::B => ra.start + (chapter - rb.start),
    }
}

/// A passage as XHTML: the paragraph's markup as it is; where it is linked,
/// preceded by an anchor and followed by a link to the paragraph at the same
/// place of the other text.
pub open spec fn passage_markup(a: Seq<Chapter>, b: Seq<Chapter>, ra: ChapterRange, rb: ChapterRange, p: Passage) -> Seq<char> {
    let anchor = paragraph_anchor(p.side, p.chapter as int, p.paragraph as int);
    let there = BlockKey { side: other(p.side), chapter: counterpart_chapter(ra, rb, p.side, p.chapter as int) as usize };
    if p.linked {
        "<a id=\""@ + anchor + "\"></a>"@ + passage_text(a, b, p) + link_markup(
            block_name(there) + ".xhtml#"@ + paragraph_anchor(there.side, there.chapter as int, p.paragraph as int),
        )
    } else {
        passage_text(a, b, p)
    }
}

/// The passages of a block as XHTML, one after the other.
pub open spec fn passages_markup(a: Seq<Chapter>, b: Seq<Chapter>, ra: ChapterRange, rb: ChapterRange, ps: Seq<Passage>) -> Seq<char>
    decreases ps.len(),
{
    if ps.len() == 0 {
        Seq::empty()
    } else {
        passages_markup(a, b, ra, rb, ps.drop_last()) + passage_markup(a, b, ra, rb, ps.last())
    }
}

/// The title of the chapter that a block holds or opens.
pub open spec fn block_title(a: Seq<Chapter>, b: Seq<Chapter>, key: BlockKey) -> Seq<char> {
    pick(key.side, a, b)[key.chapter as int].title@
}

/// The heading markup of the chapter that a block holds or opens.
pub open spec fn block_heading(a: Seq<Chapter>, b: Seq<Chapter>, key: BlockKey) -> Seq<char> {
    pick(key.side, a, b)[key.chapter as int].heading_html@
}

/// A block as an XHTML document whose body is its chapter's heading, a link
/// to the block it links to if any, then its passages.
pub open spec fn block_xhtml(a: Seq<Chapter>, b: Seq<Chapter>, ra: ChapterRange, rb: ChapterRange, block: ContentBlock) -> Seq<char> {
    "<?xml version=\"1.0\" encoding=\"UTF-8\"?>\n<html xmlns=\"http://www.w3.org/1999/xhtml\"><head><title>"@
        + block_title(a, b, block.key) + "</title></head>\n<body id=\""@ + block_name(block.key) + "\">\n"@
        + block_heading(a, b, block.key) + match block.link {
            Some(target) => link_markup(block_name(target) + ".xhtml"@),
            None => Seq::empty(),
        }
        + passages_markup(a, b, ra, rb, block.passages@) + "\n</body></html>\n"@
}

/// The passage refers to a paragraph of the texts, and, where linked, to a
/// counterpart chapter whose index fits a `usize`.
pub open spec fn passage_ok(a: Seq<Chapter>, b: Seq<Chapter>, ra: ChapterRange, rb: ChapterRange, p: Passage) -> bool {
    &&& p.chapter < pick(p.side, a, b).len()
    &&& p.paragraph < pick(p.side, a, b)[p.chapter as int].paragraphs@.len()
    &&& p.linked ==> {
        &&& pick(p.side, ra.start, rb.start) <= p.chapter
        &&& 0 <= counterpart_chapter(ra, rb, p.side, p.chapter as int) <= usize::MAX
    }
}

/// The block's chapter and each of its passages refer to the texts.
pub open spec fn block_ok(a: Seq<Chapter>, b: Seq<Chapter>, ra: ChapterRange, rb: ChapterRange, block: ContentBlock) -> bool {
    &&& block.key.chapter < pick(block.key.side, a, b).len()
    &&& forall|j: int| 0 <= j < block.passages@.len() ==> passage_ok(a, b, ra, rb, #[trigger] block.passages@[j])
}

/// The file that a block becomes.
pub open spec fn rendered_as(a: Seq<Chapter>, b: Seq<Chapter>, ra: ChapterRange, rb: ChapterRange, block: ContentBlock, r: RenderedBlock) -> bool {
    &&& r.file_name@ == block_name(block.key) + ".xhtml"@
    &&& r.title@ == block_title(a, b, block.key)
    &&& r.xhtml@ == block_xhtml(a, b, ra, rb, block)
}

fn side_str(side: TextSide) -> (r: &'static str)
    ensures
        r@ == side_letter(side),
{
    match side {
        TextSide::A => "a",
        TextSide::B => "b",
    }
}

fn name_of(key: BlockKey) -> (r: String)
    ensures
        r@ == block_name(key),
{
    let mut r = String::from_str(side_str(key.side));
    r.append("_");
    let d = decimal_string(key.chapter);
    r.append(d.as_str());
    r
}

fn anchor_of(side: TextSide, chapter: usize, paragraph: usize) -> (r: String)
    ensures
        r@ == paragraph_anchor(side, chapter as int, paragraph as int),
{
    let mut r = name_of(BlockKey { side, chapter });
    r.append("_p");
    let d = decimal_string(paragraph);
    r.append(d.as_str());
    r
}

fn append_link(out: &mut String, target: &str)
    ensures
        final(out)@ == old(out)@ + link_markup(target@),
{
    out.append("<p><a href=\"");
    out.append(target);
    out.append("\">&#8644;</a></p>\n");
    assert(final(out)@ =~= old(out)@ + link_markup(target@));
}

fn append_passage(out: &mut String, a: &Vec<Chapter>, b: &Vec<Chapter>, ra: ChapterRange, rb: ChapterRange, p: Passage)
    requires
        passage_ok(a@, b@, ra, rb, p),
    ensures
        final(out)@ == old(out)@ + passage_markup(a@, b@, ra, rb, p),
{
    let text = match p.side {
        TextSide::A => &a[p.chapter].paragraphs[p.paragraph],
        TextSide::B => &b[p.chapter].paragraphs[p.paragraph],
    };
    if p.linked {
        let anchor = anchor_of(p.side, p.chapter, p.paragraph);
        out.append("<a id=\"");
        out.append(anchor.as_str());
        out.append("\"></a>");
        out.append(text.as_str());
        let there = match p.side {
            TextSide::A => BlockKey { side: TextSide::B, chapter: rb.start + (p.chapter - ra.start) },
            TextSide::B => BlockKey { side: TextSide::A, chapter: ra.start + (p.chapter - rb.start) },
        };
        let mut target = name_of(there);
        target.append(".xhtml#");
        let there_anchor = anchor_of(there.side, there.chapter, p.paragraph);
        target.append(there_anchor.as_str());
        append_link(out, target.as_str());
    } else {
        out.append(text.as_str());
    }
    assert(final(out)@ =~= old(out)@ + passage_markup(a@, b@, ra, rb, p));
}

/// Writes a block as an XHTML file (see `block_xhtml`).
pub fn render_block(a: &Vec<Chapter>, b: &Vec<Chapter>, ra: ChapterRange, rb: ChapterRange, block: &ContentBlock) -> (r: RenderedBlock)
    requires
        block_ok(a@, b@, ra, rb, *block),
    ensures
        rendered_as(a@, b@, ra, rb, *block, r),
{
    let chapter = match block.key.side {
        TextSide::A => &a[block.key.chapter],
        TextSide::B => &b[block.key.chapter],
    };
    let title = chapter.title.clone();
    let name = name_of(block.key);
    let mut out = String::from_str("<?xml version=\"1.0\" encoding=\"UTF-8\"?>\n<html xmlns=\"http://www.w3.org/1999/xhtml\"><head><title>");
    out.append(title.as_str());
    out.append("</title></head>\n<body id=\"");
    out.append(name.as_str());
    out.append("\">\n");
    out.append(chapter.heading_html.as_str());
    if let Some(target) = block.link {
        let mut t = name_of(target);
        t.append(".xhtml");
        append_link(&mut out, t.as_str());
    }
    let ghost head = out@;
    let mut j: usize = 0;
    while j < block.passages.len()
        invariant
            block_ok(a@, b@, ra, rb, *block),
            j <= block.passages@.len(),
            out@ == head + passages_markup(a@, b@, ra, rb, block.passages@.take(j as int)),
        decreases block.passages@.len() - j,
    {
        assert(block.passages@.take(j + 1).drop_last() =~= block.passages@.take(j as int));
        assert(passage_ok(a@, b@, ra, rb, block.passages@[j as int]));
        append_passage(&mut out, a, b, ra, rb, block.passages[j]);
        j = j + 1;
    }
    assert(block.passages@.take(j as int) =~= block.passages@);
    out.append("\n</body></html>\n");
    let mut file_name = name_of(block.key);
    file_name.append(".xhtml");
    let r = RenderedBlock { file_name, title, xhtml: out };
    assert(r.xhtml@ =~= block_xhtml(a@, b@, ra, rb, *block));
    r
}

proof fn lemma_merged_blocks_ok(
    a: Seq<Chapter>,
    ra: ChapterRange,
    b: Seq<Chapter>,
    rb: ChapterRange,
    merge_type: MergeType,
    blocks: Seq<ContentBlock>,
)
    requires
        ranges_valid(a, ra, b, rb),
        merged_blocks(a, ra, b, rb, merge_type, blocks),
    ensures
        forall|p: int| 0 <= p < blocks.len() ==> block_ok(a, b, ra, rb, #[trigger] blocks[p]),
{
    assert forall|p: int| 0 <= p < blocks.len() implies block_ok(a, b, ra, rb, #[trigger] blocks[p]) by {
        assert(block_matches(a, ra, b, rb, merge_type, p, blocks[p]));
        let block = blocks[p];
        assert forall|j: int| 0 <= j < block.passages@.len() implies passage_ok(a, b, ra, rb, #[trigger] block.passages@[j]) by {
            assert(block.passages@[j] == block.passages@[j]);
        }
    }
}

/// Merges two texts (see `merge`) and writes each block of the merged text
/// as an XHTML file, in order.
pub fn render_merged(a: &EpubText, b: &EpubText, merge_type: MergeType) -> (r: (MergedDocument, Vec<RenderedBlock>))
    ensures
        metadata_view(r.0.metadata) == metadata_view(a.metadata),
        is_main_chapter_range(a.chapters@, r.0.a_range),
        is_main_chapter_range(b.chapters@, r.0.b_range),
        merged_blocks(a.chapters@, r.0.a_range, b.chapters@, r.0.b_range, merge_type, r.0.blocks@),
        keys_unique(r.0.blocks@),
        r.1@.len() == r.0.blocks@.len(),
        forall|p: int| 0 <= p < r.1@.len() ==> rendered_as(
            a.chapters@,
            b.chapters@,
            r.0.a_range,
            r.0.b_range,
            r.0.blocks@[p],
            #[trigger] r.1@[p],
        ),
{
    let doc = merge(a, b, merge_type);
    // Reading the lengths bounds the ranges' ends by `usize::MAX` for the proof.
    let _ = (a.chapters.len(), b.chapters.len());
    proof {
        lemma_merged_blocks_ok(a.chapters@, doc.a_range, b.chapters@, doc.b_range, merge_type, doc.blocks@);
    }
    let mut files: Vec<RenderedBlock> = Vec::new();
    let mut p: usize = 0;
    while p < doc.blocks.len()
        invariant
            p <= doc.blocks@.len(),
            files@.len() == p,
            forall|q: int| 0 <= q < doc.blocks@.len() ==> block_ok(a.chapters@, b.chapters@, doc.a_range, doc.b_range, #[trigger] doc.blocks@[q]),
            forall|q: int| 0 <= q < p ==> rendered_as(a.chapters@, b.chapters@, doc.a_range, doc.b_range, doc.blocks@[q], #[trigger] files@[q]),
        decreases doc.blocks@.len() - p,
    {
        files.push(render_block(&a.chapters, &b.chapters, doc.a_range, doc.b_range, &doc.blocks[p]));
        p = p + 1;
    }
    (doc, files)
}

proof fn lemma_digit_char_injective(d: int, e: int)
    requires
        0 <= d < 10,
        0 <= e < 10,
        digit_char(d) == digit_char(e),
    ensures
        d == e,
{
}

proof fn lemma_decimal_len(n: nat)
    ensures
        decimal(n).len() >= 1,
        n >= 10 ==> decimal(n).len() >= 2,
    decreases n,
{
    if n >= 10 {
        lemma_decimal_len(n / 10);
    }
}

proof fn lemma_decimal_injective(m: nat, n: nat)
    requires
        decimal(m) == decimal(n),
    ensures
        m == n,
    decreases m,
{
    lemma_decimal_len(m);
    lemma_decimal_len(n);
    if m < 10 && n < 10 {
        assert(decimal(m) == seq![digit_char(m as int)]);
        assert(decimal(n) == seq![digit_char(n as int)]);
        assert(decimal(m)[0] == digit_char(m as int));
        assert(decimal(n)[0] == digit_char(n as int));
        lemma_digit_char_injective(m as int, n as int);
    } else if m >= 10 && n >= 10 {
        let dm = decimal(m);
        let dn = decimal(n);
        assert(dm.last() == dn.last());
        lemma_digit_char_injective((m % 10) as int, (n % 10) as int);
        assert(decimal(m / 10) =~= dm.drop_last());
        assert(decimal(n / 10) =~= dn.drop_last());
        lemma_decimal_injective(m / 10, n / 10);
    } else {
        assert(decimal(m).len() != decimal(n).len());
    }
}

proof fn lemma_block_name_injective(k: BlockKey, l: BlockKey)
    requires
        block_name(k) == block_name(l),
    ensures
        k == l,
{
    reveal_strlit("a");
    reveal_strlit("b");
    reveal_strlit("_");
    let nk = block_name(k);
    let nl = block_name(l);
    assert(nk[0] == nl[0]);
    assert(k.side == l.side);
    assert(nk.skip(2) =~= decimal(k.chapter as nat));
    assert(nl.skip(2) =~= decimal(l.chapter as nat));
    lemma_decimal_injective(k.chapter as nat, l.chapter as nat);
}

/// Blocks with distinct keys are written to files with distinct names, so
/// each file of the merged book has a name of its own.
pub proof fn lemma_file_names_unique(
    a: Seq<Chapter>,
    b: Seq<Chapter>,
    ra: ChapterRange,
    rb: ChapterRange,
    blocks: Seq<ContentBlock>,
    files: Seq<RenderedBlock>,
)
    requires
        keys_unique(blocks),
        files.len() == blocks.len(),
        forall|p: int| 0 <= p < files.len() ==> rendered_as(a, b, ra, rb, blocks[p], #[trigger] files[p]),
    ensures
        forall|p: int, q: int| 0 <= p < q < files.len() ==> (#[trigger] files[p]).file_name@ != (#[trigger] files[q]).file_name@,
{
    assert forall|p: int, q: int| 0 <= p < q < files.len() implies (#[trigger] files[p]).file_name@ != (#[trigger] files[q]).file_name@ by {
        assert(rendered_as(a, b, ra, rb, blocks[p], files[p]));
        assert(rendered_as(a, b, ra, rb, blocks[q], files[q]));
        if files[p].file_name@ == files[q].file_name@ {
            let np = block_name(blocks[p].key);
            let nq = block_name(blocks[q].key);
            assert(np =~= files[p].file_name@.take(np.len() as int)) by {
                reveal_strlit(".xhtml");
            }
            reveal_strlit(".xhtml");
            assert(np.len() == files[p].file_name@.len() - 6);
            assert(nq.len() == files[q].file_name@.len() - 6);
            assert(nq =~= files[q].file_name@.take(nq.len() as int));
            lemma_block_name_injective(blocks[p].key, blocks[q].key);
        }
    }
}

} // verus!
