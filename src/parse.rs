use vstd::prelude::*;
use vstd::string::*;

use crate::data::{Chapter, EpubText, Metadata};

verus! {

/// An element of a book's markup, as the markup parser reports it.
#[derive(Debug)]
pub struct MarkupElement {
    /// The tag name (`h1`, `p`, ...).
    pub name: String,
    pub classes: Vec<String>,
    /// The element's source markup.
    pub markup: String,
    pub children: Vec<MarkupNode>,
}

/// A top-level node of a book's markup.
#[derive(Debug)]
pub enum MarkupNode {
    Text(String),
    Element(MarkupElement),
    Comment(String),
}

/// One heading-delimited unit of a book: its heading and the nodes that
/// follow it up to the next heading.
#[derive(Debug)]
pub struct Section {
    pub header_html: String,
    pub header_text: String,
    pub body: Vec<MarkupNode>,
}

/// A section as the contracts see it: heading markup, heading text, body.
pub type SectionView = (Seq<char>, Seq<char>, Seq<MarkupNode>);

impl View for Section {
    type V = SectionView;

    open spec fn view(&self) -> SectionView {
        (self.header_html@, self.header_text@, self.body@)
    }
}

/// A book's markup cut at its headings: the nodes before the first heading,
/// and one section per heading.
#[derive(Debug)]
pub struct Segmented {
    pub front_matter: Vec<MarkupNode>,
    pub sections: Vec<Section>,
}

/// Why a book could not be parsed.
#[derive(Clone, Debug)]
pub enum ParseError {
    /// A content unit of the book held no text.
    MissingContentText,
    /// The markup parser rejected a content unit, for the reason given.
    InvalidMarkup(String),
}

/// `h1` to `h5`, in either case.
pub open spec fn is_heading_label(s: Seq<char>) -> bool {
    &&& s.len() == 2
    &&& s[0] == 'h' || s[0] == 'H'
    &&& '1' <= s[1] <= '5'
}

/// The node is an element whose tag or one of whose classes names a heading level.
pub open spec fn is_heading(n: MarkupNode) -> bool {
    match n {
        MarkupNode::Element(e) => is_heading_label(e.name@) || exists|i: int|
            0 <= i < e.classes@.len() && is_heading_label(#[trigger] e.classes@[i]@),
        _ => false,
    }
}

/// The text of a node: a text node's own text, an element's descendant
/// text in document order, nothing for a comment.
pub open spec fn node_text(n: MarkupNode) -> Seq<char>
    decreases n, 0int,
{
    match n {
        MarkupNode::Text(t) => t@,
        MarkupNode::Element(e) => nodes_text(e.children@, e.children@.len() as int),
        MarkupNode::Comment(_) => Seq::empty(),
    }
}

/// The text of the first `k` nodes, one after the other.
pub open spec fn nodes_text(ns: Seq<MarkupNode>, k: int) -> Seq<char>
    decreases ns, k,
{
    if k <= 0 || k > ns.len() {
        Seq::empty()
    } else {
        nodes_text(ns, k - 1) + node_text(ns[k - 1])
    }
}

/// The section that a heading node opens.
pub open spec fn opened_by(n: MarkupNode) -> SectionView {
    match n {
        MarkupNode::Element(e) => (e.markup@, nodes_text(e.children@, e.children@.len() as int), Seq::empty()),
        _ => (Seq::empty(), Seq::empty(), Seq::empty()),
    }
}

/// Cuts nodes at their headings: the front matter, and the sections in order.
pub open spec fn segment_spec(nodes: Seq<MarkupNode>) -> (Seq<MarkupNode>, Seq<SectionView>)
    decreases nodes.len(),
{
    if nodes.len() == 0 {
        (Seq::empty(), Seq::empty())
    } else {
        let (front, secs) = segment_spec(nodes.drop_last());
        let n = nodes.last();
        if is_heading(n) {
            (front, secs.push(opened_by(n)))
        } else if secs.len() == 0 {
            (front.push(n), secs)
        } else {
            let s = secs.last();
            (front, secs.update(secs.len() - 1, (s.0, s.1, s.2.push(n))))
        }
    }
}

/// The heading nodes among `nodes`, in order.
pub open spec fn headings(nodes: Seq<MarkupNode>) -> Seq<MarkupNode>
    decreases nodes.len(),
{
    if nodes.len() == 0 {
        Seq::empty()
    } else if is_heading(nodes.last()) {
        headings(nodes.drop_last()).push(nodes.last())
    } else {
        headings(nodes.drop_last())
    }
}

pub open spec fn sections_view(v: Seq<Section>) -> Seq<SectionView> {
    v.map_values(|s: Section| s@)
}

fn is_heading_str(s: &str) -> (r: bool)
    ensures
        r == is_heading_label(s@),
{
    if s.unicode_len() != 2 {
        return false;
    }
    let c0 = s.get_char(0);
    let c1 = s.get_char(1);
    (c0 == 'h' || c0 == 'H') && '1' <= c1 && c1 <= '5'
}

fn text_of_node(n: &MarkupNode) -> (r: String)
    ensures
        r@ == node_text(*n),
    decreases n, 0int,
{
    match n {
        MarkupNode::Text(t) => t.clone(),
        MarkupNode::Element(e) => text_of_nodes(&e.children),
        MarkupNode::Comment(_) => String::new(),
    }
}

fn text_of_nodes(ns: &Vec<MarkupNode>) -> (r: String)
    ensures
        r@ == nodes_text(ns@, ns@.len() as int),
    decreases ns, 1int,
{
    let mut r = String::new();
    let mut i: usize = 0;
    while i < ns.len()
        invariant
            i <= ns@.len(),
            r@ == nodes_text(ns@, i as int),
        decreases ns@.len() - i,
    {
        let t = text_of_node(&ns[i]);
        r.append(t.as_str());
        i = i + 1;
    }
    r
}

fn has_heading_class(classes: &Vec<String>) -> (r: bool)
    ensures
        r == exists|i: int| 0 <= i < classes@.len() && is_heading_label(#[trigger] classes@[i]@),
{
    let mut i: usize = 0;
    while i < classes.len()
        invariant
            i <= classes@.len(),
            forall|k: int| 0 <= k < i ==> !is_heading_label(#[trigger] classes@[k]@),
        decreases classes@.len() - i,
    {
        if is_heading_str(classes[i].as_str()) {
            assert(is_heading_label(classes@[i as int]@));
            return true;
        }
        i = i + 1;
    }
    false
}

/// Whether a node opens a new section.
pub fn is_header(n: &MarkupNode) -> (r: bool)
    ensures
        r == is_heading(*n),
{
    match n {
        MarkupNode::Element(e) => is_heading_str(e.name.as_str()) || has_heading_class(&e.classes),
        _ => false,
    }
}

/// Cuts a book's top-level nodes into sections at each heading. The nodes
/// before the first heading are kept apart as front matter.
pub fn segment(nodes: Vec<MarkupNode>) -> (r: Segmented)
    ensures
        (r.front_matter@, sections_view(r.sections@)) == segment_spec(nodes@),
{
    let ghost all = nodes@;
    let n = nodes.len();
    let mut nodes = nodes;
    let mut rest: Vec<MarkupNode> = Vec::new();
    while nodes.len() > 0
        invariant
            nodes@.len() + rest@.len() == n,
            n == all.len(),
            forall|k: int| 0 <= k < nodes@.len() ==> nodes@[k] == all[k],
            forall|k: int| 0 <= k < rest@.len() ==> rest@[k] == all[n - 1 - k],
        decreases nodes@.len(),
    {
        let x = nodes.pop().unwrap();
        rest.push(x);
    }
    let mut front: Vec<MarkupNode> = Vec::new();
    let mut sections: Vec<Section> = Vec::new();
    let mut current: Option<Section> = None;
    let mut i: usize = 0;
    while rest.len() > 0
        invariant
            i + rest@.len() == n,
            n == all.len(),
            forall|k: int| 0 <= k < rest@.len() ==> rest@[k] == all[n - 1 - k],
            front@ == segment_spec(all.take(i as int)).0,
            match current {
                None => sections@.len() == 0 && segment_spec(all.take(i as int)).1.len() == 0,
                Some(c) => sections_view(sections@).push(c@) == segment_spec(all.take(i as int)).1,
            },
        decreases rest@.len(),
    {
        let x = rest.pop().unwrap();
        assert(x == all[i as int]);
        assert(all.take(i + 1).drop_last() =~= all.take(i as int));
        assert(all.take(i + 1).last() == x);
        let ghost prev = segment_spec(all.take(i as int));
        if is_header(&x) {
            match x {
                MarkupNode::Element(e) => {
                    let old_current = current;
                    let header_text = text_of_nodes(&e.children);
                    current = Some(Section { header_html: e.markup, header_text, body: Vec::new() });
                    if let Some(c) = old_current {
                        sections.push(c);
                        assert(sections_view(sections@) =~= prev.1);
                    }
                },
                _ => {},
            }
        } else {
            match current {
                None => {
                    front.push(x);
                },
                Some(mut c) => {
                    c.body.push(x);
                    proof {
                        assert(sections_view(sections@).push(c@) =~= prev.1.update(prev.1.len() - 1, (prev.1.last().0, prev.1.last().1, prev.1.last().2.push(x))));
                    }
                    current = Some(c);
                },
            }
        }
        i = i + 1;
    }
    assert(all.take(n as int) =~= all);
    if let Some(c) = current {
        sections.push(c);
    }
    Segmented { front_matter: front, sections }
}

/// Every heading node opens exactly one section, and the sections follow
/// the order of their headings.
pub proof fn lemma_one_section_per_heading(nodes: Seq<MarkupNode>)
    ensures
        segment_spec(nodes).1.len() == headings(nodes).len(),
        forall|j: int| 0 <= j < headings(nodes).len() ==> {
            &&& (#[trigger] segment_spec(nodes).1[j]).0 == opened_by(headings(nodes)[j]).0
            &&& segment_spec(nodes).1[j].1 == opened_by(headings(nodes)[j]).1
        },
    decreases nodes.len(),
{
    if nodes.len() > 0 {
        lemma_one_section_per_heading(nodes.drop_last());
    }
}

/// Nodes without a heading give no section: all of them are front matter.
pub proof fn lemma_no_heading_no_section(nodes: Seq<MarkupNode>)
    requires
        forall|k: int| 0 <= k < nodes.len() ==> !is_heading(#[trigger] nodes[k]),
    ensures
        segment_spec(nodes).1.len() == 0,
        segment_spec(nodes).0 == nodes,
    decreases nodes.len(),
{
    if nodes.len() > 0 {
        lemma_no_heading_no_section(nodes.drop_last());
        assert(segment_spec(nodes.drop_last()).0.push(nodes.last()) =~= nodes);
    }
}

/// The markup of a node: an element's source, a text as it is, a comment
/// between comment delimiters.
pub open spec fn node_markup(n: MarkupNode) -> Seq<char> {
    match n {
        MarkupNode::Text(t) => t@,
        MarkupNode::Element(e) => e.markup@,
        MarkupNode::Comment(c) => "<!--"@ + c@ + "-->"@,
    }
}

/// The markup of a sequence of nodes, one after the other.
pub open spec fn nodes_markup(ns: Seq<MarkupNode>) -> Seq<char>
    decreases ns.len(),
{
    if ns.len() == 0 {
        Seq::empty()
    } else {
        nodes_markup(ns.drop_last()) + node_markup(ns.last())
    }
}

/// Renders a node as markup.
pub fn render_node(n: &MarkupNode) -> (r: String)
    ensures
        r@ == node_markup(*n),
{
    match n {
        MarkupNode::Text(t) => t.clone(),
        MarkupNode::Element(e) => e.markup.clone(),
        MarkupNode::Comment(c) => {
            let mut r = String::from_str("<!--");
            r.append(c.as_str());
            r.append("-->");
            r
        },
    }
}

/// The top-level nodes that html_parser finds in a markup text.
pub uninterp spec fn markup_nodes_of(html: Seq<char>) -> Result<Seq<MarkupNode>, Seq<char>>;

#[verifier::external_type_specification]
#[verifier::external_body]
pub struct ExHtmlNode(html_parser::Node);

/// Relies on html_parser's `Node` and `Element` fields: converts a node and
/// its descendants one for one, keeping of each element its tag name, classes
/// and source text. Only `parse_markup` calls it, whose contract covers the
/// whole conversion.
#[verifier::external_body]
fn convert_node(n: &html_parser::Node) -> MarkupNode {
    match n {
        html_parser::Node::Text(t) => MarkupNode::Text(t.clone()),
        html_parser::Node::Element(e) => MarkupNode::Element(MarkupElement {
            name: e.name.clone(),
            classes: e.classes.clone(),
            markup: e.source_span.text.clone(),
            children: e.children.iter().map(convert_node).collect(),
        }),
        html_parser::Node::Comment(c) => MarkupNode::Comment(c.clone()),
    }
}

/// A parse result as the contracts see it.
pub open spec fn parsed_view(r: Result<Vec<MarkupNode>, String>) -> Result<Seq<MarkupNode>, Seq<char>> {
    match r {
        Ok(v) => Ok(v@),
        Err(e) => Err(e@),
    }
}

/// Relies on html_parser's `Dom::parse`: its top-level nodes, or the message
/// of the error with which it rejects the markup.
#[verifier::external_body]
fn parse_markup(html: &str) -> (r: Result<Vec<MarkupNode>, String>)
    ensures
        parsed_view(r) == markup_nodes_of(html@),
{
    match html_parser::Dom::parse(html) {
        Ok(dom) => Ok(dom.children.iter().map(convert_node).collect()),
        Err(e) => Err(e.to_string()),
    }
}

/// The node is an element with this tag name.
pub open spec fn is_named(n: MarkupNode, name: Seq<char>) -> bool {
    n matches MarkupNode::Element(e) && e.name@ == name
}

/// `i` is the first node with this tag name.
pub open spec fn is_first_named(nodes: Seq<MarkupNode>, name: Seq<char>, i: int) -> bool {
    &&& 0 <= i < nodes.len()
    &&& is_named(nodes[i], name)
    &&& forall|j: int| 0 <= j < i ==> !is_named(#[trigger] nodes[j], name)
}

pub open spec fn has_named(nodes: Seq<MarkupNode>, name: Seq<char>) -> bool {
    exists|i: int| 0 <= i < nodes.len() && is_named(#[trigger] nodes[i], name)
}

pub open spec fn children_of(n: MarkupNode) -> Seq<MarkupNode> {
    match n {
        MarkupNode::Element(e) => e.children@,
        _ => Seq::empty(),
    }
}

/// The children of the first element of `nodes` with this tag name, or
/// `nodes` itself where there is none.
pub open spec fn inside(nodes: Seq<MarkupNode>, name: Seq<char>, r: Seq<MarkupNode>) -> bool {
    if has_named(nodes, name) {
        exists|i: int| is_first_named(nodes, name, i) && r == children_of(nodes[i])
    } else {
        r == nodes
    }
}

/// The content of a document: inside its `html` element, inside its `body`
/// element, where it has them.
pub open spec fn is_document_content(nodes: Seq<MarkupNode>, r: Seq<MarkupNode>) -> bool {
    exists|mid: Seq<MarkupNode>| inside(nodes, "html"@, mid) && inside(mid, "body"@, r)
}

fn same_text(a: &str, b: &str) -> (r: bool)
    ensures
        r == (a@ == b@),
{
    let len = a.unicode_len();
    if len != b.unicode_len() {
        return false;
    }
    let mut i: usize = 0;
    while i < len
        invariant
            len == a@.len(),
            len == b@.len(),
            i <= len,
            forall|k: int| 0 <= k < i ==> a@[k] == b@[k],
        decreases len - i,
    {
        if a.get_char(i) != b.get_char(i) {
            return false;
        }
        i = i + 1;
    }
    assert(a@ =~= b@);
    true
}

fn name_is(n: &MarkupNode, name: &str) -> (r: bool)
    ensures
        r == is_named(*n, name@),
{
    match n {
        MarkupNode::Element(e) => same_text(e.name.as_str(), name),
        _ => false,
    }
}

fn children_inside(nodes: Vec<MarkupNode>, name: &str) -> (r: Vec<MarkupNode>)
    ensures
        inside(nodes@, name@, r@),
{
    let mut i: usize = 0;
    while i < nodes.len()
        invariant
            i <= nodes@.len(),
            forall|j: int| 0 <= j < i ==> !is_named(#[trigger] nodes@[j], name@),
        decreases nodes@.len() - i,
    {
        if name_is(&nodes[i], name) {
            let ghost before = nodes@;
            let mut nodes = nodes;
            let n = nodes.remove(i);
            assert(is_first_named(before, name@, i as int));
            return match n {
                MarkupNode::Element(e) => e.children,
                _ => Vec::new(),
            };
        }
        i = i + 1;
    }
    nodes
}

/// The content of one document of a book: the children of its `body`
/// element inside its `html` element, where it has them.
pub fn document_content(nodes: Vec<MarkupNode>) -> (r: Vec<MarkupNode>)
    ensures
        is_document_content(nodes@, r@),
{
    let mid = children_inside(nodes, "html");
    let r = children_inside(mid, "body");
    assert(inside(mid@, "body"@, r@));
    r
}

/// Some content unit of the book held no text.
pub open spec fn has_missing_unit(units: Seq<Option<String>>) -> bool {
    exists|i: int| 0 <= i < units.len() && #[trigger] units[i] is None
}

/// The markup parser rejects some content unit.
pub open spec fn has_invalid_unit(units: Seq<Option<String>>) -> bool {
    exists|i: int| 0 <= i < units.len() && (#[trigger] units[i] matches Some(t) && markup_nodes_of(t@) is Err)
}

/// `i` is the first unit that the markup parser rejects, and every unit
/// before it has text.
pub open spec fn is_first_invalid_unit(units: Seq<Option<String>>, i: int) -> bool {
    &&& 0 <= i < units.len()
    &&& units[i] matches Some(t) && markup_nodes_of(t@) is Err
    &&& forall|k: int| 0 <= k < i ==> (#[trigger] units[k] matches Some(t) && markup_nodes_of(t@) is Ok)
}

/// `nodes` is the content of each unit, one after the other.
pub open spec fn is_units_content(units: Seq<Option<String>>, nodes: Seq<MarkupNode>) -> bool
    decreases units.len(),
{
    if units.len() == 0 {
        nodes.len() == 0
    } else {
        exists|k: int| 0 <= k <= nodes.len() && is_units_content(units.drop_last(), #[trigger] nodes.take(k)) && {
            &&& units.last() matches Some(t)
            &&& markup_nodes_of(t@) matches Ok(top)
            &&& is_document_content(top, nodes.skip(k))
        }
    }
}

/// A chapter as the contracts see it: title, heading markup, subtitle, paragraphs.
pub open spec fn chapter_view(c: Chapter) -> (Seq<char>, Seq<char>, Option<Seq<char>>, Seq<Seq<char>>) {
    (
        c.title@,
        c.heading_html@,
        match c.subtitle { Some(s) => Some(s@), None => None },
        c.paragraphs@.map_values(|p: String| p@),
    )
}

/// The chapter that a section becomes: its heading text as title, its
/// heading markup, and the markup of each body node as a paragraph.
pub open spec fn chapter_of(s: SectionView) -> (Seq<char>, Seq<char>, Option<Seq<char>>, Seq<Seq<char>>) {
    (s.1, s.0, None, s.2.map_values(|n: MarkupNode| node_markup(n)))
}

/// The book that a sequence of top-level nodes makes.
pub open spec fn book_of(t: EpubText, nodes: Seq<MarkupNode>) -> bool {
    let (front, secs) = segment_spec(nodes);
    &&& t.chapters@.len() == secs.len()
    &&& forall|j: int| 0 <= j < secs.len() ==> chapter_view(#[trigger] t.chapters@[j]) == chapter_of(secs[j])
    &&& front.len() == 0 ==> t.preamble is None
    &&& front.len() > 0 ==> (t.preamble matches Some(p) && p@ == nodes_markup(front))
    &&& t.table_of_contents is None
    &&& t.epilogue is None
}

fn chapter_from(s: Section) -> (r: Chapter)
    ensures
        chapter_view(r) == chapter_of(s@),
{
    let mut paragraphs: Vec<String> = Vec::new();
    let mut i: usize = 0;
    while i < s.body.len()
        invariant
            i <= s.body@.len(),
            paragraphs@.len() == i,
            forall|k: int| 0 <= k < i ==> (#[trigger] paragraphs@[k])@ == node_markup(s.body@[k]),
        decreases s.body@.len() - i,
    {
        paragraphs.push(render_node(&s.body[i]));
        i = i + 1;
    }
    let r = Chapter { title: s.header_text, heading_html: s.header_html, subtitle: None, paragraphs };
    assert(chapter_view(r).3 =~= chapter_of(s@).3);
    r
}

fn render_nodes(ns: &Vec<MarkupNode>) -> (r: String)
    ensures
        r@ == nodes_markup(ns@),
{
    let mut r = String::new();
    let mut i: usize = 0;
    while i < ns.len()
        invariant
            i <= ns@.len(),
            r@ == nodes_markup(ns@.take(i as int)),
        decreases ns@.len() - i,
    {
        assert(ns@.take(i + 1).drop_last() =~= ns@.take(i as int));
        let m = render_node(&ns[i]);
        r.append(m.as_str());
        i = i + 1;
    }
    assert(ns@.take(i as int) =~= ns@);
    r
}

/// Parses a book from the text of its content units, in order: each unit is
/// parsed as markup, the contents of their bodies are joined and cut into
/// chapters at each heading; what precedes the first heading becomes the
/// preamble.
pub fn parse_epub(metadata: Metadata, units: &Vec<Option<String>>) -> (r: Result<EpubText, ParseError>)
    ensures
        has_missing_unit(units@) <==> r matches Err(ParseError::MissingContentText),
        r matches Err(ParseError::InvalidMarkup(_)) <==> (!has_missing_unit(units@) && has_invalid_unit(units@)),
        r matches Err(ParseError::InvalidMarkup(m)) ==> (exists|i: int| #[trigger] is_first_invalid_unit(units@, i)
            && markup_nodes_of(units@[i]->0@) == Err::<Seq<MarkupNode>, Seq<char>>(m@)),
        r matches Ok(t) ==> (exists|nodes: Seq<MarkupNode>| is_units_content(units@, nodes) && book_of(t, nodes)),
        r matches Ok(t) ==> t.metadata == metadata,
{
    let mut i: usize = 0;
    while i < units.len()
        invariant
            i <= units@.len(),
            forall|k: int| 0 <= k < i ==> #[trigger] units@[k] is Some,
        decreases units@.len() - i,
    {
        if units[i].is_none() {
            return Err(ParseError::MissingContentText);
        }
        i = i + 1;
    }
    let mut nodes: Vec<MarkupNode> = Vec::new();
    let mut i: usize = 0;
    while i < units.len()
        invariant
            i <= units@.len(),
            forall|k: int| 0 <= k < units@.len() ==> #[trigger] units@[k] is Some,
            forall|k: int| 0 <= k < i ==> (#[trigger] units@[k] matches Some(t) && markup_nodes_of(t@) is Ok),
            is_units_content(units@.take(i as int), nodes@),
        decreases units@.len() - i,
    {
        let t = match &units[i] {
            Some(t) => t,
            None => return Err(ParseError::MissingContentText),
        };
        let top = match parse_markup(t.as_str()) {
            Ok(top) => top,
            Err(e) => {
                assert(is_first_invalid_unit(units@, i as int));
                return Err(ParseError::InvalidMarkup(e));
            },
        };
        let ghost before = nodes@;
        let mut content = document_content(top);
        let ghost added = content@;
        nodes.append(&mut content);
        proof {
            let k = before.len() as int;
            assert(units@.take(i + 1).drop_last() =~= units@.take(i as int));
            assert(nodes@.take(k) =~= before);
            assert(nodes@.skip(k) =~= added);
            assert(is_units_content(units@.take(i + 1), nodes@));
        }
        i = i + 1;
    }
    assert(units@.take(i as int) =~= units@);
    let seg = segment(nodes);
    let Segmented { front_matter, sections } = seg;
    let preamble = if front_matter.len() == 0 { None } else { Some(render_nodes(&front_matter)) };
    let mut chapters: Vec<Chapter> = Vec::new();
    let mut sections = sections;
    let ghost secs = sections@;
    let mut rest: Vec<Section> = Vec::new();
    let n = sections.len();
    while sections.len() > 0
        invariant
            sections@.len() + rest@.len() == n,
            n == secs.len(),
            forall|k: int| 0 <= k < sections@.len() ==> sections@[k] == secs[k],
            forall|k: int| 0 <= k < rest@.len() ==> rest@[k] == secs[n - 1 - k],
        decreases sections@.len(),
    {
        let x = sections.pop().unwrap();
        rest.push(x);
    }
    let mut j: usize = 0;
    while rest.len() > 0
        invariant
            j + rest@.len() == n,
            n == secs.len(),
            forall|k: int| 0 <= k < rest@.len() ==> rest@[k] == secs[n - 1 - k],
            chapters@.len() == j,
            forall|k: int| 0 <= k < j ==> chapter_view(#[trigger] chapters@[k]) == chapter_of(secs[k]@),
        decreases rest@.len(),
    {
        let s = rest.pop().unwrap();
        chapters.push(chapter_from(s));
        j = j + 1;
    }
    let ghost all = nodes@;
    let t = EpubText { metadata, table_of_contents: None, preamble, chapters, epilogue: None };
    assert(sections_view(secs) == segment_spec(all).1);
    assert(book_of(t, all));
    Ok(t)
}

proof fn lemma_inside_unique(nodes: Seq<MarkupNode>, name: Seq<char>, r1: Seq<MarkupNode>, r2: Seq<MarkupNode>)
    requires
        inside(nodes, name, r1),
        inside(nodes, name, r2),
    ensures
        r1 == r2,
{
    if has_named(nodes, name) {
        let i1 = choose|i: int| is_first_named(nodes, name, i) && r1 == children_of(nodes[i]);
        let i2 = choose|i: int| is_first_named(nodes, name, i) && r2 == children_of(nodes[i]);
        if i1 < i2 {
            assert(!is_named(nodes[i1], name));
        } else if i2 < i1 {
            assert(!is_named(nodes[i2], name));
        }
    }
}

proof fn lemma_document_content_unique(nodes: Seq<MarkupNode>, r1: Seq<MarkupNode>, r2: Seq<MarkupNode>)
    requires
        is_document_content(nodes, r1),
        is_document_content(nodes, r2),
    ensures
        r1 == r2,
{
    let m1 = choose|mid: Seq<MarkupNode>| inside(nodes, "html"@, mid) && inside(mid, "body"@, r1);
    let m2 = choose|mid: Seq<MarkupNode>| inside(nodes, "html"@, mid) && inside(mid, "body"@, r2);
    lemma_inside_unique(nodes, "html"@, m1, m2);
    lemma_inside_unique(m1, "body"@, r1, r2);
}

/// Parsing carries no state from one call to the next: the content units
/// fix the nodes of the book, and with them (see `book_of`) its chapters,
/// preamble and the rest.
pub proof fn lemma_units_content_unique(units: Seq<Option<String>>, n1: Seq<MarkupNode>, n2: Seq<MarkupNode>)
    requires
        is_units_content(units, n1),
        is_units_content(units, n2),
    ensures
        n1 == n2,
    decreases units.len(),
{
    if units.len() == 0 {
        assert(n1 =~= n2);
    } else {
        let k1 = choose|k: int| 0 <= k <= n1.len() && is_units_content(units.drop_last(), #[trigger] n1.take(k)) && {
            &&& units.last() matches Some(t)
            &&& markup_nodes_of(t@) matches Ok(top)
            &&& is_document_content(top, n1.skip(k))
        };
        let k2 = choose|k: int| 0 <= k <= n2.len() && is_units_content(units.drop_last(), #[trigger] n2.take(k)) && {
            &&& units.last() matches Some(t)
            &&& markup_nodes_of(t@) matches Ok(top)
            &&& is_document_content(top, n2.skip(k))
        };
        lemma_units_content_unique(units.drop_last(), n1.take(k1), n2.take(k2));
        let top = markup_nodes_of(units.last()->0@)->Ok_0;
        lemma_document_content_unique(top, n1.skip(k1), n2.skip(k2));
        assert(n1 =~= n1.take(k1) + n1.skip(k1));
        assert(n2 =~= n2.take(k2) + n2.skip(k2));
    }
}

} // verus!
