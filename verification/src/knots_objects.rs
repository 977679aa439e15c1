use vstd::prelude::*;
use vstd::string::StringExecFns;

use crate::builder::Builder;
use crate::builder::BuilderView;
use crate::builder::attrs_view;
use crate::builder::spec_add_title;
use crate::builder::spec_end_tag;
use crate::builder::spec_inline_tag;
use crate::builder::spec_note_language;
use crate::builder::spec_orphan_tag;
use crate::builder::spec_start_tag;
use crate::builder::spec_store_get;
use crate::builder::spec_store_has;
use crate::builder::spec_write_content;
use crate::builder::spec_write_katex;
use crate::utils::push_char;
use crate::utils::escape_html;
use crate::utils::spec_dec;
use crate::utils::spec_escape_html;
use crate::utils::str_starts_with;
use crate::utils::usize_to_string;

verus! {

/// The whole document: the top-level sequence of blocks.
pub struct Root {
    pub contents: Vec<KnotsObject>,
}

/// A heading of level one, two or three.
pub struct Title {
    pub contents: String,
    pub level: u8,
}

/// A run of inline content that stands on its own line.
pub struct Paragraph {
    pub contents: Vec<KnotsObject>,
}

/// A quoted paragraph.
pub struct BlockQuote {
    pub contents: Vec<KnotsObject>,
}

/// A highlighted box for informational remarks.
pub struct InfoBox {
    pub contents: Vec<KnotsObject>,
}

/// A highlighted box for warnings.
pub struct WarningBox {
    pub contents: Vec<KnotsObject>,
}

/// A highlighted box for errors.
pub struct ErrorBox {
    pub contents: Vec<KnotsObject>,
}

/// A bullet list; each item is a non-empty sequence of nodes.
pub struct List {
    pub contents: Vec<Vec<KnotsObject>>,
}

/// A table: a header row and data rows, each a sequence of inline-parsed cells.
pub struct Table {
    pub header: Vec<Vec<KnotsObject>>,
    pub rows: Vec<Vec<Vec<KnotsObject>>>,
}

/// A plain run of text.
pub struct BasicText {
    pub contents: String,
}

/// Italicised inline content.
pub struct Italic {
    pub contents: Vec<KnotsObject>,
}

/// Bold inline content.
pub struct Bold {
    pub contents: Vec<KnotsObject>,
}

/// An inline link with a label and a target.
pub struct Link {
    pub name: String,
    pub link: String,
}

/// An image with alternative text and a target.
pub struct Image {
    pub alt: String,
    pub link: String,
}

/// A horizontal rule.
pub struct HorizontalRule {}

/// Inline code, kept verbatim.
pub struct InlineCode {
    pub contents: String,
}

/// Inline mathematics, kept verbatim.
pub struct InlineMaths {
    pub contents: String,
}

/// A fenced code block with an optional lowercase language token.
pub struct CodeBlock {
    pub contents: String,
    pub lang: Option<String>,
}

/// Display mathematics, kept verbatim.
pub struct MathsBlock {
    pub contents: String,
}

/// A fenced block whose language token named the diagram keyword.
pub struct Mermaid {
    pub contents: String,
}

/// One node of the document tree: a tagged union over every node shape.
pub enum KnotsObject {
    Root(Root),
    Title(Title),
    Paragraph(Paragraph),
    BlockQuote(BlockQuote),
    InfoBox(InfoBox),
    WarningBox(WarningBox),
    ErrorBox(ErrorBox),
    List(List),
    Table(Table),
    BasicText(BasicText),
    Italic(Italic),
    Bold(Bold),
    Link(Link),
    Image(Image),
    HorizontalRule(HorizontalRule),
    InlineCode(InlineCode),
    InlineMaths(InlineMaths),
    CodeBlock(CodeBlock),
    MathsBlock(MathsBlock),
    Mermaid(Mermaid),
}

/// The mathematical shape of a node: the same tree over sequences.
pub enum ObjView {
    Root { contents: Seq<ObjView> },
    Title { contents: Seq<char>, level: u8 },
    Paragraph { contents: Seq<ObjView> },
    BlockQuote { contents: Seq<ObjView> },
    InfoBox { contents: Seq<ObjView> },
    WarningBox { contents: Seq<ObjView> },
    ErrorBox { contents: Seq<ObjView> },
    List { items: Seq<Seq<ObjView>> },
    Table { header: Seq<Seq<ObjView>>, rows: Seq<Seq<Seq<ObjView>>> },
    BasicText { contents: Seq<char> },
    Italic { contents: Seq<ObjView> },
    Bold { contents: Seq<ObjView> },
    Link { name: Seq<char>, link: Seq<char> },
    Image { alt: Seq<char>, link: Seq<char> },
    HorizontalRule,
    InlineCode { contents: Seq<char> },
    InlineMaths { contents: Seq<char> },
    CodeBlock { contents: Seq<char>, lang: Option<Seq<char>> },
    MathsBlock { contents: Seq<char> },
    Mermaid { contents: Seq<char> },
}

/// The view of one node.
pub open spec fn obj_view(o: KnotsObject) -> ObjView
    decreases o,
{
    match o {
        KnotsObject::Root(n) => ObjView::Root { contents: views_of(n.contents@) },
        KnotsObject::Title(n) => ObjView::Title { contents: n.contents@, level: n.level },
        KnotsObject::Paragraph(n) => ObjView::Paragraph { contents: views_of(n.contents@) },
        KnotsObject::BlockQuote(n) => ObjView::BlockQuote { contents: views_of(n.contents@) },
        KnotsObject::InfoBox(n) => ObjView::InfoBox { contents: views_of(n.contents@) },
        KnotsObject::WarningBox(n) => ObjView::WarningBox { contents: views_of(n.contents@) },
        KnotsObject::ErrorBox(n) => ObjView::ErrorBox { contents: views_of(n.contents@) },
        KnotsObject::List(n) => ObjView::List { items: items_views_of(n.contents@) },
        KnotsObject::Table(n) => ObjView::Table {
            header: items_views_of(n.header@),
            rows: rows_views_of(n.rows@),
        },
        KnotsObject::BasicText(n) => ObjView::BasicText { contents: n.contents@ },
        KnotsObject::Italic(n) => ObjView::Italic { contents: views_of(n.contents@) },
        KnotsObject::Bold(n) => ObjView::Bold { contents: views_of(n.contents@) },
        KnotsObject::Link(n) => ObjView::Link { name: n.name@, link: n.link@ },
        KnotsObject::Image(n) => ObjView::Image { alt: n.alt@, link: n.link@ },
        KnotsObject::HorizontalRule(n) => ObjView::HorizontalRule,
        KnotsObject::InlineCode(n) => ObjView::InlineCode { contents: n.contents@ },
        KnotsObject::InlineMaths(n) => ObjView::InlineMaths { contents: n.contents@ },
        KnotsObject::CodeBlock(n) => ObjView::CodeBlock {
            contents: n.contents@,
            lang: match n.lang {
                Option::Some(l) => Option::Some(l@),
                Option::None => Option::None,
            },
        },
        KnotsObject::MathsBlock(n) => ObjView::MathsBlock { contents: n.contents@ },
        KnotsObject::Mermaid(n) => ObjView::Mermaid { contents: n.contents@ },
    }
}

/// The views of a sequence of nodes, in order.
pub open spec fn views_of(s: Seq<KnotsObject>) -> Seq<ObjView>
    decreases s,
{
    if s.len() == 0 {
        Seq::empty()
    } else {
        seq![obj_view(s[0])] + views_of(s.drop_first())
    }
}

/// The views of a sequence of node sequences, in order.
pub open spec fn items_views_of(s: Seq<Vec<KnotsObject>>) -> Seq<Seq<ObjView>>
    decreases s,
{
    if s.len() == 0 {
        Seq::empty()
    } else {
        seq![views_of(s[0]@)] + items_views_of(s.drop_first())
    }
}

/// The views of a sequence of rows, each a sequence of cells.
pub open spec fn rows_views_of(s: Seq<Vec<Vec<KnotsObject>>>) -> Seq<Seq<Seq<ObjView>>>
    decreases s,
{
    if s.len() == 0 {
        Seq::empty()
    } else {
        seq![items_views_of(s[0]@)] + rows_views_of(s.drop_first())
    }
}

impl View for KnotsObject {
    type V = ObjView;

    open spec fn view(&self) -> ObjView {
        obj_view(*self)
    }
}

/// The number of nodes in a tree, the node itself included.
pub open spec fn vsize(v: ObjView) -> nat
    decreases v,
{
    match v {
        ObjView::Root { contents } => 1 + vsizes(contents),
        ObjView::Paragraph { contents } => 1 + vsizes(contents),
        ObjView::BlockQuote { contents } => 1 + vsizes(contents),
        ObjView::InfoBox { contents } => 1 + vsizes(contents),
        ObjView::WarningBox { contents } => 1 + vsizes(contents),
        ObjView::ErrorBox { contents } => 1 + vsizes(contents),
        ObjView::Italic { contents } => 1 + vsizes(contents),
        ObjView::Bold { contents } => 1 + vsizes(contents),
        ObjView::List { items } => 1 + vsizes2(items),
        ObjView::Table { header, rows } => 1 + vsizes2(header) + vsizes3(rows),
        _ => 1,
    }
}

/// The total node count of a sequence of trees.
pub open spec fn vsizes(s: Seq<ObjView>) -> nat
    decreases s,
{
    if s.len() == 0 {
        0
    } else {
        vsize(s[0]) + vsizes(s.drop_first())
    }
}

/// The total node count of a sequence of tree sequences.
pub open spec fn vsizes2(s: Seq<Seq<ObjView>>) -> nat
    decreases s,
{
    if s.len() == 0 {
        0
    } else {
        vsizes(s[0]) + vsizes2(s.drop_first())
    }
}

/// The total node count of a sequence of rows.
pub open spec fn vsizes3(s: Seq<Seq<Seq<ObjView>>>) -> nat
    decreases s,
{
    if s.len() == 0 {
        0
    } else {
        vsizes2(s[0]) + vsizes3(s.drop_first())
    }
}

/// A node that the render engine accepts: every heading level in the tree
/// is one, two or three.
pub open spec fn renderable(v: ObjView) -> bool
    decreases v,
{
    match v {
        ObjView::Title { contents, level } => 1 <= level <= 3,
        ObjView::Root { contents } => all_renderable(contents),
        ObjView::Paragraph { contents } => all_renderable(contents),
        ObjView::BlockQuote { contents } => all_renderable(contents),
        ObjView::InfoBox { contents } => all_renderable(contents),
        ObjView::WarningBox { contents } => all_renderable(contents),
        ObjView::ErrorBox { contents } => all_renderable(contents),
        ObjView::Italic { contents } => all_renderable(contents),
        ObjView::Bold { contents } => all_renderable(contents),
        ObjView::List { items } => all_renderable2(items),
        ObjView::Table { header, rows } => all_renderable2(header) && all_renderable3(rows),
        _ => true,
    }
}

pub open spec fn all_renderable(s: Seq<ObjView>) -> bool
    decreases s,
{
    if s.len() == 0 {
        true
    } else {
        renderable(s[0]) && all_renderable(s.drop_first())
    }
}

pub open spec fn all_renderable2(s: Seq<Seq<ObjView>>) -> bool
    decreases s,
{
    if s.len() == 0 {
        true
    } else {
        all_renderable(s[0]) && all_renderable2(s.drop_first())
    }
}

pub open spec fn all_renderable3(s: Seq<Seq<Seq<ObjView>>>) -> bool
    decreases s,
{
    if s.len() == 0 {
        true
    } else {
        all_renderable2(s[0]) && all_renderable3(s.drop_first())
    }
}

/// A node whose rendering leaves the open-tag stack exactly as it found it.
/// Headings and wide content (images, code and diagram blocks) instead close
/// the ambient container and open a fresh one.
pub open spec fn stack_neutral(v: ObjView) -> bool
    decreases v,
{
    match v {
        ObjView::Title { .. } => false,
        ObjView::Image { .. } => false,
        ObjView::CodeBlock { .. } => false,
        ObjView::Mermaid { .. } => false,
        ObjView::Root { contents } => all_stack_neutral(contents),
        ObjView::Paragraph { contents } => all_stack_neutral(contents),
        ObjView::BlockQuote { contents } => all_stack_neutral(contents),
        ObjView::InfoBox { contents } => all_stack_neutral(contents),
        ObjView::WarningBox { contents } => all_stack_neutral(contents),
        ObjView::ErrorBox { contents } => all_stack_neutral(contents),
        ObjView::Italic { contents } => all_stack_neutral(contents),
        ObjView::Bold { contents } => all_stack_neutral(contents),
        ObjView::List { items } => all_stack_neutral2(items),
        ObjView::Table { header, rows } => all_stack_neutral2(header) && all_stack_neutral3(rows),
        _ => true,
    }
}

pub open spec fn all_stack_neutral(s: Seq<ObjView>) -> bool
    decreases s,
{
    if s.len() == 0 {
        true
    } else {
        stack_neutral(s[0]) && all_stack_neutral(s.drop_first())
    }
}

pub open spec fn all_stack_neutral2(s: Seq<Seq<ObjView>>) -> bool
    decreases s,
{
    if s.len() == 0 {
        true
    } else {
        all_stack_neutral(s[0]) && all_stack_neutral2(s.drop_first())
    }
}

pub open spec fn all_stack_neutral3(s: Seq<Seq<Seq<ObjView>>>) -> bool
    decreases s,
{
    if s.len() == 0 {
        true
    } else {
        all_stack_neutral2(s[0]) && all_stack_neutral3(s.drop_first())
    }
}

/// A node that keeps the rendering protocol intact under a structural
/// container: a heading or wide block may replace the ambient container,
/// everything nested deeper must leave the stack alone.
pub open spec fn container_safe(v: ObjView) -> bool
    decreases v,
{
    match v {
        ObjView::Title { .. } => true,
        ObjView::Image { .. } => true,
        ObjView::CodeBlock { .. } => true,
        ObjView::Mermaid { .. } => true,
        ObjView::Root { contents } => all_container_safe(contents),
        _ => stack_neutral(v),
    }
}

pub open spec fn all_container_safe(s: Seq<ObjView>) -> bool
    decreases s,
{
    if s.len() == 0 {
        true
    } else {
        container_safe(s[0]) && all_container_safe(s.drop_first())
    }
}

impl View for Root {
    type V = ObjView;

    open spec fn view(&self) -> ObjView {
        ObjView::Root { contents: views_of(self.contents@) }
    }
}

impl View for Title {
    type V = ObjView;

    open spec fn view(&self) -> ObjView {
        ObjView::Title { contents: self.contents@, level: self.level }
    }
}

impl View for Paragraph {
    type V = ObjView;

    open spec fn view(&self) -> ObjView {
        ObjView::Paragraph { contents: views_of(self.contents@) }
    }
}

impl View for BlockQuote {
    type V = ObjView;

    open spec fn view(&self) -> ObjView {
        ObjView::BlockQuote { contents: views_of(self.contents@) }
    }
}

impl View for InfoBox {
    type V = ObjView;

    open spec fn view(&self) -> ObjView {
        ObjView::InfoBox { contents: views_of(self.contents@) }
    }
}

impl View for WarningBox {
    type V = ObjView;

    open spec fn view(&self) -> ObjView {
        ObjView::WarningBox { contents: views_of(self.contents@) }
    }
}

impl View for ErrorBox {
    type V = ObjView;

    open spec fn view(&self) -> ObjView {
        ObjView::ErrorBox { contents: views_of(self.contents@) }
    }
}

impl View for List {
    type V = ObjView;

    open spec fn view(&self) -> ObjView {
        ObjView::List { items: items_views_of(self.contents@) }
    }
}

impl View for Table {
    type V = ObjView;

    open spec fn view(&self) -> ObjView {
        ObjView::Table { header: items_views_of(self.header@), rows: rows_views_of(self.rows@) }
    }
}

impl View for BasicText {
    type V = ObjView;

    open spec fn view(&self) -> ObjView {
        ObjView::BasicText { contents: self.contents@ }
    }
}

impl View for Italic {
    type V = ObjView;

    open spec fn view(&self) -> ObjView {
        ObjView::Italic { contents: views_of(self.contents@) }
    }
}

impl View for Bold {
    type V = ObjView;

    open spec fn view(&self) -> ObjView {
        ObjView::Bold { contents: views_of(self.contents@) }
    }
}

impl View for Link {
    type V = ObjView;

    open spec fn view(&self) -> ObjView {
        ObjView::Link { name: self.name@, link: self.link@ }
    }
}

impl View for Image {
    type V = ObjView;

    open spec fn view(&self) -> ObjView {
        ObjView::Image { alt: self.alt@, link: self.link@ }
    }
}

impl View for HorizontalRule {
    type V = ObjView;

    open spec fn view(&self) -> ObjView {
        ObjView::HorizontalRule
    }
}

impl View for InlineCode {
    type V = ObjView;

    open spec fn view(&self) -> ObjView {
        ObjView::InlineCode { contents: self.contents@ }
    }
}

impl View for InlineMaths {
    type V = ObjView;

    open spec fn view(&self) -> ObjView {
        ObjView::InlineMaths { contents: self.contents@ }
    }
}

impl View for CodeBlock {
    type V = ObjView;

    open spec fn view(&self) -> ObjView {
        ObjView::CodeBlock {
            contents: self.contents@,
            lang: match self.lang {
                Option::Some(l) => Option::Some(l@),
                Option::None => Option::None,
            },
        }
    }
}

impl View for MathsBlock {
    type V = ObjView;

    open spec fn view(&self) -> ObjView {
        ObjView::MathsBlock { contents: self.contents@ }
    }
}

impl View for Mermaid {
    type V = ObjView;

    open spec fn view(&self) -> ObjView {
        ObjView::Mermaid { contents: self.contents@ }
    }
}

/// An image target that points at the web rather than at a local file.
pub open spec fn spec_is_web_link(l: Seq<char>) -> bool {
    crate::utils::spec_starts_with(l, "http://"@) || crate::utils::spec_starts_with(l, "https://"@)
}

/// Every local image target in the tree has bytes in the store.
pub open spec fn images_available(v: ObjView, images: Seq<(Seq<char>, Seq<u8>)>) -> bool
    decreases v,
{
    match v {
        ObjView::Image { alt, link } => spec_is_web_link(link) || spec_store_has(images, link),
        ObjView::Root { contents } => all_images_available(contents, images),
        ObjView::Paragraph { contents } => all_images_available(contents, images),
        ObjView::BlockQuote { contents } => all_images_available(contents, images),
        ObjView::InfoBox { contents } => all_images_available(contents, images),
        ObjView::WarningBox { contents } => all_images_available(contents, images),
        ObjView::ErrorBox { contents } => all_images_available(contents, images),
        ObjView::Italic { contents } => all_images_available(contents, images),
        ObjView::Bold { contents } => all_images_available(contents, images),
        ObjView::List { items } => all_images_available2(items, images),
        ObjView::Table { header, rows } => all_images_available2(header, images)
            && all_images_available3(rows, images),
        _ => true,
    }
}

pub open spec fn all_images_available(s: Seq<ObjView>, images: Seq<(Seq<char>, Seq<u8>)>) -> bool
    decreases s,
{
    if s.len() == 0 {
        true
    } else {
        images_available(s[0], images) && all_images_available(s.drop_first(), images)
    }
}

pub open spec fn all_images_available2(
    s: Seq<Seq<ObjView>>,
    images: Seq<(Seq<char>, Seq<u8>)>,
) -> bool
    decreases s,
{
    if s.len() == 0 {
        true
    } else {
        all_images_available(s[0], images) && all_images_available2(s.drop_first(), images)
    }
}

pub open spec fn all_images_available3(
    s: Seq<Seq<Seq<ObjView>>>,
    images: Seq<(Seq<char>, Seq<u8>)>,
) -> bool
    decreases s,
{
    if s.len() == 0 {
        true
    } else {
        all_images_available2(s[0], images) && all_images_available3(s.drop_first(), images)
    }
}

/// The views of a node sequence line up with the nodes, one by one.
pub proof fn lemma_views_of(s: Seq<KnotsObject>)
    ensures
        views_of(s).len() == s.len(),
        forall|i: int| 0 <= i < s.len() ==> views_of(s)[i] == obj_view(s[i]),
    decreases s,
{
    if s.len() > 0 {
        lemma_views_of(s.drop_first());
        assert forall|i: int| 0 <= i < s.len() implies views_of(s)[i] == obj_view(s[i]) by {
            if i > 0 {
                assert(views_of(s)[i] == views_of(s.drop_first())[i - 1]);
                assert(s.drop_first()[i - 1] == s[i]);
            }
        }
    }
}

/// The views of an item sequence line up with the items, one by one.
pub proof fn lemma_items_views_of(s: Seq<Vec<KnotsObject>>)
    ensures
        items_views_of(s).len() == s.len(),
        forall|i: int| 0 <= i < s.len() ==> items_views_of(s)[i] == views_of(s[i]@),
    decreases s,
{
    if s.len() > 0 {
        lemma_items_views_of(s.drop_first());
        assert forall|i: int| 0 <= i < s.len() implies items_views_of(s)[i] == views_of(s[i]@) by {
            if i > 0 {
                assert(items_views_of(s)[i] == items_views_of(s.drop_first())[i - 1]);
                assert(s.drop_first()[i - 1] == s[i]);
            }
        }
    }
}

/// The placeholder element id minted for the n-th maths node.
pub open spec fn spec_maths_id(n: nat) -> Seq<char> {
    "maths"@ + spec_dec(n)
}

/// Rendering a heading: register it, close the ambient container, open the
/// level's container, write the heading element with its anchor link, then
/// open the next nested container and record it as current.
pub open spec fn spec_render_title(name: Seq<char>, level: u8, s: BuilderView) -> BuilderView {
    let s1 = spec_add_title(s, level, name).0;
    let t = spec_add_title(s, level, name).1;
    let title_container = if level == 1 {
        "container-lvl1"@
    } else if level == 2 {
        "container-lvl2"@
    } else {
        "container"@
    };
    let next_container = if level == 1 {
        "container-lvl2"@
    } else {
        "container"@
    };
    let tag = seq!['h'] + spec_dec(level as nat);
    let level_class = "lvl"@ + spec_dec(level as nat);
    let s2 = spec_end_tag(s1);
    let s3 = spec_start_tag(s2, "div"@, seq![("class"@, title_container)]);
    let s4 = spec_start_tag(s3, tag, seq![("class"@, level_class), ("id"@, t.anchor)]);
    let s5 = spec_start_tag(s4, "a"@, seq![("href"@, seq!['#'] + t.anchor)]);
    let s6 = spec_write_content(s5, t.name);
    let s7 = spec_write_content(s6, s.link_icon);
    let s8 = spec_end_tag(spec_end_tag(spec_end_tag(s7)));
    let s9 = spec_start_tag(s8, "div"@, seq![("class"@, next_container)]);
    BuilderView { current_container: next_container, ..s9 }
}

/// What the outside encoder writes for the given bytes.
pub uninterp spec fn base64_of(b: Seq<u8>) -> Seq<char>;

/// Relies on base64::encode: standard-alphabet base64 with padding; the
/// result depends on the input bytes alone.
#[verifier::external_body]
fn base64_encode(data: &Vec<u8>) -> (r: String)
    ensures
        r@ == base64_of(data@),
{
    base64::encode(data)
}

/// Rendering an image: wide-content protocol around an img element whose
/// source is the web target itself, or the stored bytes as an embedded
/// base64 payload for a local target.
pub open spec fn spec_render_image(alt: Seq<char>, link: Seq<char>, s: BuilderView) -> BuilderView {
    let src = if spec_is_web_link(link) {
        link
    } else {
        "data:application/octet-stream;base64,"@ + base64_of(spec_store_get(s.images, link))
    };
    let s1 = spec_end_tag(s);
    let s2 = spec_start_tag(s1, "div"@, seq![("class"@, "container-lg"@)]);
    let s3 = spec_orphan_tag(s2, "img"@, seq![("alt"@, alt), ("src"@, src)]);
    let s4 = spec_end_tag(s3);
    spec_start_tag(s4, "div"@, seq![("class"@, s.current_container)])
}

/// Rendering inline maths: mint the next placeholder id, emit an empty span
/// carrying it, and defer the rendering statement.
pub open spec fn spec_render_inline_maths(contents: Seq<char>, s: BuilderView) -> BuilderView {
    let n = s.maths_blocks + 1;
    let s1 = BuilderView { katex: true, maths_blocks: n, ..s };
    let s2 = spec_inline_tag(s1, "span"@, seq![("id"@, spec_maths_id(n))], Seq::empty());
    spec_write_katex(s2, contents, spec_maths_id(n))
}

/// Rendering display maths: mint the next placeholder id, emit an empty block
/// carrying it, and defer the rendering statement.
pub open spec fn spec_render_maths_block(contents: Seq<char>, s: BuilderView) -> BuilderView {
    let n = s.maths_blocks + 1;
    let s1 = BuilderView { katex: true, maths_blocks: n, ..s };
    let s2 = spec_start_tag(s1, "div"@, seq![("id"@, spec_maths_id(n)), ("class"@, "mathsblock"@)]);
    let s3 = spec_end_tag(s2);
    spec_write_katex(s3, contents, spec_maths_id(n))
}

/// Rendering a code block: note the language, then the wide-content protocol
/// around a pre/code pair holding the escaped text.
pub open spec fn spec_render_code_block(
    contents: Seq<char>,
    lang: Option<Seq<char>>,
    s: BuilderView,
) -> BuilderView {
    let s1 = BuilderView { prism: true, ..s };
    let s2 = match lang {
        Option::Some(l) => spec_note_language(s1, l),
        Option::None => s1,
    };
    let s3 = spec_end_tag(s2);
    let s4 = spec_start_tag(s3, "div"@, seq![("class"@, "container-lg"@)]);
    let s5 = spec_start_tag(s4, "pre"@, seq![("class"@, "codeblock"@)]);
    let s6 = match lang {
        Option::Some(l) => spec_start_tag(s5, "code"@, seq![("class"@, "language-"@ + l)]),
        Option::None => spec_start_tag(s5, "code"@, Seq::empty()),
    };
    let s7 = spec_write_content(s6, spec_escape_html(contents));
    let s8 = spec_end_tag(spec_end_tag(spec_end_tag(s7)));
    spec_start_tag(s8, "div"@, seq![("class"@, s.current_container)])
}

/// Rendering a diagram block: the wide-content protocol around a diagram
/// container holding the raw text, with the diagram-assets flag raised.
pub open spec fn spec_render_mermaid(contents: Seq<char>, s: BuilderView) -> BuilderView {
    let s1 = BuilderView { mermaid: true, ..s };
    let s2 = spec_end_tag(s1);
    let s3 = spec_start_tag(s2, "div"@, seq![("class"@, "container-lg"@)]);
    let s4 = spec_start_tag(s3, "div"@, seq![("class"@, "mermaid"@)]);
    let s5 = spec_write_content(s4, contents);
    let s6 = spec_end_tag(spec_end_tag(s5));
    spec_start_tag(s6, "div"@, seq![("class"@, s.current_container)])
}

/// What rendering one node does to the whole builder state.
pub open spec fn spec_render_obj(v: ObjView, s: BuilderView) -> BuilderView
    decreases v,
{
    match v {
        ObjView::Root { contents } => spec_render_objs(contents, s),
        ObjView::Title { contents, level } => spec_render_title(contents, level, s),
        ObjView::Paragraph { contents } => spec_end_tag(
            spec_render_objs(
                contents,
                spec_start_tag(s, "p"@, Seq::<(Seq<char>, Seq<char>)>::empty()),
            ),
        ),
        ObjView::BlockQuote { contents } => spec_end_tag(
            spec_render_objs(
                contents,
                spec_start_tag(s, "blockquote"@, Seq::<(Seq<char>, Seq<char>)>::empty()),
            ),
        ),
        ObjView::InfoBox { contents } => spec_end_tag(
            spec_end_tag(
                spec_render_objs(
                    contents,
                    spec_start_tag(
                        spec_write_content(
                            spec_start_tag(s, "div"@, seq![("class"@, "infobox"@)]),
                            s.info_icon,
                        ),
                        "p"@,
                        Seq::<(Seq<char>, Seq<char>)>::empty(),
                    ),
                ),
            ),
        ),
        ObjView::WarningBox { contents } => spec_end_tag(
            spec_end_tag(
                spec_render_objs(
                    contents,
                    spec_start_tag(
                        spec_write_content(
                            spec_start_tag(s, "div"@, seq![("class"@, "warningbox"@)]),
                            s.warning_icon,
                        ),
                        "p"@,
                        Seq::<(Seq<char>, Seq<char>)>::empty(),
                    ),
                ),
            ),
        ),
        ObjView::ErrorBox { contents } => spec_end_tag(
            spec_end_tag(
                spec_render_objs(
                    contents,
                    spec_start_tag(
                        spec_write_content(
                            spec_start_tag(s, "div"@, seq![("class"@, "errorbox"@)]),
                            s.error_icon,
                        ),
                        "p"@,
                        Seq::<(Seq<char>, Seq<char>)>::empty(),
                    ),
                ),
            ),
        ),
        ObjView::List { items } => spec_end_tag(
            spec_render_items(
                items,
                spec_start_tag(s, "ul"@, Seq::<(Seq<char>, Seq<char>)>::empty()),
            ),
        ),
        ObjView::Table { header, rows } => spec_end_tag(
            spec_render_rows(
                rows,
                spec_end_tag(
                    spec_render_cells(
                        header,
                        "th"@,
                        spec_start_tag(
                            spec_start_tag(s, "table"@, Seq::<(Seq<char>, Seq<char>)>::empty()),
                            "tr"@,
                            Seq::<(Seq<char>, Seq<char>)>::empty(),
                        ),
                    ),
                ),
            ),
        ),
        ObjView::BasicText { contents } => spec_write_content(s, contents),
        ObjView::Italic { contents } => spec_end_tag(
            spec_render_objs(
                contents,
                spec_start_tag(s, "i"@, Seq::<(Seq<char>, Seq<char>)>::empty()),
            ),
        ),
        ObjView::Bold { contents } => spec_end_tag(
            spec_render_objs(
                contents,
                spec_start_tag(s, "b"@, Seq::<(Seq<char>, Seq<char>)>::empty()),
            ),
        ),
        ObjView::Link { name, link } => spec_inline_tag(
            s,
            "a"@,
            seq![("href"@, link), ("class"@, "link"@)],
            name,
        ),
        ObjView::Image { alt, link } => spec_render_image(alt, link, s),
        ObjView::HorizontalRule => spec_orphan_tag(
            s,
            "hr"@,
            Seq::<(Seq<char>, Seq<char>)>::empty(),
        ),
        ObjView::InlineCode { contents } => spec_inline_tag(
            s,
            "code"@,
            seq![("class"@, "inline-code"@)],
            spec_escape_html(contents),
        ),
        ObjView::InlineMaths { contents } => spec_render_inline_maths(contents, s),
        ObjView::CodeBlock { contents, lang } => spec_render_code_block(contents, lang, s),
        ObjView::MathsBlock { contents } => spec_render_maths_block(contents, s),
        ObjView::Mermaid { contents } => spec_render_mermaid(contents, s),
    }
}

/// What rendering a sequence of nodes does, first to last.
pub open spec fn spec_render_objs(vs: Seq<ObjView>, s: BuilderView) -> BuilderView
    decreases vs,
{
    if vs.len() == 0 {
        s
    } else {
        spec_render_objs(vs.drop_first(), spec_render_obj(vs[0], s))
    }
}

/// What rendering the items of a list does: each inside its own item wrapper.
pub open spec fn spec_render_items(items: Seq<Seq<ObjView>>, s: BuilderView) -> BuilderView
    decreases items,
{
    if items.len() == 0 {
        s
    } else {
        spec_render_items(
            items.drop_first(),
            spec_end_tag(
                spec_render_objs(
                    items[0],
                    spec_start_tag(s, "li"@, Seq::<(Seq<char>, Seq<char>)>::empty()),
                ),
            ),
        )
    }
}

/// What rendering the cells of one table row does, one wrapper per cell.
pub open spec fn spec_render_cells(
    cells: Seq<Seq<ObjView>>,
    tag: Seq<char>,
    s: BuilderView,
) -> BuilderView
    decreases cells,
{
    if cells.len() == 0 {
        s
    } else {
        spec_render_cells(
            cells.drop_first(),
            tag,
            spec_end_tag(
                spec_render_objs(
                    cells[0],
                    spec_start_tag(s, tag, Seq::<(Seq<char>, Seq<char>)>::empty()),
                ),
            ),
        )
    }
}

/// What rendering the data rows of a table does, each inside a row wrapper.
pub open spec fn spec_render_rows(rows: Seq<Seq<Seq<ObjView>>>, s: BuilderView) -> BuilderView
    decreases rows,
{
    if rows.len() == 0 {
        s
    } else {
        spec_render_rows(
            rows.drop_first(),
            spec_end_tag(
                spec_render_cells(
                    rows[0],
                    "td"@,
                    spec_start_tag(s, "tr"@, Seq::<(Seq<char>, Seq<char>)>::empty()),
                ),
            ),
        )
    }
}

/// Appending one node appends its view.
pub proof fn lemma_views_of_push(s: Seq<KnotsObject>, x: KnotsObject)
    ensures
        views_of(s.push(x)) =~= views_of(s) + seq![obj_view(x)],
{
    lemma_views_of(s.push(x));
    lemma_views_of(s);
    assert forall|i: int| 0 <= i < views_of(s.push(x)).len() implies views_of(s.push(x))[i] == (
    views_of(s) + seq![obj_view(x)])[i] by {
        if i < s.len() {
            assert(s.push(x)[i] == s[i]);
        } else {
            assert(s.push(x)[i] == x);
        }
    }
}

/// Appending one item appends its views.
pub proof fn lemma_items_views_of_push(s: Seq<Vec<KnotsObject>>, x: Vec<KnotsObject>)
    ensures
        items_views_of(s.push(x)) =~= items_views_of(s) + seq![views_of(x@)],
{
    lemma_items_views_of(s.push(x));
    lemma_items_views_of(s);
    assert forall|i: int|
        0 <= i < items_views_of(s.push(x)).len() implies items_views_of(s.push(x))[i] == (
    items_views_of(s) + seq![views_of(x@)])[i] by {
        if i < s.len() {
            assert(s.push(x)[i] == s[i]);
        } else {
            assert(s.push(x)[i] == x);
        }
    }
}

/// Appending one row appends its views.
pub proof fn lemma_rows_views_of_push(s: Seq<Vec<Vec<KnotsObject>>>, x: Vec<Vec<KnotsObject>>)
    ensures
        rows_views_of(s.push(x)) =~= rows_views_of(s) + seq![items_views_of(x@)],
{
    lemma_rows_views_of(s.push(x));
    lemma_rows_views_of(s);
    assert forall|i: int|
        0 <= i < rows_views_of(s.push(x)).len() implies rows_views_of(s.push(x))[i] == (
    rows_views_of(s) + seq![items_views_of(x@)])[i] by {
        if i < s.len() {
            assert(s.push(x)[i] == s[i]);
        } else {
            assert(s.push(x)[i] == x);
        }
    }
}

/// Neutrality of every element gives neutrality of the sequence.
pub proof fn lemma_all_stack_neutral_from_forall(s: Seq<ObjView>)
    requires
        forall|i: int| 0 <= i < s.len() ==> stack_neutral(#[trigger] s[i]),
    ensures
        all_stack_neutral(s),
    decreases s,
{
    if s.len() > 0 {
        assert(forall|i: int|
            0 <= i < s.drop_first().len() ==> stack_neutral(#[trigger] s.drop_first()[i]));
        lemma_all_stack_neutral_from_forall(s.drop_first());
    }
}

pub proof fn lemma_all_renderable_from_forall(s: Seq<ObjView>)
    requires
        forall|i: int| 0 <= i < s.len() ==> renderable(#[trigger] s[i]),
    ensures
        all_renderable(s),
    decreases s,
{
    if s.len() > 0 {
        assert(forall|i: int|
            0 <= i < s.drop_first().len() ==> renderable(#[trigger] s.drop_first()[i]));
        lemma_all_renderable_from_forall(s.drop_first());
    }
}

pub proof fn lemma_all_images_available_from_forall(
    s: Seq<ObjView>,
    images: Seq<(Seq<char>, Seq<u8>)>,
)
    requires
        forall|i: int| 0 <= i < s.len() ==> images_available(#[trigger] s[i], images),
    ensures
        all_images_available(s, images),
    decreases s,
{
    if s.len() > 0 {
        assert(forall|i: int|
            0 <= i < s.drop_first().len() ==> images_available(
                #[trigger] s.drop_first()[i],
                images,
            ));
        lemma_all_images_available_from_forall(s.drop_first(), images);
    }
}

pub proof fn lemma_all_container_safe_from_forall(s: Seq<ObjView>)
    requires
        forall|i: int| 0 <= i < s.len() ==> container_safe(#[trigger] s[i]),
    ensures
        all_container_safe(s),
    decreases s,
{
    if s.len() > 0 {
        assert(forall|i: int|
            0 <= i < s.drop_first().len() ==> container_safe(#[trigger] s.drop_first()[i]));
        lemma_all_container_safe_from_forall(s.drop_first());
    }
}

pub proof fn lemma_all_stack_neutral2_from_forall(s: Seq<Seq<ObjView>>)
    requires
        forall|i: int| 0 <= i < s.len() ==> all_stack_neutral(#[trigger] s[i]),
    ensures
        all_stack_neutral2(s),
    decreases s,
{
    if s.len() > 0 {
        assert(forall|i: int|
            0 <= i < s.drop_first().len() ==> all_stack_neutral(#[trigger] s.drop_first()[i]));
        lemma_all_stack_neutral2_from_forall(s.drop_first());
    }
}

pub proof fn lemma_all_renderable2_from_forall(s: Seq<Seq<ObjView>>)
    requires
        forall|i: int| 0 <= i < s.len() ==> all_renderable(#[trigger] s[i]),
    ensures
        all_renderable2(s),
    decreases s,
{
    if s.len() > 0 {
        assert(forall|i: int|
            0 <= i < s.drop_first().len() ==> all_renderable(#[trigger] s.drop_first()[i]));
        lemma_all_renderable2_from_forall(s.drop_first());
    }
}

pub proof fn lemma_all_stack_neutral3_from_forall(s: Seq<Seq<Seq<ObjView>>>)
    requires
        forall|i: int| 0 <= i < s.len() ==> all_stack_neutral2(#[trigger] s[i]),
    ensures
        all_stack_neutral3(s),
    decreases s,
{
    if s.len() > 0 {
        assert(forall|i: int|
            0 <= i < s.drop_first().len() ==> all_stack_neutral2(#[trigger] s.drop_first()[i]));
        lemma_all_stack_neutral3_from_forall(s.drop_first());
    }
}

pub proof fn lemma_all_renderable3_from_forall(s: Seq<Seq<Seq<ObjView>>>)
    requires
        forall|i: int| 0 <= i < s.len() ==> all_renderable2(#[trigger] s[i]),
    ensures
        all_renderable3(s),
    decreases s,
{
    if s.len() > 0 {
        assert(forall|i: int|
            0 <= i < s.drop_first().len() ==> all_renderable2(#[trigger] s.drop_first()[i]));
        lemma_all_renderable3_from_forall(s.drop_first());
    }
}


/// The local image targets of a tree: every image link that does not point at
/// the web, in rendering order.
pub open spec fn spec_local_targets(v: ObjView) -> Seq<Seq<char>>
    decreases v,
{
    match v {
        ObjView::Image { alt, link } => if spec_is_web_link(link) {
            Seq::empty()
        } else {
            seq![link]
        },
        ObjView::Root { contents } => spec_local_targets_seq(contents),
        ObjView::Paragraph { contents } => spec_local_targets_seq(contents),
        ObjView::BlockQuote { contents } => spec_local_targets_seq(contents),
        ObjView::InfoBox { contents } => spec_local_targets_seq(contents),
        ObjView::WarningBox { contents } => spec_local_targets_seq(contents),
        ObjView::ErrorBox { contents } => spec_local_targets_seq(contents),
        ObjView::Italic { contents } => spec_local_targets_seq(contents),
        ObjView::Bold { contents } => spec_local_targets_seq(contents),
        ObjView::List { items } => spec_local_targets_seq2(items),
        ObjView::Table { header, rows } => spec_local_targets_seq2(header)
            + spec_local_targets_seq3(rows),
        _ => Seq::empty(),
    }
}

pub open spec fn spec_local_targets_seq(s: Seq<ObjView>) -> Seq<Seq<char>>
    decreases s,
{
    if s.len() == 0 {
        Seq::empty()
    } else {
        spec_local_targets(s[0]) + spec_local_targets_seq(s.drop_first())
    }
}

pub open spec fn spec_local_targets_seq2(s: Seq<Seq<ObjView>>) -> Seq<Seq<char>>
    decreases s,
{
    if s.len() == 0 {
        Seq::empty()
    } else {
        spec_local_targets_seq(s[0]) + spec_local_targets_seq2(s.drop_first())
    }
}

pub open spec fn spec_local_targets_seq3(s: Seq<Seq<Seq<ObjView>>>) -> Seq<Seq<char>>
    decreases s,
{
    if s.len() == 0 {
        Seq::empty()
    } else {
        spec_local_targets_seq2(s[0]) + spec_local_targets_seq3(s.drop_first())
    }
}

/// Whether the store holds bytes for the path.
fn store_has(images: &Vec<(String, Vec<u8>)>, link: &str) -> (r: bool)
    ensures
        r == spec_store_has(crate::builder::images_view(images@), link@),
{
    let ghost imgs = crate::builder::images_view(images@);
    proof {
        assert(imgs.skip(0) =~= imgs);
    }
    let mut i: usize = 0;
    while i < images.len()
        invariant
            i <= images@.len(),
            imgs == crate::builder::images_view(images@),
            spec_store_has(imgs, link@) == spec_store_has(imgs.skip(i as int), link@),
        decreases images@.len() - i,
    {
        proof {
            assert(imgs.skip(i as int)[0] == imgs[i as int]);
            assert(imgs.skip(i as int).drop_first() =~= imgs.skip(i as int + 1));
            assert(imgs[i as int] == (images@[i as int].0@, images@[i as int].1@));
        }
        if crate::utils::str_eq(images[i].0.as_str(), link) {
            return true;
        }
        i = i + 1;
    }
    proof {
        assert(imgs.skip(imgs.len() as int) =~= Seq::<(Seq<char>, Seq<u8>)>::empty());
    }
    false
}

/// What one scan of a tree reports: its node count unless it exceeds the
/// machine, whether every heading level is in range, whether the node leaves
/// the tag stack alone, whether every local image has stored bytes, and
/// whether the node is safe under a structural container.
pub struct ScanReport {
    pub size: Option<usize>,
    pub ok_levels: bool,
    pub neutral: bool,
    pub images_ok: bool,
    pub safe: bool,
}

impl ScanReport {
    /// The report speaks the truth about the node.
    pub open spec fn describes(self, v: ObjView, images: Seq<(Seq<char>, Seq<u8>)>) -> bool {
        &&& (match self.size {
            Option::Some(n) => n == vsize(v),
            Option::None => vsize(v) > usize::MAX,
        })
        &&& self.ok_levels == renderable(v)
        &&& self.neutral == stack_neutral(v)
        &&& self.images_ok == images_available(v, images)
        &&& self.safe == container_safe(v)
    }
}

struct SeqScan {
    size: Option<usize>,
    ok_levels: bool,
    neutral: bool,
    images_ok: bool,
    safe: bool,
}

/// Checked addition of a node count.
fn add_size(a: Option<usize>, b: Option<usize>) -> (r: Option<usize>)
    ensures
        match r {
            Option::Some(n) => a is Some && b is Some && n == a->0 + b->0,
            Option::None => a is None || b is None || a->0 + b->0 > usize::MAX,
        },
{
    match (a, b) {
        (Option::Some(x), Option::Some(y)) => {
            if x <= usize::MAX - y {
                Option::Some(x + y)
            } else {
                Option::None
            }
        },
        _ => Option::None,
    }
}

/// Examines one node: its size and the facts the render engine asks for.
pub fn scan_obj(o: &KnotsObject, images: &Vec<(String, Vec<u8>)>) -> (r: ScanReport)
    ensures
        r.describes(o@, crate::builder::images_view(images@)),
    decreases o,
{
    match o {
        KnotsObject::Root(n) => {
            let inner = scan_objs(&n.contents, images);
            let size = add_size(inner.size, Option::Some(1));
            ScanReport {
                size,
                ok_levels: inner.ok_levels,
                neutral: inner.neutral,
                images_ok: inner.images_ok,
                safe: inner.safe,
            }
        },
        KnotsObject::Title(n) => {
            let ok = 1 <= n.level && n.level <= 3;
            ScanReport {
                size: Option::Some(1),
                ok_levels: ok,
                neutral: false,
                images_ok: true,
                safe: true,
            }
        },
        KnotsObject::Paragraph(n) => {
            let inner = scan_objs(&n.contents, images);
            let size = add_size(inner.size, Option::Some(1));
            ScanReport {
                size,
                ok_levels: inner.ok_levels,
                neutral: inner.neutral,
                images_ok: inner.images_ok,
                safe: inner.neutral,
            }
        },
        KnotsObject::BlockQuote(n) => {
            let inner = scan_objs(&n.contents, images);
            let size = add_size(inner.size, Option::Some(1));
            ScanReport {
                size,
                ok_levels: inner.ok_levels,
                neutral: inner.neutral,
                images_ok: inner.images_ok,
                safe: inner.neutral,
            }
        },
        KnotsObject::InfoBox(n) => {
            let inner = scan_objs(&n.contents, images);
            let size = add_size(inner.size, Option::Some(1));
            ScanReport {
                size,
                ok_levels: inner.ok_levels,
                neutral: inner.neutral,
                images_ok: inner.images_ok,
                safe: inner.neutral,
            }
        },
        KnotsObject::WarningBox(n) => {
            let inner = scan_objs(&n.contents, images);
            let size = add_size(inner.size, Option::Some(1));
            ScanReport {
                size,
                ok_levels: inner.ok_levels,
                neutral: inner.neutral,
                images_ok: inner.images_ok,
                safe: inner.neutral,
            }
        },
        KnotsObject::ErrorBox(n) => {
            let inner = scan_objs(&n.contents, images);
            let size = add_size(inner.size, Option::Some(1));
            ScanReport {
                size,
                ok_levels: inner.ok_levels,
                neutral: inner.neutral,
                images_ok: inner.images_ok,
                safe: inner.neutral,
            }
        },
        KnotsObject::Italic(n) => {
            let inner = scan_objs(&n.contents, images);
            let size = add_size(inner.size, Option::Some(1));
            ScanReport {
                size,
                ok_levels: inner.ok_levels,
                neutral: inner.neutral,
                images_ok: inner.images_ok,
                safe: inner.neutral,
            }
        },
        KnotsObject::Bold(n) => {
            let inner = scan_objs(&n.contents, images);
            let size = add_size(inner.size, Option::Some(1));
            ScanReport {
                size,
                ok_levels: inner.ok_levels,
                neutral: inner.neutral,
                images_ok: inner.images_ok,
                safe: inner.neutral,
            }
        },
        KnotsObject::List(n) => {
            let inner = scan_items(&n.contents, images);
            let size = add_size(inner.size, Option::Some(1));
            ScanReport {
                size,
                ok_levels: inner.ok_levels,
                neutral: inner.neutral,
                images_ok: inner.images_ok,
                safe: inner.neutral,
            }
        },
        KnotsObject::Table(n) => {
            let h = scan_items(&n.header, images);
            let d = scan_rows(&n.rows, images);
            let size = add_size(add_size(h.size, d.size), Option::Some(1));
            ScanReport {
                size,
                ok_levels: h.ok_levels && d.ok_levels,
                neutral: h.neutral && d.neutral,
                images_ok: h.images_ok && d.images_ok,
                safe: h.neutral && d.neutral,
            }
        },
        KnotsObject::Image(n) => {
            let ok = crate::utils::str_starts_with(n.link.as_str(), "http://")
                || crate::utils::str_starts_with(n.link.as_str(), "https://") || store_has(
                images,
                n.link.as_str(),
            );
            ScanReport {
                size: Option::Some(1),
                ok_levels: true,
                neutral: false,
                images_ok: ok,
                safe: true,
            }
        },
        KnotsObject::CodeBlock(n) => ScanReport {
            size: Option::Some(1),
            ok_levels: true,
            neutral: false,
            images_ok: true,
            safe: true,
        },
        KnotsObject::Mermaid(n) => ScanReport {
            size: Option::Some(1),
            ok_levels: true,
            neutral: false,
            images_ok: true,
            safe: true,
        },
        KnotsObject::BasicText(n) => ScanReport {
            size: Option::Some(1),
            ok_levels: true,
            neutral: true,
            images_ok: true,
            safe: true,
        },
        KnotsObject::Link(n) => ScanReport {
            size: Option::Some(1),
            ok_levels: true,
            neutral: true,
            images_ok: true,
            safe: true,
        },
        KnotsObject::HorizontalRule(n) => ScanReport {
            size: Option::Some(1),
            ok_levels: true,
            neutral: true,
            images_ok: true,
            safe: true,
        },
        KnotsObject::InlineCode(n) => ScanReport {
            size: Option::Some(1),
            ok_levels: true,
            neutral: true,
            images_ok: true,
            safe: true,
        },
        KnotsObject::InlineMaths(n) => ScanReport {
            size: Option::Some(1),
            ok_levels: true,
            neutral: true,
            images_ok: true,
            safe: true,
        },
        KnotsObject::MathsBlock(n) => ScanReport {
            size: Option::Some(1),
            ok_levels: true,
            neutral: true,
            images_ok: true,
            safe: true,
        },
    }
}

/// Examines a sequence of nodes together.
fn scan_objs(v: &Vec<KnotsObject>, images: &Vec<(String, Vec<u8>)>) -> (r: ScanReport)
    ensures
        (match r.size {
            Option::Some(n) => n == vsizes(views_of(v@)),
            Option::None => vsizes(views_of(v@)) > usize::MAX,
        }),
        r.ok_levels == all_renderable(views_of(v@)),
        r.neutral == all_stack_neutral(views_of(v@)),
        r.images_ok == all_images_available(views_of(v@), crate::builder::images_view(images@)),
        r.safe == all_container_safe(views_of(v@)),
    decreases v,
{
    let ghost vs = views_of(v@);
    let ghost imgs = crate::builder::images_view(images@);
    proof {
        lemma_views_of(v@);
        assert(vs.skip(0) =~= vs);
    }
    let mut size: Option<usize> = Option::Some(0);
    let mut ok_levels = true;
    let mut neutral = true;
    let mut images_ok = true;
    let mut safe = true;
    let mut i: usize = 0;
    while i < v.len()
        invariant
            i <= v@.len(),
            vs == views_of(v@),
            vs.len() == v@.len(),
            forall|j: int| 0 <= j < v@.len() ==> vs[j] == obj_view(v@[j]),
            imgs == crate::builder::images_view(images@),
            (match size {
                Option::Some(n) => n + vsizes(vs.skip(i as int)) == vsizes(vs),
                Option::None => vsizes(vs) > usize::MAX,
            }),
            all_renderable(vs) == (ok_levels && all_renderable(vs.skip(i as int))),
            all_stack_neutral(vs) == (neutral && all_stack_neutral(vs.skip(i as int))),
            all_images_available(vs, imgs) == (images_ok && all_images_available(
                vs.skip(i as int),
                imgs,
            )),
            all_container_safe(vs) == (safe && all_container_safe(vs.skip(i as int))),
        decreases v@.len() - i,
    {
        proof {
            assert(vs.skip(i as int)[0] == vs[i as int]);
            assert(vs.skip(i as int).drop_first() =~= vs.skip(i as int + 1));
        }
        let rep = scan_obj(&v[i], images);
        size = add_size(size, rep.size);
        ok_levels = ok_levels && rep.ok_levels;
        neutral = neutral && rep.neutral;
        images_ok = images_ok && rep.images_ok;
        safe = safe && rep.safe;
        i = i + 1;
    }
    proof {
        assert(vs.skip(vs.len() as int) =~= Seq::<ObjView>::empty());
    }
    ScanReport { size, ok_levels, neutral, images_ok, safe }
}

/// Examines the items of a list together.
fn scan_items(v: &Vec<Vec<KnotsObject>>, images: &Vec<(String, Vec<u8>)>) -> (r: ScanReport)
    ensures
        (match r.size {
            Option::Some(n) => n == vsizes2(items_views_of(v@)),
            Option::None => vsizes2(items_views_of(v@)) > usize::MAX,
        }),
        r.ok_levels == all_renderable2(items_views_of(v@)),
        r.neutral == all_stack_neutral2(items_views_of(v@)),
        r.images_ok == all_images_available2(
            items_views_of(v@),
            crate::builder::images_view(images@),
        ),
    decreases v,
{
    let ghost vs = items_views_of(v@);
    let ghost imgs = crate::builder::images_view(images@);
    proof {
        lemma_items_views_of(v@);
        assert(vs.skip(0) =~= vs);
    }
    let mut size: Option<usize> = Option::Some(0);
    let mut ok_levels = true;
    let mut neutral = true;
    let mut images_ok = true;
    let mut i: usize = 0;
    while i < v.len()
        invariant
            i <= v@.len(),
            vs == items_views_of(v@),
            vs.len() == v@.len(),
            forall|j: int| 0 <= j < v@.len() ==> vs[j] == views_of(v@[j]@),
            imgs == crate::builder::images_view(images@),
            (match size {
                Option::Some(n) => n + vsizes2(vs.skip(i as int)) == vsizes2(vs),
                Option::None => vsizes2(vs) > usize::MAX,
            }),
            all_renderable2(vs) == (ok_levels && all_renderable2(vs.skip(i as int))),
            all_stack_neutral2(vs) == (neutral && all_stack_neutral2(vs.skip(i as int))),
            all_images_available2(vs, imgs) == (images_ok && all_images_available2(
                vs.skip(i as int),
                imgs,
            )),
        decreases v@.len() - i,
    {
        proof {
            assert(vs.skip(i as int)[0] == vs[i as int]);
            assert(vs.skip(i as int).drop_first() =~= vs.skip(i as int + 1));
        }
        let rep = scan_objs(&v[i], images);
        size = add_size(size, rep.size);
        ok_levels = ok_levels && rep.ok_levels;
        neutral = neutral && rep.neutral;
        images_ok = images_ok && rep.images_ok;
        i = i + 1;
    }
    proof {
        assert(vs.skip(vs.len() as int) =~= Seq::<Seq<ObjView>>::empty());
    }
    ScanReport { size, ok_levels, neutral, images_ok, safe: true }
}

/// Examines the data rows of a table together.
fn scan_rows(v: &Vec<Vec<Vec<KnotsObject>>>, images: &Vec<(String, Vec<u8>)>) -> (r: ScanReport)
    ensures
        (match r.size {
            Option::Some(n) => n == vsizes3(rows_views_of(v@)),
            Option::None => vsizes3(rows_views_of(v@)) > usize::MAX,
        }),
        r.ok_levels == all_renderable3(rows_views_of(v@)),
        r.neutral == all_stack_neutral3(rows_views_of(v@)),
        r.images_ok == all_images_available3(
            rows_views_of(v@),
            crate::builder::images_view(images@),
        ),
    decreases v,
{
    let ghost vs = rows_views_of(v@);
    let ghost imgs = crate::builder::images_view(images@);
    proof {
        lemma_rows_views_of(v@);
        assert(vs.skip(0) =~= vs);
    }
    let mut size: Option<usize> = Option::Some(0);
    let mut ok_levels = true;
    let mut neutral = true;
    let mut images_ok = true;
    let mut i: usize = 0;
    while i < v.len()
        invariant
            i <= v@.len(),
            vs == rows_views_of(v@),
            vs.len() == v@.len(),
            forall|j: int| 0 <= j < v@.len() ==> vs[j] == items_views_of(v@[j]@),
            imgs == crate::builder::images_view(images@),
            (match size {
                Option::Some(n) => n + vsizes3(vs.skip(i as int)) == vsizes3(vs),
                Option::None => vsizes3(vs) > usize::MAX,
            }),
            all_renderable3(vs) == (ok_levels && all_renderable3(vs.skip(i as int))),
            all_stack_neutral3(vs) == (neutral && all_stack_neutral3(vs.skip(i as int))),
            all_images_available3(vs, imgs) == (images_ok && all_images_available3(
                vs.skip(i as int),
                imgs,
            )),
        decreases v@.len() - i,
    {
        proof {
            assert(vs.skip(i as int)[0] == vs[i as int]);
            assert(vs.skip(i as int).drop_first() =~= vs.skip(i as int + 1));
        }
        let rep = scan_items(&v[i], images);
        size = add_size(size, rep.size);
        ok_levels = ok_levels && rep.ok_levels;
        neutral = neutral && rep.neutral;
        images_ok = images_ok && rep.images_ok;
        i = i + 1;
    }
    proof {
        assert(vs.skip(vs.len() as int) =~= Seq::<Seq<Seq<ObjView>>>::empty());
    }
    ScanReport { size, ok_levels, neutral, images_ok, safe: true }
}

/// Collects the local image targets of a tree, in order, so that a caller can
/// load their bytes before rendering.
pub fn local_image_targets(o: &KnotsObject, out: &mut Vec<String>)
    ensures
        crate::builder::strings_view(final(out)@) == crate::builder::strings_view(old(out)@)
            + spec_local_targets(o@),
    decreases o,
{
    match o {
        KnotsObject::Image(n) => {
            let web = crate::utils::str_starts_with(n.link.as_str(), "http://")
                || crate::utils::str_starts_with(n.link.as_str(), "https://");
            if !web {
                let ghost oldout = out@;
                out.push(n.link.clone());
                proof {
                    crate::builder::lemma_strings_view_push(oldout, out@.last());
                    assert(crate::builder::strings_view(out@) =~= crate::builder::strings_view(
                        oldout,
                    ) + seq![n.link@]);
                }
            } else {
                proof {
                    assert(crate::builder::strings_view(out@) =~= crate::builder::strings_view(
                        out@,
                    ) + Seq::<Seq<char>>::empty());
                }
            }
        },
        KnotsObject::Root(n) => targets_objs(&n.contents, out),
        KnotsObject::Paragraph(n) => targets_objs(&n.contents, out),
        KnotsObject::BlockQuote(n) => targets_objs(&n.contents, out),
        KnotsObject::InfoBox(n) => targets_objs(&n.contents, out),
        KnotsObject::WarningBox(n) => targets_objs(&n.contents, out),
        KnotsObject::ErrorBox(n) => targets_objs(&n.contents, out),
        KnotsObject::Italic(n) => targets_objs(&n.contents, out),
        KnotsObject::Bold(n) => targets_objs(&n.contents, out),
        KnotsObject::List(n) => targets_items(&n.contents, out),
        KnotsObject::Table(n) => {
            targets_items(&n.header, out);
            targets_rows(&n.rows, out);
            proof {
                assert(crate::builder::strings_view(out@) =~= crate::builder::strings_view(
                    old(out)@,
                ) + (spec_local_targets_seq2(items_views_of(n.header@)) + spec_local_targets_seq3(
                    rows_views_of(n.rows@),
                )));
            }
        },
        _ => {
            proof {
                assert(crate::builder::strings_view(out@) =~= crate::builder::strings_view(out@)
                    + Seq::<Seq<char>>::empty());
            }
        },
    }
}

fn targets_objs(v: &Vec<KnotsObject>, out: &mut Vec<String>)
    ensures
        crate::builder::strings_view(final(out)@) == crate::builder::strings_view(old(out)@)
            + spec_local_targets_seq(views_of(v@)),
    decreases v,
{
    let ghost vs = views_of(v@);
    let ghost base = crate::builder::strings_view(old(out)@);
    let ghost mut acc: Seq<Seq<char>> = Seq::empty();
    proof {
        lemma_views_of(v@);
        assert(vs.skip(0) =~= vs);
        assert(base + acc =~= base);
        assert(acc + spec_local_targets_seq(vs) =~= spec_local_targets_seq(vs));
    }
    let mut i: usize = 0;
    while i < v.len()
        invariant
            i <= v@.len(),
            vs == views_of(v@),
            vs.len() == v@.len(),
            forall|j: int| 0 <= j < v@.len() ==> vs[j] == obj_view(v@[j]),
            crate::builder::strings_view(out@) == base + acc,
            acc + spec_local_targets_seq(vs.skip(i as int)) == spec_local_targets_seq(vs),
        decreases v@.len() - i,
    {
        proof {
            assert(vs.skip(i as int)[0] == vs[i as int]);
            assert(vs.skip(i as int).drop_first() =~= vs.skip(i as int + 1));
        }
        let ghost before = crate::builder::strings_view(out@);
        local_image_targets(&v[i], out);
        proof {
            assert((base + acc) + spec_local_targets(vs[i as int]) =~= base + (acc
                + spec_local_targets(vs[i as int])));
            assert((acc + spec_local_targets(vs[i as int])) + spec_local_targets_seq(
                vs.skip(i as int + 1),
            ) =~= acc + (spec_local_targets(vs[i as int]) + spec_local_targets_seq(
                vs.skip(i as int + 1),
            )));
            acc = acc + spec_local_targets(vs[i as int]);
        }
        i = i + 1;
    }
    proof {
        assert(vs.skip(vs.len() as int) =~= Seq::<ObjView>::empty());
        assert(acc + Seq::<Seq<char>>::empty() =~= acc);
    }
}

fn targets_items(v: &Vec<Vec<KnotsObject>>, out: &mut Vec<String>)
    ensures
        crate::builder::strings_view(final(out)@) == crate::builder::strings_view(old(out)@)
            + spec_local_targets_seq2(items_views_of(v@)),
    decreases v,
{
    let ghost vs = items_views_of(v@);
    let ghost base = crate::builder::strings_view(old(out)@);
    let ghost mut acc: Seq<Seq<char>> = Seq::empty();
    proof {
        lemma_items_views_of(v@);
        assert(vs.skip(0) =~= vs);
        assert(base + acc =~= base);
        assert(acc + spec_local_targets_seq2(vs) =~= spec_local_targets_seq2(vs));
    }
    let mut i: usize = 0;
    while i < v.len()
        invariant
            i <= v@.len(),
            vs == items_views_of(v@),
            vs.len() == v@.len(),
            forall|j: int| 0 <= j < v@.len() ==> vs[j] == views_of(v@[j]@),
            crate::builder::strings_view(out@) == base + acc,
            acc + spec_local_targets_seq2(vs.skip(i as int)) == spec_local_targets_seq2(vs),
        decreases v@.len() - i,
    {
        proof {
            assert(vs.skip(i as int)[0] == vs[i as int]);
            assert(vs.skip(i as int).drop_first() =~= vs.skip(i as int + 1));
        }
        targets_objs(&v[i], out);
        proof {
            assert((base + acc) + spec_local_targets_seq(vs[i as int]) =~= base + (acc
                + spec_local_targets_seq(vs[i as int])));
            assert((acc + spec_local_targets_seq(vs[i as int])) + spec_local_targets_seq2(
                vs.skip(i as int + 1),
            ) =~= acc + (spec_local_targets_seq(vs[i as int]) + spec_local_targets_seq2(
                vs.skip(i as int + 1),
            )));
            acc = acc + spec_local_targets_seq(vs[i as int]);
        }
        i = i + 1;
    }
    proof {
        assert(vs.skip(vs.len() as int) =~= Seq::<Seq<ObjView>>::empty());
        assert(acc + Seq::<Seq<char>>::empty() =~= acc);
    }
}

fn targets_rows(v: &Vec<Vec<Vec<KnotsObject>>>, out: &mut Vec<String>)
    ensures
        crate::builder::strings_view(final(out)@) == crate::builder::strings_view(old(out)@)
            + spec_local_targets_seq3(rows_views_of(v@)),
    decreases v,
{
    let ghost vs = rows_views_of(v@);
    let ghost base = crate::builder::strings_view(old(out)@);
    let ghost mut acc: Seq<Seq<char>> = Seq::empty();
    proof {
        lemma_rows_views_of(v@);
        assert(vs.skip(0) =~= vs);
        assert(base + acc =~= base);
        assert(acc + spec_local_targets_seq3(vs) =~= spec_local_targets_seq3(vs));
    }
    let mut i: usize = 0;
    while i < v.len()
        invariant
            i <= v@.len(),
            vs == rows_views_of(v@),
            vs.len() == v@.len(),
            forall|j: int| 0 <= j < v@.len() ==> vs[j] == items_views_of(v@[j]@),
            crate::builder::strings_view(out@) == base + acc,
            acc + spec_local_targets_seq3(vs.skip(i as int)) == spec_local_targets_seq3(vs),
        decreases v@.len() - i,
    {
        proof {
            assert(vs.skip(i as int)[0] == vs[i as int]);
            assert(vs.skip(i as int).drop_first() =~= vs.skip(i as int + 1));
        }
        targets_items(&v[i], out);
        proof {
            assert((base + acc) + spec_local_targets_seq2(vs[i as int]) =~= base + (acc
                + spec_local_targets_seq2(vs[i as int])));
            assert((acc + spec_local_targets_seq2(vs[i as int])) + spec_local_targets_seq3(
                vs.skip(i as int + 1),
            ) =~= acc + (spec_local_targets_seq2(vs[i as int]) + spec_local_targets_seq3(
                vs.skip(i as int + 1),
            )));
            acc = acc + spec_local_targets_seq2(vs[i as int]);
        }
        i = i + 1;
    }
    proof {
        assert(vs.skip(vs.len() as int) =~= Seq::<Seq<Seq<ObjView>>>::empty());
        assert(acc + Seq::<Seq<char>>::empty() =~= acc);
    }
}


/// Distinct maths counts mint distinct placeholder ids; with the counter
/// bumped at every maths node, ids are unique and strictly increasing across
/// inline and display maths combined within one document.
pub proof fn lemma_maths_ids_injective(a: nat, b: nat)
    requires
        spec_maths_id(a) == spec_maths_id(b),
    ensures
        a == b,
{
    reveal_strlit("maths");
    assert("maths"@.len() == 5);
    assert(spec_maths_id(a).len() == spec_maths_id(b).len());
    assert(spec_maths_id(a).len() == 5 + spec_dec(a).len());
    assert(spec_maths_id(b).len() == 5 + spec_dec(b).len());
    assert(spec_dec(a).len() == spec_dec(b).len());
    assert forall|i: int| 0 <= i < spec_dec(a).len() implies spec_dec(a)[i] == spec_dec(b)[i] by {
        assert("maths"@.len() == 5);
        assert(spec_maths_id(a)[5 + i] == spec_dec(a)[i]);
        assert(spec_maths_id(b)[5 + i] == spec_dec(b)[i]);
    }
    assert(spec_dec(a) =~= spec_dec(b));
    crate::utils::lemma_dec_injective(a, b);
}
impl Root {
    /// Writes the whole document: its top-level blocks in order.
    pub fn write_html(&self, builder: &mut Builder)
        requires
            old(builder)@.wf(),
            old(builder)@.tags.len() >= 1,
            renderable(self@),
            images_available(self@, old(builder)@.images),
            old(builder)@.lv1_titles + vsize(self@) <= usize::MAX,
            old(builder)@.lv2_titles + vsize(self@) <= usize::MAX,
            old(builder)@.maths_blocks + vsize(self@) <= usize::MAX,
        ensures
            final(builder)@ == spec_render_obj(self@, old(builder)@),
            final(builder)@.wf(),
            final(builder)@.tags.len() == old(builder)@.tags.len(),
            final(builder)@.images == old(builder)@.images,
            final(builder)@.lv1_titles <= old(builder)@.lv1_titles + vsize(self@),
            final(builder)@.lv2_titles <= old(builder)@.lv2_titles + vsize(self@),
            final(builder)@.maths_blocks <= old(builder)@.maths_blocks + vsize(self@),
            stack_neutral(self@) ==> final(builder)@.tags == old(builder)@.tags,
            container_safe(self@) && old(builder)@.tags.last() == "div"@ ==> final(builder)@.tags
                == old(builder)@.tags,
        decreases *self,
    {
        builder.write_knots_objects(&self.contents);
    }
}

impl Builder {
    /// Writes one Knots object.
    pub fn write_knots_object(&mut self, object: &KnotsObject)
        requires
            old(self)@.wf(),
            old(self)@.tags.len() >= 1,
            renderable(object@),
            images_available(object@, old(self)@.images),
            old(self)@.lv1_titles + vsize(object@) <= usize::MAX,
            old(self)@.lv2_titles + vsize(object@) <= usize::MAX,
            old(self)@.maths_blocks + vsize(object@) <= usize::MAX,
        ensures
            final(self)@ == spec_render_obj(object@, old(self)@),
            final(self)@.wf(),
            final(self)@.tags.len() == old(self)@.tags.len(),
            final(self)@.images == old(self)@.images,
            final(self)@.lv1_titles <= old(self)@.lv1_titles + vsize(object@),
            final(self)@.lv2_titles <= old(self)@.lv2_titles + vsize(object@),
            final(self)@.maths_blocks <= old(self)@.maths_blocks + vsize(object@),
            stack_neutral(object@) ==> final(self)@.tags == old(self)@.tags,
            container_safe(object@) && old(self)@.tags.last() == "div"@ ==> final(self)@.tags
                == old(self)@.tags,
        decreases object,
    {
        match object {
            KnotsObject::Root(n) => n.write_html(self),
            KnotsObject::Title(n) => n.write_html(self),
            KnotsObject::Paragraph(n) => n.write_html(self),
            KnotsObject::BlockQuote(n) => n.write_html(self),
            KnotsObject::InfoBox(n) => n.write_html(self),
            KnotsObject::WarningBox(n) => n.write_html(self),
            KnotsObject::ErrorBox(n) => n.write_html(self),
            KnotsObject::List(n) => n.write_html(self),
            KnotsObject::Table(n) => n.write_html(self),
            KnotsObject::BasicText(n) => n.write_html(self),
            KnotsObject::Italic(n) => n.write_html(self),
            KnotsObject::Bold(n) => n.write_html(self),
            KnotsObject::Link(n) => n.write_html(self),
            KnotsObject::Image(n) => n.write_html(self),
            KnotsObject::HorizontalRule(n) => n.write_html(self),
            KnotsObject::InlineCode(n) => n.write_html(self),
            KnotsObject::InlineMaths(n) => n.write_html(self),
            KnotsObject::CodeBlock(n) => n.write_html(self),
            KnotsObject::MathsBlock(n) => n.write_html(self),
            KnotsObject::Mermaid(n) => n.write_html(self),
        }
    }

    /// Writes multiple Knots objects, first to last.
    pub fn write_knots_objects(&mut self, objects: &Vec<KnotsObject>)
        requires
            old(self)@.wf(),
            old(self)@.tags.len() >= 1,
            all_renderable(views_of(objects@)),
            all_images_available(views_of(objects@), old(self)@.images),
            old(self)@.lv1_titles + vsizes(views_of(objects@)) <= usize::MAX,
            old(self)@.lv2_titles + vsizes(views_of(objects@)) <= usize::MAX,
            old(self)@.maths_blocks + vsizes(views_of(objects@)) <= usize::MAX,
        ensures
            final(self)@ == spec_render_objs(views_of(objects@), old(self)@),
            final(self)@.wf(),
            final(self)@.tags.len() == old(self)@.tags.len(),
            final(self)@.images == old(self)@.images,
            final(self)@.lv1_titles <= old(self)@.lv1_titles + vsizes(views_of(objects@)),
            final(self)@.lv2_titles <= old(self)@.lv2_titles + vsizes(views_of(objects@)),
            final(self)@.maths_blocks <= old(self)@.maths_blocks + vsizes(views_of(objects@)),
            all_stack_neutral(views_of(objects@)) ==> final(self)@.tags == old(self)@.tags,
            all_container_safe(views_of(objects@)) && old(self)@.tags.last() == "div"@
                ==> final(self)@.tags == old(self)@.tags,
        decreases objects,
    {
        let ghost vs = views_of(objects@);
        let ghost orig = old(self)@;
        proof {
            lemma_views_of(objects@);
            assert(vs.skip(0) =~= vs);
        }
        let mut i: usize = 0;
        while i < objects.len()
            invariant
                i <= objects@.len(),
                vs == views_of(objects@),
                vs.len() == objects@.len(),
                forall|j: int| 0 <= j < objects@.len() ==> vs[j] == obj_view(objects@[j]),
                self@.wf(),
                self@.tags.len() == orig.tags.len(),
                self@.images == orig.images,
                orig.tags.len() >= 1,
                spec_render_objs(vs.skip(i as int), self@) == spec_render_objs(vs, orig),
                all_renderable(vs.skip(i as int)),
                all_images_available(vs.skip(i as int), orig.images),
                self@.lv1_titles + vsizes(vs.skip(i as int)) <= orig.lv1_titles + vsizes(vs),
                self@.lv2_titles + vsizes(vs.skip(i as int)) <= orig.lv2_titles + vsizes(vs),
                self@.maths_blocks + vsizes(vs.skip(i as int)) <= orig.maths_blocks + vsizes(vs),
                orig.lv1_titles + vsizes(vs) <= usize::MAX,
                orig.lv2_titles + vsizes(vs) <= usize::MAX,
                orig.maths_blocks + vsizes(vs) <= usize::MAX,
                all_stack_neutral(vs) ==> (self@.tags == orig.tags && all_stack_neutral(
                    vs.skip(i as int),
                )),
                all_container_safe(vs) && orig.tags.last() == "div"@ ==> (self@.tags == orig.tags
                    && all_container_safe(vs.skip(i as int))),
            decreases objects@.len() - i,
        {
            proof {
                assert(vs.skip(i as int)[0] == vs[i as int]);
                assert(vs.skip(i as int).drop_first() =~= vs.skip(i as int + 1));
            }
            self.write_knots_object(&objects[i]);
            i = i + 1;
        }
        proof {
            assert(vs.skip(vs.len() as int) =~= Seq::<ObjView>::empty());
        }
    }
}

impl Title {
    /// Registers the heading, closes the ambient container, writes the
    /// heading element with its anchor link, and opens the next container.
    #[verifier::rlimit(60)]
    pub fn write_html(&self, builder: &mut Builder)
        requires
            old(builder)@.wf(),
            old(builder)@.tags.len() >= 1,
            1 <= self.level <= 3,
            old(builder)@.lv1_titles < usize::MAX,
            old(builder)@.lv2_titles < usize::MAX,
        ensures
            final(builder)@ == spec_render_obj(self@, old(builder)@),
            final(builder)@.wf(),
            final(builder)@.tags.len() == old(builder)@.tags.len(),
            final(builder)@.images == old(builder)@.images,
            final(builder)@.lv1_titles <= old(builder)@.lv1_titles + 1,
            final(builder)@.lv2_titles <= old(builder)@.lv2_titles + 1,
            final(builder)@.maths_blocks == old(builder)@.maths_blocks,
            old(builder)@.tags.last() == "div"@ ==> final(builder)@.tags == old(builder)@.tags,
    {
        let title = builder.add_title(self.level, self.contents.as_str());
        let title_container: &str;
        let next_container: &str;
        if self.level == 1 {
            title_container = "container-lvl1";
            next_container = "container-lvl2";
        } else if self.level == 2 {
            title_container = "container-lvl2";
            next_container = "container";
        } else {
            title_container = "container";
            next_container = "container";
        }
        let d = usize_to_string(self.level as usize);
        let mut tag = String::new();
        push_char(&mut tag, 'h');
        tag.append(d.as_str());
        let mut level_class = "lvl".to_owned();
        level_class.append(d.as_str());
        builder.end_tag();
        let a_container: &[(&str, &str)] = &[("class", title_container)];
        builder.start_tag("div", a_container);
        let a_heading: &[(&str, &str)] = &[
            ("class", level_class.as_str()),
            ("id", title.anchor.as_str()),
        ];
        builder.start_tag(tag.as_str(), a_heading);
        let mut href = String::new();
        push_char(&mut href, '#');
        href.append(title.anchor.as_str());
        let a_anchor: &[(&str, &str)] = &[("href", href.as_str())];
        builder.start_tag("a", a_anchor);
        builder.write_content(title.name.as_str());
        let icon = builder.link_icon.clone();
        builder.write_content(icon.as_str());
        builder.end_tag();
        builder.end_tag();
        builder.end_tag();
        let a_next: &[(&str, &str)] = &[("class", next_container)];
        builder.start_tag("div", a_next);
        builder.current_container = next_container.to_owned();
        proof {
            assert(attrs_view(a_container@) =~= seq![("class"@, title_container@)]);
            assert(attrs_view(a_heading@) =~= seq![
                ("class"@, level_class@),
                ("id"@, title@.anchor),
            ]);
            assert(attrs_view(a_anchor@) =~= seq![("href"@, href@)]);
            assert(attrs_view(a_next@) =~= seq![("class"@, next_container@)]);
        }
        proof {
            assert(tag@ =~= seq!['h'] + spec_dec(self.level as nat));
            assert(level_class@ =~= "lvl"@ + spec_dec(self.level as nat));
            assert(href@ =~= seq!['#'] + title@.anchor);
            assert(builder@ =~= spec_render_title(self.contents@, self.level, old(builder)@));
            if old(builder)@.tags.last() == "div"@ {
                assert(builder@.tags =~= old(builder)@.tags);
            }
        }
    }
}

impl Paragraph {
    /// Writes the paragraph's inline content inside a paragraph wrapper.
    pub fn write_html(&self, builder: &mut Builder)
        requires
            old(builder)@.wf(),
            old(builder)@.tags.len() >= 1,
            all_renderable(views_of(self.contents@)),
            all_images_available(views_of(self.contents@), old(builder)@.images),
            old(builder)@.lv1_titles + vsizes(views_of(self.contents@)) <= usize::MAX,
            old(builder)@.lv2_titles + vsizes(views_of(self.contents@)) <= usize::MAX,
            old(builder)@.maths_blocks + vsizes(views_of(self.contents@)) <= usize::MAX,
        ensures
            final(builder)@ == spec_render_obj(self@, old(builder)@),
            final(builder)@.wf(),
            final(builder)@.tags.len() == old(builder)@.tags.len(),
            final(builder)@.images == old(builder)@.images,
            final(builder)@.lv1_titles <= old(builder)@.lv1_titles + vsizes(
                views_of(self.contents@),
            ),
            final(builder)@.lv2_titles <= old(builder)@.lv2_titles + vsizes(
                views_of(self.contents@),
            ),
            final(builder)@.maths_blocks <= old(builder)@.maths_blocks + vsizes(
                views_of(self.contents@),
            ),
            all_stack_neutral(views_of(self.contents@)) ==> final(builder)@.tags
                == old(builder)@.tags,
        decreases *self,
    {
        let no_attrs: &[(&str, &str)] = &[];
        proof {
            assert(attrs_view(no_attrs@) =~= Seq::<(Seq<char>, Seq<char>)>::empty());
        }
        builder.start_tag("p", no_attrs);
        builder.write_knots_objects(&self.contents);
        builder.end_tag();
        proof {
            if all_stack_neutral(views_of(self.contents@)) {
                assert(builder@.tags =~= old(builder)@.tags);
            }
        }
    }
}

impl BlockQuote {
    /// Writes the quoted content inside a quotation wrapper.
    pub fn write_html(&self, builder: &mut Builder)
        requires
            old(builder)@.wf(),
            old(builder)@.tags.len() >= 1,
            all_renderable(views_of(self.contents@)),
            all_images_available(views_of(self.contents@), old(builder)@.images),
            old(builder)@.lv1_titles + vsizes(views_of(self.contents@)) <= usize::MAX,
            old(builder)@.lv2_titles + vsizes(views_of(self.contents@)) <= usize::MAX,
            old(builder)@.maths_blocks + vsizes(views_of(self.contents@)) <= usize::MAX,
        ensures
            final(builder)@ == spec_render_obj(self@, old(builder)@),
            final(builder)@.wf(),
            final(builder)@.tags.len() == old(builder)@.tags.len(),
            final(builder)@.images == old(builder)@.images,
            final(builder)@.lv1_titles <= old(builder)@.lv1_titles + vsizes(
                views_of(self.contents@),
            ),
            final(builder)@.lv2_titles <= old(builder)@.lv2_titles + vsizes(
                views_of(self.contents@),
            ),
            final(builder)@.maths_blocks <= old(builder)@.maths_blocks + vsizes(
                views_of(self.contents@),
            ),
            all_stack_neutral(views_of(self.contents@)) ==> final(builder)@.tags
                == old(builder)@.tags,
        decreases *self,
    {
        let no_attrs: &[(&str, &str)] = &[];
        proof {
            assert(attrs_view(no_attrs@) =~= Seq::<(Seq<char>, Seq<char>)>::empty());
        }
        builder.start_tag("blockquote", no_attrs);
        builder.write_knots_objects(&self.contents);
        builder.end_tag();
        proof {
            if all_stack_neutral(views_of(self.contents@)) {
                assert(builder@.tags =~= old(builder)@.tags);
            }
        }
    }
}

impl Italic {
    /// Writes the content inside an italics wrapper.
    pub fn write_html(&self, builder: &mut Builder)
        requires
            old(builder)@.wf(),
            old(builder)@.tags.len() >= 1,
            all_renderable(views_of(self.contents@)),
            all_images_available(views_of(self.contents@), old(builder)@.images),
            old(builder)@.lv1_titles + vsizes(views_of(self.contents@)) <= usize::MAX,
            old(builder)@.lv2_titles + vsizes(views_of(self.contents@)) <= usize::MAX,
            old(builder)@.maths_blocks + vsizes(views_of(self.contents@)) <= usize::MAX,
        ensures
            final(builder)@ == spec_render_obj(self@, old(builder)@),
            final(builder)@.wf(),
            final(builder)@.tags.len() == old(builder)@.tags.len(),
            final(builder)@.images == old(builder)@.images,
            final(builder)@.lv1_titles <= old(builder)@.lv1_titles + vsizes(
                views_of(self.contents@),
            ),
            final(builder)@.lv2_titles <= old(builder)@.lv2_titles + vsizes(
                views_of(self.contents@),
            ),
            final(builder)@.maths_blocks <= old(builder)@.maths_blocks + vsizes(
                views_of(self.contents@),
            ),
            all_stack_neutral(views_of(self.contents@)) ==> final(builder)@.tags
                == old(builder)@.tags,
        decreases *self,
    {
        let no_attrs: &[(&str, &str)] = &[];
        proof {
            assert(attrs_view(no_attrs@) =~= Seq::<(Seq<char>, Seq<char>)>::empty());
        }
        builder.start_tag("i", no_attrs);
        builder.write_knots_objects(&self.contents);
        builder.end_tag();
        proof {
            if all_stack_neutral(views_of(self.contents@)) {
                assert(builder@.tags =~= old(builder)@.tags);
            }
        }
    }
}

impl Bold {
    /// Writes the content inside a bold wrapper.
    pub fn write_html(&self, builder: &mut Builder)
        requires
            old(builder)@.wf(),
            old(builder)@.tags.len() >= 1,
            all_renderable(views_of(self.contents@)),
            all_images_available(views_of(self.contents@), old(builder)@.images),
            old(builder)@.lv1_titles + vsizes(views_of(self.contents@)) <= usize::MAX,
            old(builder)@.lv2_titles + vsizes(views_of(self.contents@)) <= usize::MAX,
            old(builder)@.maths_blocks + vsizes(views_of(self.contents@)) <= usize::MAX,
        ensures
            final(builder)@ == spec_render_obj(self@, old(builder)@),
            final(builder)@.wf(),
            final(builder)@.tags.len() == old(builder)@.tags.len(),
            final(builder)@.images == old(builder)@.images,
            final(builder)@.lv1_titles <= old(builder)@.lv1_titles + vsizes(
                views_of(self.contents@),
            ),
            final(builder)@.lv2_titles <= old(builder)@.lv2_titles + vsizes(
                views_of(self.contents@),
            ),
            final(builder)@.maths_blocks <= old(builder)@.maths_blocks + vsizes(
                views_of(self.contents@),
            ),
            all_stack_neutral(views_of(self.contents@)) ==> final(builder)@.tags
                == old(builder)@.tags,
        decreases *self,
    {
        let no_attrs: &[(&str, &str)] = &[];
        proof {
            assert(attrs_view(no_attrs@) =~= Seq::<(Seq<char>, Seq<char>)>::empty());
        }
        builder.start_tag("b", no_attrs);
        builder.write_knots_objects(&self.contents);
        builder.end_tag();
        proof {
            if all_stack_neutral(views_of(self.contents@)) {
                assert(builder@.tags =~= old(builder)@.tags);
            }
        }
    }
}

impl InfoBox {
    /// Writes the box: its decoration, then the content in a paragraph.
    pub fn write_html(&self, builder: &mut Builder)
        requires
            old(builder)@.wf(),
            old(builder)@.tags.len() >= 1,
            all_renderable(views_of(self.contents@)),
            all_images_available(views_of(self.contents@), old(builder)@.images),
            old(builder)@.lv1_titles + vsizes(views_of(self.contents@)) <= usize::MAX,
            old(builder)@.lv2_titles + vsizes(views_of(self.contents@)) <= usize::MAX,
            old(builder)@.maths_blocks + vsizes(views_of(self.contents@)) <= usize::MAX,
        ensures
            final(builder)@ == spec_render_obj(self@, old(builder)@),
            final(builder)@.wf(),
            final(builder)@.tags.len() == old(builder)@.tags.len(),
            final(builder)@.images == old(builder)@.images,
            final(builder)@.lv1_titles <= old(builder)@.lv1_titles + vsizes(
                views_of(self.contents@),
            ),
            final(builder)@.lv2_titles <= old(builder)@.lv2_titles + vsizes(
                views_of(self.contents@),
            ),
            final(builder)@.maths_blocks <= old(builder)@.maths_blocks + vsizes(
                views_of(self.contents@),
            ),
            all_stack_neutral(views_of(self.contents@)) ==> final(builder)@.tags
                == old(builder)@.tags,
        decreases *self,
    {
        let box_attrs: &[(&str, &str)] = &[("class", "infobox")];
        let no_attrs: &[(&str, &str)] = &[];
        proof {
            assert(attrs_view(box_attrs@) =~= seq![("class"@, "infobox"@)]);
            assert(attrs_view(no_attrs@) =~= Seq::<(Seq<char>, Seq<char>)>::empty());
        }
        builder.start_tag("div", box_attrs);
        let icon = builder.info_icon.clone();
        builder.write_content(icon.as_str());
        builder.start_tag("p", no_attrs);
        builder.write_knots_objects(&self.contents);
        builder.end_tag();
        builder.end_tag();
        proof {
            if all_stack_neutral(views_of(self.contents@)) {
                assert(builder@.tags =~= old(builder)@.tags);
            }
        }
    }
}

impl WarningBox {
    /// Writes the box: its decoration, then the content in a paragraph.
    pub fn write_html(&self, builder: &mut Builder)
        requires
            old(builder)@.wf(),
            old(builder)@.tags.len() >= 1,
            all_renderable(views_of(self.contents@)),
            all_images_available(views_of(self.contents@), old(builder)@.images),
            old(builder)@.lv1_titles + vsizes(views_of(self.contents@)) <= usize::MAX,
            old(builder)@.lv2_titles + vsizes(views_of(self.contents@)) <= usize::MAX,
            old(builder)@.maths_blocks + vsizes(views_of(self.contents@)) <= usize::MAX,
        ensures
            final(builder)@ == spec_render_obj(self@, old(builder)@),
            final(builder)@.wf(),
            final(builder)@.tags.len() == old(builder)@.tags.len(),
            final(builder)@.images == old(builder)@.images,
            final(builder)@.lv1_titles <= old(builder)@.lv1_titles + vsizes(
                views_of(self.contents@),
            ),
            final(builder)@.lv2_titles <= old(builder)@.lv2_titles + vsizes(
                views_of(self.contents@),
            ),
            final(builder)@.maths_blocks <= old(builder)@.maths_blocks + vsizes(
                views_of(self.contents@),
            ),
            all_stack_neutral(views_of(self.contents@)) ==> final(builder)@.tags
                == old(builder)@.tags,
        decreases *self,
    {
        let box_attrs: &[(&str, &str)] = &[("class", "warningbox")];
        let no_attrs: &[(&str, &str)] = &[];
        proof {
            assert(attrs_view(box_attrs@) =~= seq![("class"@, "warningbox"@)]);
            assert(attrs_view(no_attrs@) =~= Seq::<(Seq<char>, Seq<char>)>::empty());
        }
        builder.start_tag("div", box_attrs);
        let icon = builder.warning_icon.clone();
        builder.write_content(icon.as_str());
        builder.start_tag("p", no_attrs);
        builder.write_knots_objects(&self.contents);
        builder.end_tag();
        builder.end_tag();
        proof {
            if all_stack_neutral(views_of(self.contents@)) {
                assert(builder@.tags =~= old(builder)@.tags);
            }
        }
    }
}

impl ErrorBox {
    /// Writes the box: its decoration, then the content in a paragraph.
    pub fn write_html(&self, builder: &mut Builder)
        requires
            old(builder)@.wf(),
            old(builder)@.tags.len() >= 1,
            all_renderable(views_of(self.contents@)),
            all_images_available(views_of(self.contents@), old(builder)@.images),
            old(builder)@.lv1_titles + vsizes(views_of(self.contents@)) <= usize::MAX,
            old(builder)@.lv2_titles + vsizes(views_of(self.contents@)) <= usize::MAX,
            old(builder)@.maths_blocks + vsizes(views_of(self.contents@)) <= usize::MAX,
        ensures
            final(builder)@ == spec_render_obj(self@, old(builder)@),
            final(builder)@.wf(),
            final(builder)@.tags.len() == old(builder)@.tags.len(),
            final(builder)@.images == old(builder)@.images,
            final(builder)@.lv1_titles <= old(builder)@.lv1_titles + vsizes(
                views_of(self.contents@),
            ),
            final(builder)@.lv2_titles <= old(builder)@.lv2_titles + vsizes(
                views_of(self.contents@),
            ),
            final(builder)@.maths_blocks <= old(builder)@.maths_blocks + vsizes(
                views_of(self.contents@),
            ),
            all_stack_neutral(views_of(self.contents@)) ==> final(builder)@.tags
                == old(builder)@.tags,
        decreases *self,
    {
        let box_attrs: &[(&str, &str)] = &[("class", "errorbox")];
        let no_attrs: &[(&str, &str)] = &[];
        proof {
            assert(attrs_view(box_attrs@) =~= seq![("class"@, "errorbox"@)]);
            assert(attrs_view(no_attrs@) =~= Seq::<(Seq<char>, Seq<char>)>::empty());
        }
        builder.start_tag("div", box_attrs);
        let icon = builder.error_icon.clone();
        builder.write_content(icon.as_str());
        builder.start_tag("p", no_attrs);
        builder.write_knots_objects(&self.contents);
        builder.end_tag();
        builder.end_tag();
        proof {
            if all_stack_neutral(views_of(self.contents@)) {
                assert(builder@.tags =~= old(builder)@.tags);
            }
        }
    }
}

impl BasicText {
    /// Writes the raw text at the current indentation.
    pub fn write_html(&self, builder: &mut Builder)
        ensures
            final(builder)@ == spec_render_obj(self@, old(builder)@),
            final(builder)@.tags == old(builder)@.tags,
            final(builder)@.indentation == old(builder)@.indentation,
            final(builder)@.images == old(builder)@.images,
            final(builder)@.lv1_titles == old(builder)@.lv1_titles,
            final(builder)@.lv2_titles == old(builder)@.lv2_titles,
            final(builder)@.maths_blocks == old(builder)@.maths_blocks,
    {
        builder.write_content(self.contents.as_str());
    }
}

impl Link {
    /// Writes the link element on one line.
    pub fn write_html(&self, builder: &mut Builder)
        ensures
            final(builder)@ == spec_render_obj(self@, old(builder)@),
            final(builder)@.tags == old(builder)@.tags,
            final(builder)@.indentation == old(builder)@.indentation,
            final(builder)@.images == old(builder)@.images,
            final(builder)@.lv1_titles == old(builder)@.lv1_titles,
            final(builder)@.lv2_titles == old(builder)@.lv2_titles,
            final(builder)@.maths_blocks == old(builder)@.maths_blocks,
    {
        let a_link: &[(&str, &str)] = &[("href", self.link.as_str()), ("class", "link")];
        builder.inline_tag("a", a_link, self.name.as_str());
        proof {
            assert(attrs_view(a_link@) =~= seq![("href"@, self.link@), ("class"@, "link"@)]);
            assert(builder@ =~= spec_render_obj(self@, old(builder)@));
        }
    }
}

impl HorizontalRule {
    /// Writes the rule as an orphan element.
    pub fn write_html(&self, builder: &mut Builder)
        ensures
            final(builder)@ == spec_render_obj(self@, old(builder)@),
            final(builder)@.tags == old(builder)@.tags,
            final(builder)@.indentation == old(builder)@.indentation,
            final(builder)@.images == old(builder)@.images,
            final(builder)@.lv1_titles == old(builder)@.lv1_titles,
            final(builder)@.lv2_titles == old(builder)@.lv2_titles,
            final(builder)@.maths_blocks == old(builder)@.maths_blocks,
    {
        let no_attrs: &[(&str, &str)] = &[];
        builder.orphan_tag("hr", no_attrs);
        proof {
            assert(attrs_view(no_attrs@) =~= Seq::<(Seq<char>, Seq<char>)>::empty());
        }
    }
}

impl InlineCode {
    /// Writes the escaped code text inside an inline code element.
    pub fn write_html(&self, builder: &mut Builder)
        ensures
            final(builder)@ == spec_render_obj(self@, old(builder)@),
            final(builder)@.tags == old(builder)@.tags,
            final(builder)@.indentation == old(builder)@.indentation,
            final(builder)@.images == old(builder)@.images,
            final(builder)@.lv1_titles == old(builder)@.lv1_titles,
            final(builder)@.lv2_titles == old(builder)@.lv2_titles,
            final(builder)@.maths_blocks == old(builder)@.maths_blocks,
    {
        let escaped = escape_html(self.contents.as_str());
        let a_code: &[(&str, &str)] = &[("class", "inline-code")];
        builder.inline_tag("code", a_code, escaped.as_str());
        proof {
            assert(attrs_view(a_code@) =~= seq![("class"@, "inline-code"@)]);
        }
    }
}

impl InlineMaths {
    /// Mints the next placeholder id, emits an empty span carrying it and
    /// defers the rendering of the raw expression into that element.
    pub fn write_html(&self, builder: &mut Builder)
        requires
            old(builder)@.maths_blocks < usize::MAX,
        ensures
            final(builder)@ == spec_render_obj(self@, old(builder)@),
            final(builder)@.tags == old(builder)@.tags,
            final(builder)@.indentation == old(builder)@.indentation,
            final(builder)@.images == old(builder)@.images,
            final(builder)@.lv1_titles == old(builder)@.lv1_titles,
            final(builder)@.lv2_titles == old(builder)@.lv2_titles,
            final(builder)@.maths_blocks == old(builder)@.maths_blocks + 1,
    {
        builder.should_include_katex = true;
        builder.maths_blocks = builder.maths_blocks + 1;
        let d = usize_to_string(builder.maths_blocks);
        let mut el_id = "maths".to_owned();
        el_id.append(d.as_str());
        let a_span: &[(&str, &str)] = &[("id", el_id.as_str())];
        builder.inline_tag("span", a_span, "");
        builder.write_katex_content(self.contents.as_str(), el_id.as_str());
        proof {
            assert(attrs_view(a_span@) =~= seq![("id"@, el_id@)]);
        }
        proof {
            reveal_strlit("");
            assert(""@ =~= Seq::<char>::empty());
            assert(builder@ =~= spec_render_inline_maths(self.contents@, old(builder)@));
        }
    }
}

impl MathsBlock {
    /// Mints the next placeholder id, emits an empty block carrying it and
    /// defers the rendering of the raw expression into that element.
    pub fn write_html(&self, builder: &mut Builder)
        requires
            old(builder)@.wf(),
            old(builder)@.maths_blocks < usize::MAX,
        ensures
            final(builder)@ == spec_render_obj(self@, old(builder)@),
            final(builder)@.tags == old(builder)@.tags,
            final(builder)@.indentation == old(builder)@.indentation,
            final(builder)@.wf(),
            final(builder)@.images == old(builder)@.images,
            final(builder)@.lv1_titles == old(builder)@.lv1_titles,
            final(builder)@.lv2_titles == old(builder)@.lv2_titles,
            final(builder)@.maths_blocks == old(builder)@.maths_blocks + 1,
    {
        builder.should_include_katex = true;
        builder.maths_blocks = builder.maths_blocks + 1;
        let d = usize_to_string(builder.maths_blocks);
        let mut el_id = "maths".to_owned();
        el_id.append(d.as_str());
        let a_block: &[(&str, &str)] = &[("id", el_id.as_str()), ("class", "mathsblock")];
        builder.start_tag("div", a_block);
        builder.end_tag();
        builder.write_katex_content(self.contents.as_str(), el_id.as_str());
        proof {
            assert(attrs_view(a_block@) =~= seq![("id"@, el_id@), ("class"@, "mathsblock"@)]);
        }
        proof {
            assert(old(builder)@.tags.push("div"@).drop_last() =~= old(builder)@.tags);
            assert(builder@ =~= spec_render_maths_block(self.contents@, old(builder)@));
        }
    }
}

impl Image {
    /// Wide-content protocol around the image element: a web target is linked
    /// directly, a local target is embedded from the stored bytes.
    pub fn write_html(&self, builder: &mut Builder)
        requires
            old(builder)@.wf(),
            old(builder)@.tags.len() >= 1,
            images_available(self@, old(builder)@.images),
        ensures
            final(builder)@ == spec_render_obj(self@, old(builder)@),
            final(builder)@.wf(),
            final(builder)@.tags.len() == old(builder)@.tags.len(),
            final(builder)@.images == old(builder)@.images,
            final(builder)@.lv1_titles == old(builder)@.lv1_titles,
            final(builder)@.lv2_titles == old(builder)@.lv2_titles,
            final(builder)@.maths_blocks == old(builder)@.maths_blocks,
            old(builder)@.tags.last() == "div"@ ==> final(builder)@.tags == old(builder)@.tags,
    {
        builder.end_tag();
        let a_wide: &[(&str, &str)] = &[("class", "container-lg")];
        proof {
            assert(attrs_view(a_wide@) =~= seq![("class"@, "container-lg"@)]);
        }
        builder.start_tag("div", a_wide);
        let is_web = str_starts_with(self.link.as_str(), "http://") || str_starts_with(
            self.link.as_str(),
            "https://",
        );
        if is_web {
            let a_img: &[(&str, &str)] = &[("alt", self.alt.as_str()), ("src", self.link.as_str())];
            builder.orphan_tag("img", a_img);
            proof {
                assert(attrs_view(a_img@) =~= seq![("alt"@, self.alt@), ("src"@, self.link@)]);
            }
        } else {
            let b64 = match builder.find_image(self.link.as_str()) {
                Option::Some(data) => base64_encode(data),
                Option::None => vstd::pervasive::unreached(),
            };
            let mut src = "data:application/octet-stream;base64,".to_owned();
            src.append(b64.as_str());
            let a_img: &[(&str, &str)] = &[("alt", self.alt.as_str()), ("src", src.as_str())];
            builder.orphan_tag("img", a_img);
            proof {
                assert(attrs_view(a_img@) =~= seq![("alt"@, self.alt@), ("src"@, src@)]);
            }
        }
        builder.end_tag();
        let current = builder.current_container.clone();
        let a_back: &[(&str, &str)] = &[("class", current.as_str())];
        builder.start_tag("div", a_back);
        proof {
            assert(attrs_view(a_back@) =~= seq![("class"@, current@)]);
        }
        proof {
            assert(builder@ =~= spec_render_image(self.alt@, self.link@, old(builder)@));
            if old(builder)@.tags.last() == "div"@ {
                assert(builder@.tags =~= old(builder)@.tags);
            }
        }
    }
}

impl CodeBlock {
    /// Notes the language, raises the highlighting flag, and writes the
    /// escaped code under the wide-content protocol.
    #[verifier::rlimit(60)]
    pub fn write_html(&self, builder: &mut Builder)
        requires
            old(builder)@.wf(),
            old(builder)@.tags.len() >= 1,
        ensures
            final(builder)@ == spec_render_obj(self@, old(builder)@),
            final(builder)@.wf(),
            final(builder)@.tags.len() == old(builder)@.tags.len(),
            final(builder)@.images == old(builder)@.images,
            final(builder)@.lv1_titles == old(builder)@.lv1_titles,
            final(builder)@.lv2_titles == old(builder)@.lv2_titles,
            final(builder)@.maths_blocks == old(builder)@.maths_blocks,
            old(builder)@.tags.last() == "div"@ ==> final(builder)@.tags == old(builder)@.tags,
    {
        builder.should_include_prism = true;
        match &self.lang {
            Option::Some(l) => builder.note_language(l.as_str()),
            Option::None => {},
        }
        builder.end_tag();
        let a_wide: &[(&str, &str)] = &[("class", "container-lg")];
        let a_pre: &[(&str, &str)] = &[("class", "codeblock")];
        proof {
            assert(attrs_view(a_wide@) =~= seq![("class"@, "container-lg"@)]);
            assert(attrs_view(a_pre@) =~= seq![("class"@, "codeblock"@)]);
        }
        builder.start_tag("div", a_wide);
        builder.start_tag("pre", a_pre);
        match &self.lang {
            Option::Some(l) => {
                let mut lang_class = "language-".to_owned();
                lang_class.append(l.as_str());
                let a_lang: &[(&str, &str)] = &[("class", lang_class.as_str())];
                builder.start_tag("code", a_lang);
                proof {
                    assert(attrs_view(a_lang@) =~= seq![("class"@, lang_class@)]);
                }
            },
            Option::None => {
                let no_attrs: &[(&str, &str)] = &[];
                builder.start_tag("code", no_attrs);
                proof {
                    assert(attrs_view(no_attrs@) =~= Seq::<(Seq<char>, Seq<char>)>::empty());
                }
            },
        }
        let escaped = escape_html(self.contents.as_str());
        builder.write_content(escaped.as_str());
        builder.end_tag();
        builder.end_tag();
        builder.end_tag();
        let current = builder.current_container.clone();
        let a_back: &[(&str, &str)] = &[("class", current.as_str())];
        builder.start_tag("div", a_back);
        proof {
            assert(attrs_view(a_back@) =~= seq![("class"@, current@)]);
        }
        proof {
            assert(builder@ =~= spec_render_code_block(self.contents@, self@->CodeBlock_lang, old(
                builder,
            )@));
            if old(builder)@.tags.last() == "div"@ {
                assert(builder@.tags =~= old(builder)@.tags);
            }
        }
    }
}

impl Mermaid {
    /// Raises the diagram flag and writes the raw diagram text under the
    /// wide-content protocol.
    pub fn write_html(&self, builder: &mut Builder)
        requires
            old(builder)@.wf(),
            old(builder)@.tags.len() >= 1,
        ensures
            final(builder)@ == spec_render_obj(self@, old(builder)@),
            final(builder)@.wf(),
            final(builder)@.tags.len() == old(builder)@.tags.len(),
            final(builder)@.images == old(builder)@.images,
            final(builder)@.lv1_titles == old(builder)@.lv1_titles,
            final(builder)@.lv2_titles == old(builder)@.lv2_titles,
            final(builder)@.maths_blocks == old(builder)@.maths_blocks,
            old(builder)@.tags.last() == "div"@ ==> final(builder)@.tags == old(builder)@.tags,
    {
        builder.should_include_mermaid = true;
        builder.end_tag();
        let a_wide: &[(&str, &str)] = &[("class", "container-lg")];
        let a_diagram: &[(&str, &str)] = &[("class", "mermaid")];
        proof {
            assert(attrs_view(a_wide@) =~= seq![("class"@, "container-lg"@)]);
            assert(attrs_view(a_diagram@) =~= seq![("class"@, "mermaid"@)]);
        }
        builder.start_tag("div", a_wide);
        builder.start_tag("div", a_diagram);
        builder.write_content(self.contents.as_str());
        builder.end_tag();
        builder.end_tag();
        let current = builder.current_container.clone();
        let a_back: &[(&str, &str)] = &[("class", current.as_str())];
        builder.start_tag("div", a_back);
        proof {
            assert(attrs_view(a_back@) =~= seq![("class"@, current@)]);
        }
        proof {
            assert(builder@ =~= spec_render_mermaid(self.contents@, old(builder)@));
            if old(builder)@.tags.last() == "div"@ {
                assert(builder@.tags =~= old(builder)@.tags);
            }
        }
    }
}

impl List {
    /// Writes each item's nodes inside a list-item wrapper, all inside one
    /// list wrapper.
    pub fn write_html(&self, builder: &mut Builder)
        requires
            old(builder)@.wf(),
            old(builder)@.tags.len() >= 1,
            all_renderable2(items_views_of(self.contents@)),
            all_images_available2(items_views_of(self.contents@), old(builder)@.images),
            old(builder)@.lv1_titles + vsizes2(items_views_of(self.contents@)) <= usize::MAX,
            old(builder)@.lv2_titles + vsizes2(items_views_of(self.contents@)) <= usize::MAX,
            old(builder)@.maths_blocks + vsizes2(items_views_of(self.contents@)) <= usize::MAX,
        ensures
            final(builder)@ == spec_render_obj(self@, old(builder)@),
            final(builder)@.wf(),
            final(builder)@.tags.len() == old(builder)@.tags.len(),
            final(builder)@.images == old(builder)@.images,
            final(builder)@.lv1_titles <= old(builder)@.lv1_titles + vsizes2(
                items_views_of(self.contents@),
            ),
            final(builder)@.lv2_titles <= old(builder)@.lv2_titles + vsizes2(
                items_views_of(self.contents@),
            ),
            final(builder)@.maths_blocks <= old(builder)@.maths_blocks + vsizes2(
                items_views_of(self.contents@),
            ),
            all_stack_neutral2(items_views_of(self.contents@)) ==> final(builder)@.tags
                == old(builder)@.tags,
        decreases *self,
    {
        let no_attrs: &[(&str, &str)] = &[];
        proof {
            assert(attrs_view(no_attrs@) =~= Seq::<(Seq<char>, Seq<char>)>::empty());
        }
        builder.start_tag("ul", no_attrs);
        write_items(builder, &self.contents);
        builder.end_tag();
        proof {
            if all_stack_neutral2(items_views_of(self.contents@)) {
                assert(builder@.tags =~= old(builder)@.tags);
            }
        }
    }
}

impl Table {
    /// Writes the header row, then each data row, one cell per column.
    pub fn write_html(&self, builder: &mut Builder)
        requires
            old(builder)@.wf(),
            old(builder)@.tags.len() >= 1,
            all_renderable2(items_views_of(self.header@)),
            all_renderable3(rows_views_of(self.rows@)),
            all_images_available2(items_views_of(self.header@), old(builder)@.images),
            all_images_available3(rows_views_of(self.rows@), old(builder)@.images),
            old(builder)@.lv1_titles + vsizes2(items_views_of(self.header@)) + vsizes3(
                rows_views_of(self.rows@),
            ) <= usize::MAX,
            old(builder)@.lv2_titles + vsizes2(items_views_of(self.header@)) + vsizes3(
                rows_views_of(self.rows@),
            ) <= usize::MAX,
            old(builder)@.maths_blocks + vsizes2(items_views_of(self.header@)) + vsizes3(
                rows_views_of(self.rows@),
            ) <= usize::MAX,
        ensures
            final(builder)@ == spec_render_obj(self@, old(builder)@),
            final(builder)@.wf(),
            final(builder)@.tags.len() == old(builder)@.tags.len(),
            final(builder)@.images == old(builder)@.images,
            final(builder)@.lv1_titles <= old(builder)@.lv1_titles + vsizes2(
                items_views_of(self.header@),
            ) + vsizes3(rows_views_of(self.rows@)),
            final(builder)@.lv2_titles <= old(builder)@.lv2_titles + vsizes2(
                items_views_of(self.header@),
            ) + vsizes3(rows_views_of(self.rows@)),
            final(builder)@.maths_blocks <= old(builder)@.maths_blocks + vsizes2(
                items_views_of(self.header@),
            ) + vsizes3(rows_views_of(self.rows@)),
            all_stack_neutral2(items_views_of(self.header@)) && all_stack_neutral3(
                rows_views_of(self.rows@),
            ) ==> final(builder)@.tags == old(builder)@.tags,
        decreases *self,
    {
        let no_attrs: &[(&str, &str)] = &[];
        proof {
            assert(attrs_view(no_attrs@) =~= Seq::<(Seq<char>, Seq<char>)>::empty());
        }
        builder.start_tag("table", no_attrs);
        builder.start_tag("tr", no_attrs);
        write_cells(builder, &self.header, "th");
        builder.end_tag();
        write_rows(builder, &self.rows);
        builder.end_tag();
        proof {
            if all_stack_neutral2(items_views_of(self.header@)) && all_stack_neutral3(
                rows_views_of(self.rows@),
            ) {
                assert(builder@.tags =~= old(builder)@.tags);
            }
        }
    }
}

/// Writes the items of a list, each inside its own item wrapper.
fn write_items(builder: &mut Builder, items: &Vec<Vec<KnotsObject>>)
    requires
        old(builder)@.wf(),
        old(builder)@.tags.len() >= 1,
        all_renderable2(items_views_of(items@)),
        all_images_available2(items_views_of(items@), old(builder)@.images),
        old(builder)@.lv1_titles + vsizes2(items_views_of(items@)) <= usize::MAX,
        old(builder)@.lv2_titles + vsizes2(items_views_of(items@)) <= usize::MAX,
        old(builder)@.maths_blocks + vsizes2(items_views_of(items@)) <= usize::MAX,
    ensures
        final(builder)@ == spec_render_items(items_views_of(items@), old(builder)@),
        final(builder)@.wf(),
        final(builder)@.tags.len() == old(builder)@.tags.len(),
        final(builder)@.images == old(builder)@.images,
        final(builder)@.lv1_titles <= old(builder)@.lv1_titles + vsizes2(items_views_of(items@)),
        final(builder)@.lv2_titles <= old(builder)@.lv2_titles + vsizes2(items_views_of(items@)),
        final(builder)@.maths_blocks <= old(builder)@.maths_blocks + vsizes2(
            items_views_of(items@),
        ),
        all_stack_neutral2(items_views_of(items@)) ==> final(builder)@.tags == old(builder)@.tags,
    decreases items,
{
    let ghost vs = items_views_of(items@);
    let ghost orig = old(builder)@;
    proof {
        lemma_items_views_of(items@);
        assert(vs.skip(0) =~= vs);
    }
    let mut i: usize = 0;
    while i < items.len()
        invariant
            i <= items@.len(),
            vs == items_views_of(items@),
            vs.len() == items@.len(),
            forall|j: int| 0 <= j < items@.len() ==> vs[j] == views_of(items@[j]@),
            builder@.wf(),
            builder@.tags.len() == orig.tags.len(),
            builder@.images == orig.images,
            orig.tags.len() >= 1,
            spec_render_items(vs.skip(i as int), builder@) == spec_render_items(vs, orig),
            all_renderable2(vs.skip(i as int)),
            all_images_available2(vs.skip(i as int), orig.images),
            builder@.lv1_titles + vsizes2(vs.skip(i as int)) <= orig.lv1_titles + vsizes2(vs),
            builder@.lv2_titles + vsizes2(vs.skip(i as int)) <= orig.lv2_titles + vsizes2(vs),
            builder@.maths_blocks + vsizes2(vs.skip(i as int)) <= orig.maths_blocks + vsizes2(vs),
            orig.lv1_titles + vsizes2(vs) <= usize::MAX,
            orig.lv2_titles + vsizes2(vs) <= usize::MAX,
            orig.maths_blocks + vsizes2(vs) <= usize::MAX,
            all_stack_neutral2(vs) ==> (builder@.tags == orig.tags && all_stack_neutral2(
                vs.skip(i as int),
            )),
        decreases items@.len() - i,
    {
        proof {
            assert(vs.skip(i as int)[0] == vs[i as int]);
            assert(vs.skip(i as int).drop_first() =~= vs.skip(i as int + 1));
        }
        let ghost before = builder@;
        let no_attrs: &[(&str, &str)] = &[];
        proof {
            assert(attrs_view(no_attrs@) =~= Seq::<(Seq<char>, Seq<char>)>::empty());
        }
        builder.start_tag("li", no_attrs);
        builder.write_knots_objects(&items[i]);
        builder.end_tag();
        proof {
            if all_stack_neutral2(vs) {
                assert(builder@.tags =~= before.tags);
            }
        }
        i = i + 1;
    }
    proof {
        assert(vs.skip(vs.len() as int) =~= Seq::<Seq<ObjView>>::empty());
    }
}

/// Writes the cells of one table row, one wrapper per cell.
fn write_cells(builder: &mut Builder, cells: &Vec<Vec<KnotsObject>>, tag: &str)
    requires
        old(builder)@.wf(),
        old(builder)@.tags.len() >= 1,
        all_renderable2(items_views_of(cells@)),
        all_images_available2(items_views_of(cells@), old(builder)@.images),
        old(builder)@.lv1_titles + vsizes2(items_views_of(cells@)) <= usize::MAX,
        old(builder)@.lv2_titles + vsizes2(items_views_of(cells@)) <= usize::MAX,
        old(builder)@.maths_blocks + vsizes2(items_views_of(cells@)) <= usize::MAX,
    ensures
        final(builder)@ == spec_render_cells(items_views_of(cells@), tag@, old(builder)@),
        final(builder)@.wf(),
        final(builder)@.tags.len() == old(builder)@.tags.len(),
        final(builder)@.images == old(builder)@.images,
        final(builder)@.lv1_titles <= old(builder)@.lv1_titles + vsizes2(items_views_of(cells@)),
        final(builder)@.lv2_titles <= old(builder)@.lv2_titles + vsizes2(items_views_of(cells@)),
        final(builder)@.maths_blocks <= old(builder)@.maths_blocks + vsizes2(
            items_views_of(cells@),
        ),
        all_stack_neutral2(items_views_of(cells@)) ==> final(builder)@.tags == old(builder)@.tags,
    decreases cells,
{
    let ghost vs = items_views_of(cells@);
    let ghost orig = old(builder)@;
    proof {
        lemma_items_views_of(cells@);
        assert(vs.skip(0) =~= vs);
    }
    let mut i: usize = 0;
    while i < cells.len()
        invariant
            i <= cells@.len(),
            vs == items_views_of(cells@),
            vs.len() == cells@.len(),
            forall|j: int| 0 <= j < cells@.len() ==> vs[j] == views_of(cells@[j]@),
            builder@.wf(),
            builder@.tags.len() == orig.tags.len(),
            builder@.images == orig.images,
            orig.tags.len() >= 1,
            spec_render_cells(vs.skip(i as int), tag@, builder@) == spec_render_cells(
                vs,
                tag@,
                orig,
            ),
            all_renderable2(vs.skip(i as int)),
            all_images_available2(vs.skip(i as int), orig.images),
            builder@.lv1_titles + vsizes2(vs.skip(i as int)) <= orig.lv1_titles + vsizes2(vs),
            builder@.lv2_titles + vsizes2(vs.skip(i as int)) <= orig.lv2_titles + vsizes2(vs),
            builder@.maths_blocks + vsizes2(vs.skip(i as int)) <= orig.maths_blocks + vsizes2(vs),
            orig.lv1_titles + vsizes2(vs) <= usize::MAX,
            orig.lv2_titles + vsizes2(vs) <= usize::MAX,
            orig.maths_blocks + vsizes2(vs) <= usize::MAX,
            all_stack_neutral2(vs) ==> (builder@.tags == orig.tags && all_stack_neutral2(
                vs.skip(i as int),
            )),
        decreases cells@.len() - i,
    {
        proof {
            assert(vs.skip(i as int)[0] == vs[i as int]);
            assert(vs.skip(i as int).drop_first() =~= vs.skip(i as int + 1));
        }
        let ghost before = builder@;
        let no_attrs: &[(&str, &str)] = &[];
        proof {
            assert(attrs_view(no_attrs@) =~= Seq::<(Seq<char>, Seq<char>)>::empty());
        }
        builder.start_tag(tag, no_attrs);
        builder.write_knots_objects(&cells[i]);
        builder.end_tag();
        proof {
            if all_stack_neutral2(vs) {
                assert(builder@.tags =~= before.tags);
            }
        }
        i = i + 1;
    }
    proof {
        assert(vs.skip(vs.len() as int) =~= Seq::<Seq<ObjView>>::empty());
    }
}

/// Writes the data rows of a table, each inside its own row wrapper.
fn write_rows(builder: &mut Builder, rows: &Vec<Vec<Vec<KnotsObject>>>)
    requires
        old(builder)@.wf(),
        old(builder)@.tags.len() >= 1,
        all_renderable3(rows_views_of(rows@)),
        all_images_available3(rows_views_of(rows@), old(builder)@.images),
        old(builder)@.lv1_titles + vsizes3(rows_views_of(rows@)) <= usize::MAX,
        old(builder)@.lv2_titles + vsizes3(rows_views_of(rows@)) <= usize::MAX,
        old(builder)@.maths_blocks + vsizes3(rows_views_of(rows@)) <= usize::MAX,
    ensures
        final(builder)@ == spec_render_rows(rows_views_of(rows@), old(builder)@),
        final(builder)@.wf(),
        final(builder)@.tags.len() == old(builder)@.tags.len(),
        final(builder)@.images == old(builder)@.images,
        final(builder)@.lv1_titles <= old(builder)@.lv1_titles + vsizes3(rows_views_of(rows@)),
        final(builder)@.lv2_titles <= old(builder)@.lv2_titles + vsizes3(rows_views_of(rows@)),
        final(builder)@.maths_blocks <= old(builder)@.maths_blocks + vsizes3(rows_views_of(rows@)),
        all_stack_neutral3(rows_views_of(rows@)) ==> final(builder)@.tags == old(builder)@.tags,
    decreases rows,
{
    let ghost vs = rows_views_of(rows@);
    let ghost orig = old(builder)@;
    proof {
        lemma_rows_views_of(rows@);
        assert(vs.skip(0) =~= vs);
    }
    let mut i: usize = 0;
    while i < rows.len()
        invariant
            i <= rows@.len(),
            vs == rows_views_of(rows@),
            vs.len() == rows@.len(),
            forall|j: int| 0 <= j < rows@.len() ==> vs[j] == items_views_of(rows@[j]@),
            builder@.wf(),
            builder@.tags.len() == orig.tags.len(),
            builder@.images == orig.images,
            orig.tags.len() >= 1,
            spec_render_rows(vs.skip(i as int), builder@) == spec_render_rows(vs, orig),
            all_renderable3(vs.skip(i as int)),
            all_images_available3(vs.skip(i as int), orig.images),
            builder@.lv1_titles + vsizes3(vs.skip(i as int)) <= orig.lv1_titles + vsizes3(vs),
            builder@.lv2_titles + vsizes3(vs.skip(i as int)) <= orig.lv2_titles + vsizes3(vs),
            builder@.maths_blocks + vsizes3(vs.skip(i as int)) <= orig.maths_blocks + vsizes3(vs),
            orig.lv1_titles + vsizes3(vs) <= usize::MAX,
            orig.lv2_titles + vsizes3(vs) <= usize::MAX,
            orig.maths_blocks + vsizes3(vs) <= usize::MAX,
            all_stack_neutral3(vs) ==> (builder@.tags == orig.tags && all_stack_neutral3(
                vs.skip(i as int),
            )),
        decreases rows@.len() - i,
    {
        proof {
            assert(vs.skip(i as int)[0] == vs[i as int]);
            assert(vs.skip(i as int).drop_first() =~= vs.skip(i as int + 1));
        }
        let ghost before = builder@;
        let no_attrs: &[(&str, &str)] = &[];
        proof {
            assert(attrs_view(no_attrs@) =~= Seq::<(Seq<char>, Seq<char>)>::empty());
        }
        builder.start_tag("tr", no_attrs);
        write_cells(builder, &rows[i], "td");
        builder.end_tag();
        proof {
            if all_stack_neutral3(vs) {
                assert(builder@.tags =~= before.tags);
            }
        }
        i = i + 1;
    }
    proof {
        assert(vs.skip(vs.len() as int) =~= Seq::<Seq<Seq<ObjView>>>::empty());
    }
}

/// The views of a row sequence line up with the rows, one by one.
pub proof fn lemma_rows_views_of(s: Seq<Vec<Vec<KnotsObject>>>)
    ensures
        rows_views_of(s).len() == s.len(),
        forall|i: int| 0 <= i < s.len() ==> rows_views_of(s)[i] == items_views_of(s[i]@),
    decreases s,
{
    if s.len() > 0 {
        lemma_rows_views_of(s.drop_first());
        assert forall|i: int| 0 <= i < s.len() implies rows_views_of(s)[i] == items_views_of(
            s[i]@,
        ) by {
            if i > 0 {
                assert(rows_views_of(s)[i] == rows_views_of(s.drop_first())[i - 1]);
                assert(s.drop_first()[i - 1] == s[i]);
            }
        }
    }
}

} // verus!
