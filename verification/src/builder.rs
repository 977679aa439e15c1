use vstd::prelude::*;
use vstd::string::StringExecFns;

use crate::utils::push_char;
use crate::utils::chars_of_str;
use crate::utils::usize_to_string;
use crate::utils::spec_dec;
use crate::utils::spec_roman;
use crate::utils::spec_alpha;
use crate::utils::get_roman_numeral;
use crate::utils::get_alpha_numeral;

verus! {

/// One summary entry: a heading's level, display label and anchor.
pub struct Title {
    pub level: u8,
    pub name: String,
    pub anchor: String,
}

/// The mathematical shape of a summary entry.
#[verifier::ext_equal]
pub struct TitleView {
    pub level: u8,
    pub name: Seq<char>,
    pub anchor: Seq<char>,
}

impl View for Title {
    type V = TitleView;

    open spec fn view(&self) -> TitleView {
        TitleView { level: self.level, name: self.name@, anchor: self.anchor@ }
    }
}

/// A builder that generates the output markup from Knots objects, holding all
/// cross-node state: the output buffer, the open-tag stack, the heading and
/// maths counters, the asset-inclusion flags and the deferred script buffer.
pub struct Builder {
    /// the text buffer where all tags are stored once finished
    pub buf: String,
    /// the current indentation
    pub indentation: usize,
    /// the tags waiting to be closed
    pub tags_queue: Vec<String>,
    /// should we include the syntax-highlighting assets?
    pub should_include_prism: bool,
    /// should we include the maths-rendering assets?
    pub should_include_katex: bool,
    /// should we include the diagram-rendering assets?
    pub should_include_mermaid: bool,
    /// keep track of the current container class
    pub current_container: String,
    /// the number of level-one titles
    pub lv1_titles: usize,
    /// the number of level-two titles since the last level-one title
    pub lv2_titles: usize,
    /// an array to keep track of the summary
    pub titles: Vec<Title>,
    /// the number of maths blocks
    pub maths_blocks: usize,
    /// deferred statements that fill maths placeholders after the body
    pub katex_buf: String,
    /// the different programming languages used in the document
    pub languages: Vec<String>,
    /// the anchor-link decoration written into each heading
    pub link_icon: String,
    /// the decoration written into info boxes
    pub info_icon: String,
    /// the decoration written into warning boxes
    pub warning_icon: String,
    /// the decoration written into error boxes
    pub error_icon: String,
    /// the bytes of each local image target, keyed by the target path
    pub images: Vec<(String, Vec<u8>)>,
}

/// The mathematical state of a builder.
#[verifier::ext_equal]
pub struct BuilderView {
    pub buf: Seq<char>,
    pub indentation: nat,
    pub tags: Seq<Seq<char>>,
    pub prism: bool,
    pub katex: bool,
    pub mermaid: bool,
    pub current_container: Seq<char>,
    pub lv1_titles: nat,
    pub lv2_titles: nat,
    pub titles: Seq<TitleView>,
    pub maths_blocks: nat,
    pub katex_buf: Seq<char>,
    pub languages: Seq<Seq<char>>,
    pub link_icon: Seq<char>,
    pub info_icon: Seq<char>,
    pub warning_icon: Seq<char>,
    pub error_icon: Seq<char>,
    pub images: Seq<(Seq<char>, Seq<u8>)>,
}

impl BuilderView {
    /// The builder is well formed when the indentation mirrors the tag stack.
    pub open spec fn wf(self) -> bool {
        self.indentation == self.tags.len()
    }
}

/// The views of a sequence of strings.
pub open spec fn strings_view(s: Seq<String>) -> Seq<Seq<char>> {
    s.map_values(|t: String| t@)
}

/// The views of a sequence of summary entries.
pub open spec fn titles_view(s: Seq<Title>) -> Seq<TitleView> {
    s.map_values(|t: Title| t@)
}

/// The views of the image store.
pub open spec fn images_view(s: Seq<(String, Vec<u8>)>) -> Seq<(Seq<char>, Seq<u8>)> {
    s.map_values(|p: (String, Vec<u8>)| (p.0@, p.1@))
}

impl View for Builder {
    type V = BuilderView;

    open spec fn view(&self) -> BuilderView {
        BuilderView {
            buf: self.buf@,
            indentation: self.indentation as nat,
            tags: strings_view(self.tags_queue@),
            prism: self.should_include_prism,
            katex: self.should_include_katex,
            mermaid: self.should_include_mermaid,
            current_container: self.current_container@,
            lv1_titles: self.lv1_titles as nat,
            lv2_titles: self.lv2_titles as nat,
            titles: titles_view(self.titles@),
            maths_blocks: self.maths_blocks as nat,
            katex_buf: self.katex_buf@,
            languages: strings_view(self.languages@),
            link_icon: self.link_icon@,
            info_icon: self.info_icon@,
            warning_icon: self.warning_icon@,
            error_icon: self.error_icon@,
            images: images_view(self.images@),
        }
    }
}

/// The fresh builder: everything empty, every counter at zero.
pub open spec fn spec_new_builder() -> BuilderView {
    BuilderView {
        buf: Seq::empty(),
        indentation: 0,
        tags: Seq::empty(),
        prism: false,
        katex: false,
        mermaid: false,
        current_container: Seq::empty(),
        lv1_titles: 0,
        lv2_titles: 0,
        titles: Seq::empty(),
        maths_blocks: 0,
        katex_buf: Seq::empty(),
        languages: Seq::empty(),
        link_icon: Seq::empty(),
        info_icon: Seq::empty(),
        warning_icon: Seq::empty(),
        error_icon: Seq::empty(),
        images: Seq::empty(),
    }
}

/// One tab per open tag: the indentation written before each line.
pub open spec fn spec_blanks(ind: nat) -> Seq<char> {
    Seq::new(ind, |i: int| '\t')
}

/// The views of an attribute list.
pub open spec fn attrs_view(a: Seq<(&str, &str)>) -> Seq<(Seq<char>, Seq<char>)> {
    Seq::new(a.len(), |i: int| (a[i].0@, a[i].1@))
}

/// The text of an attribute list: one ` key="value"` piece per attribute.
pub open spec fn spec_attributes(attrs: Seq<(Seq<char>, Seq<char>)>) -> Seq<char>
    decreases attrs.len(),
{
    if attrs.len() == 0 {
        Seq::empty()
    } else {
        spec_attributes(attrs.drop_last()) + seq![' '] + attrs.last().0 + seq!['=', '"']
            + attrs.last().1 + seq!['"']
    }
}

/// The text of an opening tag on its own indented line.
pub open spec fn spec_start_tag_text(
    ind: nat,
    name: Seq<char>,
    attrs: Seq<(Seq<char>, Seq<char>)>,
) -> Seq<char> {
    spec_blanks(ind) + seq!['<'] + name + spec_attributes(attrs) + seq!['>', '\n']
}

/// The text of a one-line element: open tag, contents, close tag.
pub open spec fn spec_inline_tag_text(
    ind: nat,
    name: Seq<char>,
    attrs: Seq<(Seq<char>, Seq<char>)>,
    contents: Seq<char>,
) -> Seq<char> {
    spec_blanks(ind) + seq!['<'] + name + spec_attributes(attrs) + seq!['>'] + contents + seq![
        '<',
        '/',
    ] + name + seq!['>', '\n']
}

/// The text of a closing tag on its own indented line.
pub open spec fn spec_end_tag_text(ind: nat, name: Seq<char>) -> Seq<char> {
    spec_blanks(ind) + seq!['<', '/'] + name + seq!['>', '\n']
}

/// Content with line endings normalized and every line break re-indented.
pub open spec fn spec_indented(c: Seq<char>, ind: nat) -> Seq<char>
    decreases c.len(),
{
    if c.len() == 0 {
        Seq::empty()
    } else if c[0] == '\r' && c.len() >= 2 && c[1] == '\n' {
        seq!['\n'] + spec_blanks(ind) + spec_indented(c.skip(2), ind)
    } else if c[0] == '\n' {
        seq!['\n'] + spec_blanks(ind) + spec_indented(c.skip(1), ind)
    } else {
        seq![c[0]] + spec_indented(c.skip(1), ind)
    }
}

/// The deferred statement that renders one maths expression into its element.
pub open spec fn spec_katex_stmt(content: Seq<char>, el_id: Seq<char>) -> Seq<char> {
    "katex.render(String.raw`"@ + content + "`, document.getElementById('"@ + el_id
        + "'), { throwOnError: false });"@ + seq!['\n']
}

/// Starting an orphan tag appends its text and changes nothing else.
pub open spec fn spec_orphan_tag(
    s: BuilderView,
    name: Seq<char>,
    attrs: Seq<(Seq<char>, Seq<char>)>,
) -> BuilderView {
    BuilderView { buf: s.buf + spec_start_tag_text(s.indentation, name, attrs), ..s }
}

/// Starting a tag appends its text, pushes it onto the stack and indents.
pub open spec fn spec_start_tag(
    s: BuilderView,
    name: Seq<char>,
    attrs: Seq<(Seq<char>, Seq<char>)>,
) -> BuilderView {
    BuilderView {
        buf: s.buf + spec_start_tag_text(s.indentation, name, attrs),
        tags: s.tags.push(name),
        indentation: s.indentation + 1,
        ..s
    }
}

/// Ending a tag dedents, pops the stack and appends the closing text.
pub open spec fn spec_end_tag(s: BuilderView) -> BuilderView
    recommends
        s.tags.len() >= 1,
        s.wf(),
{
    BuilderView {
        buf: s.buf + spec_end_tag_text((s.indentation - 1) as nat, s.tags.last()),
        tags: s.tags.drop_last(),
        indentation: (s.indentation - 1) as nat,
        ..s
    }
}

/// Writing an inline tag appends its one-line text and changes nothing else.
pub open spec fn spec_inline_tag(
    s: BuilderView,
    name: Seq<char>,
    attrs: Seq<(Seq<char>, Seq<char>)>,
    contents: Seq<char>,
) -> BuilderView {
    BuilderView { buf: s.buf + spec_inline_tag_text(s.indentation, name, attrs, contents), ..s }
}

/// Writing content appends the indented, normalized text on its own line.
pub open spec fn spec_write_content(s: BuilderView, c: Seq<char>) -> BuilderView {
    BuilderView {
        buf: s.buf + spec_blanks(s.indentation) + spec_indented(c, s.indentation) + seq!['\n'],
        ..s
    }
}

/// Registering maths content appends one statement to the deferred buffer.
pub open spec fn spec_write_katex(s: BuilderView, c: Seq<char>, el_id: Seq<char>) -> BuilderView {
    BuilderView { katex_buf: s.katex_buf + spec_katex_stmt(c, el_id), ..s }
}

/// A character that survives into an anchor slug.
pub open spec fn spec_slug_keep(c: char) -> bool {
    (48 <= c as u32 && c as u32 <= 57) || (65 <= c as u32 && c as u32 <= 90) || (97 <= c as u32
        && c as u32 <= 122) || c == '_' || c == '-' || c == '!' || c == '?'
}

/// The anchor slug of a heading text: spaces become dashes, everything that is
/// not alphanumeric or one of `_-!?` is dropped.
pub open spec fn spec_slug(s: Seq<char>) -> Seq<char>
    decreases s.len(),
{
    if s.len() == 0 {
        Seq::empty()
    } else if s[0] == ' ' {
        seq!['-'] + spec_slug(s.drop_first())
    } else if spec_slug_keep(s[0]) {
        seq![s[0]] + spec_slug(s.drop_first())
    } else {
        spec_slug(s.drop_first())
    }
}

/// The anchor of a heading: the counters of every level above it, then a level
/// marker, then the slug of its text.
pub open spec fn spec_anchor(level: u8, lv1: nat, lv2: nat, name: Seq<char>) -> Seq<char> {
    (if level >= 1 {
        spec_dec(lv1) + seq!['-']
    } else {
        Seq::empty()
    }) + (if level >= 2 {
        spec_dec(lv2) + seq!['-']
    } else {
        Seq::empty()
    }) + (if level >= 3 {
        "part-"@
    } else {
        Seq::empty()
    }) + spec_slug(name)
}

/// The numbering label of a heading: roman-style for level one, a letter for
/// level two, nothing for level three.
pub open spec fn spec_label(level: u8, lv1: nat, lv2: nat) -> Seq<char> {
    if level == 1 {
        spec_roman(lv1)
    } else if level == 2 {
        spec_alpha(lv2)
    } else {
        Seq::empty()
    }
}

/// Noting a language keeps the set of languages free of repeats.
pub open spec fn spec_note_language(s: BuilderView, l: Seq<char>) -> BuilderView {
    if s.languages.contains(l) {
        s
    } else {
        BuilderView { languages: s.languages.push(l), ..s }
    }
}

/// Whether the image store holds bytes for a path.
pub open spec fn spec_store_has(images: Seq<(Seq<char>, Seq<u8>)>, path: Seq<char>) -> bool
    decreases images,
{
    if images.len() == 0 {
        false
    } else if images[0].0 == path {
        true
    } else {
        spec_store_has(images.drop_first(), path)
    }
}

/// The bytes the image store holds for a path: the first matching entry.
pub open spec fn spec_store_get(images: Seq<(Seq<char>, Seq<u8>)>, path: Seq<char>) -> Seq<u8>
    decreases images,
{
    if images.len() == 0 {
        Seq::empty()
    } else if images[0].0 == path {
        images[0].1
    } else {
        spec_store_get(images.drop_first(), path)
    }
}

/// Registering a heading: level one bumps the first counter and resets the
/// second, level two bumps the second; the new entry carries the numbered
/// display name and the anchor built from the new counters.
pub open spec fn spec_add_title(s: BuilderView, level: u8, name: Seq<char>) -> (
    BuilderView,
    TitleView,
) {
    let lv1 = if level == 1 {
        s.lv1_titles + 1
    } else {
        s.lv1_titles
    };
    let lv2 = if level == 1 {
        0nat
    } else if level == 2 {
        s.lv2_titles + 1
    } else {
        s.lv2_titles
    };
    let num = spec_label(level, lv1, lv2);
    let display = if num.len() > 0 {
        num + " - "@ + name
    } else {
        name
    };
    let t = TitleView { level, name: display, anchor: spec_anchor(level, lv1, lv2, name) };
    (
        BuilderView { lv1_titles: lv1, lv2_titles: lv2, titles: s.titles.push(t), ..s },
        t,
    )
}

/// Appending one string appends its view.
pub proof fn lemma_strings_view_push(s: Seq<String>, x: String)
    ensures
        strings_view(s.push(x)) =~= strings_view(s).push(x@),
{
}

proof fn lemma_map_string_drop_last(s: Seq<String>)
    requires
        s.len() >= 1,
    ensures
        strings_view(s.drop_last()) =~= strings_view(s).drop_last(),
{
}


/// A decimal count followed by a dash determines both the count and the rest:
/// the dash after the count is the first dash of the text.
proof fn lemma_num_dash_prefix(a: nat, b: nat, x: Seq<char>, y: Seq<char>)
    requires
        spec_dec(a) + seq!['-'] + x == spec_dec(b) + seq!['-'] + y,
    ensures
        a == b,
        x == y,
{
    crate::utils::lemma_dec_no_dash(a);
    crate::utils::lemma_dec_no_dash(b);
    let la = spec_dec(a).len() as int;
    let lb = spec_dec(b).len() as int;
    let lhs = spec_dec(a) + seq!['-'] + x;
    let rhs = spec_dec(b) + seq!['-'] + y;
    assert(lhs[la] == '-');
    assert(rhs[lb] == '-');
    if la < lb {
        assert(rhs[la] == spec_dec(b)[la]);
        assert(lhs[la] == '-');
        assert(false);
    }
    if lb < la {
        assert(lhs[lb] == spec_dec(a)[lb]);
        assert(rhs[lb] == '-');
        assert(false);
    }
    assert forall|i: int| 0 <= i < la implies spec_dec(a)[i] == spec_dec(b)[i] by {
        assert(lhs[i] == spec_dec(a)[i]);
        assert(rhs[i] == spec_dec(b)[i]);
    }
    assert(spec_dec(a) =~= spec_dec(b));
    crate::utils::lemma_dec_injective(a, b);
    assert(lhs.len() == rhs.len());
    assert(x.len() == y.len());
    assert forall|i: int| 0 <= i < x.len() implies x[i] == y[i] by {
        assert(lhs[la + 1 + i] == x[i]);
        assert(rhs[la + 1 + i] == y[i]);
    }
    assert(x =~= y);
}

/// Anchor uniqueness: two headings of one level with the same text but under
/// different counters get different anchors, because the counters are spelled
/// out at the front of the anchor.
pub proof fn lemma_anchor_unique(
    level: u8,
    l1a: nat,
    l2a: nat,
    l1b: nat,
    l2b: nat,
    name: Seq<char>,
)
    requires
        1 <= level <= 3,
        level == 1 ==> l1a != l1b,
        level >= 2 ==> !(l1a == l1b && l2a == l2b),
    ensures
        spec_anchor(level, l1a, l2a, name) != spec_anchor(level, l1b, l2b, name),
{
    if spec_anchor(level, l1a, l2a, name) == spec_anchor(level, l1b, l2b, name) {
        if level == 1 {
            let resta = spec_slug(name);
            assert(spec_anchor(level, l1a, l2a, name) =~= spec_dec(l1a) + seq!['-'] + resta);
            assert(spec_anchor(level, l1b, l2b, name) =~= spec_dec(l1b) + seq!['-'] + resta);
            lemma_num_dash_prefix(l1a, l1b, resta, resta);
            assert(false);
        } else {
            let marker = if level >= 3 {
                "part-"@
            } else {
                Seq::<char>::empty()
            };
            let resta = spec_dec(l2a) + seq!['-'] + (marker + spec_slug(name));
            let restb = spec_dec(l2b) + seq!['-'] + (marker + spec_slug(name));
            assert(spec_anchor(level, l1a, l2a, name) =~= spec_dec(l1a) + seq!['-'] + resta);
            assert(spec_anchor(level, l1b, l2b, name) =~= spec_dec(l1b) + seq!['-'] + restb);
            lemma_num_dash_prefix(l1a, l1b, resta, restb);
            lemma_num_dash_prefix(l2a, l2b, marker + spec_slug(name), marker + spec_slug(name));
            assert(false);
        }
    }
}

proof fn lemma_map_title_push(s: Seq<Title>, x: Title)
    ensures
        titles_view(s.push(x)) =~= titles_view(s).push(x@),
{
}

impl Builder {
    /// A fresh builder with empty buffers and zeroed counters.
    pub fn new() -> (r: Builder)
        ensures
            r@ == spec_new_builder(),
    {
        let r = Builder {
            buf: String::new(),
            indentation: 0,
            tags_queue: Vec::new(),
            should_include_prism: false,
            should_include_katex: false,
            should_include_mermaid: false,
            current_container: String::new(),
            lv1_titles: 0,
            lv2_titles: 0,
            titles: Vec::new(),
            maths_blocks: 0,
            katex_buf: String::new(),
            languages: Vec::new(),
            link_icon: String::new(),
            info_icon: String::new(),
            warning_icon: String::new(),
            error_icon: String::new(),
            images: Vec::new(),
        };
        proof {
            assert(r@ =~= spec_new_builder());
        }
        r
    }

    /// Hands the finished buffer out; every opened tag must have been closed.
    pub fn into_result(self) -> (r: String)
        requires
            self@.tags.len() == 0,
        ensures
            r@ == self@.buf,
    {
        self.buf
    }

    /// The indentation: one tab per open tag.
    fn blanks(&self) -> (r: String)
        ensures
            r@ == spec_blanks(self@.indentation),
    {
        let mut blanks = String::new();
        let mut i: usize = 0;
        while i < self.indentation
            invariant
                i <= self.indentation,
                blanks@ == Seq::new(i as nat, |j: int| '\t'),
            decreases self.indentation - i,
        {
            push_char(&mut blanks, '\t');
            proof {
                assert(blanks@ =~= Seq::new((i + 1) as nat, |j: int| '\t'));
            }
            i = i + 1;
        }
        blanks
    }

    /// Builds the text of an attribute list.
    fn attributes(&self, attributes: &[(&str, &str)]) -> (r: String)
        ensures
            r@ == spec_attributes(attrs_view(attributes@)),
    {
        let ghost av = attrs_view(attributes@);
        let mut attributes_string = String::new();
        proof {
            assert(av.take(0) =~= Seq::<(Seq<char>, Seq<char>)>::empty());
        }
        let mut i: usize = 0;
        while i < attributes.len()
            invariant
                i <= attributes@.len(),
                av == attrs_view(attributes@),
                attributes_string@ == spec_attributes(av.take(i as int)),
            decreases attributes@.len() - i,
        {
            let attribute = attributes[i];
            push_char(&mut attributes_string, ' ');
            attributes_string.append(attribute.0);
            push_char(&mut attributes_string, '=');
            push_char(&mut attributes_string, '"');
            attributes_string.append(attribute.1);
            push_char(&mut attributes_string, '"');
            proof {
                assert(av.take(i + 1).drop_last() =~= av.take(i as int));
                assert(av.take(i + 1).last() == av[i as int]);
                assert(attributes_string@ =~= spec_attributes(av.take(i + 1)));
            }
            i = i + 1;
        }
        proof {
            assert(av.take(av.len() as int) =~= av);
        }
        attributes_string
    }

    /// Formats a start tag with its attributes.
    fn format_start_tag(&self, tag_name: &str, attributes: &[(&str, &str)]) -> (r: String)
        ensures
            r@ == spec_start_tag_text(self@.indentation, tag_name@, attrs_view(attributes@)),
    {
        let mut r = self.blanks();
        push_char(&mut r, '<');
        r.append(tag_name);
        let a = self.attributes(attributes);
        r.append(a.as_str());
        push_char(&mut r, '>');
        push_char(&mut r, '\n');
        proof {
            assert(r@ =~= spec_start_tag_text(self@.indentation, tag_name@, attrs_view(
                attributes@,
            )));
        }
        r
    }

    /// Starts an orphan tag: one that is never closed.
    pub fn orphan_tag(&mut self, tag_name: &str, attributes: &[(&str, &str)])
        ensures
            final(self)@ == spec_orphan_tag(old(self)@, tag_name@, attrs_view(attributes@)),
    {
        let text = self.format_start_tag(tag_name, attributes);
        self.buf.append(text.as_str());
        proof {
            assert(self@ =~= spec_orphan_tag(old(self)@, tag_name@, attrs_view(attributes@)));
        }
    }

    /// Writes a whole element on one line.
    pub fn inline_tag(&mut self, tag_name: &str, attributes: &[(&str, &str)], contents: &str)
        ensures
            final(self)@ == spec_inline_tag(
                old(self)@,
                tag_name@,
                attrs_view(attributes@),
                contents@,
            ),
    {
        let mut text = self.blanks();
        push_char(&mut text, '<');
        text.append(tag_name);
        let a = self.attributes(attributes);
        text.append(a.as_str());
        push_char(&mut text, '>');
        text.append(contents);
        push_char(&mut text, '<');
        push_char(&mut text, '/');
        text.append(tag_name);
        push_char(&mut text, '>');
        push_char(&mut text, '\n');
        self.buf.append(text.as_str());
        proof {
            assert(self@ =~= spec_inline_tag(
                old(self)@,
                tag_name@,
                attrs_view(attributes@),
                contents@,
            ));
        }
    }

    /// Starts a new tag, to be closed later.
    pub fn start_tag(&mut self, tag_name: &str, attributes: &[(&str, &str)])
        requires
            old(self)@.wf(),
        ensures
            final(self)@ == spec_start_tag(old(self)@, tag_name@, attrs_view(attributes@)),
            final(self)@.wf(),
    {
        let text = self.format_start_tag(tag_name, attributes);
        self.tags_queue.push(tag_name.to_owned());
        proof {
            assert(self.tags_queue@.len() == vstd::std_specs::vec::spec_vec_len(&self.tags_queue));
            lemma_strings_view_push(old(self).tags_queue@, self.tags_queue@.last());
        }
        self.buf.append(text.as_str());
        self.indentation = self.indentation + 1;
        proof {
            assert(self@ =~= spec_start_tag(old(self)@, tag_name@, attrs_view(attributes@)));
        }
    }

    /// Ends the innermost open tag.
    pub fn end_tag(&mut self)
        requires
            old(self)@.wf(),
            old(self)@.tags.len() >= 1,
        ensures
            final(self)@ == spec_end_tag(old(self)@),
            final(self)@.wf(),
    {
        self.indentation = self.indentation - 1;
        let name = self.tags_queue.pop().unwrap();
        proof {
            lemma_map_string_drop_last(old(self).tags_queue@);
            assert(name@ == old(self)@.tags.last());
        }
        let mut text = self.blanks();
        push_char(&mut text, '<');
        push_char(&mut text, '/');
        text.append(name.as_str());
        push_char(&mut text, '>');
        push_char(&mut text, '\n');
        self.buf.append(text.as_str());
        proof {
            assert(self@ =~= spec_end_tag(old(self)@));
        }
    }

    /// Writes content inside a tag, re-indented to the current depth.
    pub fn write_content(&mut self, content: &str)
        ensures
            final(self)@ == spec_write_content(old(self)@, content@),
    {
        let chars = chars_of_str(content);
        let bl = self.blanks();
        let mut text = self.blanks();
        proof {
            assert(chars@.skip(0) =~= chars@);
        }
        let ghost ind = self@.indentation;
        let mut i: usize = 0;
        while i < chars.len()
            invariant
                i <= chars@.len(),
                chars@ == content@,
                ind == self@.indentation,
                bl@ == spec_blanks(ind),
                text@ + spec_indented(chars@.skip(i as int), ind) == spec_blanks(ind)
                    + spec_indented(chars@, ind),
            decreases chars@.len() - i,
        {
            proof {
                assert(chars@.skip(i as int)[0] == chars@[i as int]);
                if i + 1 < chars@.len() {
                    assert(chars@.skip(i as int)[1] == chars@[i as int + 1]);
                }
                assert(chars@.skip(i as int).skip(1) =~= chars@.skip(i as int + 1));
                if i + 2 <= chars@.len() {
                    assert(chars@.skip(i as int).skip(2) =~= chars@.skip(i as int + 2));
                }
            }
            let c = chars[i];
            if c == '\r' && i + 1 < chars.len() && chars[i + 1] == '\n' {
                push_char(&mut text, '\n');
                text.append(bl.as_str());
                i = i + 2;
            } else if c == '\n' {
                push_char(&mut text, '\n');
                text.append(bl.as_str());
                i = i + 1;
            } else {
                push_char(&mut text, c);
                i = i + 1;
            }
            proof {
                assert(text@ + spec_indented(chars@.skip(i as int), ind) =~= spec_blanks(ind)
                    + spec_indented(chars@, ind));
            }
        }
        push_char(&mut text, '\n');
        self.buf.append(text.as_str());
        proof {
            assert(chars@.skip(chars@.len() as int) =~= Seq::<char>::empty());
            assert(self@ =~= spec_write_content(old(self)@, content@));
        }
    }

    /// Appends the deferred statement that fills one maths placeholder.
    pub fn write_katex_content(&mut self, content: &str, el_id: &str)
        ensures
            final(self)@ == spec_write_katex(old(self)@, content@, el_id@),
    {
        self.katex_buf.append("katex.render(String.raw`");
        self.katex_buf.append(content);
        self.katex_buf.append("`, document.getElementById('");
        self.katex_buf.append(el_id);
        self.katex_buf.append("'), { throwOnError: false });");
        push_char(&mut self.katex_buf, '\n');
        proof {
            assert(self@ =~= spec_write_katex(old(self)@, content@, el_id@));
        }
    }

    /// The deferred buffer referencing every maths element and its contents.
    pub fn get_katex_content(&self) -> (r: String)
        ensures
            r@ == self@.katex_buf,
    {
        self.katex_buf.clone()
    }

    /// The summary gathered so far: one entry per heading, in order.
    pub fn get_summary(&self) -> (r: &Vec<Title>)
        ensures
            titles_view(r@) == self@.titles,
    {
        &self.titles
    }

    /// Adds a heading to the summary, bumping and resetting the counters and
    /// minting the numbered label and the anchor.
    pub fn add_title(&mut self, level: u8, name: &str) -> (t: Title)
        requires
            1 <= level <= 3,
            level == 1 ==> old(self)@.lv1_titles < usize::MAX,
            level == 2 ==> old(self)@.lv2_titles < usize::MAX,
        ensures
            final(self)@ == spec_add_title(old(self)@, level, name@).0,
            t@ == spec_add_title(old(self)@, level, name@).1,
    {
        let num: String;
        if level == 1 {
            self.lv1_titles = self.lv1_titles + 1;
            self.lv2_titles = 0;
            num = get_roman_numeral(self.lv1_titles);
        } else if level == 2 {
            self.lv2_titles = self.lv2_titles + 1;
            num = get_alpha_numeral(self.lv2_titles);
        } else {
            num = String::new();
        }
        let mut anchor = String::new();
        if level >= 1 {
            let d = usize_to_string(self.lv1_titles);
            anchor.append(d.as_str());
            push_char(&mut anchor, '-');
        }
        if level >= 2 {
            let d = usize_to_string(self.lv2_titles);
            anchor.append(d.as_str());
            push_char(&mut anchor, '-');
        }
        if level >= 3 {
            anchor.append("part-");
        }
        let slug = slug_of(name);
        anchor.append(slug.as_str());
        proof {
            let (sv, tv) = spec_add_title(old(self)@, level, name@);
            assert(anchor@ =~= tv.anchor);
            if level == 1 {
                crate::utils::lemma_roman_nonempty(self@.lv1_titles);
            }
        }
        let display: String;
        if level <= 2 {
            let mut d = num;
            d.append(" - ");
            d.append(name);
            display = d;
        } else {
            display = name.to_owned();
        }
        let title = Title { anchor: anchor.clone(), level, name: display.clone() };
        self.titles.push(title);
        proof {
            lemma_map_title_push(old(self).titles@, self.titles@.last());
            let (sv, tv) = spec_add_title(old(self)@, level, name@);
            assert(display@ =~= tv.name);
            assert(self@ =~= sv);
        }
        Title { anchor, level, name: display }
    }
}

impl Builder {
    /// Records one programming language seen in a code block, once.
    pub fn note_language(&mut self, lang: &str)
        ensures
            final(self)@ == spec_note_language(old(self)@, lang@),
    {
        let ghost langs = self@.languages;
        let mut i: usize = 0;
        while i < self.languages.len()
            invariant
                i <= self.languages@.len(),
                langs == strings_view(self.languages@),
                self == old(self),
                forall|j: int| 0 <= j < i ==> langs[j] != lang@,
            decreases self.languages@.len() - i,
        {
            if crate::utils::str_eq(self.languages[i].as_str(), lang) {
                proof {
                    assert(langs[i as int] == self.languages@[i as int]@);
                    assert(langs.contains(lang@));
                    assert(self@ =~= spec_note_language(old(self)@, lang@));
                }
                return ;
            }
            i = i + 1;
        }
        proof {
            assert(forall|j: int| 0 <= j < langs.len() ==> langs[j] != lang@);
            assert(!langs.contains(lang@));
        }
        self.languages.push(lang.to_owned());
        proof {
            lemma_strings_view_push(old(self).languages@, self.languages@.last());
            assert(self@ =~= spec_note_language(old(self)@, lang@));
        }
    }

    /// Looks an image path up in the store, returning the first match.
    pub fn find_image(&self, link: &str) -> (r: Option<&Vec<u8>>)
        ensures
            match r {
                Option::Some(d) => spec_store_has(self@.images, link@) && d@ == spec_store_get(
                    self@.images,
                    link@,
                ),
                Option::None => !spec_store_has(self@.images, link@),
            },
    {
        let ghost imgs = self@.images;
        proof {
            assert(imgs.skip(0) =~= imgs);
        }
        let mut i: usize = 0;
        while i < self.images.len()
            invariant
                i <= self.images@.len(),
                imgs == images_view(self.images@),
                spec_store_has(imgs, link@) == spec_store_has(imgs.skip(i as int), link@),
                spec_store_has(imgs.skip(i as int), link@) ==> spec_store_get(imgs, link@)
                    == spec_store_get(imgs.skip(i as int), link@),
            decreases self.images@.len() - i,
        {
            proof {
                assert(imgs.skip(i as int)[0] == imgs[i as int]);
                assert(imgs.skip(i as int).drop_first() =~= imgs.skip(i as int + 1));
                assert(imgs[i as int] == (self.images@[i as int].0@, self.images@[i as int].1@));
            }
            if crate::utils::str_eq(self.images[i].0.as_str(), link) {
                return Option::Some(&self.images[i].1);
            }
            i = i + 1;
        }
        proof {
            assert(imgs.skip(imgs.len() as int) =~= Seq::<(Seq<char>, Seq<u8>)>::empty());
        }
        Option::None
    }
}

/// Builds the anchor slug of a heading text.
fn slug_of(name: &str) -> (r: String)
    ensures
        r@ == spec_slug(name@),
{
    let chars = chars_of_str(name);
    let mut out = String::new();
    proof {
        assert(chars@.skip(0) =~= chars@);
    }
    let mut i: usize = 0;
    while i < chars.len()
        invariant
            i <= chars@.len(),
            chars@ == name@,
            out@ + spec_slug(chars@.skip(i as int)) == spec_slug(chars@),
        decreases chars@.len() - i,
    {
        proof {
            assert(chars@.skip(i as int)[0] == chars@[i as int]);
            assert(chars@.skip(i as int).drop_first() =~= chars@.skip(i as int + 1));
        }
        let c = chars[i];
        if c == ' ' {
            push_char(&mut out, '-');
        } else if slug_keep(c) {
            push_char(&mut out, c);
        }
        proof {
            assert(out@ + spec_slug(chars@.skip(i as int + 1)) =~= spec_slug(chars@));
        }
        i = i + 1;
    }
    proof {
        assert(chars@.skip(chars@.len() as int) =~= Seq::<char>::empty());
        assert(out@ =~= spec_slug(chars@));
    }
    out
}

/// Whether a character survives into an anchor slug.
fn slug_keep(c: char) -> (r: bool)
    ensures
        r == spec_slug_keep(c),
{
    let u = c as u32;
    (48 <= u && u <= 57) || (65 <= u && u <= 90) || (97 <= u && u <= 122) || c == '_' || c == '-'
        || c == '!' || c == '?'
}

} // verus!
