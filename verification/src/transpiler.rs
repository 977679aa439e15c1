use vstd::prelude::*;
use vstd::string::StringExecFns;

use crate::builder::Builder;
use crate::builder::BuilderView;
use crate::builder::TitleView;
use crate::builder::attrs_view;
use crate::builder::images_view;
use crate::builder::strings_view;
use crate::builder::spec_end_tag;
use crate::builder::spec_inline_tag;
use crate::builder::spec_new_builder;
use crate::builder::spec_orphan_tag;
use crate::builder::spec_start_tag;
use crate::builder::spec_write_content;
use crate::knots_objects::KnotsObject;
use crate::knots_objects::ObjView;
use crate::knots_objects::container_safe;
use crate::knots_objects::images_available;
use crate::knots_objects::renderable;
use crate::knots_objects::scan_obj;
use crate::knots_objects::spec_render_obj;
use crate::knots_objects::vsize;
use crate::parser::ParseResult;
use crate::utils::push_char;
use crate::utils::spec_dec;
use crate::utils::usize_to_string;

verus! {

/// The fixed texts stitched around the rendered document: the style sheets,
/// the deferred-rendering scripts, and the icon decorations.
pub struct Assets {
    pub normalize_css: String,
    pub style_css: String,
    pub katex_css: String,
    pub katex_js: String,
    pub prism_css: String,
    pub prism_js: String,
    pub profile_icon: String,
    pub ereader_icon: String,
    pub link_icon: String,
    pub info_icon: String,
    pub warning_icon: String,
    pub error_icon: String,
}

/// The mathematical shape of the assets.
#[verifier::ext_equal]
pub struct AssetsView {
    pub normalize_css: Seq<char>,
    pub style_css: Seq<char>,
    pub katex_css: Seq<char>,
    pub katex_js: Seq<char>,
    pub prism_css: Seq<char>,
    pub prism_js: Seq<char>,
    pub profile_icon: Seq<char>,
    pub ereader_icon: Seq<char>,
    pub link_icon: Seq<char>,
    pub info_icon: Seq<char>,
    pub warning_icon: Seq<char>,
    pub error_icon: Seq<char>,
}

impl View for Assets {
    type V = AssetsView;

    open spec fn view(&self) -> AssetsView {
        AssetsView {
            normalize_css: self.normalize_css@,
            style_css: self.style_css@,
            katex_css: self.katex_css@,
            katex_js: self.katex_js@,
            prism_css: self.prism_css@,
            prism_js: self.prism_js@,
            profile_icon: self.profile_icon@,
            ereader_icon: self.ereader_icon@,
            link_icon: self.link_icon@,
            info_icon: self.info_icon@,
            warning_icon: self.warning_icon@,
            error_icon: self.error_icon@,
        }
    }
}

/// The authors line: every author in order, separated by commas.
pub open spec fn spec_authors_text(authors: Seq<Seq<char>>) -> Seq<char>
    recommends
        authors.len() >= 1,
    decreases authors.len(),
{
    if authors.len() <= 1 {
        authors[0]
    } else {
        spec_authors_text(authors.drop_last()) + ", "@ + authors.last()
    }
}

/// The license notice written at the foot of the document.
pub open spec fn spec_license_text(license: Seq<char>) -> Seq<char> {
    "This work is available under the "@ + license + " license"@
}

/// The table-of-contents feed: one link per heading, in order.
pub open spec fn spec_summary(titles: Seq<TitleView>, s: BuilderView) -> BuilderView
    decreases titles.len(),
{
    if titles.len() == 0 {
        s
    } else {
        spec_summary(
            titles.drop_first(),
            spec_inline_tag(
                s,
                "a"@,
                seq![
                    ("href"@, seq!['#'] + titles[0].anchor),
                    ("class"@, "lvl"@ + spec_dec(titles[0].level as nat)),
                ],
                titles[0].name,
            ),
        )
    }
}

/// The empty attribute list.
pub open spec fn no_attrs() -> Seq<(Seq<char>, Seq<char>)> {
    Seq::empty()
}

/// The page before the document body: the fixed preamble, the title and the
/// author metadata, up to the end of the page header.
pub open spec fn spec_page_head(
    title: Seq<char>,
    authors: Seq<Seq<char>>,
    a: AssetsView,
    images: Seq<(Seq<char>, Seq<u8>)>,
) -> BuilderView {
    let s0 = BuilderView {
        link_icon: a.link_icon,
        info_icon: a.info_icon,
        warning_icon: a.warning_icon,
        error_icon: a.error_icon,
        images: images,
        ..spec_new_builder()
    };
    let s1 = spec_orphan_tag(s0, "!DOCTYPE html"@, no_attrs());
    let s2 = spec_start_tag(s1, "html"@, no_attrs());
    let s3 = spec_start_tag(s2, "head"@, no_attrs());
    let s4 = spec_orphan_tag(s3, "meta"@, seq![("charset"@, "utf-8"@)]);
    let s5 = spec_orphan_tag(
        s4,
        "meta"@,
        seq![("name"@, "viewport"@), ("content"@, "width=device-width, initial-scale=1"@)],
    );
    let s6 = spec_end_tag(spec_write_content(spec_start_tag(s5, "title"@, no_attrs()), title));
    let s7 = spec_end_tag(
        spec_write_content(spec_start_tag(s6, "style"@, no_attrs()), a.normalize_css),
    );
    let s8 = spec_end_tag(
        spec_write_content(spec_start_tag(s7, "style"@, no_attrs()), a.style_css),
    );
    let s9 = spec_end_tag(s8);
    let s10 = spec_start_tag(s9, "body"@, no_attrs());
    let s11 = spec_start_tag(s10, "header"@, no_attrs());
    let s12 = spec_end_tag(
        spec_write_content(spec_start_tag(s11, "p"@, seq![("id"@, "doctitle"@)]), title),
    );
    let s13 = if authors.len() > 0 {
        spec_end_tag(
            spec_write_content(
                spec_write_content(
                    spec_start_tag(s12, "div"@, seq![("class"@, "docinfo"@)]),
                    a.profile_icon,
                ),
                spec_authors_text(authors),
            ),
        )
    } else {
        s12
    };
    spec_end_tag(s13)
}

/// The main content: the structural containers, the rendered tree and the
/// license notice, up to the end of the main column.
pub open spec fn spec_page_main(
    root: ObjView,
    license: Option<Seq<char>>,
    a: AssetsView,
    s: BuilderView,
) -> BuilderView {
    let s15 = spec_start_tag(s, "div"@, seq![("class"@, "flex-container"@)]);
    let s16 = spec_start_tag(s15, "div"@, seq![("class"@, "main-content"@)]);
    let s17 = spec_start_tag(s16, "div"@, seq![("class"@, "lvl1-container"@)]);
    let s18 = spec_render_obj(root, s17);
    let s19 = spec_end_tag(s18);
    let s20 = match license {
        Option::Some(l) => spec_end_tag(
            spec_write_content(
                spec_write_content(
                    spec_orphan_tag(
                        spec_start_tag(
                            s19,
                            "div"@,
                            seq![("class"@, "docinfo discreet"@), ("id"@, "license"@)],
                        ),
                        "hr"@,
                        no_attrs(),
                    ),
                    a.ereader_icon,
                ),
                spec_license_text(l),
            ),
        ),
        Option::None => s19,
    };
    spec_end_tag(s20)
}

/// The table-of-contents column built from the headings the render recorded.
pub open spec fn spec_page_summary(s: BuilderView) -> BuilderView {
    let s22 = spec_start_tag(s, "div"@, seq![("class"@, "summary-container"@)]);
    let s23 = spec_start_tag(s22, "div"@, seq![("class"@, "summary"@)]);
    let s24 = spec_inline_tag(s23, "p"@, no_attrs(), "Summary"@);
    let s25 = spec_start_tag(s24, "div"@, seq![("class"@, "summary-content"@)]);
    let s26 = spec_summary(s.titles, s25);
    spec_end_tag(spec_end_tag(spec_end_tag(spec_end_tag(s26))))
}

/// The conditional assets after the body, selected by the inclusion flags,
/// and the closing of the page.
pub open spec fn spec_page_assets(a: AssetsView, s: BuilderView) -> BuilderView {
    let s29 = if s.katex {
        spec_end_tag(
            spec_write_content(
                spec_write_content(
                    spec_start_tag(
                        spec_end_tag(
                            spec_write_content(spec_start_tag(s, "style"@, no_attrs()), a.katex_css),
                        ),
                        "script"@,
                        no_attrs(),
                    ),
                    a.katex_js,
                ),
                s.katex_buf,
            ),
        )
    } else {
        s
    };
    let s30 = if s.prism {
        spec_end_tag(
            spec_write_content(
                spec_start_tag(
                    spec_end_tag(
                        spec_write_content(spec_start_tag(s29, "style"@, no_attrs()), a.prism_css),
                    ),
                    "script"@,
                    no_attrs(),
                ),
                a.prism_js,
            ),
        )
    } else {
        s29
    };
    spec_end_tag(spec_end_tag(s30))
}

/// The whole page: a fixed preamble, the title and author metadata, the
/// rendered tree, the conditional assets, and the license notice.
pub open spec fn spec_transpile(
    root: ObjView,
    title: Seq<char>,
    authors: Seq<Seq<char>>,
    license: Option<Seq<char>>,
    a: AssetsView,
    images: Seq<(Seq<char>, Seq<u8>)>,
) -> Seq<char> {
    spec_page_assets(
        a,
        spec_page_summary(
            spec_page_main(root, license, a, spec_page_head(title, authors, a, images)),
        ),
    ).buf
}

/// Builds the page head: the preamble, the title and the author metadata.
fn make_page_head(
    title: &str,
    authors: &Vec<String>,
    assets: &Assets,
    images: Vec<(String, Vec<u8>)>,
) -> (b: Builder)
    ensures
        b@ == spec_page_head(title@, strings_view(authors@), assets@, images_view(images@)),
        b@.wf(),
        b@.tags == seq!["html"@, "body"@],
{
    let mut builder = Builder::new();
    builder.link_icon = assets.link_icon.clone();
    builder.info_icon = assets.info_icon.clone();
    builder.warning_icon = assets.warning_icon.clone();
    builder.error_icon = assets.error_icon.clone();
    builder.images = images;
    let empty_attrs: &[(&str, &str)] = &[];
    proof {
        assert(attrs_view(empty_attrs@) =~= no_attrs());
    }
    builder.orphan_tag("!DOCTYPE html", empty_attrs);
    builder.start_tag("html", empty_attrs);
    builder.start_tag("head", empty_attrs);
    let a_charset: &[(&str, &str)] = &[("charset", "utf-8")];
    builder.orphan_tag("meta", a_charset);
    let a_viewport: &[(&str, &str)] = &[
        ("name", "viewport"),
        ("content", "width=device-width, initial-scale=1"),
    ];
    builder.orphan_tag("meta", a_viewport);
    proof {
        assert(attrs_view(a_charset@) =~= seq![("charset"@, "utf-8"@)]);
        assert(attrs_view(a_viewport@) =~= seq![
            ("name"@, "viewport"@),
            ("content"@, "width=device-width, initial-scale=1"@),
        ]);
    }
    builder.start_tag("title", empty_attrs);
    builder.write_content(title);
    builder.end_tag();
    builder.start_tag("style", empty_attrs);
    let normalize_css = assets.normalize_css.clone();
    builder.write_content(normalize_css.as_str());
    builder.end_tag();
    builder.start_tag("style", empty_attrs);
    let style_css = assets.style_css.clone();
    builder.write_content(style_css.as_str());
    builder.end_tag();
    builder.end_tag();
    builder.start_tag("body", empty_attrs);
    builder.start_tag("header", empty_attrs);
    let a_doctitle: &[(&str, &str)] = &[("id", "doctitle")];
    proof {
        assert(attrs_view(a_doctitle@) =~= seq![("id"@, "doctitle"@)]);
    }
    builder.start_tag("p", a_doctitle);
    builder.write_content(title);
    builder.end_tag();
    if authors.len() > 0 {
        let a_docinfo: &[(&str, &str)] = &[("class", "docinfo")];
        proof {
            assert(attrs_view(a_docinfo@) =~= seq![("class"@, "docinfo"@)]);
        }
        builder.start_tag("div", a_docinfo);
        let profile_icon = assets.profile_icon.clone();
        builder.write_content(profile_icon.as_str());
        let ghost av = strings_view(authors@);
        let mut authors_buf = authors[0].clone();
        proof {
            assert(av.take(1).drop_last() =~= Seq::<Seq<char>>::empty());
            assert(av[0] == authors@[0]@);
            assert(authors_buf@ == spec_authors_text(av.take(1)));
        }
        let mut i: usize = 1;
        while i < authors.len()
            invariant
                1 <= i <= authors@.len(),
                av == strings_view(authors@),
                av.len() == authors@.len(),
                authors_buf@ == spec_authors_text(av.take(i as int)),
            decreases authors@.len() - i,
        {
            authors_buf.append(", ");
            authors_buf.append(authors[i].as_str());
            proof {
                assert(av.take(i as int + 1).drop_last() =~= av.take(i as int));
                assert(av.take(i as int + 1).last() == av[i as int]);
                assert(av[i as int] == authors@[i as int]@);
            }
            i = i + 1;
        }
        proof {
            assert(av.take(av.len() as int) =~= av);
        }
        builder.write_content(authors_buf.as_str());
        builder.end_tag();
    }
    builder.end_tag();
    proof {
        assert(builder@ =~= spec_page_head(
            title@,
            strings_view(authors@),
            assets@,
            images_view(images@),
        ));
        assert(builder@.tags =~= seq!["html"@, "body"@]);
    }
    builder
}

/// Writes the main column: the containers, the tree, the license notice.
fn write_page_main(
    builder: &mut Builder,
    root: &KnotsObject,
    license: &Option<String>,
    assets: &Assets,
)
    requires
        old(builder)@.wf(),
        renderable(root@),
        container_safe(root@),
        images_available(root@, old(builder)@.images),
        old(builder)@.lv1_titles + vsize(root@) <= usize::MAX,
        old(builder)@.lv2_titles + vsize(root@) <= usize::MAX,
        old(builder)@.maths_blocks + vsize(root@) <= usize::MAX,
    ensures
        final(builder)@ == spec_page_main(
            root@,
            (match license {
                Option::Some(l) => Option::Some(l@),
                Option::None => Option::None,
            }),
            assets@,
            old(builder)@,
        ),
        final(builder)@.wf(),
        final(builder)@.tags == old(builder)@.tags.push("div"@),
{
    let empty_attrs: &[(&str, &str)] = &[];
    let a_flex: &[(&str, &str)] = &[("class", "flex-container")];
    let a_main: &[(&str, &str)] = &[("class", "main-content")];
    let a_lvl1: &[(&str, &str)] = &[("class", "lvl1-container")];
    proof {
        assert(attrs_view(empty_attrs@) =~= no_attrs());
        assert(attrs_view(a_flex@) =~= seq![("class"@, "flex-container"@)]);
        assert(attrs_view(a_main@) =~= seq![("class"@, "main-content"@)]);
        assert(attrs_view(a_lvl1@) =~= seq![("class"@, "lvl1-container"@)]);
    }
    builder.start_tag("div", a_flex);
    builder.start_tag("div", a_main);
    builder.start_tag("div", a_lvl1);
    proof {
        assert(builder@.tags.last() == "div"@);
    }
    builder.write_knots_object(root);
    builder.end_tag();
    match license {
        Option::Some(license) => {
            let a_license: &[(&str, &str)] = &[("class", "docinfo discreet"), ("id", "license")];
            proof {
                assert(attrs_view(a_license@) =~= seq![
                    ("class"@, "docinfo discreet"@),
                    ("id"@, "license"@),
                ]);
            }
            builder.start_tag("div", a_license);
            builder.orphan_tag("hr", empty_attrs);
            let ereader_icon = assets.ereader_icon.clone();
            builder.write_content(ereader_icon.as_str());
            let mut notice = "This work is available under the ".to_owned();
            notice.append(license.as_str());
            notice.append(" license");
            builder.write_content(notice.as_str());
            builder.end_tag();
        },
        Option::None => {},
    }
    builder.end_tag();
    proof {
        assert(builder@.tags =~= old(builder)@.tags.push("div"@));
    }
}

/// Writes the table-of-contents column from the recorded headings.
fn write_page_summary(builder: &mut Builder)
    requires
        old(builder)@.wf(),
        old(builder)@.tags.len() >= 1,
    ensures
        final(builder)@ == spec_page_summary(old(builder)@),
        final(builder)@.wf(),
        final(builder)@.tags == old(builder)@.tags.drop_last(),
{
    let empty_attrs: &[(&str, &str)] = &[];
    let a_sumcont: &[(&str, &str)] = &[("class", "summary-container")];
    let a_summary: &[(&str, &str)] = &[("class", "summary")];
    let a_sumcontent: &[(&str, &str)] = &[("class", "summary-content")];
    proof {
        assert(attrs_view(empty_attrs@) =~= no_attrs());
        assert(attrs_view(a_sumcont@) =~= seq![("class"@, "summary-container"@)]);
        assert(attrs_view(a_summary@) =~= seq![("class"@, "summary"@)]);
        assert(attrs_view(a_sumcontent@) =~= seq![("class"@, "summary-content"@)]);
    }
    let ghost titles_after = old(builder)@.titles;
    builder.start_tag("div", a_sumcont);
    builder.start_tag("div", a_summary);
    builder.inline_tag("p", empty_attrs, "Summary");
    builder.start_tag("div", a_sumcontent);
    let ghost s25 = builder@;
    proof {
        assert(titles_after.skip(0) =~= titles_after);
    }
    let mut i: usize = 0;
    let n = builder.titles.len();
    while i < n
        invariant
            i <= n,
            n == builder@.titles.len(),
            builder@.titles == titles_after,
            builder@.tags == s25.tags,
            builder@.indentation == s25.indentation,
            builder@.wf(),
            spec_summary(titles_after.skip(i as int), builder@) == spec_summary(titles_after, s25),
        decreases n - i,
    {
        proof {
            assert(titles_after.skip(i as int)[0] == titles_after[i as int]);
            assert(titles_after.skip(i as int).drop_first() =~= titles_after.skip(i as int + 1));
            assert(builder@.titles[i as int] == builder.titles@[i as int]@);
        }
        let level = builder.titles[i].level;
        let anchor = builder.titles[i].anchor.clone();
        let name = builder.titles[i].name.clone();
        let d = usize_to_string(level as usize);
        let mut item_class = "lvl".to_owned();
        item_class.append(d.as_str());
        let mut href = String::new();
        push_char(&mut href, '#');
        href.append(anchor.as_str());
        let a_item: &[(&str, &str)] = &[("href", href.as_str()), ("class", item_class.as_str())];
        proof {
            assert(attrs_view(a_item@) =~= seq![("href"@, href@), ("class"@, item_class@)]);
            assert(href@ =~= seq!['#'] + titles_after[i as int].anchor);
            assert(item_class@ =~= "lvl"@ + spec_dec(titles_after[i as int].level as nat));
        }
        builder.inline_tag("a", a_item, name.as_str());
        i = i + 1;
    }
    proof {
        assert(titles_after.skip(titles_after.len() as int) =~= Seq::<TitleView>::empty());
    }
    builder.end_tag();
    builder.end_tag();
    builder.end_tag();
    builder.end_tag();
    proof {
        assert(builder@ =~= spec_page_summary(old(builder)@));
        assert(builder@.tags =~= old(builder)@.tags.drop_last());
    }
}

/// Writes the conditional assets and closes the page.
fn write_page_assets(builder: &mut Builder, assets: &Assets)
    requires
        old(builder)@.wf(),
        old(builder)@.tags.len() >= 2,
    ensures
        final(builder)@ == spec_page_assets(assets@, old(builder)@),
        final(builder)@.tags.len() == old(builder)@.tags.len() - 2,
{
    let empty_attrs: &[(&str, &str)] = &[];
    proof {
        assert(attrs_view(empty_attrs@) =~= no_attrs());
    }
    if builder.should_include_katex {
        builder.start_tag("style", empty_attrs);
        let katex_css = assets.katex_css.clone();
        builder.write_content(katex_css.as_str());
        builder.end_tag();
        builder.start_tag("script", empty_attrs);
        let katex_js = assets.katex_js.clone();
        builder.write_content(katex_js.as_str());
        let deferred = builder.get_katex_content();
        builder.write_content(deferred.as_str());
        builder.end_tag();
    }
    if builder.should_include_prism {
        builder.start_tag("style", empty_attrs);
        let prism_css = assets.prism_css.clone();
        builder.write_content(prism_css.as_str());
        builder.end_tag();
        builder.start_tag("script", empty_attrs);
        let prism_js = assets.prism_js.clone();
        builder.write_content(prism_js.as_str());
        builder.end_tag();
    }
    builder.end_tag();
    builder.end_tag();
    proof {
        assert(builder@ =~= spec_page_assets(assets@, old(builder)@));
    }
}

/// Transpiles a parsed Knots document into one self-contained page. The tree
/// must be renderable: every heading level in range, the node count within the
/// machine, and bytes stored for every local image target; otherwise the
/// document is refused.
#[verifier::rlimit(100)]
pub fn transpile(parse_result: ParseResult, assets: &Assets, images: Vec<(String, Vec<u8>)>) -> (r:
    Result<String, String>)
    ensures
        match r {
            Result::Ok(out) => renderable(parse_result.root_object@) && container_safe(
                parse_result.root_object@,
            ) && images_available(parse_result.root_object@, images_view(images@)) && vsize(
                parse_result.root_object@,
            ) <= usize::MAX && out@ == spec_transpile(
                parse_result.root_object@,
                parse_result.document_title@,
                strings_view(parse_result.document_authors@),
                (match parse_result.document_license {
                    Option::Some(l) => Option::Some(l@),
                    Option::None => Option::None,
                }),
                assets@,
                images_view(images@),
            ),
            Result::Err(_) => !(renderable(parse_result.root_object@) && container_safe(
                parse_result.root_object@,
            ) && images_available(parse_result.root_object@, images_view(images@)) && vsize(
                parse_result.root_object@,
            ) <= usize::MAX),
        },
{
    let rep = scan_obj(&parse_result.root_object, &images);
    let size_ok = match rep.size {
        Option::Some(_) => true,
        Option::None => false,
    };
    if !(size_ok && rep.ok_levels && rep.safe && rep.images_ok) {
        return Result::Err(
            "cannot render: a heading level is out of range, the tree is too large, or a local image was not loaded".to_owned(),
        );
    }
    let mut builder = make_page_head(
        parse_result.document_title.as_str(),
        &parse_result.document_authors,
        assets,
        images,
    );
    write_page_main(&mut builder, &parse_result.root_object, &parse_result.document_license, assets);
    write_page_summary(&mut builder);
    proof {
        assert(builder@.tags.len() == 2);
    }
    write_page_assets(&mut builder, assets);
    proof {
        assert(builder@.tags.len() == 0);
    }
    Result::Ok(builder.into_result())
}

} // verus!
