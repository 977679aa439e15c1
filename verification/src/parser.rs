use vstd::prelude::*;

use crate::knots_objects::BasicText;
use crate::knots_objects::BlockQuote;
use crate::knots_objects::Bold;
use crate::knots_objects::CodeBlock;
use crate::knots_objects::ErrorBox;
use crate::knots_objects::HorizontalRule;
use crate::knots_objects::Image;
use crate::knots_objects::InfoBox;
use crate::knots_objects::List;
use crate::knots_objects::MathsBlock;
use crate::knots_objects::Mermaid;
use crate::knots_objects::Paragraph;
use crate::knots_objects::Table;
use crate::knots_objects::Title;
use crate::knots_objects::WarningBox;
use crate::knots_objects::InlineCode;
use crate::knots_objects::InlineMaths;
use crate::knots_objects::Italic;
use crate::knots_objects::KnotsObject;
use crate::knots_objects::Link;
use crate::knots_objects::Root;
use crate::knots_objects::ObjView;
use crate::knots_objects::obj_view;
use crate::knots_objects::stack_neutral;
use crate::knots_objects::all_stack_neutral;
use crate::knots_objects::renderable;
use crate::knots_objects::all_renderable;
use crate::knots_objects::all_renderable2;
use crate::knots_objects::all_renderable3;
use crate::knots_objects::all_stack_neutral2;
use crate::knots_objects::all_stack_neutral3;
use crate::knots_objects::items_views_of;
use crate::knots_objects::rows_views_of;
use crate::knots_objects::container_safe;
use crate::knots_objects::views_of;
use crate::knots_objects::lemma_views_of;
use crate::utils::chars_of_str;

verus! {

// ---------------------------------------------------------------------------
// Character classes of the grammar.
// ---------------------------------------------------------------------------
/// A character that ends a plain-text run: every inline-starter and both line
/// ending characters.
pub open spec fn is_basic_stop(c: char) -> bool {
    c == '`' || c == '*' || c == '\r' || c == '\n' || c == '#' || c == '_' || c == '[' || c == '$'
        || c == '|'
}

/// A character that may follow a currency dollar sign: space or punctuation.
pub open spec fn is_currency_follow(c: char) -> bool {
    c == ' ' || c == '?' || c == '!' || c == '.' || c == ',' || c == ';'
}

/// Blank space of any kind, line endings included.
pub open spec fn is_multispace(c: char) -> bool {
    c == ' ' || c == '\t' || c == '\r' || c == '\n'
}

/// Blank space inside a line.
pub open spec fn is_inline_space(c: char) -> bool {
    c == ' ' || c == '\t'
}

/// An ASCII letter.
pub open spec fn is_alpha(c: char) -> bool {
    (65 <= c as u32 && c as u32 <= 90) || (97 <= c as u32 && c as u32 <= 122)
}

/// An ASCII letter or digit.
pub open spec fn is_alnum(c: char) -> bool {
    is_alpha(c) || (48 <= c as u32 && c as u32 <= 57)
}

/// A character that may trail a horizontal rule.
pub open spec fn is_hr_char(c: char) -> bool {
    c == '*' || c == '_' || c == '-'
}

/// A character that is not a line ending.
pub open spec fn is_not_line_ending(c: char) -> bool {
    c != '\r' && c != '\n'
}

fn exec_is_basic_stop(c: char) -> (r: bool)
    ensures
        r == is_basic_stop(c),
{
    c == '`' || c == '*' || c == '\r' || c == '\n' || c == '#' || c == '_' || c == '[' || c == '$'
        || c == '|'
}

fn exec_is_currency_follow(c: char) -> (r: bool)
    ensures
        r == is_currency_follow(c),
{
    c == ' ' || c == '?' || c == '!' || c == '.' || c == ',' || c == ';'
}

fn exec_is_multispace(c: char) -> (r: bool)
    ensures
        r == is_multispace(c),
{
    c == ' ' || c == '\t' || c == '\r' || c == '\n'
}

fn exec_is_inline_space(c: char) -> (r: bool)
    ensures
        r == is_inline_space(c),
{
    c == ' ' || c == '\t'
}

fn exec_is_alpha(c: char) -> (r: bool)
    ensures
        r == is_alpha(c),
{
    let u = c as u32;
    (65 <= u && u <= 90) || (97 <= u && u <= 122)
}

fn exec_is_alnum(c: char) -> (r: bool)
    ensures
        r == is_alnum(c),
{
    let u = c as u32;
    (65 <= u && u <= 90) || (97 <= u && u <= 122) || (48 <= u && u <= 57)
}

fn exec_is_hr_char(c: char) -> (r: bool)
    ensures
        r == is_hr_char(c),
{
    c == '*' || c == '_' || c == '-'
}

fn exec_is_not_line_ending(c: char) -> (r: bool)
    ensures
        r == is_not_line_ending(c),
{
    c != '\r' && c != '\n'
}

// ---------------------------------------------------------------------------
// Scanning: runs of a character class, and searches.
// ---------------------------------------------------------------------------
/// The end of the run of characters satisfying the class, starting at pos.
pub open spec fn spec_run(s: Seq<char>, pos: int, f: spec_fn(char) -> bool) -> int
    recommends
        0 <= pos <= s.len(),
    decreases s.len() - pos,
{
    if pos < s.len() && f(s[pos]) {
        spec_run(s, pos + 1, f)
    } else {
        pos
    }
}

/// The run end never lies before its start and never after the end of input.
pub proof fn lemma_spec_run(s: Seq<char>, pos: int, f: spec_fn(char) -> bool)
    requires
        0 <= pos <= s.len(),
    ensures
        pos <= spec_run(s, pos, f) <= s.len(),
        forall|i: int| pos <= i < spec_run(s, pos, f) ==> f(#[trigger] s[i]),
        spec_run(s, pos, f) < s.len() ==> !f(s[spec_run(s, pos, f)]),
    decreases s.len() - pos,
{
    if pos < s.len() && f(s[pos]) {
        lemma_spec_run(s, pos + 1, f);
    }
}

/// The first position at or after pos whose character equals c, if any.
pub open spec fn spec_find_char(s: Seq<char>, pos: int, c: char) -> Option<int>
    recommends
        0 <= pos <= s.len(),
    decreases s.len() - pos,
{
    if pos >= s.len() {
        Option::None
    } else if s[pos] == c {
        Option::Some(pos)
    } else {
        spec_find_char(s, pos + 1, c)
    }
}

/// The first position at or after pos where the two-character pattern stands.
pub open spec fn spec_find2(s: Seq<char>, pos: int, a: char, b: char) -> Option<int>
    recommends
        0 <= pos <= s.len(),
    decreases s.len() - pos,
{
    if pos + 2 > s.len() {
        Option::None
    } else if s[pos] == a && s[pos + 1] == b {
        Option::Some(pos)
    } else {
        spec_find2(s, pos + 1, a, b)
    }
}

/// The first position at or after pos where the three-character pattern stands.
pub open spec fn spec_find3(s: Seq<char>, pos: int, a: char, b: char, c: char) -> Option<int>
    recommends
        0 <= pos <= s.len(),
    decreases s.len() - pos,
{
    if pos + 3 > s.len() {
        Option::None
    } else if s[pos] == a && s[pos + 1] == b && s[pos + 2] == c {
        Option::Some(pos)
    } else {
        spec_find3(s, pos + 1, a, b, c)
    }
}

fn run_basic_text(s: &Vec<char>, pos: usize) -> (r: usize)
    requires
        pos <= s@.len(),
    ensures
        r == spec_run(s@, pos as int, |c: char| !is_basic_stop(c)),
        pos <= r <= s@.len(),
    decreases s@.len() - pos,
{
    if pos < s.len() && !exec_is_basic_stop(s[pos]) {
        run_basic_text(s, pos + 1)
    } else {
        pos
    }
}

fn run_currency(s: &Vec<char>, pos: usize) -> (r: usize)
    requires
        pos <= s@.len(),
    ensures
        r == spec_run(s@, pos as int, |c: char| is_currency_follow(c)),
        pos <= r <= s@.len(),
    decreases s@.len() - pos,
{
    if pos < s.len() && exec_is_currency_follow(s[pos]) {
        run_currency(s, pos + 1)
    } else {
        pos
    }
}

fn run_multispace(s: &Vec<char>, pos: usize) -> (r: usize)
    requires
        pos <= s@.len(),
    ensures
        r == spec_run(s@, pos as int, |c: char| is_multispace(c)),
        pos <= r <= s@.len(),
    decreases s@.len() - pos,
{
    if pos < s.len() && exec_is_multispace(s[pos]) {
        run_multispace(s, pos + 1)
    } else {
        pos
    }
}

fn run_inline_space(s: &Vec<char>, pos: usize) -> (r: usize)
    requires
        pos <= s@.len(),
    ensures
        r == spec_run(s@, pos as int, |c: char| is_inline_space(c)),
        pos <= r <= s@.len(),
    decreases s@.len() - pos,
{
    if pos < s.len() && exec_is_inline_space(s[pos]) {
        run_inline_space(s, pos + 1)
    } else {
        pos
    }
}

fn run_alpha(s: &Vec<char>, pos: usize) -> (r: usize)
    requires
        pos <= s@.len(),
    ensures
        r == spec_run(s@, pos as int, |c: char| is_alpha(c)),
        pos <= r <= s@.len(),
    decreases s@.len() - pos,
{
    if pos < s.len() && exec_is_alpha(s[pos]) {
        run_alpha(s, pos + 1)
    } else {
        pos
    }
}

fn run_alnum(s: &Vec<char>, pos: usize) -> (r: usize)
    requires
        pos <= s@.len(),
    ensures
        r == spec_run(s@, pos as int, |c: char| is_alnum(c)),
        pos <= r <= s@.len(),
    decreases s@.len() - pos,
{
    if pos < s.len() && exec_is_alnum(s[pos]) {
        run_alnum(s, pos + 1)
    } else {
        pos
    }
}

fn run_hr_chars(s: &Vec<char>, pos: usize) -> (r: usize)
    requires
        pos <= s@.len(),
    ensures
        r == spec_run(s@, pos as int, |c: char| is_hr_char(c)),
        pos <= r <= s@.len(),
    decreases s@.len() - pos,
{
    if pos < s.len() && exec_is_hr_char(s[pos]) {
        run_hr_chars(s, pos + 1)
    } else {
        pos
    }
}

fn run_not_line_ending(s: &Vec<char>, pos: usize) -> (r: usize)
    requires
        pos <= s@.len(),
    ensures
        r == spec_run(s@, pos as int, |c: char| is_not_line_ending(c)),
        pos <= r <= s@.len(),
    decreases s@.len() - pos,
{
    if pos < s.len() && exec_is_not_line_ending(s[pos]) {
        run_not_line_ending(s, pos + 1)
    } else {
        pos
    }
}

fn run_not_char(s: &Vec<char>, pos: usize, stop: char) -> (r: usize)
    requires
        pos <= s@.len(),
    ensures
        r == spec_run(s@, pos as int, |c: char| c != stop),
        pos <= r <= s@.len(),
    decreases s@.len() - pos,
{
    if pos < s.len() && s[pos] != stop {
        let r = run_not_char(s, pos + 1, stop);
        proof {
            assert(spec_run(s@, pos as int, |c: char| c != stop) == spec_run(
                s@,
                pos as int + 1,
                |c: char| c != stop,
            ));
        }
        r
    } else {
        pos
    }
}

fn find_char(s: &Vec<char>, pos: usize, c: char) -> (r: Option<usize>)
    requires
        pos <= s@.len(),
    ensures
        match r {
            Option::Some(i) => spec_find_char(s@, pos as int, c) == Option::Some(i as int) && pos
                <= i < s@.len(),
            Option::None => spec_find_char(s@, pos as int, c) is None,
        },
    decreases s@.len() - pos,
{
    if pos >= s.len() {
        Option::None
    } else if s[pos] == c {
        Option::Some(pos)
    } else {
        find_char(s, pos + 1, c)
    }
}

fn find2(s: &Vec<char>, pos: usize, a: char, b: char) -> (r: Option<usize>)
    requires
        pos <= s@.len(),
    ensures
        match r {
            Option::Some(i) => spec_find2(s@, pos as int, a, b) == Option::Some(i as int) && pos
                <= i && i + 2 <= s@.len(),
            Option::None => spec_find2(s@, pos as int, a, b) is None,
        },
    decreases s@.len() - pos,
{
    if s.len() < 2 || pos > s.len() - 2 {
        Option::None
    } else if s[pos] == a && s[pos + 1] == b {
        Option::Some(pos)
    } else {
        find2(s, pos + 1, a, b)
    }
}

fn find3(s: &Vec<char>, pos: usize, a: char, b: char, c: char) -> (r: Option<usize>)
    requires
        pos <= s@.len(),
    ensures
        match r {
            Option::Some(i) => spec_find3(s@, pos as int, a, b, c) == Option::Some(i as int) && pos
                <= i && i + 3 <= s@.len(),
            Option::None => spec_find3(s@, pos as int, a, b, c) is None,
        },
    decreases s@.len() - pos,
{
    if s.len() < 3 || pos > s.len() - 3 {
        Option::None
    } else if s[pos] == a && s[pos + 1] == b && s[pos + 2] == c {
        Option::Some(pos)
    } else {
        find3(s, pos + 1, a, b, c)
    }
}

// ---------------------------------------------------------------------------
// Ends of lines.
// ---------------------------------------------------------------------------
/// A line ending or the end of input: the position just after it, if matched.
pub open spec fn spec_eolf(s: Seq<char>, pos: int) -> Option<int>
    recommends
        0 <= pos <= s.len(),
{
    if pos == s.len() {
        Option::Some(pos)
    } else if s[pos] == '\n' {
        Option::Some(pos + 1)
    } else if s[pos] == '\r' && pos + 1 < s.len() && s[pos + 1] == '\n' {
        Option::Some(pos + 2)
    } else {
        Option::None
    }
}

fn eolf(s: &Vec<char>, pos: usize) -> (r: Option<usize>)
    requires
        pos <= s@.len(),
    ensures
        match r {
            Option::Some(p) => spec_eolf(s@, pos as int) == Option::Some(p as int) && pos <= p
                <= s@.len(),
            Option::None => spec_eolf(s@, pos as int) is None,
        },
{
    if pos == s.len() {
        Option::Some(pos)
    } else if s[pos] == '\n' {
        Option::Some(pos + 1)
    } else if s[pos] == '\r' && pos + 1 < s.len() && s[pos + 1] == '\n' {
        Option::Some(pos + 2)
    } else {
        Option::None
    }
}

// ---------------------------------------------------------------------------
// The inline grammar: alternatives tried in strict priority order.
// ---------------------------------------------------------------------------
/// Whether the given character stands at the position.
pub open spec fn spec_lit1(s: Seq<char>, pos: int, a: char) -> bool {
    0 <= pos && pos + 1 <= s.len() && s[pos] == a
}

/// Whether the given two characters stand at the position.
pub open spec fn spec_lit2(s: Seq<char>, pos: int, a: char, b: char) -> bool {
    0 <= pos && pos + 2 <= s.len() && s[pos] == a && s[pos + 1] == b
}

/// Whether the given three characters stand at the position.
pub open spec fn spec_lit3(s: Seq<char>, pos: int, a: char, b: char, c: char) -> bool {
    0 <= pos && pos + 3 <= s.len() && s[pos] == a && s[pos + 1] == b && s[pos + 2] == c
}

/// One plain-text piece: a currency dollar with its following punctuation, or
/// a run free of reserved characters. Returns the end of the piece.
pub open spec fn spec_basic_chunk_end(s: Seq<char>, pos: int) -> Option<int>
    recommends
        0 <= pos <= s.len(),
{
    if pos < s.len() && s[pos] == '$' && pos + 1 < s.len() && is_currency_follow(s[pos + 1]) {
        Option::Some(spec_run(s, pos + 1, |c: char| is_currency_follow(c)))
    } else if pos < s.len() && !is_basic_stop(s[pos]) {
        Option::Some(spec_run(s, pos, |c: char| !is_basic_stop(c)))
    } else {
        Option::None
    }
}

/// The end of a maximal sequence of plain-text pieces starting at pos.
pub open spec fn spec_basic_end(s: Seq<char>, pos: int) -> int
    recommends
        0 <= pos <= s.len(),
    decreases s.len() - pos,
{
    match spec_basic_chunk_end(s, pos) {
        Option::None => pos,
        Option::Some(e) => if pos < e <= s.len() {
            spec_basic_end(s, e)
        } else {
            pos
        },
    }
}

/// Plain text: one or more pieces, kept verbatim.
pub open spec fn spec_basic(s: Seq<char>, pos: int) -> Option<(int, ObjView)>
    recommends
        0 <= pos <= s.len(),
{
    let e = spec_basic_end(s, pos);
    if e > pos {
        Option::Some((e, ObjView::BasicText { contents: s.subrange(pos, e) }))
    } else {
        Option::None
    }
}

/// A link: a bracketed label followed at once by a parenthesised target.
pub open spec fn spec_link(s: Seq<char>, pos: int) -> Option<(int, ObjView)>
    recommends
        0 <= pos <= s.len(),
{
    if pos < s.len() && s[pos] == '[' {
        match spec_find_char(s, pos + 1, ']') {
            Option::Some(j) => if j + 1 < s.len() && s[j + 1] == '(' {
                match spec_find_char(s, j + 2, ')') {
                    Option::Some(k) => Option::Some(
                        (
                            k + 1,
                            ObjView::Link {
                                name: s.subrange(pos + 1, j),
                                link: s.subrange(j + 2, k),
                            },
                        ),
                    ),
                    Option::None => Option::None,
                }
            } else {
                Option::None
            },
            Option::None => Option::None,
        }
    } else {
        Option::None
    }
}

/// Inline maths: a dollar not followed by space or punctuation, contents up to
/// the next dollar.
pub open spec fn spec_inline_maths(s: Seq<char>, pos: int) -> Option<(int, ObjView)>
    recommends
        0 <= pos <= s.len(),
{
    if pos < s.len() && s[pos] == '$' && pos + 1 < s.len() && !is_currency_follow(s[pos + 1]) {
        let e = spec_run(s, pos + 1, |c: char| c != '$');
        if e > pos + 1 && e < s.len() && s[e] == '$' {
            Option::Some((e + 1, ObjView::InlineMaths { contents: s.subrange(pos + 1, e) }))
        } else {
            Option::None
        }
    } else {
        Option::None
    }
}

/// Inline code: backtick-delimited, contents kept verbatim.
pub open spec fn spec_inline_code(s: Seq<char>, pos: int) -> Option<(int, ObjView)>
    recommends
        0 <= pos <= s.len(),
{
    if pos < s.len() && s[pos] == '`' {
        let e = spec_run(s, pos + 1, |c: char| c != '`');
        if e > pos + 1 && e < s.len() && s[e] == '`' {
            Option::Some((e + 1, ObjView::InlineCode { contents: s.subrange(pos + 1, e) }))
        } else {
            Option::None
        }
    } else {
        Option::None
    }
}

/// Bold text delimited by a doubled star.
pub open spec fn spec_bold1(s: Seq<char>, pos: int) -> Option<(int, ObjView)>
    recommends
        0 <= pos <= s.len(),
    decreases s.len() - pos, 0int,
{
    if spec_lit2(s, pos, '*', '*') {
        match spec_text_modifiers(s, pos + 2) {
            Option::Some((p2, vs)) => if spec_lit2(s, p2, '*', '*') {
                Option::Some((p2 + 2, ObjView::Bold { contents: vs }))
            } else {
                Option::None
            },
            Option::None => Option::None,
        }
    } else {
        Option::None
    }
}

/// Bold text delimited by a doubled underscore.
pub open spec fn spec_bold2(s: Seq<char>, pos: int) -> Option<(int, ObjView)>
    recommends
        0 <= pos <= s.len(),
    decreases s.len() - pos, 0int,
{
    if spec_lit2(s, pos, '_', '_') {
        match spec_text_modifiers(s, pos + 2) {
            Option::Some((p2, vs)) => if spec_lit2(s, p2, '_', '_') {
                Option::Some((p2 + 2, ObjView::Bold { contents: vs }))
            } else {
                Option::None
            },
            Option::None => Option::None,
        }
    } else {
        Option::None
    }
}

/// Italic text delimited by a single star.
pub open spec fn spec_italic1(s: Seq<char>, pos: int) -> Option<(int, ObjView)>
    recommends
        0 <= pos <= s.len(),
    decreases s.len() - pos, 0int,
{
    if spec_lit1(s, pos, '*') {
        match spec_text_modifiers(s, pos + 1) {
            Option::Some((p2, vs)) => if spec_lit1(s, p2, '*') {
                Option::Some((p2 + 1, ObjView::Italic { contents: vs }))
            } else {
                Option::None
            },
            Option::None => Option::None,
        }
    } else {
        Option::None
    }
}

/// Italic text delimited by a single underscore.
pub open spec fn spec_italic2(s: Seq<char>, pos: int) -> Option<(int, ObjView)>
    recommends
        0 <= pos <= s.len(),
    decreases s.len() - pos, 0int,
{
    if spec_lit1(s, pos, '_') {
        match spec_text_modifiers(s, pos + 1) {
            Option::Some((p2, vs)) => if spec_lit1(s, p2, '_') {
                Option::Some((p2 + 1, ObjView::Italic { contents: vs }))
            } else {
                Option::None
            },
            Option::None => Option::None,
        }
    } else {
        Option::None
    }
}

/// One inline node: the alternatives in their priority order.
pub open spec fn spec_any_text_modifier(s: Seq<char>, pos: int) -> Option<(int, ObjView)>
    recommends
        0 <= pos <= s.len(),
    decreases s.len() - pos, 1int,
{
    match spec_link(s, pos) {
        Option::Some(r) => Option::Some(r),
        Option::None => match spec_bold1(s, pos) {
            Option::Some(r) => Option::Some(r),
            Option::None => match spec_bold2(s, pos) {
                Option::Some(r) => Option::Some(r),
                Option::None => match spec_italic1(s, pos) {
                    Option::Some(r) => Option::Some(r),
                    Option::None => match spec_italic2(s, pos) {
                        Option::Some(r) => Option::Some(r),
                        Option::None => match spec_inline_maths(s, pos) {
                            Option::Some(r) => Option::Some(r),
                            Option::None => match spec_inline_code(s, pos) {
                                Option::Some(r) => Option::Some(r),
                                Option::None => spec_basic(s, pos),
                            },
                        },
                    },
                },
            },
        },
    }
}

/// One or more inline nodes, applied until no alternative matches.
pub open spec fn spec_text_modifiers(s: Seq<char>, pos: int) -> Option<(int, Seq<ObjView>)>
    recommends
        0 <= pos <= s.len(),
    decreases s.len() - pos, 2int,
{
    match spec_any_text_modifier(s, pos) {
        Option::None => Option::None,
        Option::Some((p2, v)) => if pos < p2 <= s.len() {
            match spec_text_modifiers(s, p2) {
                Option::Some((p3, vs)) => Option::Some((p3, seq![v] + vs)),
                Option::None => Option::Some((p2, seq![v])),
            }
        } else {
            Option::Some((p2, seq![v]))
        },
    }
}

/// Zero or more inline nodes.
pub open spec fn spec_text_modifiers0(s: Seq<char>, pos: int) -> (int, Seq<ObjView>)
    recommends
        0 <= pos <= s.len(),
{
    match spec_text_modifiers(s, pos) {
        Option::Some((p2, vs)) => (p2, vs),
        Option::None => (pos, Seq::empty()),
    }
}

fn basic_end(s: &Vec<char>, pos: usize) -> (r: usize)
    requires
        pos <= s@.len(),
    ensures
        r == spec_basic_end(s@, pos as int),
        pos <= r <= s@.len(),
    decreases s@.len() - pos,
{
    let chunk: Option<usize> = if pos < s.len() && s[pos] == '$' && pos + 1 < s.len()
        && exec_is_currency_follow(s[pos + 1]) {
        Option::Some(run_currency(s, pos + 1))
    } else if pos < s.len() && !exec_is_basic_stop(s[pos]) {
        let e = run_basic_text(s, pos);
        proof {
            assert(spec_run(s@, pos as int, |c: char| !is_basic_stop(c)) == spec_run(
                s@,
                pos as int + 1,
                |c: char| !is_basic_stop(c),
            ));
            lemma_spec_run(s@, pos as int + 1, |c: char| !is_basic_stop(c));
        }
        Option::Some(e)
    } else {
        Option::None
    };
    match chunk {
        Option::None => pos,
        Option::Some(e) => if pos < e && e <= s.len() {
            basic_end(s, e)
        } else {
            pos
        },
    }
}

fn p_basic(s: &Vec<char>, pos: usize) -> (r: Option<(usize, KnotsObject)>)
    requires
        pos <= s@.len(),
    ensures
        match r {
            Option::Some((p2, o)) => spec_basic(s@, pos as int) == Option::Some(
                (p2 as int, obj_view(o)),
            ) && pos < p2 <= s@.len() && o is BasicText,
            Option::None => spec_basic(s@, pos as int) is None,
        },
{
    let e = basic_end(s, pos);
    if e > pos {
        let contents = segment_string(s, pos, e);
        Option::Some((e, KnotsObject::BasicText(BasicText { contents })))
    } else {
        Option::None
    }
}

fn p_link(s: &Vec<char>, pos: usize) -> (r: Option<(usize, KnotsObject)>)
    requires
        pos <= s@.len(),
    ensures
        match r {
            Option::Some((p2, o)) => spec_link(s@, pos as int) == Option::Some(
                (p2 as int, obj_view(o)),
            ) && pos < p2 <= s@.len() && o is Link,
            Option::None => spec_link(s@, pos as int) is None,
        },
{
    if pos < s.len() && s[pos] == '[' {
        match find_char(s, pos + 1, ']') {
            Option::Some(j) => if j + 1 < s.len() && s[j + 1] == '(' {
                match find_char(s, j + 2, ')') {
                    Option::Some(k) => {
                        let name = segment_string(s, pos + 1, j);
                        let link = segment_string(s, j + 2, k);
                        Option::Some((k + 1, KnotsObject::Link(Link { name, link })))
                    },
                    Option::None => Option::None,
                }
            } else {
                Option::None
            },
            Option::None => Option::None,
        }
    } else {
        Option::None
    }
}

fn p_inline_maths(s: &Vec<char>, pos: usize) -> (r: Option<(usize, KnotsObject)>)
    requires
        pos <= s@.len(),
    ensures
        match r {
            Option::Some((p2, o)) => spec_inline_maths(s@, pos as int) == Option::Some(
                (p2 as int, obj_view(o)),
            ) && pos < p2 <= s@.len() && o is InlineMaths,
            Option::None => spec_inline_maths(s@, pos as int) is None,
        },
{
    if pos < s.len() && s[pos] == '$' && pos + 1 < s.len() && !exec_is_currency_follow(
        s[pos + 1],
    ) {
        let e = run_not_char(s, pos + 1, '$');
        if e > pos + 1 && e < s.len() && s[e] == '$' {
            let contents = segment_string(s, pos + 1, e);
            Option::Some((e + 1, KnotsObject::InlineMaths(InlineMaths { contents })))
        } else {
            Option::None
        }
    } else {
        Option::None
    }
}

fn p_inline_code(s: &Vec<char>, pos: usize) -> (r: Option<(usize, KnotsObject)>)
    requires
        pos <= s@.len(),
    ensures
        match r {
            Option::Some((p2, o)) => spec_inline_code(s@, pos as int) == Option::Some(
                (p2 as int, obj_view(o)),
            ) && pos < p2 <= s@.len() && o is InlineCode,
            Option::None => spec_inline_code(s@, pos as int) is None,
        },
{
    if pos < s.len() && s[pos] == '`' {
        let e = run_not_char(s, pos + 1, '`');
        if e > pos + 1 && e < s.len() && s[e] == '`' {
            let contents = segment_string(s, pos + 1, e);
            Option::Some((e + 1, KnotsObject::InlineCode(InlineCode { contents })))
        } else {
            Option::None
        }
    } else {
        Option::None
    }
}

fn p_bold1(s: &Vec<char>, pos: usize) -> (r: Option<(usize, KnotsObject)>)
    requires
        pos <= s@.len(),
    ensures
        match r {
            Option::Some((p2, o)) => spec_bold1(s@, pos as int) == Option::Some(
                (p2 as int, obj_view(o)),
            ) && pos < p2 <= s@.len() && stack_neutral(obj_view(o)) && renderable(obj_view(o)) && (
            forall|st: Seq<(Seq<char>, Seq<u8>)>|
                #[trigger] crate::knots_objects::images_available(obj_view(o), st)),
            Option::None => spec_bold1(s@, pos as int) is None,
        },
    decreases s@.len() - pos, 0int,
{
    if s.len() >= 2 && pos <= s.len() - 2 && s[pos] == '*' && s[pos + 1] == '*' {
        match p_text_modifiers(s, pos + 2) {
            Option::Some((p2, objs)) => {
                if p2 <= s.len() - 2 && s[p2] == '*' && s[p2 + 1] == '*' {
                    let ghost vs = views_of(objs@);
                    let node = KnotsObject::Bold(Bold { contents: objs });
                    proof {
                        assert forall|st: Seq<(Seq<char>, Seq<u8>)>|
                            #[trigger] crate::knots_objects::images_available(
                                obj_view(node),
                                st,
                            ) by {
                            assert(crate::knots_objects::all_images_available(vs, st));
                        }
                    }
                    Option::Some((p2 + 2, node))
                } else {
                    Option::None
                }
            },
            Option::None => Option::None,
        }
    } else {
        Option::None
    }
}

fn p_bold2(s: &Vec<char>, pos: usize) -> (r: Option<(usize, KnotsObject)>)
    requires
        pos <= s@.len(),
    ensures
        match r {
            Option::Some((p2, o)) => spec_bold2(s@, pos as int) == Option::Some(
                (p2 as int, obj_view(o)),
            ) && pos < p2 <= s@.len() && stack_neutral(obj_view(o)) && renderable(obj_view(o)) && (
            forall|st: Seq<(Seq<char>, Seq<u8>)>|
                #[trigger] crate::knots_objects::images_available(obj_view(o), st)),
            Option::None => spec_bold2(s@, pos as int) is None,
        },
    decreases s@.len() - pos, 0int,
{
    if s.len() >= 2 && pos <= s.len() - 2 && s[pos] == '_' && s[pos + 1] == '_' {
        match p_text_modifiers(s, pos + 2) {
            Option::Some((p2, objs)) => {
                if p2 <= s.len() - 2 && s[p2] == '_' && s[p2 + 1] == '_' {
                    let ghost vs = views_of(objs@);
                    let node = KnotsObject::Bold(Bold { contents: objs });
                    proof {
                        assert forall|st: Seq<(Seq<char>, Seq<u8>)>|
                            #[trigger] crate::knots_objects::images_available(
                                obj_view(node),
                                st,
                            ) by {
                            assert(crate::knots_objects::all_images_available(vs, st));
                        }
                    }
                    Option::Some((p2 + 2, node))
                } else {
                    Option::None
                }
            },
            Option::None => Option::None,
        }
    } else {
        Option::None
    }
}

fn p_italic1(s: &Vec<char>, pos: usize) -> (r: Option<(usize, KnotsObject)>)
    requires
        pos <= s@.len(),
    ensures
        match r {
            Option::Some((p2, o)) => spec_italic1(s@, pos as int) == Option::Some(
                (p2 as int, obj_view(o)),
            ) && pos < p2 <= s@.len() && stack_neutral(obj_view(o)) && renderable(obj_view(o)) && (
            forall|st: Seq<(Seq<char>, Seq<u8>)>|
                #[trigger] crate::knots_objects::images_available(obj_view(o), st)),
            Option::None => spec_italic1(s@, pos as int) is None,
        },
    decreases s@.len() - pos, 0int,
{
    if pos < s.len() && s[pos] == '*' {
        match p_text_modifiers(s, pos + 1) {
            Option::Some((p2, objs)) => {
                if p2 < s.len() && s[p2] == '*' {
                    let ghost vs = views_of(objs@);
                    let node = KnotsObject::Italic(Italic { contents: objs });
                    proof {
                        assert forall|st: Seq<(Seq<char>, Seq<u8>)>|
                            #[trigger] crate::knots_objects::images_available(
                                obj_view(node),
                                st,
                            ) by {
                            assert(crate::knots_objects::all_images_available(vs, st));
                        }
                    }
                    Option::Some((p2 + 1, node))
                } else {
                    Option::None
                }
            },
            Option::None => Option::None,
        }
    } else {
        Option::None
    }
}

fn p_italic2(s: &Vec<char>, pos: usize) -> (r: Option<(usize, KnotsObject)>)
    requires
        pos <= s@.len(),
    ensures
        match r {
            Option::Some((p2, o)) => spec_italic2(s@, pos as int) == Option::Some(
                (p2 as int, obj_view(o)),
            ) && pos < p2 <= s@.len() && stack_neutral(obj_view(o)) && renderable(obj_view(o)) && (
            forall|st: Seq<(Seq<char>, Seq<u8>)>|
                #[trigger] crate::knots_objects::images_available(obj_view(o), st)),
            Option::None => spec_italic2(s@, pos as int) is None,
        },
    decreases s@.len() - pos, 0int,
{
    if pos < s.len() && s[pos] == '_' {
        match p_text_modifiers(s, pos + 1) {
            Option::Some((p2, objs)) => {
                if p2 < s.len() && s[p2] == '_' {
                    let ghost vs = views_of(objs@);
                    let node = KnotsObject::Italic(Italic { contents: objs });
                    proof {
                        assert forall|st: Seq<(Seq<char>, Seq<u8>)>|
                            #[trigger] crate::knots_objects::images_available(
                                obj_view(node),
                                st,
                            ) by {
                            assert(crate::knots_objects::all_images_available(vs, st));
                        }
                    }
                    Option::Some((p2 + 1, node))
                } else {
                    Option::None
                }
            },
            Option::None => Option::None,
        }
    } else {
        Option::None
    }
}

fn p_any_text_modifier(s: &Vec<char>, pos: usize) -> (r: Option<(usize, KnotsObject)>)
    requires
        pos <= s@.len(),
    ensures
        match r {
            Option::Some((p2, o)) => spec_any_text_modifier(s@, pos as int) == Option::Some(
                (p2 as int, obj_view(o)),
            ) && pos < p2 <= s@.len() && stack_neutral(obj_view(o)) && renderable(obj_view(o)) && (
            forall|st: Seq<(Seq<char>, Seq<u8>)>|
                #[trigger] crate::knots_objects::images_available(obj_view(o), st)),
            Option::None => spec_any_text_modifier(s@, pos as int) is None,
        },
    decreases s@.len() - pos, 1int,
{
    let r = p_link(s, pos);
    if r.is_some() {
        return r;
    }
    let r = p_bold1(s, pos);
    if r.is_some() {
        return r;
    }
    let r = p_bold2(s, pos);
    if r.is_some() {
        return r;
    }
    let r = p_italic1(s, pos);
    if r.is_some() {
        return r;
    }
    let r = p_italic2(s, pos);
    if r.is_some() {
        return r;
    }
    let r = p_inline_maths(s, pos);
    if r.is_some() {
        return r;
    }
    let r = p_inline_code(s, pos);
    if r.is_some() {
        return r;
    }
    p_basic(s, pos)
}

fn p_text_modifiers(s: &Vec<char>, pos: usize) -> (r: Option<(usize, Vec<KnotsObject>)>)
    requires
        pos <= s@.len(),
    ensures
        match r {
            Option::Some((p2, objs)) => spec_text_modifiers(s@, pos as int) == Option::Some(
                (p2 as int, views_of(objs@)),
            ) && pos < p2 <= s@.len() && objs@.len() > 0 && all_stack_neutral(views_of(objs@))
                && all_renderable(views_of(objs@)) && (forall|st: Seq<(Seq<char>, Seq<u8>)>|
                #[trigger] crate::knots_objects::all_images_available(views_of(objs@), st)),
            Option::None => spec_text_modifiers(s@, pos as int) is None,
        },
    decreases s@.len() - pos, 2int,
{
    let first = p_any_text_modifier(s, pos);
    match first {
        Option::None => Option::None,
        Option::Some((p1, v1)) => {
            let ghost vv1 = obj_view(v1);
            let mut objs: Vec<KnotsObject> = Vec::new();
            objs.push(v1);
            let mut p = p1;
            proof {
                lemma_views_of(objs@);
                assert(objs@[0] == objs@.last());
                assert(views_of(objs@) =~= seq![vv1]);
            }
            loop
                invariant
                    pos < p <= s@.len(),
                    objs@.len() > 0,
                    views_of(objs@).len() == objs@.len(),
                    (match spec_text_modifiers(s@, p as int) {
                        Option::Some((pe, vs)) => spec_text_modifiers(s@, pos as int)
                            == Option::Some((pe, views_of(objs@) + vs)),
                        Option::None => spec_text_modifiers(s@, pos as int) == Option::Some(
                            (p as int, views_of(objs@)),
                        ),
                    }),
                    forall|j: int|
                        0 <= j < views_of(objs@).len() ==> stack_neutral(
                            #[trigger] views_of(objs@)[j],
                        ) && renderable(views_of(objs@)[j]),
                    forall|j: int, st: Seq<(Seq<char>, Seq<u8>)>|
                        0 <= j < views_of(objs@).len()
                            ==> #[trigger] crate::knots_objects::images_available(
                            views_of(objs@)[j],
                            st,
                        ),
                ensures
                    spec_any_text_modifier(s@, p as int) is None,
                decreases s@.len() - p,
            {
                let step = p_any_text_modifier(s, p);
                match step {
                    Option::None => {
                        break ;
                    },
                    Option::Some((p2, v)) => {
                        let ghost oldobjs = objs@;
                        let ghost oldviews = views_of(objs@);
                        let ghost vv = obj_view(v);
                        objs.push(v);
                        proof {
                            crate::knots_objects::lemma_views_of_push(oldobjs, objs@.last());
                            assert(views_of(objs@) =~= oldviews + seq![vv]);
                            match spec_text_modifiers(s@, p2 as int) {
                                Option::Some((pe, vs)) => {
                                    assert(oldviews + (seq![vv] + vs) =~= views_of(objs@) + vs);
                                },
                                Option::None => {
                                    assert(oldviews + seq![vv] =~= views_of(objs@));
                                },
                            }
                            assert forall|j: int|
                                0 <= j < views_of(objs@).len() implies stack_neutral(
                                #[trigger] views_of(objs@)[j],
                            ) && renderable(views_of(objs@)[j]) by {
                                if j < oldviews.len() {
                                    assert(views_of(objs@)[j] == oldviews[j]);
                                } else {
                                    assert(views_of(objs@)[j] == vv);
                                }
                            }
                            assert forall|j: int, st: Seq<(Seq<char>, Seq<u8>)>|
                                0 <= j < views_of(objs@).len()
                                    implies #[trigger] crate::knots_objects::images_available(
                                views_of(objs@)[j],
                                st,
                            ) by {
                                if j < oldviews.len() {
                                    assert(views_of(objs@)[j] == oldviews[j]);
                                    assert(crate::knots_objects::images_available(oldviews[j], st));
                                } else {
                                    assert(views_of(objs@)[j] == vv);
                                    assert(crate::knots_objects::images_available(vv, st));
                                }
                            }
                        }
                        p = p2;
                    },
                }
            }
            proof {
                crate::knots_objects::lemma_all_stack_neutral_from_forall(views_of(objs@));
                crate::knots_objects::lemma_all_renderable_from_forall(views_of(objs@));
                assert forall|st: Seq<(Seq<char>, Seq<u8>)>|
                    #[trigger] crate::knots_objects::all_images_available(
                        views_of(objs@),
                        st,
                    ) by {
                    crate::knots_objects::lemma_all_images_available_from_forall(
                        views_of(objs@),
                        st,
                    );
                }
            }
            Option::Some((p, objs))
        },
    }
}

// ---------------------------------------------------------------------------
// The block grammar: alternatives tried in strict priority order at each
// block boundary; the first whose prefix matches wins.
// ---------------------------------------------------------------------------
/// Lowercases one ASCII letter.
pub open spec fn spec_lower_char(c: char) -> char {
    if c as u32 <= 127 && 65 <= c as u8 && c as u8 <= 90 {
        (((c as u8) + 32) as char)
    } else {
        c
    }
}

/// Lowercases a token character by character.
pub open spec fn spec_lower(s: Seq<char>) -> Seq<char> {
    Seq::new(s.len(), |i: int| spec_lower_char(s[i]))
}

/// The end of the heading text: trailing blank space is not part of it.
pub open spec fn spec_trim_end(s: Seq<char>, a: int, e: int) -> int
    recommends
        0 <= a <= e <= s.len(),
    decreases e - a,
{
    if e > a && is_inline_space(s[e - 1]) {
        spec_trim_end(s, a, e - 1)
    } else {
        e
    }
}

/// A horizontal rule: three of the same rule character, then any mix of rule
/// characters, then the end of the line.
pub open spec fn spec_hr(s: Seq<char>, pos: int) -> Option<(int, ObjView)>
    recommends
        0 <= pos <= s.len(),
{
    if spec_lit3(s, pos, '*', '*', '*') || spec_lit3(s, pos, '-', '-', '-') || spec_lit3(
        s,
        pos,
        '_',
        '_',
        '_',
    ) {
        let e = spec_run(s, pos + 3, |c: char| is_hr_char(c));
        match spec_eolf(s, e) {
            Option::Some(p2) => Option::Some((p2, ObjView::HorizontalRule)),
            Option::None => Option::None,
        }
    } else {
        Option::None
    }
}

/// The text of a heading after its marker: surrounding blanks trimmed, the
/// line ending consumed.
pub open spec fn spec_title_body(s: Seq<char>, pos: int, level: u8) -> Option<(int, ObjView)>
    recommends
        0 <= pos <= s.len(),
{
    let a = spec_run(s, pos, |c: char| is_inline_space(c));
    let e = spec_run(s, a, |c: char| is_not_line_ending(c));
    let b = spec_trim_end(s, a, e);
    match spec_eolf(s, e) {
        Option::Some(p2) => Option::Some(
            (p2, ObjView::Title { contents: s.subrange(a, b), level }),
        ),
        Option::None => Option::None,
    }
}

/// A level-three heading.
pub open spec fn spec_lvl3_title(s: Seq<char>, pos: int) -> Option<(int, ObjView)>
    recommends
        0 <= pos <= s.len(),
{
    if spec_lit3(s, pos, '#', '#', '#') {
        spec_title_body(s, pos + 3, 3)
    } else {
        Option::None
    }
}

/// A level-two heading.
pub open spec fn spec_lvl2_title(s: Seq<char>, pos: int) -> Option<(int, ObjView)>
    recommends
        0 <= pos <= s.len(),
{
    if spec_lit2(s, pos, '#', '#') {
        spec_title_body(s, pos + 2, 2)
    } else {
        Option::None
    }
}

/// A level-one heading.
pub open spec fn spec_lvl1_title(s: Seq<char>, pos: int) -> Option<(int, ObjView)>
    recommends
        0 <= pos <= s.len(),
{
    if spec_lit1(s, pos, '#') {
        spec_title_body(s, pos + 1, 1)
    } else {
        Option::None
    }
}

/// A fenced block: an optional language token on the fence line, raw contents
/// up to the closing fence; the diagram keyword selects a diagram block.
pub open spec fn spec_code_block(s: Seq<char>, pos: int) -> Option<(int, ObjView)>
    recommends
        0 <= pos <= s.len(),
{
    if spec_lit3(s, pos, '`', '`', '`') {
        let le = spec_run(s, pos + 3, |c: char| is_alnum(c));
        let body = if le < s.len() && s[le] == '\n' {
            Option::Some(le + 1)
        } else if le < s.len() && s[le] == '\r' && le + 1 < s.len() && s[le + 1] == '\n' {
            Option::Some(le + 2)
        } else {
            Option::None
        };
        match body {
            Option::Some(b) => match spec_find3(s, b, '`', '`', '`') {
                Option::Some(j) => {
                    let contents = s.subrange(b, j);
                    if le == pos + 3 {
                        Option::Some(
                            (j + 3, ObjView::CodeBlock { contents, lang: Option::None }),
                        )
                    } else {
                        let lang = spec_lower(s.subrange(pos + 3, le));
                        if lang == "mermaid"@ {
                            Option::Some((j + 3, ObjView::Mermaid { contents }))
                        } else {
                            Option::Some(
                                (j + 3, ObjView::CodeBlock { contents, lang: Option::Some(lang) }),
                            )
                        }
                    }
                },
                Option::None => Option::None,
            },
            Option::None => Option::None,
        }
    } else {
        Option::None
    }
}

/// Display maths: contents taken verbatim between doubled dollar signs.
pub open spec fn spec_maths_block(s: Seq<char>, pos: int) -> Option<(int, ObjView)>
    recommends
        0 <= pos <= s.len(),
{
    if spec_lit2(s, pos, '$', '$') {
        match spec_find2(s, pos + 2, '$', '$') {
            Option::Some(j) => Option::Some(
                (j + 2, ObjView::MathsBlock { contents: s.subrange(pos + 2, j) }),
            ),
            Option::None => Option::None,
        }
    } else {
        Option::None
    }
}

/// An image: a bang, then a link shape giving alternative text and target.
pub open spec fn spec_image(s: Seq<char>, pos: int) -> Option<(int, ObjView)>
    recommends
        0 <= pos <= s.len(),
{
    if pos < s.len() && s[pos] == '!' {
        match spec_link(s, pos + 1) {
            Option::Some((p2, ObjView::Link { name, link })) => Option::Some(
                (p2, ObjView::Image { alt: name, link }),
            ),
            _ => Option::None,
        }
    } else {
        Option::None
    }
}

/// A callout box or quote body: inline content up to the end of the line.
pub open spec fn spec_inline_line(s: Seq<char>, pos: int) -> Option<(int, Seq<ObjView>)>
    recommends
        0 <= pos <= s.len(),
{
    match spec_text_modifiers(s, pos) {
        Option::Some((p2, vs)) => match spec_eolf(s, p2) {
            Option::Some(p3) => Option::Some((p3, vs)),
            Option::None => Option::None,
        },
        Option::None => Option::None,
    }
}

/// An info box.
pub open spec fn spec_info_box(s: Seq<char>, pos: int) -> Option<(int, ObjView)>
    recommends
        0 <= pos <= s.len(),
{
    if spec_lit2(s, pos, '?', '>') {
        match spec_inline_line(s, pos + 2) {
            Option::Some((p2, vs)) => Option::Some((p2, ObjView::InfoBox { contents: vs })),
            Option::None => Option::None,
        }
    } else {
        Option::None
    }
}

/// A warning box.
pub open spec fn spec_warning_box(s: Seq<char>, pos: int) -> Option<(int, ObjView)>
    recommends
        0 <= pos <= s.len(),
{
    if spec_lit2(s, pos, '!', '>') {
        match spec_inline_line(s, pos + 2) {
            Option::Some((p2, vs)) => Option::Some((p2, ObjView::WarningBox { contents: vs })),
            Option::None => Option::None,
        }
    } else {
        Option::None
    }
}

/// An error box.
pub open spec fn spec_error_box(s: Seq<char>, pos: int) -> Option<(int, ObjView)>
    recommends
        0 <= pos <= s.len(),
{
    if spec_lit2(s, pos, 'x', '>') {
        match spec_inline_line(s, pos + 2) {
            Option::Some((p2, vs)) => Option::Some((p2, ObjView::ErrorBox { contents: vs })),
            Option::None => Option::None,
        }
    } else {
        Option::None
    }
}

/// A block quote.
pub open spec fn spec_block_quote(s: Seq<char>, pos: int) -> Option<(int, ObjView)>
    recommends
        0 <= pos <= s.len(),
{
    if spec_lit1(s, pos, '>') {
        match spec_inline_line(s, pos + 1) {
            Option::Some((p2, vs)) => Option::Some((p2, ObjView::BlockQuote { contents: vs })),
            Option::None => Option::None,
        }
    } else {
        Option::None
    }
}

/// A paragraph: inline content up to the end of the line.
pub open spec fn spec_paragraph(s: Seq<char>, pos: int) -> Option<(int, ObjView)>
    recommends
        0 <= pos <= s.len(),
{
    match spec_inline_line(s, pos) {
        Option::Some((p2, vs)) => Option::Some((p2, ObjView::Paragraph { contents: vs })),
        Option::None => Option::None,
    }
}

/// The exact indentation of a list level: four spaces or one tab per level.
pub open spec fn spec_indent(s: Seq<char>, pos: int, level: u8) -> Option<int>
    recommends
        0 <= pos <= s.len(),
{
    if pos + 4 * (level as int) <= s.len() && (forall|i: int|
        pos <= i < pos + 4 * (level as int) ==> s[i] == ' ') {
        Option::Some(pos + 4 * (level as int))
    } else if pos + (level as int) <= s.len() && (forall|i: int|
        pos <= i < pos + (level as int) ==> s[i] == '\t') {
        Option::Some(pos + (level as int))
    } else {
        Option::None
    }
}

/// One list item: its bullet line, then continuation lines one level deeper
/// and lists nested one level deeper.
pub open spec fn spec_list_item(s: Seq<char>, pos: int, level: u8) -> Option<(int, Seq<ObjView>)>
    recommends
        0 <= pos <= s.len(),
    decreases s.len() - pos, 0int,
{
    match spec_indent(s, pos, level) {
        Option::Some(p1) => if spec_lit1(s, p1, '-') && pos <= p1 {
            match spec_paragraph(s, p1 + 1) {
                Option::Some((p2, pv)) => if pos < p2 <= s.len() {
                    let rest = spec_item_conts(s, p2, level);
                    Option::Some((rest.0, seq![pv] + rest.1))
                } else {
                    Option::Some((p2, seq![pv]))
                },
                Option::None => Option::None,
            }
        } else {
            Option::None
        },
        Option::None => Option::None,
    }
}

/// The continuation of a list item: nested lists one level deeper, or
/// paragraph lines indented one level deeper.
pub open spec fn spec_item_conts(s: Seq<char>, pos: int, level: u8) -> (int, Seq<ObjView>)
    recommends
        0 <= pos <= s.len(),
    decreases s.len() - pos, 3int,
{
    if level < 255 {
        match spec_list(s, pos, (level + 1) as u8) {
            Option::Some((p2, lv)) => if pos < p2 <= s.len() {
                let rest = spec_item_conts(s, p2, level);
                (rest.0, seq![lv] + rest.1)
            } else {
                (pos, Seq::empty())
            },
            Option::None => match spec_indent(s, pos, (level + 1) as u8) {
                Option::Some(pi) => if pos <= pi <= s.len() {
                    match spec_paragraph(s, pi) {
                        Option::Some((p2, pv)) => if pos < p2 <= s.len() {
                            let rest = spec_item_conts(s, p2, level);
                            (rest.0, seq![pv] + rest.1)
                        } else {
                            (pos, Seq::empty())
                        },
                        Option::None => (pos, Seq::empty()),
                    }
                } else {
                    (pos, Seq::empty())
                },
                Option::None => (pos, Seq::empty()),
            },
        }
    } else {
        match spec_indent(s, pos, level) {
            Option::Some(pi) => (pos, Seq::empty()),
            Option::None => (pos, Seq::empty()),
        }
    }
}

/// The items of a list after the first.
pub open spec fn spec_list_items_rest(s: Seq<char>, pos: int, level: u8) -> (int, Seq<Seq<ObjView>>)
    recommends
        0 <= pos <= s.len(),
    decreases s.len() - pos, 1int,
{
    match spec_list_item(s, pos, level) {
        Option::Some((p1, item)) => if pos < p1 <= s.len() {
            let rest = spec_list_items_rest(s, p1, level);
            (rest.0, seq![item] + rest.1)
        } else {
            (pos, Seq::empty())
        },
        Option::None => (pos, Seq::empty()),
    }
}

/// A list: one or more items at the given nesting level.
pub open spec fn spec_list(s: Seq<char>, pos: int, level: u8) -> Option<(int, ObjView)>
    recommends
        0 <= pos <= s.len(),
    decreases s.len() - pos, 2int,
{
    match spec_list_item(s, pos, level) {
        Option::Some((p1, item)) => if pos < p1 <= s.len() {
            let rest = spec_list_items_rest(s, p1, level);
            Option::Some((rest.0, ObjView::List { items: seq![item] + rest.1 }))
        } else {
            Option::Some((p1, ObjView::List { items: seq![item] }))
        },
        Option::None => Option::None,
    }
}

/// One table cell: a pipe, trimmed inline content, the next pipe ahead.
pub open spec fn spec_table_cell(s: Seq<char>, pos: int) -> Option<(int, Seq<ObjView>)>
    recommends
        0 <= pos <= s.len(),
{
    if pos < s.len() && s[pos] == '|' {
        let a = spec_run(s, pos + 1, |c: char| is_inline_space(c));
        if a <= s.len() {
            let r = spec_text_modifiers0(s, a);
            let b = spec_run(s, r.0, |c: char| is_inline_space(c));
            if r.0 <= s.len() && b < s.len() && s[b] == '|' {
                Option::Some((b, r.1))
            } else {
                Option::None
            }
        } else {
            Option::None
        }
    } else {
        Option::None
    }
}

/// The cells of one row, each ending just before the pipe that opens the next.
pub open spec fn spec_table_cells(s: Seq<char>, pos: int) -> Option<(int, Seq<Seq<ObjView>>)>
    recommends
        0 <= pos <= s.len(),
    decreases s.len() - pos,
{
    match spec_table_cell(s, pos) {
        Option::Some((p1, vs)) => if pos < p1 <= s.len() {
            match spec_table_cells(s, p1) {
                Option::Some((pr, rest)) => Option::Some((pr, seq![vs] + rest)),
                Option::None => Option::Some((p1, seq![vs])),
            }
        } else {
            Option::Some((p1, seq![vs]))
        },
        Option::None => Option::None,
    }
}

/// One table row: cells, the closing pipe, the end of the line.
pub open spec fn spec_table_row(s: Seq<char>, pos: int) -> Option<(int, Seq<Seq<ObjView>>)>
    recommends
        0 <= pos <= s.len(),
{
    match spec_table_cells(s, pos) {
        Option::Some((p, cells)) => if p < s.len() && s[p] == '|' {
            match spec_eolf(s, p + 1) {
                Option::Some(p2) => Option::Some((p2, cells)),
                Option::None => Option::None,
            }
        } else {
            Option::None
        },
        Option::None => Option::None,
    }
}

/// The delimiter cells under a table header: pipes holding runs of dashes.
pub open spec fn spec_delim_cells(s: Seq<char>, pos: int) -> int
    recommends
        0 <= pos <= s.len(),
    decreases s.len() - pos,
{
    if pos < s.len() && s[pos] == '|' && pos + 1 < s.len() && s[pos + 1] == '-' {
        let e = spec_run(s, pos + 1, |c: char| c == '-');
        if pos < e <= s.len() {
            spec_delim_cells(s, e)
        } else {
            pos
        }
    } else {
        pos
    }
}

/// The delimiter line under a table header.
pub open spec fn spec_table_delim(s: Seq<char>, pos: int) -> Option<int>
    recommends
        0 <= pos <= s.len(),
{
    let e = spec_delim_cells(s, pos);
    if e > pos && e < s.len() && s[e] == '|' {
        let a = spec_run(s, e + 1, |c: char| is_inline_space(c));
        if a <= s.len() {
            match spec_eolf(s, a) {
                Option::Some(p2) => Option::Some(spec_run(s, p2, |c: char| is_inline_space(c))),
                Option::None => Option::None,
            }
        } else {
            Option::None
        }
    } else {
        Option::None
    }
}

/// The data rows of a table: one or more rows.
pub open spec fn spec_table_rows(s: Seq<char>, pos: int) -> Option<(int, Seq<Seq<Seq<ObjView>>>)>
    recommends
        0 <= pos <= s.len(),
    decreases s.len() - pos,
{
    match spec_table_row(s, pos) {
        Option::Some((p1, row)) => if pos < p1 <= s.len() {
            match spec_table_rows(s, p1) {
                Option::Some((pr, rest)) => Option::Some((pr, seq![row] + rest)),
                Option::None => Option::Some((p1, seq![row])),
            }
        } else {
            Option::Some((p1, seq![row]))
        },
        Option::None => Option::None,
    }
}

/// A table: a header row, the delimiter line, and data rows whose cell counts
/// must all equal the header's; a mismatch is a grammar failure.
pub open spec fn spec_table(s: Seq<char>, pos: int) -> Option<(int, ObjView)>
    recommends
        0 <= pos <= s.len(),
{
    match spec_table_row(s, pos) {
        Option::Some((p1, header)) => if p1 <= s.len() {
            match spec_table_delim(s, p1) {
                Option::Some(p2) => if 0 <= p2 <= s.len() {
                    match spec_table_rows(s, p2) {
                        Option::Some((p3, rows)) => if forall|i: int|
                            0 <= i < rows.len() ==> (#[trigger] rows[i]).len() == header.len() {
                            Option::Some((p3, ObjView::Table { header, rows }))
                        } else {
                            Option::None
                        },
                        Option::None => Option::None,
                    }
                } else {
                    Option::None
                },
                Option::None => Option::None,
            }
        } else {
            Option::None
        },
        Option::None => Option::None,
    }
}

/// One block: leading blank space, the first matching alternative in priority
/// order, trailing blank space.
pub open spec fn spec_any_object(s: Seq<char>, pos: int) -> Option<(int, ObjView)>
    recommends
        0 <= pos <= s.len(),
{
    let a = spec_run(s, pos, |c: char| is_multispace(c));
    if a <= s.len() {
        let r = match spec_hr(s, a) {
            Option::Some(r) => Option::Some(r),
            Option::None => match spec_lvl3_title(s, a) {
                Option::Some(r) => Option::Some(r),
                Option::None => match spec_lvl2_title(s, a) {
                    Option::Some(r) => Option::Some(r),
                    Option::None => match spec_lvl1_title(s, a) {
                        Option::Some(r) => Option::Some(r),
                        Option::None => match spec_list(s, a, 0) {
                            Option::Some(r) => Option::Some(r),
                            Option::None => match spec_table(s, a) {
                                Option::Some(r) => Option::Some(r),
                                Option::None => match spec_code_block(s, a) {
                                    Option::Some(r) => Option::Some(r),
                                    Option::None => match spec_maths_block(s, a) {
                                        Option::Some(r) => Option::Some(r),
                                        Option::None => match spec_image(s, a) {
                                            Option::Some(r) => Option::Some(r),
                                            Option::None => match spec_info_box(s, a) {
                                                Option::Some(r) => Option::Some(r),
                                                Option::None => match spec_warning_box(s, a) {
                                                    Option::Some(r) => Option::Some(r),
                                                    Option::None => match spec_error_box(s, a) {
                                                        Option::Some(r) => Option::Some(r),
                                                        Option::None => match spec_block_quote(
                                                            s,
                                                            a,
                                                        ) {
                                                            Option::Some(r) => Option::Some(r),
                                                            Option::None => spec_paragraph(s, a),
                                                        },
                                                    },
                                                },
                                            },
                                        },
                                    },
                                },
                            },
                        },
                    },
                },
            },
        };
        match r {
            Option::Some((p2, v)) => if 0 <= p2 <= s.len() {
                Option::Some((spec_run(s, p2, |c: char| is_multispace(c)), v))
            } else {
                Option::Some((p2, v))
            },
            Option::None => Option::None,
        }
    } else {
        Option::None
    }
}

/// All blocks of the document body, in order.
pub open spec fn spec_objects(s: Seq<char>, pos: int) -> (int, Seq<ObjView>)
    recommends
        0 <= pos <= s.len(),
    decreases s.len() - pos,
{
    match spec_any_object(s, pos) {
        Option::Some((p1, v)) => if pos < p1 <= s.len() {
            let rest = spec_objects(s, p1);
            (rest.0, seq![v] + rest.1)
        } else {
            (pos, Seq::empty())
        },
        Option::None => (pos, Seq::empty()),
    }
}

fn trim_end(s: &Vec<char>, a: usize, e: usize) -> (r: usize)
    requires
        a <= e <= s@.len(),
    ensures
        r == spec_trim_end(s@, a as int, e as int),
        a <= r <= e,
    decreases e - a,
{
    if e > a && exec_is_inline_space(s[e - 1]) {
        trim_end(s, a, e - 1)
    } else {
        e
    }
}

fn lower_segment(s: &Vec<char>, from: usize, to: usize) -> (r: String)
    requires
        from <= to <= s@.len(),
    ensures
        r@ == spec_lower(s@.subrange(from as int, to as int)),
{
    let ghost seg = s@.subrange(from as int, to as int);
    let mut out = String::new();
    let mut i: usize = from;
    while i < to
        invariant
            from <= i <= to <= s@.len(),
            seg == s@.subrange(from as int, to as int),
            out@.len() == i - from,
            forall|j: int| 0 <= j < out@.len() ==> out@[j] == spec_lower_char(seg[j]),
        decreases to - i,
    {
        let c = s[i];
        let u = c as u32;
        let b = c as u8;
        let lc: char = if u <= 127 && 65 <= b && b <= 90 {
            (b + 32) as char
        } else {
            c
        };
        crate::utils::push_char(&mut out, lc);
        i = i + 1;
    }
    proof {
        assert(out@ =~= spec_lower(seg));
    }
    out
}

fn match_indent(s: &Vec<char>, pos: usize, level: u8) -> (r: Option<usize>)
    requires
        pos <= s@.len(),
    ensures
        match r {
            Option::Some(p) => spec_indent(s@, pos as int, level) == Option::Some(p as int) && pos
                <= p <= s@.len(),
            Option::None => spec_indent(s@, pos as int, level) is None,
        },
{
    let d = s.len() - pos;
    let spaces = (level as usize) * 4;
    if spaces <= d {
        let mut i: usize = 0;
        let mut all_spaces = true;
        while i < spaces
            invariant
                i <= spaces,
                spaces <= d,
                d == s@.len() - pos,
                s@.len() <= usize::MAX,
                all_spaces == (forall|j: int| pos <= j < pos + i ==> s@[j] == ' '),
            decreases spaces - i,
        {
            if s[pos + i] != ' ' {
                all_spaces = false;
            }
            proof {
                if s@[pos + i] != ' ' {
                    assert(!(forall|j: int| pos <= j < pos + i + 1 ==> s@[j] == ' '));
                } else {
                    if all_spaces {
                        assert(forall|j: int| pos <= j < pos + i + 1 ==> s@[j] == ' ');
                    } else {
                        assert(!(forall|j: int| pos <= j < pos + i ==> s@[j] == ' '));
                        assert(!(forall|j: int| pos <= j < pos + i + 1 ==> s@[j] == ' '));
                    }
                }
            }
            i = i + 1;
        }
        if all_spaces {
            return Option::Some(pos + spaces);
        }
    }
    let tabs = level as usize;
    if tabs <= d {
        let mut i: usize = 0;
        let mut all_tabs = true;
        while i < tabs
            invariant
                i <= tabs,
                tabs <= d,
                d == s@.len() - pos,
                s@.len() <= usize::MAX,
                all_tabs == (forall|j: int| pos <= j < pos + i ==> s@[j] == '\t'),
            decreases tabs - i,
        {
            if s[pos + i] != '\t' {
                all_tabs = false;
            }
            proof {
                if s@[pos + i] != '\t' {
                    assert(!(forall|j: int| pos <= j < pos + i + 1 ==> s@[j] == '\t'));
                } else {
                    if all_tabs {
                        assert(forall|j: int| pos <= j < pos + i + 1 ==> s@[j] == '\t');
                    } else {
                        assert(!(forall|j: int| pos <= j < pos + i ==> s@[j] == '\t'));
                        assert(!(forall|j: int| pos <= j < pos + i + 1 ==> s@[j] == '\t'));
                    }
                }
            }
            i = i + 1;
        }
        if all_tabs {
            return Option::Some(pos + tabs);
        }
    }
    Option::None
}

fn p_hr(s: &Vec<char>, pos: usize) -> (r: Option<(usize, KnotsObject)>)
    requires
        pos <= s@.len(),
    ensures
        match r {
            Option::Some((p2, o)) => spec_hr(s@, pos as int) == Option::Some(
                (p2 as int, obj_view(o)),
            ) && pos < p2 <= s@.len() && stack_neutral(obj_view(o)) && renderable(obj_view(o)),
            Option::None => spec_hr(s@, pos as int) is None,
        },
{
    if s.len() >= 3 && pos <= s.len() - 3 && ((s[pos] == '*' && s[pos + 1] == '*' && s[pos + 2]
        == '*') || (s[pos] == '-' && s[pos + 1] == '-' && s[pos + 2] == '-') || (s[pos] == '_'
        && s[pos + 1] == '_' && s[pos + 2] == '_')) {
        let e = run_hr_chars(s, pos + 3);
        match eolf(s, e) {
            Option::Some(p2) => Option::Some(
                (p2, KnotsObject::HorizontalRule(HorizontalRule {  })),
            ),
            Option::None => Option::None,
        }
    } else {
        Option::None
    }
}

fn p_title_body(s: &Vec<char>, pos: usize, level: u8) -> (r: Option<(usize, KnotsObject)>)
    requires
        pos <= s@.len(),
        1 <= level <= 3,
    ensures
        match r {
            Option::Some((p2, o)) => spec_title_body(s@, pos as int, level) == Option::Some(
                (p2 as int, obj_view(o)),
            ) && pos <= p2 <= s@.len() && renderable(obj_view(o)) && crate::knots_objects::container_safe(
                obj_view(o),
            ),
            Option::None => spec_title_body(s@, pos as int, level) is None,
        },
{
    let a = run_inline_space(s, pos);
    let e = run_not_line_ending(s, a);
    let b = trim_end(s, a, e);
    match eolf(s, e) {
        Option::Some(p2) => {
            let contents = segment_string(s, a, b);
            Option::Some((p2, KnotsObject::Title(Title { contents, level })))
        },
        Option::None => Option::None,
    }
}

fn p_lvl3_title(s: &Vec<char>, pos: usize) -> (r: Option<(usize, KnotsObject)>)
    requires
        pos <= s@.len(),
    ensures
        match r {
            Option::Some((p2, o)) => spec_lvl3_title(s@, pos as int) == Option::Some(
                (p2 as int, obj_view(o)),
            ) && pos < p2 <= s@.len() && renderable(obj_view(o)) && crate::knots_objects::container_safe(
                obj_view(o),
            ),
            Option::None => spec_lvl3_title(s@, pos as int) is None,
        },
{
    if s.len() >= 3 && pos <= s.len() - 3 && s[pos] == '#' && s[pos + 1] == '#' && s[pos + 2]
        == '#' {
        p_title_body(s, pos + 3, 3)
    } else {
        Option::None
    }
}

fn p_lvl2_title(s: &Vec<char>, pos: usize) -> (r: Option<(usize, KnotsObject)>)
    requires
        pos <= s@.len(),
    ensures
        match r {
            Option::Some((p2, o)) => spec_lvl2_title(s@, pos as int) == Option::Some(
                (p2 as int, obj_view(o)),
            ) && pos < p2 <= s@.len() && renderable(obj_view(o)) && crate::knots_objects::container_safe(
                obj_view(o),
            ),
            Option::None => spec_lvl2_title(s@, pos as int) is None,
        },
{
    if s.len() >= 2 && pos <= s.len() - 2 && s[pos] == '#' && s[pos + 1] == '#' {
        p_title_body(s, pos + 2, 2)
    } else {
        Option::None
    }
}

fn p_lvl1_title(s: &Vec<char>, pos: usize) -> (r: Option<(usize, KnotsObject)>)
    requires
        pos <= s@.len(),
    ensures
        match r {
            Option::Some((p2, o)) => spec_lvl1_title(s@, pos as int) == Option::Some(
                (p2 as int, obj_view(o)),
            ) && pos < p2 <= s@.len() && renderable(obj_view(o)) && crate::knots_objects::container_safe(
                obj_view(o),
            ),
            Option::None => spec_lvl1_title(s@, pos as int) is None,
        },
{
    if pos < s.len() && s[pos] == '#' {
        p_title_body(s, pos + 1, 1)
    } else {
        Option::None
    }
}

fn p_code_block(s: &Vec<char>, pos: usize) -> (r: Option<(usize, KnotsObject)>)
    requires
        pos <= s@.len(),
    ensures
        match r {
            Option::Some((p2, o)) => spec_code_block(s@, pos as int) == Option::Some(
                (p2 as int, obj_view(o)),
            ) && pos < p2 <= s@.len() && renderable(obj_view(o)) && crate::knots_objects::container_safe(
                obj_view(o),
            ),
            Option::None => spec_code_block(s@, pos as int) is None,
        },
{
    if s.len() >= 3 && pos <= s.len() - 3 && s[pos] == '`' && s[pos + 1] == '`' && s[pos + 2]
        == '`' {
        let le = run_alnum(s, pos + 3);
        let body: Option<usize> = if le < s.len() && s[le] == '\n' {
            Option::Some(le + 1)
        } else if le < s.len() && s[le] == '\r' && le + 1 < s.len() && s[le + 1] == '\n' {
            Option::Some(le + 2)
        } else {
            Option::None
        };
        match body {
            Option::Some(b) => match find3(s, b, '`', '`', '`') {
                Option::Some(j) => {
                    let contents = segment_string(s, b, j);
                    if le == pos + 3 {
                        Option::Some(
                            (
                                j + 3,
                                KnotsObject::CodeBlock(
                                    CodeBlock { contents, lang: Option::None },
                                ),
                            ),
                        )
                    } else {
                        let lang = lower_segment(s, pos + 3, le);
                        if crate::utils::str_eq(lang.as_str(), "mermaid") {
                            Option::Some((j + 3, KnotsObject::Mermaid(Mermaid { contents })))
                        } else {
                            Option::Some(
                                (
                                    j + 3,
                                    KnotsObject::CodeBlock(
                                        CodeBlock { contents, lang: Option::Some(lang) },
                                    ),
                                ),
                            )
                        }
                    }
                },
                Option::None => Option::None,
            },
            Option::None => Option::None,
        }
    } else {
        Option::None
    }
}

fn p_maths_block(s: &Vec<char>, pos: usize) -> (r: Option<(usize, KnotsObject)>)
    requires
        pos <= s@.len(),
    ensures
        match r {
            Option::Some((p2, o)) => spec_maths_block(s@, pos as int) == Option::Some(
                (p2 as int, obj_view(o)),
            ) && pos < p2 <= s@.len() && stack_neutral(obj_view(o)) && renderable(obj_view(o)),
            Option::None => spec_maths_block(s@, pos as int) is None,
        },
{
    if s.len() >= 2 && pos <= s.len() - 2 && s[pos] == '$' && s[pos + 1] == '$' {
        match find2(s, pos + 2, '$', '$') {
            Option::Some(j) => {
                let contents = segment_string(s, pos + 2, j);
                Option::Some((j + 2, KnotsObject::MathsBlock(MathsBlock { contents })))
            },
            Option::None => Option::None,
        }
    } else {
        Option::None
    }
}

fn p_image(s: &Vec<char>, pos: usize) -> (r: Option<(usize, KnotsObject)>)
    requires
        pos <= s@.len(),
    ensures
        match r {
            Option::Some((p2, o)) => spec_image(s@, pos as int) == Option::Some(
                (p2 as int, obj_view(o)),
            ) && pos < p2 <= s@.len() && renderable(obj_view(o)) && crate::knots_objects::container_safe(
                obj_view(o),
            ),
            Option::None => spec_image(s@, pos as int) is None,
        },
{
    if pos < s.len() && s[pos] == '!' {
        match p_link(s, pos + 1) {
            Option::Some((p2, o)) => match o {
                KnotsObject::Link(l) => Option::Some(
                    (p2, KnotsObject::Image(Image { alt: l.name, link: l.link })),
                ),
                _ => vstd::pervasive::unreached(),
            },
            Option::None => Option::None,
        }
    } else {
        Option::None
    }
}

fn p_inline_line(s: &Vec<char>, pos: usize) -> (r: Option<(usize, Vec<KnotsObject>)>)
    requires
        pos <= s@.len(),
    ensures
        match r {
            Option::Some((p2, objs)) => spec_inline_line(s@, pos as int) == Option::Some(
                (p2 as int, views_of(objs@)),
            ) && pos < p2 <= s@.len() && all_stack_neutral(views_of(objs@)) && all_renderable(
                views_of(objs@),
            ),
            Option::None => spec_inline_line(s@, pos as int) is None,
        },
{
    match p_text_modifiers(s, pos) {
        Option::Some((p2, objs)) => match eolf(s, p2) {
            Option::Some(p3) => Option::Some((p3, objs)),
            Option::None => Option::None,
        },
        Option::None => Option::None,
    }
}

fn p_info_box(s: &Vec<char>, pos: usize) -> (r: Option<(usize, KnotsObject)>)
    requires
        pos <= s@.len(),
    ensures
        match r {
            Option::Some((p2, o)) => spec_info_box(s@, pos as int) == Option::Some(
                (p2 as int, obj_view(o)),
            ) && pos < p2 <= s@.len() && stack_neutral(obj_view(o)) && renderable(obj_view(o)),
            Option::None => spec_info_box(s@, pos as int) is None,
        },
{
    if s.len() >= 2 && pos <= s.len() - 2 && s[pos] == '?' && s[pos + 1] == '>' {
        match p_inline_line(s, pos + 2) {
            Option::Some((p2, objs)) => Option::Some(
                (p2, KnotsObject::InfoBox(InfoBox { contents: objs })),
            ),
            Option::None => Option::None,
        }
    } else {
        Option::None
    }
}

fn p_warning_box(s: &Vec<char>, pos: usize) -> (r: Option<(usize, KnotsObject)>)
    requires
        pos <= s@.len(),
    ensures
        match r {
            Option::Some((p2, o)) => spec_warning_box(s@, pos as int) == Option::Some(
                (p2 as int, obj_view(o)),
            ) && pos < p2 <= s@.len() && stack_neutral(obj_view(o)) && renderable(obj_view(o)),
            Option::None => spec_warning_box(s@, pos as int) is None,
        },
{
    if s.len() >= 2 && pos <= s.len() - 2 && s[pos] == '!' && s[pos + 1] == '>' {
        match p_inline_line(s, pos + 2) {
            Option::Some((p2, objs)) => Option::Some(
                (p2, KnotsObject::WarningBox(WarningBox { contents: objs })),
            ),
            Option::None => Option::None,
        }
    } else {
        Option::None
    }
}

fn p_error_box(s: &Vec<char>, pos: usize) -> (r: Option<(usize, KnotsObject)>)
    requires
        pos <= s@.len(),
    ensures
        match r {
            Option::Some((p2, o)) => spec_error_box(s@, pos as int) == Option::Some(
                (p2 as int, obj_view(o)),
            ) && pos < p2 <= s@.len() && stack_neutral(obj_view(o)) && renderable(obj_view(o)),
            Option::None => spec_error_box(s@, pos as int) is None,
        },
{
    if s.len() >= 2 && pos <= s.len() - 2 && s[pos] == 'x' && s[pos + 1] == '>' {
        match p_inline_line(s, pos + 2) {
            Option::Some((p2, objs)) => Option::Some(
                (p2, KnotsObject::ErrorBox(ErrorBox { contents: objs })),
            ),
            Option::None => Option::None,
        }
    } else {
        Option::None
    }
}

fn p_block_quote(s: &Vec<char>, pos: usize) -> (r: Option<(usize, KnotsObject)>)
    requires
        pos <= s@.len(),
    ensures
        match r {
            Option::Some((p2, o)) => spec_block_quote(s@, pos as int) == Option::Some(
                (p2 as int, obj_view(o)),
            ) && pos < p2 <= s@.len() && stack_neutral(obj_view(o)) && renderable(obj_view(o)),
            Option::None => spec_block_quote(s@, pos as int) is None,
        },
{
    if pos < s.len() && s[pos] == '>' {
        match p_inline_line(s, pos + 1) {
            Option::Some((p2, objs)) => Option::Some(
                (p2, KnotsObject::BlockQuote(BlockQuote { contents: objs })),
            ),
            Option::None => Option::None,
        }
    } else {
        Option::None
    }
}

fn p_paragraph(s: &Vec<char>, pos: usize) -> (r: Option<(usize, KnotsObject)>)
    requires
        pos <= s@.len(),
    ensures
        match r {
            Option::Some((p2, o)) => spec_paragraph(s@, pos as int) == Option::Some(
                (p2 as int, obj_view(o)),
            ) && pos < p2 <= s@.len() && stack_neutral(obj_view(o)) && renderable(obj_view(o)),
            Option::None => spec_paragraph(s@, pos as int) is None,
        },
{
    match p_inline_line(s, pos) {
        Option::Some((p2, objs)) => Option::Some(
            (p2, KnotsObject::Paragraph(Paragraph { contents: objs })),
        ),
        Option::None => Option::None,
    }
}

fn run_dashes(s: &Vec<char>, pos: usize) -> (r: usize)
    requires
        pos <= s@.len(),
    ensures
        r == spec_run(s@, pos as int, |c: char| c == '-'),
        pos <= r <= s@.len(),
    decreases s@.len() - pos,
{
    if pos < s.len() && s[pos] == '-' {
        run_dashes(s, pos + 1)
    } else {
        pos
    }
}

/// Zero or more inline nodes, for table cells.
fn p_text_modifiers0(s: &Vec<char>, pos: usize) -> (r: (usize, Vec<KnotsObject>))
    requires
        pos <= s@.len(),
    ensures
        spec_text_modifiers0(s@, pos as int) == (r.0 as int, views_of(r.1@)),
        pos <= r.0 <= s@.len(),
        all_stack_neutral(views_of(r.1@)),
        all_renderable(views_of(r.1@)),
    decreases s@.len() - pos,
{
    match p_text_modifiers(s, pos) {
        Option::Some((p, v)) => (p, v),
        Option::None => {
            let empty: Vec<KnotsObject> = Vec::new();
            proof {
                assert(views_of(empty@) =~= Seq::<ObjView>::empty());
            }
            (pos, empty)
        },
    }
}

fn p_list_item(s: &Vec<char>, pos: usize, level: u8) -> (r: Option<(usize, Vec<KnotsObject>)>)
    requires
        pos <= s@.len(),
    ensures
        match r {
            Option::Some((p2, items)) => spec_list_item(s@, pos as int, level) == Option::Some(
                (p2 as int, views_of(items@)),
            ) && pos < p2 <= s@.len() && all_stack_neutral(views_of(items@)) && all_renderable(
                views_of(items@),
            ),
            Option::None => spec_list_item(s@, pos as int, level) is None,
        },
    decreases s@.len() - pos, 0int,
{
    match match_indent(s, pos, level) {
        Option::None => Option::None,
        Option::Some(p1) => {
            if p1 < s.len() && s[p1] == '-' {
                match p_paragraph(s, p1 + 1) {
                    Option::Some((p2, pv)) => {
                        let ghost pview = obj_view(pv);
                        let mut items: Vec<KnotsObject> = Vec::new();
                        items.push(pv);
                        proof {
                            lemma_views_of(items@);
                            assert(views_of(items@) =~= seq![pview]);
                        }
                        let ghost before = views_of(items@);
                        let p3 = p_item_conts(s, p2, level, &mut items);
                        proof {
                            let conts = spec_item_conts(s@, p2 as int, level);
                            assert(views_of(items@) =~= seq![pview] + conts.1);
                            assert((seq![pview] + conts.1)[0] == pview);
                            assert((seq![pview] + conts.1).drop_first() =~= conts.1);
                            assert(all_stack_neutral(seq![pview] + conts.1));
                            assert(all_renderable(seq![pview] + conts.1));
                        }
                        Option::Some((p3, items))
                    },
                    Option::None => Option::None,
                }
            } else {
                Option::None
            }
        },
    }
}

/// Consumes the continuation lines and nested lists of one item, appending
/// their nodes to the item.
fn p_item_conts(s: &Vec<char>, pos: usize, level: u8, out: &mut Vec<KnotsObject>) -> (r: usize)
    requires
        pos <= s@.len(),
    ensures
        r == spec_item_conts(s@, pos as int, level).0,
        pos <= r <= s@.len(),
        views_of(final(out)@) == views_of(old(out)@) + spec_item_conts(s@, pos as int, level).1,
        all_stack_neutral(spec_item_conts(s@, pos as int, level).1),
        all_renderable(spec_item_conts(s@, pos as int, level).1),
    decreases s@.len() - pos, 3int,
{
    let ghost base = views_of(old(out)@);
    let ghost mut acc: Seq<ObjView> = Seq::empty();
    let mut p = pos;
    proof {
        assert(base + acc =~= base);
        assert(acc + spec_item_conts(s@, p as int, level).1 =~= spec_item_conts(
            s@,
            p as int,
            level,
        ).1);
    }
    loop
        invariant
            pos <= p <= s@.len(),
            views_of(out@) == base + acc,
            spec_item_conts(s@, pos as int, level).0 == spec_item_conts(s@, p as int, level).0,
            spec_item_conts(s@, pos as int, level).1 == acc + spec_item_conts(
                s@,
                p as int,
                level,
            ).1,
            forall|j: int|
                0 <= j < acc.len() ==> stack_neutral(#[trigger] acc[j]) && renderable(acc[j]),
        ensures
            spec_item_conts(s@, p as int, level) == ((p as int, Seq::<ObjView>::empty())),
        decreases s@.len() - p,
    {
        if level < 255 {
            match p_list(s, p, level + 1) {
                Option::Some((p2, lv)) => {
                    let ghost lview = obj_view(lv);
                    let ghost oldout = out@;
                    out.push(lv);
                    proof {
                        crate::knots_objects::lemma_views_of_push(oldout, out@.last());
                        let rest = spec_item_conts(s@, p2 as int, level);
                        assert(acc + (seq![lview] + rest.1) =~= (acc + seq![lview]) + rest.1);
                        acc = acc + seq![lview];
                        assert(views_of(out@) =~= base + acc);
                    }
                    p = p2;
                },
                Option::None => {
                    match match_indent(s, p, level + 1) {
                        Option::Some(pi) => {
                            match p_paragraph(s, pi) {
                                Option::Some((p2, pv)) => {
                                    let ghost pview = obj_view(pv);
                                    let ghost oldout = out@;
                                    out.push(pv);
                                    proof {
                                        crate::knots_objects::lemma_views_of_push(
                                            oldout,
                                            out@.last(),
                                        );
                                        let rest = spec_item_conts(s@, p2 as int, level);
                                        assert(acc + (seq![pview] + rest.1) =~= (acc
                                            + seq![pview]) + rest.1);
                                        acc = acc + seq![pview];
                                        assert(views_of(out@) =~= base + acc);
                                    }
                                    p = p2;
                                },
                                Option::None => {
                                    break ;
                                },
                            }
                        },
                        Option::None => {
                            break ;
                        },
                    }
                },
            }
        } else {
            break ;
        }
    }
    proof {
        assert(acc + Seq::<ObjView>::empty() =~= acc);
        crate::knots_objects::lemma_all_stack_neutral_from_forall(
            spec_item_conts(s@, pos as int, level).1,
        );
        crate::knots_objects::lemma_all_renderable_from_forall(
            spec_item_conts(s@, pos as int, level).1,
        );
    }
    p
}

/// Consumes the items of a list after the first, appending them.
fn p_list_items_rest(
    s: &Vec<char>,
    pos: usize,
    level: u8,
    out: &mut Vec<Vec<KnotsObject>>,
) -> (r: usize)
    requires
        pos <= s@.len(),
    ensures
        r == spec_list_items_rest(s@, pos as int, level).0,
        pos <= r <= s@.len(),
        items_views_of(final(out)@) == items_views_of(old(out)@) + spec_list_items_rest(
            s@,
            pos as int,
            level,
        ).1,
        all_stack_neutral2(spec_list_items_rest(s@, pos as int, level).1),
        all_renderable2(spec_list_items_rest(s@, pos as int, level).1),
    decreases s@.len() - pos, 1int,
{
    let ghost base = items_views_of(old(out)@);
    let ghost mut acc: Seq<Seq<ObjView>> = Seq::empty();
    let mut p = pos;
    proof {
        assert(base + acc =~= base);
        assert(acc + spec_list_items_rest(s@, p as int, level).1 =~= spec_list_items_rest(
            s@,
            p as int,
            level,
        ).1);
    }
    loop
        invariant
            pos <= p <= s@.len(),
            items_views_of(out@) == base + acc,
            spec_list_items_rest(s@, pos as int, level).0 == spec_list_items_rest(
                s@,
                p as int,
                level,
            ).0,
            spec_list_items_rest(s@, pos as int, level).1 == acc + spec_list_items_rest(
                s@,
                p as int,
                level,
            ).1,
            forall|j: int|
                0 <= j < acc.len() ==> all_stack_neutral(#[trigger] acc[j]) && all_renderable(
                    acc[j],
                ),
        ensures
            spec_list_items_rest(s@, p as int, level) == ((p as int, Seq::<Seq<ObjView>>::empty())),
        decreases s@.len() - p,
    {
        match p_list_item(s, p, level) {
            Option::Some((p2, item)) => {
                let ghost iview = views_of(item@);
                let ghost oldout = out@;
                out.push(item);
                proof {
                    crate::knots_objects::lemma_items_views_of_push(oldout, out@.last());
                    let rest = spec_list_items_rest(s@, p2 as int, level);
                    assert(acc + (seq![iview] + rest.1) =~= (acc + seq![iview]) + rest.1);
                    acc = acc + seq![iview];
                    assert(items_views_of(out@) =~= base + acc);
                }
                p = p2;
            },
            Option::None => {
                break ;
            },
        }
    }
    proof {
        assert(acc + Seq::<Seq<ObjView>>::empty() =~= acc);
        crate::knots_objects::lemma_all_stack_neutral2_from_forall(
            spec_list_items_rest(s@, pos as int, level).1,
        );
        crate::knots_objects::lemma_all_renderable2_from_forall(
            spec_list_items_rest(s@, pos as int, level).1,
        );
    }
    p
}

fn p_list(s: &Vec<char>, pos: usize, level: u8) -> (r: Option<(usize, KnotsObject)>)
    requires
        pos <= s@.len(),
    ensures
        match r {
            Option::Some((p2, o)) => spec_list(s@, pos as int, level) == Option::Some(
                (p2 as int, obj_view(o)),
            ) && pos < p2 <= s@.len() && stack_neutral(obj_view(o)) && renderable(obj_view(o)),
            Option::None => spec_list(s@, pos as int, level) is None,
        },
    decreases s@.len() - pos, 2int,
{
    match p_list_item(s, pos, level) {
        Option::None => Option::None,
        Option::Some((p1, item1)) => {
            let ghost iv1 = views_of(item1@);
            let mut items: Vec<Vec<KnotsObject>> = Vec::new();
            items.push(item1);
            proof {
                crate::knots_objects::lemma_items_views_of(items@);
                assert(items_views_of(items@) =~= seq![iv1]);
            }
            let p2 = p_list_items_rest(s, p1, level, &mut items);
            let ghost rest = spec_list_items_rest(s@, p1 as int, level);
            proof {
                assert(items_views_of(items@) =~= seq![iv1] + rest.1);
            }
            let node = KnotsObject::List(List { contents: items });
            proof {
                assert(all_stack_neutral2(seq![iv1] + rest.1)) by {
                    assert((seq![iv1] + rest.1)[0] == iv1);
                    assert((seq![iv1] + rest.1).drop_first() =~= rest.1);
                }
                assert(all_renderable2(seq![iv1] + rest.1)) by {
                    assert((seq![iv1] + rest.1)[0] == iv1);
                    assert((seq![iv1] + rest.1).drop_first() =~= rest.1);
                }
            }
            Option::Some((p2, node))
        },
    }
}

fn p_table_cell(s: &Vec<char>, pos: usize) -> (r: Option<(usize, Vec<KnotsObject>)>)
    requires
        pos <= s@.len(),
    ensures
        match r {
            Option::Some((p2, objs)) => spec_table_cell(s@, pos as int) == Option::Some(
                (p2 as int, views_of(objs@)),
            ) && pos < p2 <= s@.len() && all_stack_neutral(views_of(objs@)) && all_renderable(
                views_of(objs@),
            ),
            Option::None => spec_table_cell(s@, pos as int) is None,
        },
    decreases s@.len() - pos,
{
    if pos < s.len() && s[pos] == '|' {
        let a = run_inline_space(s, pos + 1);
        let (p2, objs) = p_text_modifiers0(s, a);
        let b = run_inline_space(s, p2);
        if b < s.len() && s[b] == '|' {
            Option::Some((b, objs))
        } else {
            Option::None
        }
    } else {
        Option::None
    }
}

fn p_table_cells(s: &Vec<char>, pos: usize) -> (r: Option<(usize, Vec<Vec<KnotsObject>>)>)
    requires
        pos <= s@.len(),
    ensures
        match r {
            Option::Some((p2, cells)) => spec_table_cells(s@, pos as int) == Option::Some(
                (p2 as int, items_views_of(cells@)),
            ) && pos < p2 <= s@.len() && all_stack_neutral2(items_views_of(cells@))
                && all_renderable2(items_views_of(cells@)) && cells@.len() > 0,
            Option::None => spec_table_cells(s@, pos as int) is None,
        },
    decreases s@.len() - pos,
{
    let first = p_table_cell(s, pos);
    match first {
        Option::None => Option::None,
        Option::Some((p1, c1)) => {
            let ghost cv1 = views_of(c1@);
            let mut cells: Vec<Vec<KnotsObject>> = Vec::new();
            cells.push(c1);
            let mut p = p1;
            proof {
                crate::knots_objects::lemma_items_views_of(cells@);
                assert(items_views_of(cells@) =~= seq![cv1]);
            }
            loop
                invariant
                    pos < p <= s@.len(),
                    cells@.len() > 0,
                    items_views_of(cells@).len() == cells@.len(),
                    (match spec_table_cells(s@, p as int) {
                        Option::Some((pe, vs)) => spec_table_cells(s@, pos as int) == Option::Some(
                            (pe, items_views_of(cells@) + vs),
                        ),
                        Option::None => spec_table_cells(s@, pos as int) == Option::Some(
                            (p as int, items_views_of(cells@)),
                        ),
                    }),
                    forall|j: int|
                        0 <= j < items_views_of(cells@).len() ==> all_stack_neutral(
                            #[trigger] items_views_of(cells@)[j],
                        ) && all_renderable(items_views_of(cells@)[j]),
                ensures
                    spec_table_cell(s@, p as int) is None,
                decreases s@.len() - p,
            {
                let step = p_table_cell(s, p);
                match step {
                    Option::None => {
                        break ;
                    },
                    Option::Some((p2, c)) => {
                        let ghost oldcells = cells@;
                        let ghost oldviews = items_views_of(cells@);
                        let ghost cv = views_of(c@);
                        cells.push(c);
                        proof {
                            crate::knots_objects::lemma_items_views_of_push(
                                oldcells,
                                cells@.last(),
                            );
                            assert(items_views_of(cells@) =~= oldviews + seq![cv]);
                            match spec_table_cells(s@, p2 as int) {
                                Option::Some((pe, vs)) => {
                                    assert(oldviews + (seq![cv] + vs) =~= items_views_of(cells@)
                                        + vs);
                                },
                                Option::None => {
                                    assert(oldviews + seq![cv] =~= items_views_of(cells@));
                                },
                            }
                            assert forall|j: int|
                                0 <= j < items_views_of(cells@).len() implies all_stack_neutral(
                                #[trigger] items_views_of(cells@)[j],
                            ) && all_renderable(items_views_of(cells@)[j]) by {
                                if j < oldviews.len() {
                                    assert(items_views_of(cells@)[j] == oldviews[j]);
                                } else {
                                    assert(items_views_of(cells@)[j] == cv);
                                }
                            }
                        }
                        p = p2;
                    },
                }
            }
            proof {
                crate::knots_objects::lemma_all_stack_neutral2_from_forall(
                    items_views_of(cells@),
                );
                crate::knots_objects::lemma_all_renderable2_from_forall(items_views_of(cells@));
            }
            Option::Some((p, cells))
        },
    }
}

fn p_table_row(s: &Vec<char>, pos: usize) -> (r: Option<(usize, Vec<Vec<KnotsObject>>)>)
    requires
        pos <= s@.len(),
    ensures
        match r {
            Option::Some((p2, cells)) => spec_table_row(s@, pos as int) == Option::Some(
                (p2 as int, items_views_of(cells@)),
            ) && pos < p2 <= s@.len() && all_stack_neutral2(items_views_of(cells@))
                && all_renderable2(items_views_of(cells@)) && items_views_of(cells@).len()
                == cells@.len(),
            Option::None => spec_table_row(s@, pos as int) is None,
        },
    decreases s@.len() - pos,
{
    match p_table_cells(s, pos) {
        Option::Some((p, cells)) => {
            if p < s.len() && s[p] == '|' {
                match eolf(s, p + 1) {
                    Option::Some(p2) => {
                        proof {
                            crate::knots_objects::lemma_items_views_of(cells@);
                        }
                        Option::Some((p2, cells))
                    },
                    Option::None => Option::None,
                }
            } else {
                Option::None
            }
        },
        Option::None => Option::None,
    }
}

fn p_delim_cells(s: &Vec<char>, pos: usize) -> (r: usize)
    requires
        pos <= s@.len(),
    ensures
        r == spec_delim_cells(s@, pos as int),
        pos <= r <= s@.len(),
    decreases s@.len() - pos,
{
    if pos < s.len() && s[pos] == '|' && pos + 1 < s.len() && s[pos + 1] == '-' {
        let e = run_dashes(s, pos + 1);
        proof {
            assert(spec_run(s@, pos as int + 1, |c: char| c == '-') == spec_run(
                s@,
                pos as int + 2,
                |c: char| c == '-',
            ));
            lemma_spec_run(s@, pos as int + 2, |c: char| c == '-');
        }
        if pos < e && e <= s.len() {
            p_delim_cells(s, e)
        } else {
            pos
        }
    } else {
        pos
    }
}

fn p_table_delim(s: &Vec<char>, pos: usize) -> (r: Option<usize>)
    requires
        pos <= s@.len(),
    ensures
        match r {
            Option::Some(p2) => spec_table_delim(s@, pos as int) == Option::Some(p2 as int) && pos
                < p2 <= s@.len(),
            Option::None => spec_table_delim(s@, pos as int) is None,
        },
{
    let e = p_delim_cells(s, pos);
    if e > pos && e < s.len() && s[e] == '|' {
        let a = run_inline_space(s, e + 1);
        match eolf(s, a) {
            Option::Some(p2) => Option::Some(run_inline_space(s, p2)),
            Option::None => Option::None,
        }
    } else {
        Option::None
    }
}

fn p_table_rows(s: &Vec<char>, pos: usize) -> (r: Option<(usize, Vec<Vec<Vec<KnotsObject>>>)>)
    requires
        pos <= s@.len(),
    ensures
        match r {
            Option::Some((p2, rows)) => spec_table_rows(s@, pos as int) == Option::Some(
                (p2 as int, rows_views_of(rows@)),
            ) && pos < p2 <= s@.len() && all_stack_neutral3(rows_views_of(rows@))
                && all_renderable3(rows_views_of(rows@)) && rows_views_of(rows@).len()
                == rows@.len() && (forall|i: int|
                0 <= i < rows@.len() ==> (#[trigger] rows_views_of(rows@)[i]).len()
                    == rows@[i]@.len()),
            Option::None => spec_table_rows(s@, pos as int) is None,
        },
    decreases s@.len() - pos,
{
    let first = p_table_row(s, pos);
    match first {
        Option::None => Option::None,
        Option::Some((p1, r1)) => {
            let ghost rv1 = items_views_of(r1@);
            let mut rows: Vec<Vec<Vec<KnotsObject>>> = Vec::new();
            rows.push(r1);
            let mut p = p1;
            proof {
                crate::knots_objects::lemma_rows_views_of(rows@);
                assert(rows_views_of(rows@) =~= seq![rv1]);
            }
            loop
                invariant
                    pos < p <= s@.len(),
                    rows@.len() > 0,
                    rows_views_of(rows@).len() == rows@.len(),
                    (match spec_table_rows(s@, p as int) {
                        Option::Some((pe, vs)) => spec_table_rows(s@, pos as int) == Option::Some(
                            (pe, rows_views_of(rows@) + vs),
                        ),
                        Option::None => spec_table_rows(s@, pos as int) == Option::Some(
                            (p as int, rows_views_of(rows@)),
                        ),
                    }),
                    forall|j: int|
                        0 <= j < rows_views_of(rows@).len() ==> all_stack_neutral2(
                            #[trigger] rows_views_of(rows@)[j],
                        ) && all_renderable2(rows_views_of(rows@)[j]),
                    forall|i: int|
                        0 <= i < rows@.len() ==> (#[trigger] rows_views_of(rows@)[i]).len()
                            == rows@[i]@.len(),
                ensures
                    spec_table_row(s@, p as int) is None,
                decreases s@.len() - p,
            {
                let step = p_table_row(s, p);
                match step {
                    Option::None => {
                        break ;
                    },
                    Option::Some((p2, row)) => {
                        let ghost oldrows = rows@;
                        let ghost oldviews = rows_views_of(rows@);
                        let ghost rv = items_views_of(row@);
                        let ghost rowlen = row@.len();
                        rows.push(row);
                        proof {
                            crate::knots_objects::lemma_rows_views_of_push(oldrows, rows@.last());
                            assert(rows_views_of(rows@) =~= oldviews + seq![rv]);
                            match spec_table_rows(s@, p2 as int) {
                                Option::Some((pe, vs)) => {
                                    assert(oldviews + (seq![rv] + vs) =~= rows_views_of(rows@)
                                        + vs);
                                },
                                Option::None => {
                                    assert(oldviews + seq![rv] =~= rows_views_of(rows@));
                                },
                            }
                            assert forall|j: int|
                                0 <= j < rows_views_of(rows@).len() implies all_stack_neutral2(
                                #[trigger] rows_views_of(rows@)[j],
                            ) && all_renderable2(rows_views_of(rows@)[j]) by {
                                if j < oldviews.len() {
                                    assert(rows_views_of(rows@)[j] == oldviews[j]);
                                } else {
                                    assert(rows_views_of(rows@)[j] == rv);
                                }
                            }
                            assert forall|i: int|
                                0 <= i < rows@.len() implies (
                            #[trigger] rows_views_of(rows@)[i]).len() == rows@[i]@.len() by {
                                if i < oldviews.len() {
                                    assert(rows_views_of(rows@)[i] == oldviews[i]);
                                    assert(rows@[i] == oldrows[i]);
                                } else {
                                    assert(rows_views_of(rows@)[i] == rv);
                                    assert(rows@[i] == rows@.last());
                                }
                            }
                        }
                        p = p2;
                    },
                }
            }
            proof {
                crate::knots_objects::lemma_all_stack_neutral3_from_forall(rows_views_of(rows@));
                crate::knots_objects::lemma_all_renderable3_from_forall(rows_views_of(rows@));
            }
            Option::Some((p, rows))
        },
    }
}

fn p_table(s: &Vec<char>, pos: usize) -> (r: Option<(usize, KnotsObject)>)
    requires
        pos <= s@.len(),
    ensures
        match r {
            Option::Some((p2, o)) => spec_table(s@, pos as int) == Option::Some(
                (p2 as int, obj_view(o)),
            ) && pos < p2 <= s@.len() && stack_neutral(obj_view(o)) && renderable(obj_view(o)),
            Option::None => spec_table(s@, pos as int) is None,
        },
    decreases s@.len() - pos,
{
    match p_table_row(s, pos) {
        Option::None => Option::None,
        Option::Some((p1, header)) => {
            match p_table_delim(s, p1) {
                Option::None => Option::None,
                Option::Some(p2) => {
                    match p_table_rows(s, p2) {
                        Option::None => Option::None,
                        Option::Some((p3, rows)) => {
                            let hlen = header.len();
                            let ghost hviews = items_views_of(header@);
                            let ghost rviews = rows_views_of(rows@);
                            let mut i: usize = 0;
                            while i < rows.len()
                                invariant
                                    i <= rows@.len(),
                                    pos <= s@.len(),
                                    pos < p1 <= s@.len(),
                                    p1 < p2 <= s@.len(),
                                    p2 < p3 <= s@.len(),
                                    spec_table_row(s@, pos as int) == Option::Some(
                                        (p1 as int, hviews),
                                    ),
                                    spec_table_delim(s@, p1 as int) == Option::Some(p2 as int),
                                    spec_table_rows(s@, p2 as int) == Option::Some(
                                        (p3 as int, rviews),
                                    ),
                                    hviews == items_views_of(header@),
                                    rviews == rows_views_of(rows@),
                                    hlen == header@.len(),
                                    hviews.len() == header@.len(),
                                    rviews.len() == rows@.len(),
                                    forall|k: int|
                                        0 <= k < rows@.len() ==> (#[trigger] rviews[k]).len()
                                            == rows@[k]@.len(),
                                    forall|k: int| 0 <= k < i ==> (#[trigger] rviews[k]).len()
                                        == hviews.len(),
                                decreases rows@.len() - i,
                            {
                                if rows[i].len() != hlen {
                                    proof {
                                        assert(rviews[i as int].len() != hviews.len());
                                        assert(!(forall|k: int|
                                            0 <= k < rviews.len() ==> (#[trigger] rviews[k]).len()
                                                == hviews.len()));
                                    }
                                    return Option::None;
                                }
                                i = i + 1;
                            }
                            let node = KnotsObject::Table(Table { header, rows });
                            Option::Some((p3, node))
                        },
                    }
                },
            }
        },
    }
}

fn p_any_object(s: &Vec<char>, pos: usize) -> (r: Option<(usize, KnotsObject)>)
    requires
        pos <= s@.len(),
    ensures
        match r {
            Option::Some((p2, o)) => spec_any_object(s@, pos as int) == Option::Some(
                (p2 as int, obj_view(o)),
            ) && pos < p2 <= s@.len() && renderable(obj_view(o)) && container_safe(obj_view(o)),
            Option::None => spec_any_object(s@, pos as int) is None,
        },
    decreases s@.len() - pos,
{
    let a = run_multispace(s, pos);
    let inner: Option<(usize, KnotsObject)> = {
        let r = p_hr(s, a);
        if r.is_some() {
            r
        } else {
            let r = p_lvl3_title(s, a);
            if r.is_some() {
                r
            } else {
                let r = p_lvl2_title(s, a);
                if r.is_some() {
                    r
                } else {
                    let r = p_lvl1_title(s, a);
                    if r.is_some() {
                        r
                    } else {
                        let r = p_list(s, a, 0);
                        if r.is_some() {
                            r
                        } else {
                            let r = p_table(s, a);
                            if r.is_some() {
                                r
                            } else {
                                let r = p_code_block(s, a);
                                if r.is_some() {
                                    r
                                } else {
                                    let r = p_maths_block(s, a);
                                    if r.is_some() {
                                        r
                                    } else {
                                        let r = p_image(s, a);
                                        if r.is_some() {
                                            r
                                        } else {
                                            let r = p_info_box(s, a);
                                            if r.is_some() {
                                                r
                                            } else {
                                                let r = p_warning_box(s, a);
                                                if r.is_some() {
                                                    r
                                                } else {
                                                    let r = p_error_box(s, a);
                                                    if r.is_some() {
                                                        r
                                                    } else {
                                                        let r = p_block_quote(s, a);
                                                        if r.is_some() {
                                                            r
                                                        } else {
                                                            p_paragraph(s, a)
                                                        }
                                                    }
                                                }
                                            }
                                        }
                                    }
                                }
                            }
                        }
                    }
                }
            }
        }
    };
    match inner {
        Option::Some((p2, o)) => {
            let p3 = run_multispace(s, p2);
            Option::Some((p3, o))
        },
        Option::None => Option::None,
    }
}

/// Every block of the document body from the given position on, and the
/// position where no further block matches.
pub fn p_objects(s: &Vec<char>, pos: usize) -> (r: (usize, Vec<KnotsObject>))
    requires
        pos <= s@.len(),
    ensures
        spec_objects(s@, pos as int) == ((r.0 as int, views_of(r.1@))),
        pos <= r.0 <= s@.len(),
        all_renderable(views_of(r.1@)),
        crate::knots_objects::all_container_safe(views_of(r.1@)),
        spec_any_object(s@, r.0 as int) is None,
    decreases s@.len() - pos,
{
    let ghost mut acc: Seq<ObjView> = Seq::empty();
    let mut objs: Vec<KnotsObject> = Vec::new();
    let mut p = pos;
    proof {
        assert(views_of(objs@) =~= Seq::<ObjView>::empty());
        assert(acc + spec_objects(s@, p as int).1 =~= spec_objects(s@, p as int).1);
    }
    loop
        invariant
            pos <= p <= s@.len(),
            views_of(objs@) == acc,
            spec_objects(s@, pos as int).0 == spec_objects(s@, p as int).0,
            spec_objects(s@, pos as int).1 == acc + spec_objects(s@, p as int).1,
            forall|j: int|
                0 <= j < acc.len() ==> renderable(#[trigger] acc[j]) && container_safe(acc[j]),
        ensures
            spec_any_object(s@, p as int) is None,
            spec_objects(s@, p as int) == ((p as int, Seq::<ObjView>::empty())),
        decreases s@.len() - p,
    {
        match p_any_object(s, p) {
            Option::None => {
                break ;
            },
            Option::Some((p2, o)) => {
                let ghost ov = obj_view(o);
                let ghost oldobjs = objs@;
                objs.push(o);
                proof {
                    crate::knots_objects::lemma_views_of_push(oldobjs, objs@.last());
                    let rest = spec_objects(s@, p2 as int);
                    assert(acc + (seq![ov] + rest.1) =~= (acc + seq![ov]) + rest.1);
                    acc = acc + seq![ov];
                    assert(views_of(objs@) =~= acc);
                }
                p = p2;
            },
        }
    }
    proof {
        assert(acc + Seq::<ObjView>::empty() =~= acc);
        crate::knots_objects::lemma_all_renderable_from_forall(views_of(objs@));
        crate::knots_objects::lemma_all_container_safe_from_forall(views_of(objs@));
    }
    (p, objs)
}

// ---------------------------------------------------------------------------
// Metadata lines, and the whole document.
// ---------------------------------------------------------------------------
/// One metadata line: a percent sign, a key of letters, blank space, the rest
/// of the line as the value.
pub open spec fn spec_var_pair(s: Seq<char>, pos: int) -> Option<(int, (Seq<char>, Seq<char>))>
    recommends
        0 <= pos <= s.len(),
{
    if pos < s.len() && s[pos] == '%' {
        let e = spec_run(s, pos + 1, |c: char| is_alpha(c));
        if e > pos + 1 && e <= s.len() {
            let v0 = spec_run(s, e, |c: char| is_inline_space(c));
            if v0 > e && v0 <= s.len() {
                let ve = spec_run(s, v0, |c: char| is_not_line_ending(c));
                match spec_eolf(s, ve) {
                    Option::Some(p2) => Option::Some(
                        (p2, (s.subrange(pos + 1, e), s.subrange(v0, ve))),
                    ),
                    Option::None => Option::None,
                }
            } else {
                Option::None
            }
        } else {
            Option::None
        }
    } else {
        Option::None
    }
}

/// All metadata lines at the top of the file, greedily.
pub open spec fn spec_metadata(s: Seq<char>, pos: int) -> (int, Seq<(Seq<char>, Seq<char>)>)
    recommends
        0 <= pos <= s.len(),
    decreases s.len() - pos,
{
    match spec_var_pair(s, pos) {
        Option::Some((p1, pair)) => if pos < p1 <= s.len() {
            let rest = spec_metadata(s, p1);
            (rest.0, seq![pair] + rest.1)
        } else {
            (pos, Seq::empty())
        },
        Option::None => (pos, Seq::empty()),
    }
}

/// The document title: the last title key wins.
pub open spec fn spec_title_of(pairs: Seq<(Seq<char>, Seq<char>)>) -> Option<Seq<char>>
    decreases pairs.len(),
{
    if pairs.len() == 0 {
        Option::None
    } else if pairs.last().0 == "title"@ {
        Option::Some(pairs.last().1)
    } else {
        spec_title_of(pairs.drop_last())
    }
}

/// The document license: the last license key wins.
pub open spec fn spec_license_of(pairs: Seq<(Seq<char>, Seq<char>)>) -> Option<Seq<char>>
    decreases pairs.len(),
{
    if pairs.len() == 0 {
        Option::None
    } else if pairs.last().0 == "license"@ {
        Option::Some(pairs.last().1)
    } else {
        spec_license_of(pairs.drop_last())
    }
}

/// The document authors, in order of appearance.
pub open spec fn spec_authors_of(pairs: Seq<(Seq<char>, Seq<char>)>) -> Seq<Seq<char>>
    decreases pairs.len(),
{
    if pairs.len() == 0 {
        Seq::empty()
    } else if pairs.last().0 == "author"@ {
        spec_authors_of(pairs.drop_last()).push(pairs.last().1)
    } else {
        spec_authors_of(pairs.drop_last())
    }
}

/// The keys that are not recognized, in order of appearance.
pub open spec fn spec_unknown_of(pairs: Seq<(Seq<char>, Seq<char>)>) -> Seq<Seq<char>>
    decreases pairs.len(),
{
    if pairs.len() == 0 {
        Seq::empty()
    } else if pairs.last().0 == "title"@ || pairs.last().0 == "author"@ || pairs.last().0
        == "license"@ {
        spec_unknown_of(pairs.drop_last())
    } else {
        spec_unknown_of(pairs.drop_last()).push(pairs.last().0)
    }
}

/// The views of the metadata pairs.
pub open spec fn pairs_view(s: Seq<(String, String)>) -> Seq<(Seq<char>, Seq<char>)> {
    Seq::new(s.len(), |i: int| (s[i].0@, s[i].1@))
}

/// Where the document body starts and what it holds: the metadata lines, then
/// blank space, then every block, then blank space.
pub open spec fn spec_doc_rest(s: Seq<char>) -> (int, Seq<ObjView>) {
    let m = spec_metadata(s, 0);
    if 0 <= m.0 <= s.len() {
        let w0 = spec_run(s, m.0, |c: char| is_multispace(c));
        if 0 <= w0 <= s.len() {
            let b = spec_objects(s, w0);
            if 0 <= b.0 <= s.len() {
                (spec_run(s, b.0, |c: char| is_multispace(c)), b.1)
            } else {
                b
            }
        } else {
            (w0, Seq::empty())
        }
    } else {
        (m.0, Seq::empty())
    }
}

/// The first line of the unparsable residue, without its line terminator.
pub open spec fn spec_first_line(s: Seq<char>, pos: int) -> Seq<char>
    recommends
        0 <= pos <= s.len(),
{
    match spec_find_char(s, pos, '\n') {
        Option::Some(j) => if j > pos && s[j - 1] == '\r' {
            s.subrange(pos, j - 1)
        } else {
            s.subrange(pos, j)
        },
        Option::None => s.subrange(pos, s.len() as int),
    }
}

fn p_var_pair(s: &Vec<char>, pos: usize) -> (r: Option<(usize, (String, String))>)
    requires
        pos <= s@.len(),
    ensures
        match r {
            Option::Some((p2, pair)) => spec_var_pair(s@, pos as int) == Option::Some(
                (p2 as int, (pair.0@, pair.1@)),
            ) && pos < p2 <= s@.len(),
            Option::None => spec_var_pair(s@, pos as int) is None,
        },
{
    if pos < s.len() && s[pos] == '%' {
        let e = run_alpha(s, pos + 1);
        if e > pos + 1 {
            let v0 = run_inline_space(s, e);
            if v0 > e {
                let ve = run_not_line_ending(s, v0);
                match eolf(s, ve) {
                    Option::Some(p2) => {
                        let name = segment_string(s, pos + 1, e);
                        let value = segment_string(s, v0, ve);
                        Option::Some((p2, (name, value)))
                    },
                    Option::None => Option::None,
                }
            } else {
                Option::None
            }
        } else {
            Option::None
        }
    } else {
        Option::None
    }
}

fn p_metadata(s: &Vec<char>, pos: usize) -> (r: (usize, Vec<(String, String)>))
    requires
        pos <= s@.len(),
    ensures
        spec_metadata(s@, pos as int) == ((r.0 as int, pairs_view(r.1@))),
        pos <= r.0 <= s@.len(),
    decreases s@.len() - pos,
{
    let ghost mut acc: Seq<(Seq<char>, Seq<char>)> = Seq::empty();
    let mut pairs: Vec<(String, String)> = Vec::new();
    let mut p = pos;
    proof {
        assert(pairs_view(pairs@) =~= Seq::<(Seq<char>, Seq<char>)>::empty());
        assert(acc + spec_metadata(s@, p as int).1 =~= spec_metadata(s@, p as int).1);
    }
    loop
        invariant
            pos <= p <= s@.len(),
            pairs_view(pairs@) == acc,
            spec_metadata(s@, pos as int).0 == spec_metadata(s@, p as int).0,
            spec_metadata(s@, pos as int).1 == acc + spec_metadata(s@, p as int).1,
        ensures
            spec_var_pair(s@, p as int) is None,
            spec_metadata(s@, p as int) == ((p as int, Seq::<(Seq<char>, Seq<char>)>::empty())),
        decreases s@.len() - p,
    {
        match p_var_pair(s, p) {
            Option::None => {
                break ;
            },
            Option::Some((p2, pair)) => {
                let ghost pv = (pair.0@, pair.1@);
                let ghost oldpairs = pairs@;
                pairs.push(pair);
                proof {
                    assert(pairs_view(pairs@) =~= pairs_view(oldpairs) + seq![pv]) by {
                        assert(forall|i: int|
                            0 <= i < oldpairs.len() ==> pairs@[i] == #[trigger] oldpairs[i]);
                        assert(pairs@[oldpairs.len() as int] == pairs@.last());
                    }
                    let rest = spec_metadata(s@, p2 as int);
                    assert(acc + (seq![pv] + rest.1) =~= (acc + seq![pv]) + rest.1);
                    acc = acc + seq![pv];
                }
                p = p2;
            },
        }
    }
    proof {
        assert(acc + Seq::<(Seq<char>, Seq<char>)>::empty() =~= acc);
    }
    (p, pairs)
}

fn first_line(s: &Vec<char>, pos: usize) -> (r: String)
    requires
        pos <= s@.len(),
    ensures
        r@ == spec_first_line(s@, pos as int),
{
    match find_char(s, pos, '\n') {
        Option::Some(j) => if j > pos && s[j - 1] == '\r' {
            segment_string(s, pos, j - 1)
        } else {
            segment_string(s, pos, j)
        },
        Option::None => segment_string(s, pos, s.len()),
    }
}

/// The outcome of parsing one document: the tree and its metadata record.
pub struct ParseResult {
    /// the root node owning the full top-level sequence
    pub root_object: KnotsObject,
    /// the document title, or the source file's name where none was given
    pub document_title: String,
    /// the document authors, in order of appearance
    pub document_authors: Vec<String>,
    /// the last license value, if any
    pub document_license: Option<String>,
    /// metadata keys that were not recognized, to be warned about
    pub unknown_metadata: Vec<String>,
}

/// Parses a whole Knots document: metadata lines first, then blocks until the
/// input is exhausted; any unparsable residue fails the parse with its first line.
pub fn parse(input: &str, file_name: &str) -> (r: Result<ParseResult, String>)
    ensures
        match r {
            Result::Ok(pr) => spec_doc_rest(input@).0 == input@.len() && pr.root_object@
                == (ObjView::Root { contents: spec_doc_rest(input@).1 }) && renderable(
                pr.root_object@,
            ) && container_safe(pr.root_object@) && pr.document_title@ == (match spec_title_of(
                spec_metadata(input@, 0).1,
            ) {
                Option::Some(t) => t,
                Option::None => file_name@,
            }) && crate::builder::strings_view(pr.document_authors@) == spec_authors_of(
                spec_metadata(input@, 0).1,
            ) && (match pr.document_license {
                Option::Some(l) => spec_license_of(spec_metadata(input@, 0).1) == Option::Some(
                    l@,
                ),
                Option::None => spec_license_of(spec_metadata(input@, 0).1) is None,
            }) && crate::builder::strings_view(pr.unknown_metadata@) == spec_unknown_of(
                spec_metadata(input@, 0).1,
            ),
            Result::Err(line) => spec_doc_rest(input@).0 < input@.len() && line@
                == spec_first_line(input@, spec_doc_rest(input@).0),
        },
{
    let chars = chars_of_str(input);
    let (mp, pairs) = p_metadata(&chars, 0);
    let w0 = run_multispace(&chars, mp);
    let (bp, objs) = p_objects(&chars, w0);
    let w1 = run_multispace(&chars, bp);
    if w1 < chars.len() {
        let line = first_line(&chars, w1);
        return Result::Err(line);
    }
    let ghost pv = pairs_view(pairs@);
    let mut document_title: Option<String> = Option::None;
    let mut document_license: Option<String> = Option::None;
    let mut document_authors: Vec<String> = Vec::new();
    let mut unknown_metadata: Vec<String> = Vec::new();
    proof {
        assert(pv.take(0) =~= Seq::<(Seq<char>, Seq<char>)>::empty());
        assert(crate::builder::strings_view(document_authors@) =~= Seq::<Seq<char>>::empty());
        assert(crate::builder::strings_view(unknown_metadata@) =~= Seq::<Seq<char>>::empty());
    }
    let mut i: usize = 0;
    while i < pairs.len()
        invariant
            i <= pairs@.len(),
            pv == pairs_view(pairs@),
            pv.len() == pairs@.len(),
            (match document_title {
                Option::Some(t) => spec_title_of(pv.take(i as int)) == Option::Some(t@),
                Option::None => spec_title_of(pv.take(i as int)) is None,
            }),
            (match document_license {
                Option::Some(l) => spec_license_of(pv.take(i as int)) == Option::Some(l@),
                Option::None => spec_license_of(pv.take(i as int)) is None,
            }),
            crate::builder::strings_view(document_authors@) == spec_authors_of(pv.take(i as int)),
            crate::builder::strings_view(unknown_metadata@) == spec_unknown_of(pv.take(i as int)),
        decreases pairs@.len() - i,
    {
        proof {
            reveal_strlit("title");
            reveal_strlit("author");
            reveal_strlit("license");
            assert(pv.take(i as int + 1).drop_last() =~= pv.take(i as int));
            assert(pv.take(i as int + 1).last() == pv[i as int]);
            assert(pv[i as int] == (pairs@[i as int].0@, pairs@[i as int].1@));
        }
        let name = &pairs[i].0;
        proof {
            assert(name@ == pv[i as int].0);
        }
        let value = &pairs[i].1;
        if crate::utils::str_eq(name.as_str(), "title") {
            document_title = Option::Some(value.clone());
        } else if crate::utils::str_eq(name.as_str(), "author") {
            let ghost oldauthors = document_authors@;
            document_authors.push(value.clone());
            proof {
                crate::builder::lemma_strings_view_push(oldauthors, document_authors@.last());
            }
        } else if crate::utils::str_eq(name.as_str(), "license") {
            document_license = Option::Some(value.clone());
        } else {
            let ghost oldunknown = unknown_metadata@;
            unknown_metadata.push(name.clone());
            proof {
                crate::builder::lemma_strings_view_push(oldunknown, unknown_metadata@.last());
            }
        }
        i = i + 1;
    }
    proof {
        assert(pv.take(pv.len() as int) =~= pv);
    }
    let document_title: String = match document_title {
        Option::Some(t) => t,
        Option::None => file_name.to_owned(),
    };
    let root_object = KnotsObject::Root(Root { contents: objs });
    Result::Ok(
        ParseResult {
            root_object,
            document_title,
            document_authors,
            document_license,
            unknown_metadata,
        },
    )
}

// ---------------------------------------------------------------------------
// Laws of the grammar.
// ---------------------------------------------------------------------------
proof fn lemma_run_to_end(s: Seq<char>, pos: int, f: spec_fn(char) -> bool)
    requires
        0 <= pos <= s.len(),
        forall|i: int| pos <= i < s.len() ==> f(#[trigger] s[i]),
    ensures
        spec_run(s, pos, f) == s.len(),
    decreases s.len() - pos,
{
    if pos < s.len() {
        lemma_run_to_end(s, pos + 1, f);
    }
}

/// Table shape: when a table parses, every data row holds exactly the
/// header's cell count; a row of a different width is a grammar failure,
/// never a silently padded row.
pub proof fn lemma_table_shape(s: Seq<char>, pos: int)
    requires
        0 <= pos <= s.len(),
    ensures
        (match spec_table(s, pos) {
            Option::Some((p, v)) => match v {
                ObjView::Table { header, rows } => forall|i: int|
                    0 <= i < rows.len() ==> (#[trigger] rows[i]).len() == header.len(),
                _ => false,
            },
            Option::None => true,
        }),
{
}

/// A plain sentence: input of one non-empty line free of reserved characters,
/// not opening like any block marker, parses as exactly one paragraph holding
/// one plain-text node equal to the input.
pub proof fn lemma_plain_sentence(s: Seq<char>)
    requires
        s.len() > 0,
        forall|i: int| 0 <= i < s.len() ==> !is_basic_stop(#[trigger] s[i]),
        !is_multispace(s[0]),
        s[0] != '-',
        s[0] != '>',
        !(s.len() >= 2 && s[0] == '?' && s[1] == '>'),
        !(s.len() >= 2 && s[0] == '!' && s[1] == '>'),
        !(s.len() >= 2 && s[0] == 'x' && s[1] == '>'),
    ensures
        spec_objects(s, 0) == ((
            s.len() as int,
            seq![ObjView::Paragraph { contents: seq![ObjView::BasicText { contents: s }] }],
        )),
{
    let n = s.len() as int;
    lemma_run_to_end(s, 0, |c: char| !is_basic_stop(c));
    assert(spec_run(s, 0, |c: char| is_multispace(c)) == 0);
    assert(spec_run(s, n, |c: char| is_multispace(c)) == n);
    assert(spec_basic_chunk_end(s, 0) == Option::Some(n));
    assert(spec_basic_end(s, n) == n);
    assert(spec_basic_end(s, 0) == n);
    assert(s.subrange(0, n) =~= s);
    let bt = ObjView::BasicText { contents: s };
    assert(spec_basic(s, 0) == Option::Some((n, bt)));
    assert(spec_link(s, 0) is None);
    assert(spec_bold1(s, 0) is None);
    assert(spec_bold2(s, 0) is None);
    assert(spec_italic1(s, 0) is None);
    assert(spec_italic2(s, 0) is None);
    assert(spec_inline_maths(s, 0) is None);
    assert(spec_inline_code(s, 0) is None);
    assert(spec_any_text_modifier(s, 0) == Option::Some((n, bt)));
    assert(spec_basic_chunk_end(s, n) is None);
    assert(spec_basic(s, n) is None);
    assert(spec_link(s, n) is None);
    assert(spec_bold1(s, n) is None);
    assert(spec_bold2(s, n) is None);
    assert(spec_italic1(s, n) is None);
    assert(spec_italic2(s, n) is None);
    assert(spec_inline_maths(s, n) is None);
    assert(spec_inline_code(s, n) is None);
    assert(spec_any_text_modifier(s, n) is None);
    assert(spec_text_modifiers(s, n) is None);
    assert(spec_text_modifiers(s, 0) == Option::Some((n, seq![bt])));
    assert(spec_eolf(s, n) == Option::Some(n));
    let para = ObjView::Paragraph { contents: seq![bt] };
    assert(spec_inline_line(s, 0) == Option::Some((n, seq![bt])));
    assert(spec_paragraph(s, 0) == Option::Some((n, para)));
    assert(spec_hr(s, 0) is None);
    assert(spec_lvl3_title(s, 0) is None);
    assert(spec_lvl2_title(s, 0) is None);
    assert(spec_lvl1_title(s, 0) is None);
    assert(spec_indent(s, 0, 0) == Option::<int>::Some(0));
    assert(spec_list_item(s, 0, 0) is None);
    assert(spec_list(s, 0, 0) is None);
    assert(spec_table_cell(s, 0) is None);
    assert(spec_table_cells(s, 0) is None);
    assert(spec_table_row(s, 0) is None);
    assert(spec_table(s, 0) is None);
    assert(spec_code_block(s, 0) is None);
    assert(spec_maths_block(s, 0) is None);
    assert(spec_link(s, 1) is None);
    assert(spec_image(s, 0) is None);
    assert(spec_info_box(s, 0) is None);
    assert(spec_warning_box(s, 0) is None);
    assert(spec_error_box(s, 0) is None);
    assert(spec_block_quote(s, 0) is None);
    assert(spec_any_object(s, 0) == Option::Some((n, para)));
    assert(spec_hr(s, n) is None);
    assert(spec_lvl3_title(s, n) is None);
    assert(spec_lvl2_title(s, n) is None);
    assert(spec_lvl1_title(s, n) is None);
    assert(spec_indent(s, n, 0) == Option::<int>::Some(n));
    assert(spec_list_item(s, n, 0) is None);
    assert(spec_list(s, n, 0) is None);
    assert(spec_table_cell(s, n) is None);
    assert(spec_table_cells(s, n) is None);
    assert(spec_table_row(s, n) is None);
    assert(spec_table(s, n) is None);
    assert(spec_code_block(s, n) is None);
    assert(spec_maths_block(s, n) is None);
    assert(spec_image(s, n) is None);
    assert(spec_info_box(s, n) is None);
    assert(spec_warning_box(s, n) is None);
    assert(spec_error_box(s, n) is None);
    assert(spec_block_quote(s, n) is None);
    assert(spec_paragraph(s, n) is None);
    assert(spec_any_object(s, n) is None);
    assert(spec_objects(s, n) == ((n, Seq::<ObjView>::empty())));
    assert(seq![para] + Seq::<ObjView>::empty() =~= seq![para]);
    assert(spec_objects(s, 0) == ((n, seq![para])));
}


proof fn lemma_run_stops(s: Seq<char>, pos: int, f: spec_fn(char) -> bool, e: int)
    requires
        0 <= pos <= e <= s.len(),
        forall|i: int| pos <= i < e ==> f(#[trigger] s[i]),
        e < s.len() ==> !f(s[e]),
    ensures
        spec_run(s, pos, f) == e,
    decreases e - pos,
{
    if pos < e {
        lemma_run_stops(s, pos + 1, f, e);
    }
}

/// The same plain sentence with its line terminator still attached parses the
/// same way: the terminator is consumed and stripped from the text.
pub proof fn lemma_plain_sentence_with_newline(s: Seq<char>)
    requires
        s.len() > 0,
        forall|i: int| 0 <= i < s.len() ==> !is_basic_stop(#[trigger] s[i]),
        !is_multispace(s[0]),
        s[0] != '-',
        s[0] != '>',
        !(s.len() >= 2 && s[0] == '?' && s[1] == '>'),
        !(s.len() >= 2 && s[0] == '!' && s[1] == '>'),
        !(s.len() >= 2 && s[0] == 'x' && s[1] == '>'),
    ensures
        spec_objects(s.push('\n'), 0) == ((
            s.len() + 1 as int,
            seq![ObjView::Paragraph { contents: seq![ObjView::BasicText { contents: s }] }],
        )),
{
    let u = s.push('\n');
    let n = s.len() as int;
    assert(u.len() == n + 1);
    assert(u[n] == '\n');
    assert(forall|i: int| 0 <= i < n ==> u[i] == #[trigger] s[i]);
    lemma_run_stops(u, 0, |c: char| !is_basic_stop(c), n);
    assert(spec_run(u, 0, |c: char| is_multispace(c)) == 0);
    lemma_run_stops(u, n + 1, |c: char| is_multispace(c), n + 1);
    assert(spec_basic_chunk_end(u, 0) == Option::Some(n));
    assert(spec_basic_chunk_end(u, n) is None);
    assert(spec_basic_end(u, n) == n);
    assert(spec_basic_end(u, 0) == n);
    assert(u.subrange(0, n) =~= s);
    let bt = ObjView::BasicText { contents: s };
    assert(spec_basic(u, 0) == Option::Some((n, bt)));
    assert(spec_link(u, 0) is None);
    assert(spec_bold1(u, 0) is None);
    assert(spec_bold2(u, 0) is None);
    assert(spec_italic1(u, 0) is None);
    assert(spec_italic2(u, 0) is None);
    assert(spec_inline_maths(u, 0) is None);
    assert(spec_inline_code(u, 0) is None);
    assert(spec_any_text_modifier(u, 0) == Option::Some((n, bt)));
    assert(spec_basic(u, n) is None);
    assert(spec_link(u, n) is None);
    assert(spec_bold1(u, n) is None);
    assert(spec_bold2(u, n) is None);
    assert(spec_italic1(u, n) is None);
    assert(spec_italic2(u, n) is None);
    assert(spec_inline_maths(u, n) is None);
    assert(spec_inline_code(u, n) is None);
    assert(spec_any_text_modifier(u, n) is None);
    assert(spec_text_modifiers(u, n) is None);
    assert(spec_text_modifiers(u, 0) == Option::Some((n, seq![bt])));
    assert(spec_eolf(u, n) == Option::Some(n + 1));
    let para = ObjView::Paragraph { contents: seq![bt] };
    assert(spec_inline_line(u, 0) == Option::Some((n + 1, seq![bt])));
    assert(spec_paragraph(u, 0) == Option::Some((n + 1, para)));
    assert(spec_hr(u, 0) is None);
    assert(spec_lvl3_title(u, 0) is None);
    assert(spec_lvl2_title(u, 0) is None);
    assert(spec_lvl1_title(u, 0) is None);
    assert(spec_indent(u, 0, 0) == Option::<int>::Some(0));
    assert(spec_list_item(u, 0, 0) is None);
    assert(spec_list(u, 0, 0) is None);
    assert(spec_table_cell(u, 0) is None);
    assert(spec_table_cells(u, 0) is None);
    assert(spec_table_row(u, 0) is None);
    assert(spec_table(u, 0) is None);
    assert(spec_code_block(u, 0) is None);
    assert(spec_maths_block(u, 0) is None);
    assert(spec_link(u, 1) is None);
    assert(spec_image(u, 0) is None);
    assert(spec_info_box(u, 0) is None);
    assert(spec_warning_box(u, 0) is None);
    assert(spec_error_box(u, 0) is None);
    assert(spec_block_quote(u, 0) is None);
    assert(spec_any_object(u, 0) == Option::Some((n + 1, para)));
    let m = n + 1;
    assert(spec_run(u, m, |c: char| is_multispace(c)) == m);
    assert(spec_basic_chunk_end(u, m) is None);
    assert(spec_basic(u, m) is None);
    assert(spec_link(u, m) is None);
    assert(spec_bold1(u, m) is None);
    assert(spec_bold2(u, m) is None);
    assert(spec_italic1(u, m) is None);
    assert(spec_italic2(u, m) is None);
    assert(spec_inline_maths(u, m) is None);
    assert(spec_inline_code(u, m) is None);
    assert(spec_any_text_modifier(u, m) is None);
    assert(spec_text_modifiers(u, m) is None);
    assert(spec_paragraph(u, m) is None);
    assert(spec_hr(u, m) is None);
    assert(spec_lvl3_title(u, m) is None);
    assert(spec_lvl2_title(u, m) is None);
    assert(spec_lvl1_title(u, m) is None);
    assert(spec_indent(u, m, 0) == Option::<int>::Some(m));
    assert(spec_list_item(u, m, 0) is None);
    assert(spec_list(u, m, 0) is None);
    assert(spec_table_cell(u, m) is None);
    assert(spec_table_cells(u, m) is None);
    assert(spec_table_row(u, m) is None);
    assert(spec_table(u, m) is None);
    assert(spec_code_block(u, m) is None);
    assert(spec_maths_block(u, m) is None);
    assert(spec_image(u, m) is None);
    assert(spec_info_box(u, m) is None);
    assert(spec_warning_box(u, m) is None);
    assert(spec_error_box(u, m) is None);
    assert(spec_block_quote(u, m) is None);
    assert(spec_any_object(u, m) is None);
    assert(spec_objects(u, m) == ((m, Seq::<ObjView>::empty())));
    assert(seq![para] + Seq::<ObjView>::empty() =~= seq![para]);
    assert(spec_objects(u, 0) == ((m, seq![para])));
}

/// Turns a slice of the input back into an owned string.
fn segment_string(s: &Vec<char>, from: usize, to: usize) -> (r: String)
    requires
        from <= to <= s@.len(),
    ensures
        r@ == s@.subrange(from as int, to as int),
{
    let mut out = String::new();
    let mut i: usize = from;
    while i < to
        invariant
            from <= i <= to <= s@.len(),
            out@ == s@.subrange(from as int, i as int),
        decreases to - i,
    {
        crate::utils::push_char(&mut out, s[i]);
        proof {
            assert(out@ =~= s@.subrange(from as int, i as int + 1));
        }
        i = i + 1;
    }
    out
}

} // verus!
