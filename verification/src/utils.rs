use vstd::prelude::*;
use vstd::string::StrSliceExecFns;
use vstd::string::StringExecFns;

verus! {

/// Relies on String::push: appends exactly the given character to the string.
#[verifier::external_body]
pub(crate) fn push_char(s: &mut String, c: char)
    ensures
        final(s)@ == old(s)@.push(c),
{
    s.push(c);
}

/// Collects the characters of a string slice into a vector, in order.
pub fn chars_of_str(s: &str) -> (v: Vec<char>)
    ensures
        v@ == s@,
{
    let n = s.unicode_len();
    let mut v: Vec<char> = Vec::new();
    let mut i: usize = 0;
    while i < n
        invariant
            i <= n,
            n == s@.len(),
            v@ == s@.take(i as int),
        decreases n - i,
    {
        let c = s.get_char(i);
        v.push(c);
        proof {
            assert(v@ =~= s@.take(i as int + 1));
        }
        i = i + 1;
    }
    proof {
        assert(s@.take(n as int) =~= s@);
    }
    v
}

/// The decimal digit characters, used to spell counters out in labels and ids.
pub open spec fn spec_digit(d: nat) -> char
    recommends
        d < 10,
{
    "0123456789"@[d as int]
}

/// The decimal numeral of a number, most significant digit first.
pub open spec fn spec_dec(n: nat) -> Seq<char>
    decreases n,
{
    if n < 10 {
        seq![spec_digit(n)]
    } else {
        spec_dec(n / 10).push(spec_digit(n % 10))
    }
}

fn digit_char(d: usize) -> (c: char)
    requires
        d < 10,
    ensures
        c == spec_digit(d as nat),
{
    proof {
        reveal_strlit("0123456789");
    }
    "0123456789".get_char(d)
}

/// Writes a number as its decimal numeral.
pub fn usize_to_string(n: usize) -> (r: String)
    ensures
        r@ == spec_dec(n as nat),
    decreases n,
{
    if n < 10 {
        let mut s = String::new();
        let c = digit_char(n);
        push_char(&mut s, c);
        proof {
            assert(s@ =~= spec_dec(n as nat));
        }
        s
    } else {
        let mut s = usize_to_string(n / 10);
        let c = digit_char(n % 10);
        push_char(&mut s, c);
        proof {
            assert(s@ =~= spec_dec(n as nat));
        }
        s
    }
}

proof fn lemma_digit_not_dash(d: nat)
    requires
        d < 10,
    ensures
        spec_digit(d) != '-',
{
    reveal_strlit("0123456789");
    assert(d == 0 || d == 1 || d == 2 || d == 3 || d == 4 || d == 5 || d == 6 || d == 7 || d == 8
        || d == 9);
}

proof fn lemma_digit_injective(a: nat, b: nat)
    requires
        a < 10,
        b < 10,
        spec_digit(a) == spec_digit(b),
    ensures
        a == b,
{
    reveal_strlit("0123456789");
    assert(a == 0 || a == 1 || a == 2 || a == 3 || a == 4 || a == 5 || a == 6 || a == 7 || a == 8
        || a == 9);
    assert(b == 0 || b == 1 || b == 2 || b == 3 || b == 4 || b == 5 || b == 6 || b == 7 || b == 8
        || b == 9);
}

/// Every character of a decimal numeral is a digit, in particular never a dash.
pub proof fn lemma_dec_no_dash(n: nat)
    ensures
        forall|i: int| 0 <= i < spec_dec(n).len() ==> #[trigger] spec_dec(n)[i] != '-',
    decreases n,
{
    if n < 10 {
        lemma_digit_not_dash(n);
        assert(spec_dec(n)[0] == spec_digit(n));
    } else {
        lemma_dec_no_dash(n / 10);
        lemma_digit_not_dash(n % 10);
        assert forall|i: int| 0 <= i < spec_dec(n).len() implies #[trigger] spec_dec(n)[i]
            != '-' by {
            if i < spec_dec(n / 10).len() {
                assert(spec_dec(n)[i] == spec_dec(n / 10)[i]);
            } else {
                assert(spec_dec(n)[i] == spec_digit(n % 10));
            }
        }
    }
}

/// Distinct numbers have distinct decimal numerals.
pub proof fn lemma_dec_injective(a: nat, b: nat)
    requires
        spec_dec(a) == spec_dec(b),
    ensures
        a == b,
    decreases a,
{
    reveal_strlit("0123456789");
    if a < 10 && b < 10 {
        assert(spec_dec(a)[0] == spec_dec(b)[0]);
        assert(spec_dec(a)[0] == spec_digit(a));
        assert(spec_dec(b)[0] == spec_digit(b));
        lemma_digit_injective(a, b);
    } else if a < 10 && b >= 10 {
        lemma_dec_len(b);
        assert(spec_dec(a).len() == 1);
    } else if a >= 10 && b < 10 {
        lemma_dec_len(a);
        assert(spec_dec(b).len() == 1);
    } else {
        let la = spec_dec(a / 10);
        let lb = spec_dec(b / 10);
        assert(spec_dec(a) == la.push(spec_digit(a % 10)));
        assert(spec_dec(b) == lb.push(spec_digit(b % 10)));
        assert(la.len() == lb.len());
        assert(la.push(spec_digit(a % 10)).last() == spec_digit(a % 10));
        assert(lb.push(spec_digit(b % 10)).last() == spec_digit(b % 10));
        assert(spec_digit(a % 10) == spec_digit(b % 10));
        lemma_digit_injective(a % 10, b % 10);
        assert(a % 10 == b % 10);
        assert forall|i: int| 0 <= i < la.len() implies la[i] == lb[i] by {
            assert(la.push(spec_digit(a % 10))[i] == la[i]);
            assert(lb.push(spec_digit(b % 10))[i] == lb[i]);
            assert(spec_dec(a)[i] == spec_dec(b)[i]);
        }
        assert(la =~= lb);
        lemma_dec_injective(a / 10, b / 10);
    }
}

proof fn lemma_dec_len(n: nat)
    ensures
        spec_dec(n).len() >= 1,
        n >= 10 ==> spec_dec(n).len() >= 2,
    decreases n,
{
    if n < 10 {
    } else {
        lemma_dec_len(n / 10);
    }
}

/// The unit part of the roman-style label: a lookup for 0 through 9.
pub open spec fn spec_roman_unit(u: nat) -> Seq<char> {
    if u == 1 {
        "I"@
    } else if u == 2 {
        "II"@
    } else if u == 3 {
        "III"@
    } else if u == 4 {
        "IV"@
    } else if u == 5 {
        "V"@
    } else if u == 6 {
        "VI"@
    } else if u == 7 {
        "VII"@
    } else if u == 8 {
        "VIII"@
    } else if u == 9 {
        "IX"@
    } else {
        ""@
    }
}

/// The roman-style label of a count: one ten-symbol per ten, then a unit lookup.
/// The result stops being a correct roman numeral at forty; that shape is part
/// of the labelling scheme and is kept as it is.
pub open spec fn spec_roman(n: nat) -> Seq<char> {
    Seq::new(n / 10, |i: int| 'X') + spec_roman_unit(n % 10)
}

/// Gets the level-one heading count as its roman-style label.
pub fn get_roman_numeral(num: usize) -> (r: String)
    ensures
        r@ == spec_roman(num as nat),
{
    let mut buf = String::new();
    let dozen_num: usize = num / 10;
    let mut i: usize = 0;
    while i < dozen_num
        invariant
            i <= dozen_num,
            buf@ == Seq::new(i as nat, |j: int| 'X'),
        decreases dozen_num - i,
    {
        push_char(&mut buf, 'X');
        proof {
            assert(buf@ =~= Seq::new((i + 1) as nat, |j: int| 'X'));
        }
        i = i + 1;
    }
    let unit: &str = match num % 10 {
        1 => "I",
        2 => "II",
        3 => "III",
        4 => "IV",
        5 => "V",
        6 => "VI",
        7 => "VII",
        8 => "VIII",
        9 => "IX",
        _ => "",
    };
    assert(unit@ == spec_roman_unit(num as nat % 10));
    buf.append(unit);
    proof {
        assert(buf@ =~= spec_roman(num as nat));
    }
    buf
}

/// The roman-style label of a count of at least one is never empty.
pub proof fn lemma_roman_nonempty(n: nat)
    requires
        n >= 1,
    ensures
        spec_roman(n).len() > 0,
{
    reveal_strlit("I");
    reveal_strlit("II");
    reveal_strlit("III");
    reveal_strlit("IV");
    reveal_strlit("V");
    reveal_strlit("VI");
    reveal_strlit("VII");
    reveal_strlit("VIII");
    reveal_strlit("IX");
    if n % 10 == 0 {
        assert(n >= 10);
        assert(n / 10 >= 1);
    }
}

/// The letter alphabet that numbers level-two headings.
pub open spec fn spec_alpha_chars() -> Seq<char> {
    "ABCDEFGHIJKLMNOPQRSTUVWXYZ"@
}

/// The letter label of a count: the count-th letter, clamped to the last one.
pub open spec fn spec_alpha(n: nat) -> Seq<char>
    recommends
        n >= 1,
{
    seq![spec_alpha_chars()[if n - 1 >= 25 { 25int } else { n - 1 }]]
}

/// Gets a level-two heading count as its letter label.
pub fn get_alpha_numeral(num: usize) -> (r: String)
    requires
        num >= 1,
    ensures
        r@ == spec_alpha(num as nat),
{
    let mut idx: usize = num - 1;
    if idx >= 25 {
        idx = 25;
    }
    proof {
        reveal_strlit("ABCDEFGHIJKLMNOPQRSTUVWXYZ");
    }
    let c = "ABCDEFGHIJKLMNOPQRSTUVWXYZ".get_char(idx);
    let mut s = String::new();
    push_char(&mut s, c);
    proof {
        assert(s@ =~= spec_alpha(num as nat));
    }
    s
}

/// Whether one character sequence opens another.
pub open spec fn spec_starts_with(s: Seq<char>, p: Seq<char>) -> bool {
    p.len() <= s.len() && s.subrange(0, p.len() as int) == p
}

/// Compares two string slices character by character.
pub fn str_eq(a: &str, b: &str) -> (r: bool)
    ensures
        r == (a@ == b@),
{
    let an = a.unicode_len();
    let bn = b.unicode_len();
    if an != bn {
        return false;
    }
    let mut i: usize = 0;
    while i < an
        invariant
            i <= an,
            an == a@.len(),
            an == b@.len(),
            forall|j: int| 0 <= j < i ==> a@[j] == b@[j],
        decreases an - i,
    {
        if a.get_char(i) != b.get_char(i) {
            return false;
        }
        i = i + 1;
    }
    proof {
        assert(a@ =~= b@);
    }
    true
}

/// Whether a string slice starts with the given prefix.
pub fn str_starts_with(s: &str, p: &str) -> (r: bool)
    ensures
        r == spec_starts_with(s@, p@),
{
    let sn = s.unicode_len();
    let pn = p.unicode_len();
    if pn > sn {
        return false;
    }
    let mut i: usize = 0;
    while i < pn
        invariant
            i <= pn,
            pn <= sn,
            sn == s@.len(),
            pn == p@.len(),
            forall|j: int| 0 <= j < i ==> s@[j] == p@[j],
        decreases pn - i,
    {
        if s.get_char(i) != p.get_char(i) {
            proof {
                assert(s@.subrange(0, p@.len() as int)[i as int] == s@[i as int]);
            }
            return false;
        }
        i = i + 1;
    }
    proof {
        assert(s@.subrange(0, p@.len() as int) =~= p@);
    }
    true
}

/// How one character is written inside escaped text: the three
/// markup-significant characters become entities, all others stay.
pub open spec fn spec_escape_html_char(c: char) -> Seq<char> {
    if c == '&' {
        "&amp;"@
    } else if c == '<' {
        "&lt;"@
    } else if c == '>' {
        "&gt;"@
    } else {
        seq![c]
    }
}

/// The escaped form of a text, character by character.
pub open spec fn spec_escape_html(s: Seq<char>) -> Seq<char>
    decreases s.len(),
{
    if s.len() == 0 {
        Seq::empty()
    } else {
        spec_escape_html_char(s[0]) + spec_escape_html(s.drop_first())
    }
}

/// Escapes a text so that it can stand inside markup without being read as markup.
pub fn escape_html(input: &str) -> (r: String)
    ensures
        r@ == spec_escape_html(input@),
{
    let chars = chars_of_str(input);
    let mut out = String::new();
    proof {
        assert(chars@.skip(0) =~= chars@);
        assert(out@ + spec_escape_html(chars@) =~= spec_escape_html(chars@));
    }
    let mut i: usize = 0;
    while i < chars.len()
        invariant
            i <= chars@.len(),
            chars@ == input@,
            out@ + spec_escape_html(chars@.skip(i as int)) == spec_escape_html(chars@),
        decreases chars@.len() - i,
    {
        proof {
            assert(chars@.skip(i as int)[0] == chars@[i as int]);
            assert(chars@.skip(i as int).drop_first() =~= chars@.skip(i as int + 1));
        }
        let c = chars[i];
        if c == '&' {
            out.append("&amp;");
        } else if c == '<' {
            out.append("&lt;");
        } else if c == '>' {
            out.append("&gt;");
        } else {
            push_char(&mut out, c);
            proof {
                assert(out@ =~= (out@.drop_last() + seq![c]));
            }
        }
        proof {
            assert(out@ + spec_escape_html(chars@.skip(i as int + 1)) =~= spec_escape_html(
                chars@,
            ));
        }
        i = i + 1;
    }
    proof {
        assert(chars@.skip(chars@.len() as int) =~= Seq::<char>::empty());
        assert(out@ =~= spec_escape_html(chars@));
    }
    out
}

/// How one character is written in the latex escape: a line break becomes four
/// backslashes, a backslash two, a quote gains one; everything else stays.
pub open spec fn spec_escape_latex(s: Seq<char>) -> Seq<char>
    decreases s.len(),
{
    if s.len() == 0 {
        Seq::empty()
    } else if s[0] == '\r' && s.len() >= 2 && s[1] == '\n' {
        seq!['\\', '\\', '\\', '\\'] + spec_escape_latex(s.skip(2))
    } else if s[0] == '\n' {
        seq!['\\', '\\', '\\', '\\'] + spec_escape_latex(s.skip(1))
    } else if s[0] == '\\' {
        seq!['\\', '\\'] + spec_escape_latex(s.skip(1))
    } else if s[0] == '\'' {
        seq!['\\', '\''] + spec_escape_latex(s.skip(1))
    } else {
        seq![s[0]] + spec_escape_latex(s.skip(1))
    }
}

/// Escapes a text for a latex-carrying script string: line endings are
/// normalized, then line breaks, backslashes and quotes are escaped.
pub fn escape_latex(input: &str) -> (r: String)
    ensures
        r@ == spec_escape_latex(input@),
{
    let chars = chars_of_str(input);
    let mut out = String::new();
    proof {
        assert(chars@.skip(0) =~= chars@);
        assert(out@ + spec_escape_latex(chars@) =~= spec_escape_latex(chars@));
    }
    let mut i: usize = 0;
    while i < chars.len()
        invariant
            i <= chars@.len(),
            chars@ == input@,
            out@ + spec_escape_latex(chars@.skip(i as int)) == spec_escape_latex(chars@),
        decreases chars@.len() - i,
    {
        proof {
            assert(chars@.skip(i as int)[0] == chars@[i as int]);
            if i + 1 < chars@.len() {
                assert(chars@.skip(i as int)[1] == chars@[i as int + 1]);
            }
            assert(chars@.skip(i as int).skip(1) =~= chars@.skip(i as int + 1));
            if i + 2 <= chars@.len() {
                assert(chars@.skip(i as int).skip(2) =~= chars@.skip(i as int + 2));
            }
        }
        let c = chars[i];
        if c == '\r' && i + 1 < chars.len() && chars[i + 1] == '\n' {
            out.append("\\\\\\\\");
            i = i + 2;
        } else if c == '\n' {
            out.append("\\\\\\\\");
            i = i + 1;
        } else if c == '\\' {
            out.append("\\\\");
            i = i + 1;
        } else if c == '\'' {
            out.append("\\'");
            i = i + 1;
        } else {
            push_char(&mut out, c);
            proof {
                assert(out@ =~= (out@.drop_last() + seq![c]));
            }
            i = i + 1;
        }
        proof {
            reveal_strlit("\\\\\\\\");
            reveal_strlit("\\\\");
            reveal_strlit("\\'");
            assert(out@ + spec_escape_latex(chars@.skip(i as int)) =~= spec_escape_latex(chars@));
        }
    }
    proof {
        assert(chars@.skip(chars@.len() as int) =~= Seq::<char>::empty());
        assert(out@ =~= spec_escape_latex(chars@));
    }
    out
}

} // verus!
