//! Texts: their words, lines and pieces, and what occurs in them.

use vstd::prelude::*;

use crate::digits;
use crate::kget;
use crate::text;

verus! {

/// The words of a text behind another, with a separator between the two, come behind
/// the words of that one.
pub proof fn lemma_tokens_join(a: Seq<char>, c: char, b: Seq<char>, comma: bool)
    requires
        text::separates(c, comma),
    ensures
        text::tokens(a.push(c) + b, comma) == text::tokens(a, comma) + text::tokens(b, comma),
    decreases a.len(),
{
    let s = a.push(c) + b;
    if a.len() == 0 {
        assert(s.skip(1) =~= b);
        assert(text::tokens(a, comma) + text::tokens(b, comma) =~= text::tokens(b, comma));
    } else if text::separates(a[0], comma) {
        lemma_tokens_join(a.skip(1), c, b, comma);
        assert(s.skip(1) =~= a.skip(1).push(c) + b);
    } else {
        let n = text::token_len(a, comma);
        text::lemma_token_len(a, comma);
        assert forall|i: int| 0 <= i < n implies !text::separates(#[trigger] s[i], comma) by {
            assert(s[i] == a[i]);
        }
        text::lemma_token_len_is(s, comma, n);
        lemma_tokens_join(a.skip(n), c, b, comma);
        assert(s.take(n) =~= a.take(n));
        assert(s.skip(n) =~= a.skip(n).push(c) + b);
        let rest = text::tokens(a.skip(n), comma);
        assert(seq![a.take(n)] + (rest + text::tokens(b, comma)) =~= seq![a.take(n)] + rest
            + text::tokens(b, comma));
    }
}

/// A text without separators is one word.
pub proof fn lemma_one_token(s: Seq<char>, comma: bool)
    requires
        s.len() > 0,
        forall|i: int| 0 <= i < s.len() ==> !text::separates(#[trigger] s[i], comma),
    ensures
        text::tokens(s, comma) == seq![s],
{
    let n = s.len() as int;
    text::lemma_token_len_is(s, comma, n);
    assert(s.take(n) =~= s);
    assert(s.skip(n) =~= seq![]);
    assert(text::tokens(s.skip(n), comma) =~= seq![]);
    assert(!text::separates(s[0], comma));
    assert(text::tokens(s, comma) =~= seq![s]);
}

/// A list of words, taken apart, is the words of its beginning and then those of the
/// rest, wherever it is cut at a separator; a piece without separators is one word.
pub proof fn law_a_list_is_its_words(
    a: &str,
    b: &str,
    both: &str,
    c: char,
    comma: bool,
    x: Vec<String>,
    y: Vec<String>,
    z: Vec<String>,
)
    requires
        text::spec_is_space(c) || (comma && c == ','),
        both@ == a@.push(c) + b@,
        call_ensures(text::split_tokens, (a, comma), x),
        call_ensures(text::split_tokens, (b, comma), y),
        call_ensures(text::split_tokens, (both, comma), z),
    ensures
        z.deep_view() == x.deep_view() + y.deep_view(),
        a@.len() == 0 ==> x@.len() == 0,
        a@.len() > 0 && (forall|i: int|
            0 <= i < a@.len() ==> !text::spec_is_space(#[trigger] a@[i]) && !(comma && a@[i]
                == ',')) ==> x.deep_view() == seq![a@],
{
    lemma_tokens_join(a@, c, b@, comma);
    assert(x.deep_view().len() == x@.len());
    if a@.len() > 0 && (forall|i: int|
        0 <= i < a@.len() ==> !text::spec_is_space(#[trigger] a@[i]) && !(comma && a@[i]
            == ',')) {
        lemma_one_token(a@, comma);
    }
}

/// Trackers in a list are separated by commas and blanks alike.
pub proof fn law_trackers_are_listed(
    a: &str,
    b: &str,
    both: &str,
    c: char,
    x: Vec<String>,
    y: Vec<String>,
    z: Vec<String>,
)
    requires
        text::spec_is_space(c) || c == ',',
        both@ == a@.push(c) + b@,
        call_ensures(crate::options::split_tracker_list, (a,), x),
        call_ensures(crate::options::split_tracker_list, (b,), y),
        call_ensures(crate::options::split_tracker_list, (both,), z),
    ensures
        z.deep_view() == x.deep_view() + y.deep_view(),
        a@.len() > 0 && (forall|i: int|
            0 <= i < a@.len() ==> !text::spec_is_space(#[trigger] a@[i]) && a@[i] != ',')
            ==> x.deep_view() == seq![a@],
{
    lemma_tokens_join(a@, c, b@, true);
    if a@.len() > 0 && (forall|i: int|
        0 <= i < a@.len() ==> !text::spec_is_space(#[trigger] a@[i]) && a@[i] != ',') {
        lemma_one_token(a@, true);
    }
}

/// A text that is cut at a character gives the pieces of its beginning and then those
/// of the rest; a text without the character is one piece.
pub proof fn law_a_text_is_its_pieces(
    a: &str,
    b: &str,
    both: &str,
    c: char,
    x: Vec<String>,
    y: Vec<String>,
    z: Vec<String>,
)
    requires
        forall|i: int| 0 <= i < a@.len() ==> a@[i] != c,
        both@ == a@.push(c) + b@,
        call_ensures(text::split_on, (a, c), x),
        call_ensures(text::split_on, (b, c), y),
        call_ensures(text::split_on, (both, c), z),
    ensures
        x.deep_view() == seq![a@],
        z.deep_view() == seq![a@] + y.deep_view(),
{
    let n = a@.len() as int;
    text::lemma_find_is(a@, c, n);
    text::lemma_find_is(both@, c, n);
    assert(both@.take(n) =~= a@);
    assert(both@.skip(n + 1) =~= b@);
}

/// A text is cut into lines at line feeds, and a carriage return before one does not
/// belong to the line.
pub proof fn law_a_text_is_its_lines(
    a: &str,
    b: &str,
    both: &str,
    crlf: bool,
    y: Vec<String>,
    z: Vec<String>,
)
    requires
        forall|i: int| 0 <= i < a@.len() ==> a@[i] != '\n',
        a@.len() > 0 ==> a@.last() != '\r',
        both@ == (if crlf {
            a@.push('\r').push('\n') + b@
        } else {
            a@.push('\n') + b@
        }),
        call_ensures(text::lines_of, (b,), y),
        call_ensures(text::lines_of, (both,), z),
    ensures
        z.deep_view() == seq![a@] + y.deep_view(),
{
    let n = a@.len() as int;
    if crlf {
        text::lemma_find_is(both@, '\n', n + 1);
        assert(both@.take(n + 1) =~= a@.push('\r'));
        assert(a@.push('\r').drop_last() =~= a@);
        assert(both@.skip(n + 2) =~= b@);
    } else {
        text::lemma_find_is(both@, '\n', n);
        assert(both@.take(n) =~= a@);
        assert(both@.skip(n + 1) =~= b@);
    }
}

/// Blanks at the ends of a text are what trimming leaves out, and nothing else.
pub proof fn law_trimming_leaves_the_core(
    s: &str,
    r: String,
    front: Seq<char>,
    core: Seq<char>,
    back: Seq<char>,
)
    requires
        s@ == front + core + back,
        text::blank(front),
        text::blank(back),
        core.len() > 0 ==> !text::spec_is_space(core[0]) && !text::spec_is_space(core.last()),
        call_ensures(text::trim, (s,), r),
    ensures
        r@ == core,
{
    text::lemma_trimmed(front, core, back);
}

/// Where a text occurs, it is found, and where it is found, it occurs.
pub proof fn lemma_found(s: Seq<char>, p: Seq<char>)
    ensures
        text::find_text(s, p) >= 0 <==> exists|i: int|
            0 <= i && i + p.len() <= s.len() && #[trigger] s.subrange(i, i + p.len()) == p,
        text::find_text(s, p) >= -1,
        text::find_text(s, p) >= 0 ==> text::find_text(s, p) + p.len() <= s.len() && s.subrange(
            text::find_text(s, p),
            text::find_text(s, p) + p.len(),
        ) == p,
    decreases s.len(),
{
    if text::starts(s, p) {
        assert(s.subrange(0, 0int + p.len()) =~= s.take(p.len() as int));
        assert(s.subrange(0, 0int + p.len()) == p);
    } else if s.len() == 0 {
        if exists|i: int| 0 <= i && i + p.len() <= s.len() && #[trigger] s.subrange(i, i + p.len())
            == p {
            assert(p.len() == 0);
            assert(s.take(0) =~= p);
        }
    } else {
        let t = s.skip(1);
        lemma_found(t, p);
        if text::find_text(t, p) >= 0 {
            let k = text::find_text(t, p);
            assert(t.subrange(k, k + p.len()) =~= s.subrange(k + 1, k + 1 + p.len()));
            assert(s.subrange(k + 1, k + 1 + p.len()) == p);
        }
        if exists|i: int| 0 <= i && i + p.len() <= s.len() && #[trigger] s.subrange(i, i + p.len())
            == p {
            let i = choose|i: int|
                0 <= i && i + p.len() <= s.len() && #[trigger] s.subrange(i, i + p.len()) == p;
            if i == 0 {
                assert(s.take(p.len() as int) =~= p);
            } else {
                assert(t.subrange(i - 1, i - 1 + p.len()) =~= s.subrange(i, i + p.len()));
                assert(t.subrange(i - 1, i - 1 + p.len()) == p);
            }
        }
    }
}

/// A text mentions another exactly where that one stands somewhere in it.
pub proof fn law_what_is_mentioned_occurs(
    s: &str,
    part: &str,
    before: Seq<char>,
    after: Seq<char>,
    r: bool,
)
    requires
        call_ensures(kget::mentions, (s, part), r),
    ensures
        s@ == before + part@ + after ==> r,
        r ==> exists|i: int|
            0 <= i && i + part@.len() <= s@.len() && #[trigger] s@.subrange(i, i + part@.len())
                == part@,
{
    lemma_found(s@, part@);
    if s@ == before + part@ + after {
        let i = before.len() as int;
        assert(s@.subrange(i, i + part@.len()) =~= part@);
    }
}

/// The mark of a scheme stands behind the scheme, where that holds no colon.
pub proof fn lemma_scheme(scheme: Seq<char>, rest: Seq<char>)
    requires
        forall|i: int| 0 <= i < scheme.len() ==> scheme[i] != ':',
    ensures
        text::find_text(scheme + "://"@ + rest, "://"@) == scheme.len(),
        (scheme + "://"@ + rest).skip(scheme.len() + 3int) == rest,
    decreases scheme.len(),
{
    reveal_strlit("://");
    let s = scheme + "://"@ + rest;
    assert(s.skip(scheme.len() + 3int) =~= rest);
    if scheme.len() == 0 {
        assert(s.take(3) =~= "://"@);
    } else {
        assert(s[0] == scheme[0]);
        assert(s.take(3)[0] == s[0]);
        assert("://"@[0] == ':');
        assert(!text::starts(s, "://"@));
        lemma_scheme(scheme.skip(1), rest);
        assert(s.skip(1) =~= scheme.skip(1) + "://"@ + rest);
    }
}

/// The last `c` of a text stands before the last piece without one.
pub proof fn lemma_last(head: Seq<char>, c: char, name: Seq<char>)
    requires
        forall|i: int| 0 <= i < name.len() ==> name[i] != c,
    ensures
        text::rfind(head.push(c) + name, c) == head.len(),
        text::after_last(head.push(c) + name, c) == name,
    decreases name.len(),
{
    let s = head.push(c) + name;
    if name.len() == 0 {
        assert(s.last() == c);
    } else {
        assert(s.last() == name.last());
        assert(s.drop_last() =~= head.push(c) + name.drop_last());
        lemma_last(head, c, name.drop_last());
    }
    assert(s.skip(head.len() + 1int) =~= name);
}

/// A text without `c` has no last one.
pub proof fn lemma_no_last(s: Seq<char>, c: char)
    requires
        forall|i: int| 0 <= i < s.len() ==> s[i] != c,
    ensures
        text::rfind(s, c) == -1,
    decreases s.len(),
{
    if s.len() > 0 {
        lemma_no_last(s.drop_last(), c);
    }
}

/// Numbers are written so that reading them gives them back.
pub proof fn law_numbers_are_read_back(n: u64, s: String, t: &str, max: u64, r: Option<u64>)
    requires
        call_ensures(digits::u64_text, (n,), s),
        t@ == s@,
        n <= max,
        call_ensures(digits::parse_unsigned, (t, max), r),
    ensures
        r == Some(n),
{
    digits::lemma_dec(n as nat);
    assert(digits::is_digit(s@[0]));
}

/// A text with a character that is no digit is no number.
pub proof fn law_only_digits_are_numbers(s: &str, max: u64, r: Option<u64>, i: int)
    requires
        0 < i < s@.len(),
        !('0' <= s@[i] <= '9'),
        call_ensures(digits::parse_unsigned, (s, max), r),
    ensures
        r is None,
{
    let body = if s@[0] == '+' {
        s@.skip(1)
    } else {
        s@
    };
    if s@[0] == '+' {
        assert(body[i - 1] == s@[i]);
    }
    if digits::all_digits(body) {
        assert(digits::is_digit(s@[i]));
    }
}

/// Letters are put in one case, and nothing else changes.
pub proof fn law_case_is_all_that_changes(s: &str, lower: String, upper: String, i: int)
    requires
        0 <= i < s@.len(),
        call_ensures(text::to_ascii_lower, (s,), lower),
        call_ensures(text::to_ascii_upper, (s,), upper),
    ensures
        lower@.len() == s@.len() && upper@.len() == s@.len(),
        'A' <= s@[i] <= 'Z' ==> lower@[i] as int == s@[i] as int + 32 && upper@[i] == s@[i],
        'a' <= s@[i] <= 'z' ==> lower@[i] == s@[i] && upper@[i] as int == s@[i] as int - 32,
        !('A' <= s@[i] <= 'Z') && !('a' <= s@[i] <= 'z') ==> lower@[i] == s@[i] && upper@[i]
            == s@[i],
{
}

} // verus!
