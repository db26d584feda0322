//! Text helpers: every string operation of the crate is stated over the
//! sequence of characters that a string holds.

use vstd::prelude::*;
use vstd::string::StringExecFns;

verus! {

/// `String::push` appends the given character to the end of the string.
pub assume_specification[ String::push ](s: &mut String, c: char)
    ensures
        final(s)@ == old(s)@.push(c),
;

/// The characters of a string, in order.
pub fn chars_of(s: &str) -> (r: Vec<char>)
    ensures
        r@ == s@,
{
    let mut out: Vec<char> = Vec::new();
    for c in it: s.chars()
        invariant
            it.seq() == s@,
            out@ == s@.take(it.index() as int),
    {
        out.push(c);
        proof {
            assert(s@.take(it.index() + 1) =~= s@.take(it.index() as int).push(s@[it.index() as int]));
        }
    }
    proof {
        assert(s@.take(s@.len() as int) =~= s@);
    }
    out
}

/// The string that holds the given characters.
pub fn text_of(chars: &[char]) -> (r: String)
    ensures
        r@ == chars@,
{
    let mut out = String::new();
    let mut i: usize = 0;
    while i < chars.len()
        invariant
            i <= chars.len(),
            out@ == chars@.take(i as int),
        decreases chars.len() - i,
    {
        out.push(chars[i]);
        i += 1;
        proof {
            assert(chars@.take(i as int) =~= chars@.take(i - 1).push(chars@[i - 1]));
        }
    }
    proof {
        assert(chars@.take(chars@.len() as int) =~= chars@);
    }
    out
}

/// Whether two strings hold the same characters.
pub fn same(a: &str, b: &str) -> (r: bool)
    ensures
        r == (a@ == b@),
{
    a.to_owned() == b.to_owned()
}

/// `a` followed by `b`.
pub fn join2(a: &str, b: &str) -> (r: String)
    ensures
        r@ == a@ + b@,
{
    let mut out = a.to_owned();
    out.append(b);
    out
}

/// `a`, `b` and `c` one after the other.
pub fn join3(a: &str, b: &str, c: &str) -> (r: String)
    ensures
        r@ == a@ + b@ + c@,
{
    let mut out = a.to_owned();
    out.append(b);
    out.append(c);
    out
}

/// Code points with the Unicode `White_Space` property.
pub open spec fn spec_is_space(c: char) -> bool {
    let n = c as int;
    ||| 9 <= n <= 13
    ||| n == 32
    ||| n == 0x85
    ||| n == 0xA0
    ||| n == 0x1680
    ||| 0x2000 <= n <= 0x200A
    ||| n == 0x2028
    ||| n == 0x2029
    ||| n == 0x202F
    ||| n == 0x205F
    ||| n == 0x3000
}

/// Whether `c` is white space.
pub fn is_space(c: char) -> (r: bool)
    ensures
        r == spec_is_space(c),
{
    let n: u32 = c as u32;
    (9 <= n && n <= 13) || n == 32 || n == 0x85 || n == 0xA0 || n == 0x1680 || (0x2000 <= n && n
        <= 0x200A) || n == 0x2028 || n == 0x2029 || n == 0x202F || n == 0x205F || n == 0x3000
}

/// `s` without its leading white space.
pub open spec fn trim_start(s: Seq<char>) -> Seq<char>
    decreases s.len(),
{
    if s.len() > 0 && spec_is_space(s[0]) {
        trim_start(s.skip(1))
    } else {
        s
    }
}

/// `s` without its trailing white space.
pub open spec fn trim_end(s: Seq<char>) -> Seq<char>
    decreases s.len(),
{
    if s.len() > 0 && spec_is_space(s.last()) {
        trim_end(s.drop_last())
    } else {
        s
    }
}

/// `s` without white space at either end.
pub open spec fn trimmed(s: Seq<char>) -> Seq<char> {
    trim_end(trim_start(s))
}

/// Whether `s` holds white space only.
pub open spec fn blank(s: Seq<char>) -> bool {
    forall|i: int| 0 <= i < s.len() ==> spec_is_space(#[trigger] s[i])
}

/// White space round a text that neither begins nor ends with any is what is left
/// out.
pub proof fn lemma_trimmed(front: Seq<char>, s: Seq<char>, back: Seq<char>)
    requires
        blank(front),
        blank(back),
        s.len() > 0 ==> !spec_is_space(s[0]) && !spec_is_space(s.last()),
    ensures
        trimmed(front + s + back) == s,
    decreases back.len(), front.len(),
{
    let whole = front + s + back;
    if front.len() > 0 {
        assert(whole[0] == front[0]);
        assert forall|i: int| 0 <= i < front.skip(1).len() implies spec_is_space(
            #[trigger] front.skip(1)[i],
        ) by {
            assert(front.skip(1)[i] == front[i + 1]);
        }
        lemma_trimmed(front.skip(1), s, back);
        assert(whole.skip(1) =~= front.skip(1) + s + back);
    } else if s.len() == 0 && back.len() > 0 {
        assert(blank(s));
        lemma_trimmed(back, s, s);
        assert(whole =~= back + s + s);
    } else if back.len() > 0 {
        assert(whole[0] == s[0]);
        assert(whole.last() == back.last());
        assert(blank(back.drop_last()));
        lemma_trimmed(front, s, back.drop_last());
        assert(whole.drop_last() =~= front + s + back.drop_last());
        assert(whole.drop_last()[0] == s[0]);
    } else {
        assert(whole =~= s);
    }
}

/// The characters of `s` without white space at either end.
pub fn trim_chars(s: &[char]) -> (r: Vec<char>)
    ensures
        r@ == trimmed(s@),
{
    let mut from: usize = 0;
    proof {
        assert(s@.skip(0) =~= s@);
    }
    while from < s.len() && is_space(s[from])
        invariant
            from <= s.len(),
            trim_start(s@) == trim_start(s@.skip(from as int)),
        decreases s.len() - from,
    {
        proof {
            assert(s@.skip(from as int).skip(1) =~= s@.skip(from + 1));
        }
        from += 1;
    }
    proof {
        assert(trim_start(s@) == s@.skip(from as int));
    }
    let mut to: usize = s.len();
    while to > from && is_space(s[to - 1])
        invariant
            from <= to <= s.len(),
            trim_end(s@.skip(from as int)) == trim_end(s@.subrange(from as int, to as int)),
        decreases to,
    {
        proof {
            assert(s@.subrange(from as int, to as int).drop_last() =~= s@.subrange(
                from as int,
                to - 1,
            ));
        }
        to -= 1;
        proof {
            assert(trim_end(s@.subrange(from as int, to + 1)) == trim_end(
                s@.subrange(from as int, to as int),
            ));
        }
    }
    proof {
        assert(trim_end(s@.subrange(from as int, to as int)) == s@.subrange(from as int, to as int));
    }
    sub_chars(s, from, to)
}

/// The characters `from..to` of `s`.
pub fn sub_chars(s: &[char], from: usize, to: usize) -> (r: Vec<char>)
    requires
        from <= to <= s.len(),
    ensures
        r@ == s@.subrange(from as int, to as int),
{
    let mut out: Vec<char> = Vec::new();
    let mut i: usize = from;
    while i < to
        invariant
            from <= i <= to <= s.len(),
            out@ == s@.subrange(from as int, i as int),
        decreases to - i,
    {
        out.push(s[i]);
        i += 1;
        proof {
            assert(s@.subrange(from as int, i as int) =~= s@.subrange(from as int, i - 1).push(
                s@[i - 1],
            ));
        }
    }
    out
}

/// `s` without white space at either end.
pub fn trim(s: &str) -> (r: String)
    ensures
        r@ == trimmed(s@),
{
    text_of(&trim_chars(&chars_of(s)))
}

/// The place of the first `c` in `s`, or the length of `s` where there is none.
pub open spec fn find(s: Seq<char>, c: char) -> int
    decreases s.len(),
{
    if s.len() == 0 || s[0] == c {
        0
    } else {
        1 + find(s.skip(1), c)
    }
}

/// `find` is the one place before which no `c` stands, and at which one stands
/// unless it is the end.
pub proof fn lemma_find(s: Seq<char>, c: char)
    ensures
        0 <= find(s, c) <= s.len(),
        forall|j: int| 0 <= j < find(s, c) ==> s[j] != c,
        find(s, c) < s.len() ==> s[find(s, c)] == c,
    decreases s.len(),
{
    if s.len() > 0 && s[0] != c {
        lemma_find(s.skip(1), c);
        assert forall|j: int| 0 <= j < find(s, c) implies s[j] != c by {
            if j > 0 {
                assert(s[j] == s.skip(1)[j - 1]);
            }
        }
    }
}

/// The converse of `lemma_find`.
pub proof fn lemma_find_is(s: Seq<char>, c: char, i: int)
    requires
        0 <= i <= s.len(),
        forall|j: int| 0 <= j < i ==> s[j] != c,
        i < s.len() ==> s[i] == c,
    ensures
        find(s, c) == i,
{
    lemma_find(s, c);
    if find(s, c) < i {
        assert(s[find(s, c)] != c);
    }
}

/// The place of the first `c` at or after `from`, or the length of `s`.
pub fn find_from(s: &[char], c: char, from: usize) -> (r: usize)
    requires
        from <= s.len(),
    ensures
        from <= r <= s.len(),
        r == from + find(s@.skip(from as int), c),
        forall|j: int| from <= j < r ==> s@[j] != c,
        r < s.len() ==> s@[r as int] == c,
{
    let mut i: usize = from;
    while i < s.len() && s[i] != c
        invariant
            from <= i <= s.len(),
            forall|j: int| from <= j < i ==> s@[j] != c,
        decreases s.len() - i,
    {
        i += 1;
    }
    proof {
        lemma_find_is(s@.skip(from as int), c, i - from);
    }
    i
}

/// The place of the last `c` in `s`, or `-1` where there is none.
pub open spec fn rfind(s: Seq<char>, c: char) -> int
    decreases s.len(),
{
    if s.len() == 0 {
        -1
    } else if s.last() == c {
        s.len() - 1
    } else {
        rfind(s.drop_last(), c)
    }
}

/// What follows the last `c` of `s` (all of `s` where there is none).
pub open spec fn after_last(s: Seq<char>, c: char) -> Seq<char> {
    s.skip(rfind(s, c) + 1)
}

/// The place just behind the last `c` of `s`, or `0` where there is none.
pub fn behind_last(s: &[char], c: char) -> (r: usize)
    ensures
        r <= s.len(),
        r == rfind(s@, c) + 1,
{
    let mut i: usize = s.len();
    proof {
        assert(s@.take(s@.len() as int) =~= s@);
    }
    while i > 0 && s[i - 1] != c
        invariant
            i <= s.len(),
            rfind(s@, c) == rfind(s@.take(i as int), c),
        decreases i,
    {
        proof {
            assert(s@.take(i as int).drop_last() =~= s@.take(i - 1));
        }
        i -= 1;
    }
    i
}

/// The pieces of `s` between the separators `c`.
pub open spec fn split(s: Seq<char>, c: char) -> Seq<Seq<char>>
    decreases s.len(),
    via split_decreases
{
    let i = find(s, c);
    if i >= s.len() {
        seq![s]
    } else {
        seq![s.take(i)] + split(s.skip(i + 1), c)
    }
}

#[via_fn]
proof fn split_decreases(s: Seq<char>, c: char) {
    lemma_find(s, c);
}

/// The pieces of `s` between the separators `c`.
pub fn split_on(s: &str, c: char) -> (r: Vec<String>)
    ensures
        r.deep_view() == split(s@, c),
{
    let chars = chars_of(s);
    let mut out: Vec<String> = Vec::new();
    let mut from: usize = 0;
    proof {
        assert(chars@.skip(0) =~= chars@);
        assert(out.deep_view() + split(chars@, c) =~= split(chars@, c));
    }
    loop
        invariant
            from <= chars@.len(),
            out.deep_view() + split(chars@.skip(from as int), c) == split(s@, c),
        decreases chars@.len() - from,
    {
        let to: usize = find_from(&chars, c, from);
        let piece = text_of(&sub_chars(&chars, from, to));
        let ghost before = out.deep_view();
        out.push(piece);
        proof {
            assert(out.deep_view() =~= before.push(piece@));
            assert(piece@ =~= chars@.skip(from as int).take(to - from));
        }
        if to == chars.len() {
            proof {
                assert(piece@ =~= chars@.skip(from as int));
                assert(before + seq![piece@] =~= out.deep_view());
            }
            return out;
        }
        proof {
            assert(chars@.skip(from as int).skip(to - from + 1) =~= chars@.skip(to + 1));
            assert(before + (seq![piece@] + split(chars@.skip(to + 1), c)) =~= out.deep_view()
                + split(chars@.skip(to + 1), c));
        }
        from = to + 1;
    }
}

/// Whether `s` begins with `p`.
pub open spec fn starts(s: Seq<char>, p: Seq<char>) -> bool {
    p.len() <= s.len() && s.take(p.len() as int) == p
}

/// Whether the characters at `at` begin with `p`.
pub fn begins_at(s: &[char], at: usize, p: &[char]) -> (r: bool)
    requires
        at <= s.len(),
    ensures
        r == starts(s@.skip(at as int), p@),
{
    if p.len() > s.len() - at {
        return false;
    }
    let mut i: usize = 0;
    while i < p.len()
        invariant
            i <= p.len() <= s.len() - at,
            at <= s.len(),
            forall|j: int| 0 <= j < i ==> s@[at + j] == p@[j],
        decreases p.len() - i,
    {
        if s[at + i] != p[i] {
            proof {
                assert(s@.skip(at as int).take(p@.len() as int)[i as int] == s@[at + i]);
            }
            return false;
        }
        i += 1;
    }
    proof {
        assert(s@.skip(at as int).take(p@.len() as int) =~= p@);
    }
    true
}

/// Whether `s` begins with `p`.
pub fn starts_with(s: &str, p: &str) -> (r: bool)
    ensures
        r == starts(s@, p@),
{
    let sc = chars_of(s);
    let pc = chars_of(p);
    proof {
        assert(sc@.skip(0) =~= sc@);
    }
    begins_at(&sc, 0, &pc)
}

/// The first place at which `p` begins in `s`, or `-1` where it nowhere does.
pub open spec fn find_text(s: Seq<char>, p: Seq<char>) -> int
    decreases s.len(),
{
    if starts(s, p) {
        0
    } else if s.len() == 0 {
        -1
    } else {
        let rest = find_text(s.skip(1), p);
        if rest < 0 {
            -1
        } else {
            1 + rest
        }
    }
}

/// The first place at which `p` begins in `s`.
pub fn place_of_text(s: &[char], p: &[char]) -> (r: Option<usize>)
    ensures
        match r {
            Some(i) => i == find_text(s@, p@) && i + p@.len() <= s@.len(),
            None => find_text(s@, p@) < 0,
        },
{
    let mut i: usize = 0;
    proof {
        assert(s@.skip(0) =~= s@);
    }
    loop
        invariant
            i <= s@.len(),
            find_text(s@, p@) == (if find_text(s@.skip(i as int), p@) < 0 {
                -1
            } else {
                i + find_text(s@.skip(i as int), p@)
            }),
        decreases s@.len() - i,
    {
        if begins_at(s, i, p) {
            return Some(i);
        }
        if i == s.len() {
            return None;
        }
        proof {
            assert(s@.skip(i as int).skip(1) =~= s@.skip(i + 1));
        }
        i += 1;
    }
}

/// The lines of `s`: the pieces that end in a line feed, each without it and
/// without a carriage return right before it, and what is left after the last
/// line feed, where that is not empty.
pub open spec fn lines(s: Seq<char>) -> Seq<Seq<char>>
    decreases s.len(),
    via lines_decreases
{
    let i = find(s, '\n');
    if s.len() == 0 {
        seq![]
    } else if i >= s.len() {
        seq![s]
    } else {
        seq![without_return(s.take(i))] + lines(s.skip(i + 1))
    }
}

#[via_fn]
proof fn lines_decreases(s: Seq<char>) {
    lemma_find(s, '\n');
}

/// `s` without a final carriage return.
pub open spec fn without_return(s: Seq<char>) -> Seq<char> {
    if s.len() > 0 && s.last() == '\r' {
        s.drop_last()
    } else {
        s
    }
}

/// The lines of `s`.
pub fn lines_of(s: &str) -> (r: Vec<String>)
    ensures
        r.deep_view() == lines(s@),
{
    let chars = chars_of(s);
    let mut out: Vec<String> = Vec::new();
    let mut from: usize = 0;
    proof {
        assert(chars@.skip(0) =~= chars@);
        assert(out.deep_view() + lines(chars@) =~= lines(chars@));
    }
    while from < chars.len()
        invariant
            from <= chars@.len(),
            out.deep_view() + lines(chars@.skip(from as int)) == lines(s@),
        decreases chars@.len() - from,
    {
        let to: usize = find_from(&chars, '\n', from);
        let ghost before = out.deep_view();
        let ghost rest = chars@.skip(from as int);
        if to == chars.len() {
            let piece = text_of(&sub_chars(&chars, from, to));
            out.push(piece);
            proof {
                assert(piece@ =~= rest);
                assert(before + seq![piece@] =~= out.deep_view());
            }
            return out;
        }
        let end: usize = if to > from && chars[to - 1] == '\r' {
            to - 1
        } else {
            to
        };
        let piece = text_of(&sub_chars(&chars, from, end));
        out.push(piece);
        proof {
            assert(piece@ =~= without_return(rest.take(to - from)));
            assert(rest.skip(to - from + 1) =~= chars@.skip(to + 1));
            assert(before + (seq![piece@] + lines(chars@.skip(to + 1))) =~= out.deep_view()
                + lines(chars@.skip(to + 1)));
        }
        from = to + 1;
    }
    proof {
        assert(chars@.skip(from as int) =~= Seq::<char>::empty());
        assert(out.deep_view() + Seq::<Seq<char>>::empty() =~= out.deep_view());
    }
    out
}

/// What separates the words of a list: white space, and commas where asked for.
pub open spec fn separates(c: char, comma: bool) -> bool {
    spec_is_space(c) || (comma && c == ',')
}

/// How many characters at the front of `s` separate nothing.
pub open spec fn token_len(s: Seq<char>, comma: bool) -> int
    decreases s.len(),
{
    if s.len() > 0 && !separates(s[0], comma) {
        1 + token_len(s.skip(1), comma)
    } else {
        0
    }
}

/// The runs of characters between separators.
pub open spec fn tokens(s: Seq<char>, comma: bool) -> Seq<Seq<char>>
    decreases s.len(),
    via tokens_decreases
{
    if s.len() == 0 {
        seq![]
    } else if separates(s[0], comma) {
        tokens(s.skip(1), comma)
    } else {
        seq![s.take(token_len(s, comma))] + tokens(s.skip(token_len(s, comma)), comma)
    }
}

#[via_fn]
proof fn tokens_decreases(s: Seq<char>, comma: bool) {
    lemma_token_len(s, comma);
}

pub proof fn lemma_token_len(s: Seq<char>, comma: bool)
    ensures
        0 <= token_len(s, comma) <= s.len(),
        s.len() > 0 && !separates(s[0], comma) ==> token_len(s, comma) > 0,
        forall|i: int| 0 <= i < token_len(s, comma) ==> !separates(#[trigger] s[i], comma),
        token_len(s, comma) < s.len() ==> separates(s[token_len(s, comma)], comma),
    decreases s.len(),
{
    if s.len() > 0 && !separates(s[0], comma) {
        let rest = s.skip(1);
        lemma_token_len(rest, comma);
        assert forall|i: int| 0 <= i < token_len(s, comma) implies !separates(
            #[trigger] s[i],
            comma,
        ) by {
            if i > 0 {
                assert(s[i] == rest[i - 1]);
            }
        }
    }
}

/// A separator at the end changes no word.
pub proof fn lemma_tokens_before_separator(s: Seq<char>, comma: bool, c: char)
    requires
        separates(c, comma),
    ensures
        tokens(s.push(c), comma) == tokens(s, comma),
    decreases s.len(),
{
    let longer = s.push(c);
    if s.len() == 0 {
        assert(longer.skip(1) =~= s);
    } else if separates(s[0], comma) {
        lemma_tokens_before_separator(s.skip(1), comma, c);
        assert(longer.skip(1) =~= s.skip(1).push(c));
    } else {
        let n = token_len(s, comma);
        lemma_token_len(s, comma);
        assert forall|i: int| 0 <= i < n implies !separates(#[trigger] longer[i], comma) by {
            assert(longer[i] == s[i]);
        }
        lemma_token_len_is(longer, comma, n);
        lemma_tokens_before_separator(s.skip(n), comma, c);
        assert(longer.take(n) =~= s.take(n));
        assert(longer.skip(n) =~= s.skip(n).push(c));
    }
}

pub proof fn lemma_token_len_is(s: Seq<char>, comma: bool, n: int)
    requires
        0 <= n <= s.len(),
        forall|i: int| 0 <= i < n ==> !separates(#[trigger] s[i], comma),
        n < s.len() ==> separates(s[n], comma),
    ensures
        token_len(s, comma) == n,
    decreases s.len(),
{
    if n > 0 {
        let rest = s.skip(1);
        assert forall|i: int| 0 <= i < n - 1 implies !separates(#[trigger] rest[i], comma) by {
            assert(rest[i] == s[i + 1]);
        }
        assert(!separates(s[0], comma));
        lemma_token_len_is(rest, comma, n - 1);
    }
}

/// The runs of characters between separators.
pub fn split_tokens(s: &str, comma: bool) -> (r: Vec<String>)
    ensures
        r.deep_view() == tokens(s@, comma),
{
    let chars = chars_of(s);
    let mut out: Vec<String> = Vec::new();
    let mut from: usize = 0;
    proof {
        assert(chars@.skip(0) =~= chars@);
        assert(out.deep_view() + tokens(chars@, comma) =~= tokens(chars@, comma));
    }
    while from < chars.len()
        invariant
            from <= chars@.len(),
            chars@ == s@,
            out.deep_view() + tokens(chars@.skip(from as int), comma) == tokens(s@, comma),
        decreases chars@.len() - from,
    {
        let ghost rest = chars@.skip(from as int);
        if (comma && chars[from] == ',') || is_space(chars[from]) {
            proof {
                assert(rest.skip(1) =~= chars@.skip(from + 1));
            }
            from += 1;
        } else {
            let mut to: usize = from;
            while to < chars.len() && !((comma && chars[to] == ',') || is_space(chars[to]))
                invariant
                    from <= to <= chars@.len(),
                    forall|i: int| from <= i < to ==> !separates(#[trigger] chars@[i], comma),
                decreases chars@.len() - to,
            {
                to += 1;
            }
            let piece = text_of(&sub_chars(&chars, from, to));
            let ghost before = out.deep_view();
            proof {
                assert forall|i: int| 0 <= i < to - from implies !separates(#[trigger] rest[i], comma) by {
                    assert(rest[i] == chars@[from + i]);
                }
                lemma_token_len_is(rest, comma, to - from);
                assert(piece@ =~= rest.take(to - from));
                assert(rest.skip(to - from) =~= chars@.skip(to as int));
                assert(to > from) by {
                    assert(!separates(rest[0], comma));
                    lemma_token_len(rest, comma);
                }
            }
            out.push(piece);
            proof {
                assert(out.deep_view() =~= before.push(piece@));
                assert(before + (seq![piece@] + tokens(chars@.skip(to as int), comma))
                    =~= out.deep_view() + tokens(chars@.skip(to as int), comma));
            }
            from = to;
        }
    }
    proof {
        assert(chars@.skip(from as int) =~= seq![]);
        assert(out.deep_view() + Seq::<Seq<char>>::empty() =~= out.deep_view());
    }
    out
}

/// `c` in upper case where it is an ASCII letter.
pub open spec fn upper_char(c: char) -> char {
    if 'a' <= c <= 'z' {
        (c as int - 32) as char
    } else {
        c
    }
}

/// `c` in lower case where it is an ASCII letter.
pub open spec fn lower_char(c: char) -> char {
    if 'A' <= c <= 'Z' {
        (c as int + 32) as char
    } else {
        c
    }
}

/// `s` with its ASCII letters in upper case.
pub open spec fn ascii_upper(s: Seq<char>) -> Seq<char> {
    Seq::new(s.len(), |i: int| upper_char(s[i]))
}

/// `s` with its ASCII letters in lower case.
pub open spec fn ascii_lower(s: Seq<char>) -> Seq<char> {
    Seq::new(s.len(), |i: int| lower_char(s[i]))
}

/// `s` with its ASCII letters in upper case.
pub fn to_ascii_upper(s: &str) -> (r: String)
    ensures
        r@ == ascii_upper(s@),
{
    let chars = chars_of(s);
    let mut out = String::new();
    let mut i: usize = 0;
    while i < chars.len()
        invariant
            i <= chars@.len(),
            chars@ == s@,
            out@ == ascii_upper(s@).take(i as int),
        decreases chars@.len() - i,
    {
        let c = chars[i];
        if c >= 'a' && c <= 'z' {
            out.push((c as u8 - 32) as char);
        } else {
            out.push(c);
        }
        i += 1;
        proof {
            assert(ascii_upper(s@).take(i as int) =~= ascii_upper(s@).take(i - 1).push(
                upper_char(s@[i - 1]),
            ));
        }
    }
    proof {
        assert(ascii_upper(s@).take(i as int) =~= ascii_upper(s@));
    }
    out
}

/// `s` with its ASCII letters in lower case.
pub fn to_ascii_lower(s: &str) -> (r: String)
    ensures
        r@ == ascii_lower(s@),
{
    let chars = chars_of(s);
    let mut out = String::new();
    let mut i: usize = 0;
    while i < chars.len()
        invariant
            i <= chars@.len(),
            chars@ == s@,
            out@ == ascii_lower(s@).take(i as int),
        decreases chars@.len() - i,
    {
        let c = chars[i];
        if c >= 'A' && c <= 'Z' {
            out.push((c as u8 + 32) as char);
        } else {
            out.push(c);
        }
        i += 1;
        proof {
            assert(ascii_lower(s@).take(i as int) =~= ascii_lower(s@).take(i - 1).push(
                lower_char(s@[i - 1]),
            ));
        }
    }
    proof {
        assert(ascii_lower(s@).take(i as int) =~= ascii_lower(s@));
    }
    out
}

} // verus!
