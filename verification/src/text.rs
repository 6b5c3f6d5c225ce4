//! Plain text: the character sequences that every page and header is made of.

use vstd::prelude::*;
use vstd::string::*;
use vstd::utf8::*;

verus! {

/// `String::push` appends one character.
pub assume_specification[ String::push ](s: &mut String, c: char)
    ensures
        final(s)@ == old(s)@.push(c),
;

/// Appends `s` to `buf`.
pub fn out_push(buf: &mut String, s: &str)
    ensures
        final(buf)@ == old(buf)@ + s@,
{
    buf.append(s);
}

/// Whether two texts are the same, character for character.
pub fn same(a: &str, b: &str) -> (r: bool)
    ensures
        r == (a@ == b@),
{
    let left = a.as_bytes();
    let right = b.as_bytes();
    proof {
        encode_utf8_decode_utf8(a@);
        encode_utf8_decode_utf8(b@);
    }
    if left.len() != right.len() {
        return false;
    }
    let mut i: usize = 0;
    while i < left.len()
        invariant
            left@.len() == right@.len(),
            i <= left@.len(),
            left@ == encode_utf8(a@),
            right@ == encode_utf8(b@),
            forall|j: int| 0 <= j < i ==> left@[j] == right@[j],
        decreases left@.len() - i,
    {
        if left[i] != right[i] {
            return false;
        }
        i = i + 1;
    }
    assert(left@ =~= right@);
    true
}

/// The characters of `s`.
pub fn chars_of(s: &str) -> (r: Vec<char>)
    ensures
        r@ == s@,
{
    let mut out: Vec<char> = Vec::new();
    for c in it: s.chars()
        invariant
            out@ == s@.take(it.index()),
            it.seq() == s@,
    {
        out.push(c);
        assert(s@.take(it.index() + 1) =~= s@.take(it.index()).push(c));
    }
    assert(s@.take(s@.len() as int) =~= s@);
    out
}

/// The characters of `chars` from `from` up to `to`, as text.
pub fn text_between(chars: &Vec<char>, from: usize, to: usize) -> (r: String)
    requires
        from <= to <= chars@.len(),
    ensures
        r@ == chars@.subrange(from as int, to as int),
{
    let mut out = String::new();
    let mut i: usize = from;
    while i < to
        invariant
            from <= i <= to <= chars@.len(),
            out@ == chars@.subrange(from as int, i as int),
        decreases to - i,
    {
        out.push(chars[i]);
        assert(chars@.subrange(from as int, i + 1) =~= chars@.subrange(from as int, i as int).push(
            chars@[i as int],
        ));
        i = i + 1;
    }
    out
}

// -- white space ------------------------------------------------------------

/// The characters with the Unicode property `White_Space`.
pub open spec fn white_space(c: char) -> bool {
    ||| '\u{9}' <= c <= '\u{d}'
    ||| c == '\u{20}'
    ||| c == '\u{85}'
    ||| c == '\u{a0}'
    ||| c == '\u{1680}'
    ||| '\u{2000}' <= c <= '\u{200a}'
    ||| c == '\u{2028}'
    ||| c == '\u{2029}'
    ||| c == '\u{202f}'
    ||| c == '\u{205f}'
    ||| c == '\u{3000}'
}

/// Whether `c` is white space.
pub fn is_white_space(c: char) -> (r: bool)
    ensures
        r == white_space(c),
{
    ('\u{9}' <= c && c <= '\u{d}') || c == '\u{20}' || c == '\u{85}' || c == '\u{a0}' || c
        == '\u{1680}' || ('\u{2000}' <= c && c <= '\u{200a}') || c == '\u{2028}' || c == '\u{2029}'
        || c == '\u{202f}' || c == '\u{205f}' || c == '\u{3000}'
}

/// `s` without the white space at its start.
pub open spec fn trim_start(s: Seq<char>) -> Seq<char>
    decreases s.len(),
{
    if s.len() > 0 && white_space(s[0]) {
        trim_start(s.drop_first())
    } else {
        s
    }
}

/// `s` without the white space at its end.
pub open spec fn trim_end(s: Seq<char>) -> Seq<char>
    decreases s.len(),
{
    if s.len() > 0 && white_space(s.last()) {
        trim_end(s.drop_last())
    } else {
        s
    }
}

/// `s` without the white space at either end.
pub open spec fn trimmed(s: Seq<char>) -> Seq<char> {
    trim_end(trim_start(s))
}

pub(crate) proof fn lemma_trim_start(s: Seq<char>, i: int)
    requires
        0 <= i <= s.len(),
        forall|j: int| 0 <= j < i ==> white_space(#[trigger] s[j]),
        i == s.len() || !white_space(s[i]),
    ensures
        trim_start(s) == s.skip(i),
    decreases i,
{
    if i > 0 {
        assert forall|j: int| 0 <= j < i - 1 implies white_space(#[trigger] s.drop_first()[j]) by {
            assert(white_space(s[j + 1]));
        }
        assert(white_space(s[0]));
        lemma_trim_start(s.drop_first(), i - 1);
        assert(s.drop_first().skip(i - 1) =~= s.skip(i));
    } else {
        assert(s.skip(0) =~= s);
    }
}

pub(crate) proof fn lemma_trim_end(s: Seq<char>, i: int)
    requires
        0 <= i <= s.len(),
        forall|j: int| i <= j < s.len() ==> white_space(#[trigger] s[j]),
        i == 0 || !white_space(s[i - 1]),
    ensures
        trim_end(s) == s.take(i),
    decreases s.len() - i,
{
    if i < s.len() {
        assert(white_space(s[s.len() - 1]));
        lemma_trim_end(s.drop_last(), i);
        assert(s.drop_last().take(i) =~= s.take(i));
    } else {
        assert(s.take(i) =~= s);
    }
}

/// `s` without the white space at either end.
pub fn trim(s: &str) -> (r: String)
    ensures
        r@ == trimmed(s@),
{
    let chars = chars_of(s);
    let n: usize = chars.len();
    let mut from: usize = 0;
    while from < n && is_white_space(chars[from])
        invariant
            n == chars@.len(),
            from <= n,
            forall|j: int| 0 <= j < from ==> white_space(#[trigger] chars@[j]),
        decreases n - from,
    {
        from = from + 1;
    }
    proof {
        lemma_trim_start(chars@, from as int);
    }
    let ghost rest = chars@.skip(from as int);
    let mut to: usize = n;
    while to > from && is_white_space(chars[to - 1])
        invariant
            n == chars@.len(),
            from <= to <= n,
            rest == chars@.skip(from as int),
            forall|j: int| to - from <= j < rest.len() ==> white_space(#[trigger] rest[j]),
        decreases to,
    {
        to = to - 1;
    }
    proof {
        lemma_trim_end(rest, to - from);
        assert(rest.take(to - from) =~= chars@.subrange(from as int, to as int));
    }
    text_between(&chars, from, to)
}

/// How many characters come before the first white space of `s`.
pub open spec fn word_len(s: Seq<char>) -> int
    decreases s.len(),
{
    if s.len() == 0 || white_space(s[0]) {
        0
    } else {
        1 + word_len(s.drop_first())
    }
}

/// The first word of `s` and what follows it, unless `s` is blank.
pub open spec fn next_word(s: Seq<char>) -> Option<(Seq<char>, Seq<char>)> {
    let t = trim_start(s);
    if t.len() == 0 {
        None
    } else {
        Some((t.take(word_len(t)), t.skip(word_len(t))))
    }
}

pub(crate) proof fn lemma_word_len(s: Seq<char>, i: int)
    requires
        0 <= i <= s.len(),
        forall|j: int| 0 <= j < i ==> !white_space(#[trigger] s[j]),
        i == s.len() || white_space(s[i]),
    ensures
        word_len(s) == i,
    decreases i,
{
    if i > 0 {
        assert forall|j: int| 0 <= j < i - 1 implies !white_space(#[trigger] s.drop_first()[j]) by {
            assert(!white_space(s[j + 1]));
        }
        assert(!white_space(s[0]));
        lemma_word_len(s.drop_first(), i - 1);
    }
}

/// The first word of `s` and what follows it, unless `s` is blank.
pub fn split_word(s: &str) -> (r: Option<(String, String)>)
    ensures
        match r {
            Some(pair) => next_word(s@) == Some((pair.0@, pair.1@)),
            None => next_word(s@) is None,
        },
{
    let chars = chars_of(s);
    let n: usize = chars.len();
    let mut from: usize = 0;
    while from < n && is_white_space(chars[from])
        invariant
            n == chars@.len(),
            from <= n,
            forall|j: int| 0 <= j < from ==> white_space(#[trigger] chars@[j]),
        decreases n - from,
    {
        from = from + 1;
    }
    proof {
        lemma_trim_start(chars@, from as int);
    }
    let ghost rest = chars@.skip(from as int);
    if from == n {
        return None;
    }
    let mut to: usize = from;
    while to < n && !is_white_space(chars[to])
        invariant
            n == chars@.len(),
            from <= to <= n,
            rest == chars@.skip(from as int),
            forall|j: int| 0 <= j < to - from ==> !white_space(#[trigger] rest[j]),
        decreases n - to,
    {
        to = to + 1;
    }
    proof {
        lemma_word_len(rest, to - from);
        assert(rest.take(to - from) =~= chars@.subrange(from as int, to as int));
        assert(rest.skip(to - from) =~= chars@.subrange(to as int, n as int));
    }
    Some((text_between(&chars, from, to), text_between(&chars, to, n)))
}

// -- splitting and joining --------------------------------------------------

/// The index of the first `c` in `s`, or the length of `s`.
pub open spec fn find(s: Seq<char>, c: char) -> int
    decreases s.len(),
{
    if s.len() == 0 || s[0] == c {
        0
    } else {
        1 + find(s.drop_first(), c)
    }
}

pub(crate) proof fn lemma_find(s: Seq<char>, c: char, i: int)
    requires
        0 <= i <= s.len(),
        forall|j: int| 0 <= j < i ==> #[trigger] s[j] != c,
        i == s.len() || s[i] == c,
    ensures
        find(s, c) == i,
    decreases i,
{
    if i > 0 {
        assert forall|j: int| 0 <= j < i - 1 implies #[trigger] s.drop_first()[j] != c by {
            assert(s[j + 1] != c);
        }
        assert(s[0] != c);
        lemma_find(s.drop_first(), c, i - 1);
    }
}

pub(crate) proof fn lemma_find_bounds(s: Seq<char>, c: char)
    ensures
        0 <= find(s, c) <= s.len(),
        forall|j: int| 0 <= j < find(s, c) ==> s[j] != c,
        find(s, c) < s.len() ==> s[find(s, c)] == c,
    decreases s.len(),
{
    if s.len() > 0 && s[0] != c {
        let t = s.drop_first();
        lemma_find_bounds(t, c);
        assert forall|j: int| 0 <= j < find(s, c) implies s[j] != c by {
            if j > 0 {
                assert(t[j - 1] == s[j]);
            }
        }
    }
}

/// What stands before and after the first `c` of `s`, if there is one.
pub open spec fn cut(s: Seq<char>, c: char) -> Option<(Seq<char>, Seq<char>)> {
    let i = find(s, c);
    if i < s.len() {
        Some((s.take(i), s.skip(i + 1)))
    } else {
        None
    }
}

/// What stands before and after the last `c` of `s`, if there is one.
pub open spec fn cut_last(s: Seq<char>, c: char) -> Option<(Seq<char>, Seq<char>)>
    decreases s.len(),
{
    if s.len() == 0 {
        None
    } else if s.last() == c {
        Some((s.drop_last(), Seq::empty()))
    } else {
        match cut_last(s.drop_last(), c) {
            Some((before, after)) => Some((before, after.push(s.last()))),
            None => None,
        }
    }
}

/// The position of the first `c` in `chars` at or after `from`, or the end.
fn position(chars: &Vec<char>, from: usize, c: char) -> (r: usize)
    requires
        from <= chars@.len(),
    ensures
        from <= r <= chars@.len(),
        r == from + find(chars@.skip(from as int), c),
        forall|j: int| from <= j < r ==> #[trigger] chars@[j] != c,
        r < chars@.len() ==> chars@[r as int] == c,
{
    let mut i: usize = from;
    while i < chars.len() && chars[i] != c
        invariant
            from <= i <= chars@.len(),
            forall|j: int| from <= j < i ==> #[trigger] chars@[j] != c,
        decreases chars@.len() - i,
    {
        i = i + 1;
    }
    proof {
        lemma_find(chars@.skip(from as int), c, i - from);
    }
    i
}

/// What stands before and after the first `c` of `s`, if there is one.
pub fn split_once(s: &str, c: char) -> (r: Option<(String, String)>)
    ensures
        match r {
            Some(pair) => cut(s@, c) == Some((pair.0@, pair.1@)),
            None => cut(s@, c) is None,
        },
{
    let chars = chars_of(s);
    let i: usize = position(&chars, 0, c);
    assert(chars@.skip(0) =~= chars@);
    if i < chars.len() {
        assert(chars@.take(i as int) =~= chars@.subrange(0, i as int));
        assert(chars@.skip(i + 1) =~= chars@.subrange(i + 1, chars@.len() as int));
        Some((text_between(&chars, 0, i), text_between(&chars, i + 1, chars.len())))
    } else {
        None
    }
}

pub(crate) proof fn lemma_cut_last(s: Seq<char>, c: char, i: int)
    requires
        -1 <= i < s.len(),
        forall|j: int| i < j < s.len() ==> #[trigger] s[j] != c,
        i >= 0 ==> s[i] == c,
    ensures
        i >= 0 ==> cut_last(s, c) == Some((s.take(i), s.skip(i + 1))),
        i < 0 ==> cut_last(s, c) is None,
    decreases s.len(),
{
    if s.len() > 0 {
        if s.last() == c {
            assert(i == s.len() - 1);
            assert(s.take(i) =~= s.drop_last());
            assert(s.skip(i + 1) =~= Seq::<char>::empty());
        } else {
            lemma_cut_last(s.drop_last(), c, i);
            if i >= 0 {
                assert(s.drop_last().take(i) =~= s.take(i));
                assert(s.drop_last().skip(i + 1).push(s.last()) =~= s.skip(i + 1));
            }
        }
    }
}

pub(crate) proof fn lemma_cut_last_parts(s: Seq<char>, c: char)
    ensures
        cut_last(s, c) matches Some((before, after)) ==> s == before + seq![c] + after,
    decreases s.len(),
{
    if s.len() > 0 && s.last() != c {
        lemma_cut_last_parts(s.drop_last(), c);
        if let Some((before, after)) = cut_last(s.drop_last(), c) {
            assert(s =~= s.drop_last().push(s.last()));
            assert(s =~= before + seq![c] + after.push(s.last()));
        }
    } else if s.len() > 0 {
        assert(s =~= s.drop_last() + seq![c] + Seq::<char>::empty());
    }
}

/// What stands before and after the last `c` of `s`, if there is one.
pub fn rsplit_once(s: &str, c: char) -> (r: Option<(String, String)>)
    ensures
        match r {
            Some(pair) => cut_last(s@, c) == Some((pair.0@, pair.1@)),
            None => cut_last(s@, c) is None,
        },
{
    let chars = chars_of(s);
    let n: usize = chars.len();
    let mut i: usize = n;
    while i > 0 && chars[i - 1] != c
        invariant
            n == chars@.len(),
            i <= n,
            forall|j: int| i <= j < n ==> #[trigger] chars@[j] != c,
        decreases i,
    {
        i = i - 1;
    }
    proof {
        lemma_cut_last(chars@, c, i - 1);
    }
    if i > 0 {
        assert(chars@.take(i - 1) =~= chars@.subrange(0, i - 1));
        assert(chars@.skip(i as int) =~= chars@.subrange(i as int, n as int));
        Some((text_between(&chars, 0, i - 1), text_between(&chars, i, n)))
    } else {
        None
    }
}

/// The pieces of `s` between the characters `c`.
pub open spec fn pieces(s: Seq<char>, c: char) -> Seq<Seq<char>>
    decreases s.len(),
{
    let i = find(s, c);
    if 0 <= i < s.len() {
        seq![s.take(i)] + pieces(s.skip(i + 1), c)
    } else {
        seq![s]
    }
}

/// The pieces of `s` between the characters `c`.
pub fn split(s: &str, c: char) -> (r: Vec<String>)
    ensures
        r.deep_view() == pieces(s@, c),
{
    let chars = chars_of(s);
    let n: usize = chars.len();
    let mut out: Vec<String> = Vec::new();
    let mut from: usize = 0;
    assert(chars@.skip(0) =~= chars@);
    assert(out.deep_view() + pieces(chars@, c) =~= pieces(chars@, c));
    loop
        invariant
            chars@ == s@,
            n == chars@.len(),
            from <= n,
            out.deep_view() + pieces(chars@.skip(from as int), c) == pieces(s@, c),
        decreases n - from,
    {
        let to: usize = position(&chars, from, c);
        let ghost rest = chars@.skip(from as int);
        let ghost before = out.deep_view();
        assert(rest.take(to - from) =~= chars@.subrange(from as int, to as int));
        out.push(text_between(&chars, from, to));
        assert(out.deep_view() =~= before.push(rest.take(to - from)));
        if to == n {
            assert(rest.take(to - from) =~= rest);
            assert(out.deep_view() =~= before + seq![rest]);
            return out;
        }
        assert(rest.skip(to - from + 1) =~= chars@.skip(to + 1));
        assert(out.deep_view() + pieces(chars@.skip(to + 1), c) =~= before + (seq![
            rest.take(to - from),
        ] + pieces(chars@.skip(to + 1), c)));
        from = to + 1;
    }
}

/// `parts` one after another with `sep` between them.
pub open spec fn joined(parts: Seq<Seq<char>>, sep: Seq<char>) -> Seq<char>
    decreases parts.len(),
{
    if parts.len() == 0 {
        Seq::empty()
    } else if parts.len() == 1 {
        parts[0]
    } else {
        joined(parts.drop_last(), sep) + sep + parts.last()
    }
}

/// `parts` one after another with `sep` between them.
pub fn join(parts: &Vec<String>, sep: &str) -> (r: String)
    ensures
        r@ == joined(parts.deep_view(), sep@),
{
    let mut out = String::new();
    let mut i: usize = 0;
    let ghost all = parts.deep_view();
    while i < parts.len()
        invariant
            i <= parts@.len(),
            all == parts.deep_view(),
            out@ == joined(all.take(i as int), sep@),
        decreases parts@.len() - i,
    {
        proof {
            assert(all.take(i + 1).drop_last() =~= all.take(i as int));
            assert(all.take(i + 1).last() == parts@[i as int]@);
            if i == 0 {
                assert(Seq::<char>::empty() + parts@[0]@ =~= parts@[0]@);
            }
        }
        if i > 0 {
            out_push(&mut out, sep);
        }
        out_push(&mut out, parts[i].as_str());
        i = i + 1;
    }
    assert(all.take(i as int) =~= all);
    out
}

// -- prefixes and suffixes --------------------------------------------------

/// What follows `prefix` in `s`, if `s` starts with it.
pub open spec fn after_prefix(s: Seq<char>, prefix: Seq<char>) -> Option<Seq<char>> {
    if prefix.len() <= s.len() && s.take(prefix.len() as int) == prefix {
        Some(s.skip(prefix.len() as int))
    } else {
        None
    }
}

/// What precedes `suffix` in `s`, if `s` ends with it.
pub open spec fn before_suffix(s: Seq<char>, suffix: Seq<char>) -> Option<Seq<char>> {
    if suffix.len() <= s.len() && s.skip(s.len() - suffix.len()) == suffix {
        Some(s.take(s.len() - suffix.len()))
    } else {
        None
    }
}

/// What follows `prefix` in `s`, if `s` starts with it.
pub fn strip_prefix(s: &str, prefix: &str) -> (r: Option<String>)
    ensures
        match r {
            Some(rest) => after_prefix(s@, prefix@) == Some(rest@),
            None => after_prefix(s@, prefix@) is None,
        },
{
    let chars = chars_of(s);
    let lead = chars_of(prefix);
    if lead.len() > chars.len() {
        return None;
    }
    let head = text_between(&chars, 0, lead.len());
    assert(chars@.subrange(0, lead@.len() as int) =~= s@.take(prefix@.len() as int));
    if same(head.as_str(), prefix) {
        assert(chars@.subrange(lead@.len() as int, chars@.len() as int) =~= s@.skip(
            prefix@.len() as int,
        ));
        Some(text_between(&chars, lead.len(), chars.len()))
    } else {
        None
    }
}

/// What precedes `suffix` in `s`, if `s` ends with it.
pub fn strip_suffix(s: &str, suffix: &str) -> (r: Option<String>)
    ensures
        match r {
            Some(rest) => before_suffix(s@, suffix@) == Some(rest@),
            None => before_suffix(s@, suffix@) is None,
        },
{
    let chars = chars_of(s);
    let trail = chars_of(suffix);
    if trail.len() > chars.len() {
        return None;
    }
    let at: usize = chars.len() - trail.len();
    let tail = text_between(&chars, at, chars.len());
    assert(chars@.subrange(at as int, chars@.len() as int) =~= s@.skip(s@.len() - suffix@.len()));
    if same(tail.as_str(), suffix) {
        assert(chars@.subrange(0, at as int) =~= s@.take(s@.len() - suffix@.len()));
        Some(text_between(&chars, 0, at))
    } else {
        None
    }
}

/// What follows the first place where `pattern` stands.
pub open spec fn after_first(s: Seq<char>, pattern: Seq<char>) -> Option<Seq<char>>
    decreases s.len(),
{
    match after_prefix(s, pattern) {
        Some(rest) => Some(rest),
        None => if s.len() == 0 {
            None
        } else {
            after_first(s.drop_first(), pattern)
        },
    }
}

/// What follows the first place where `pattern` stands.
pub fn after_text(s: &str, pattern: &str) -> (r: Option<String>)
    ensures
        r.deep_view() == after_first(s@, pattern@),
{
    let chars = chars_of(s);
    let ghost all = s@;
    let mut i: usize = 0;
    assert(all.skip(0) =~= all);
    while i < chars.len()
        invariant
            i <= chars@.len(),
            chars@ == all,
            all == s@,
            after_first(all, pattern@) == after_first(all.skip(i as int), pattern@),
        decreases chars@.len() - i,
    {
        let rest = text_between(&chars, i, chars.len());
        assert(all.subrange(i as int, all.len() as int) =~= all.skip(i as int));
        if let Some(found) = strip_prefix(rest.as_str(), pattern) {
            return Some(found);
        }
        assert(all.skip(i as int).drop_first() =~= all.skip(i + 1));
        i = i + 1;
    }
    assert(all.skip(i as int) =~= Seq::<char>::empty());
    let none = String::new();
    strip_prefix(none.as_str(), pattern)
}

/// `s` without the `c` that it starts with.
pub open spec fn skip_leading(s: Seq<char>, c: char) -> Seq<char>
    decreases s.len(),
{
    if s.len() > 0 && s[0] == c {
        skip_leading(s.drop_first(), c)
    } else {
        s
    }
}

/// `s` without the `c` that it starts with.
pub fn without_leading(s: &str, c: char) -> (r: String)
    ensures
        r@ == skip_leading(s@, c),
{
    let chars = chars_of(s);
    let ghost all = s@;
    let mut i: usize = 0;
    assert(all.skip(0) =~= all);
    while i < chars.len() && chars[i] == c
        invariant
            i <= chars@.len(),
            chars@ == all,
            skip_leading(all, c) == skip_leading(all.skip(i as int), c),
        decreases chars@.len() - i,
    {
        assert(all.skip(i as int).drop_first() =~= all.skip(i + 1));
        i = i + 1;
    }
    assert(all.subrange(i as int, all.len() as int) =~= all.skip(i as int));
    text_between(&chars, i, chars.len())
}

// -- pieces of a text -------------------------------------------------------

/// Whether `piece` stands somewhere in `text`.
pub open spec fn holds(text: Seq<char>, piece: Seq<char>) -> bool {
    exists|at: int|
        0 <= at && at + piece.len() <= text.len() && #[trigger] text.subrange(
            at,
            at + piece.len(),
        ) == piece
}

/// Texts, one after the other.
pub open spec fn run_together(parts: Seq<Seq<char>>) -> Seq<char>
    decreases parts.len(),
{
    if parts.len() == 0 {
        Seq::empty()
    } else {
        run_together(parts.drop_last()) + parts.last()
    }
}

/// A text holds what stands between a start and an end of it.
pub(crate) proof fn lemma_holds(before: Seq<char>, piece: Seq<char>, after: Seq<char>)
    ensures
        holds(before + piece + after, piece),
{
    let text = before + piece + after;
    assert(text.subrange(before.len() as int, (before.len() + piece.len()) as int) =~= piece);
}

pub(crate) proof fn lemma_assoc(a: Seq<char>, b: Seq<char>, c: Seq<char>)
    ensures
        a + (b + c) == a + b + c,
{
    assert(a + (b + c) =~= a + b + c);
}

pub(crate) broadcast proof fn lemma_holds_itself(text: Seq<char>)
    ensures
        #[trigger] holds(text, text),
{
    assert(text.subrange(0int, 0int + text.len()) =~= text);
}

pub(crate) broadcast proof fn lemma_holds_start(text: Seq<char>, more: Seq<char>, piece: Seq<char>)
    requires
        holds(text, piece),
    ensures
        #[trigger] holds(text + more, piece),
{
    let at = choose|at: int|
        0 <= at && at + piece.len() <= text.len() && #[trigger] text.subrange(
            at,
            at + piece.len(),
        ) == piece;
    assert((text + more).subrange(at, at + piece.len()) =~= text.subrange(at, at + piece.len()));
}

pub(crate) broadcast proof fn lemma_holds_end(text: Seq<char>, more: Seq<char>, piece: Seq<char>)
    requires
        holds(more, piece),
    ensures
        #[trigger] holds(text + more, piece),
{
    let at = choose|at: int|
        0 <= at && at + piece.len() <= more.len() && #[trigger] more.subrange(
            at,
            at + piece.len(),
        ) == piece;
    let n = text.len() as int;
    assert((text + more).subrange(n + at, n + at + piece.len()) =~= more.subrange(
        at,
        at + piece.len(),
    ));
}

pub(crate) proof fn lemma_holds_part(parts: Seq<Seq<char>>, k: int, piece: Seq<char>)
    requires
        0 <= k < parts.len(),
        holds(parts[k], piece),
    ensures
        holds(run_together(parts), piece),
    decreases parts.len(),
{
    let front = run_together(parts.drop_last());
    if k == parts.len() - 1 {
        lemma_holds_end(front, parts.last(), piece);
    } else {
        assert(parts.drop_last()[k] == parts[k]);
        lemma_holds_part(parts.drop_last(), k, piece);
        lemma_holds_start(front, parts.last(), piece);
    }
}

pub(crate) broadcast proof fn lemma_holds_two(before: Seq<char>, a: Seq<char>, b: Seq<char>)
    ensures
        #[trigger] holds(before + a + b, a + b),
{
    assert(before + a + b =~= before + (a + b));
    lemma_holds_itself(a + b);
    lemma_holds_end(before, a + b, a + b);
}

pub(crate) broadcast proof fn lemma_holds_three(
    before: Seq<char>,
    a: Seq<char>,
    b: Seq<char>,
    c: Seq<char>,
)
    ensures
        #[trigger] holds(before + a + b + c, a + b + c),
{
    assert(before + a + b + c =~= before + (a + b + c));
    lemma_holds_itself(a + b + c);
    lemma_holds_end(before, a + b + c, a + b + c);
}

pub(crate) broadcast proof fn lemma_holds_four(
    before: Seq<char>,
    a: Seq<char>,
    b: Seq<char>,
    c: Seq<char>,
    d: Seq<char>,
)
    ensures
        #[trigger] holds(before + a + b + c + d, a + b + c + d),
{
    assert(before + a + b + c + d =~= before + (a + b + c + d));
    lemma_holds_itself(a + b + c + d);
    lemma_holds_end(before, a + b + c + d, a + b + c + d);
}

pub(crate) broadcast proof fn lemma_holds_five(
    before: Seq<char>,
    a: Seq<char>,
    b: Seq<char>,
    c: Seq<char>,
    d: Seq<char>,
    e: Seq<char>,
)
    ensures
        #[trigger] holds(before + a + b + c + d + e, a + b + c + d + e),
{
    assert(before + a + b + c + d + e =~= before + (a + b + c + d + e));
    lemma_holds_itself(a + b + c + d + e);
    lemma_holds_end(before, a + b + c + d + e, a + b + c + d + e);
}

pub(crate) broadcast proof fn lemma_holds_six(
    before: Seq<char>,
    a: Seq<char>,
    b: Seq<char>,
    c: Seq<char>,
    d: Seq<char>,
    e: Seq<char>,
    f: Seq<char>,
)
    ensures
        #[trigger] holds(before + a + b + c + d + e + f, a + b + c + d + e + f),
{
    assert(before + a + b + c + d + e + f =~= before + (a + b + c + d + e + f));
    lemma_holds_itself(a + b + c + d + e + f);
    lemma_holds_end(before, a + b + c + d + e + f, a + b + c + d + e + f);
}

pub(crate) broadcast proof fn lemma_holds_seven(
    before: Seq<char>,
    a: Seq<char>,
    b: Seq<char>,
    c: Seq<char>,
    d: Seq<char>,
    e: Seq<char>,
    f: Seq<char>,
    g: Seq<char>,
)
    ensures
        #[trigger] holds(before + a + b + c + d + e + f + g, a + b + c + d + e + f + g),
{
    assert(before + a + b + c + d + e + f + g =~= before + (a + b + c + d + e + f + g));
    lemma_holds_itself(a + b + c + d + e + f + g);
    lemma_holds_end(before, a + b + c + d + e + f + g, a + b + c + d + e + f + g);
}

pub(crate) broadcast group group_holds {
    lemma_holds_itself,
    lemma_holds_start,
    lemma_holds_end,
    lemma_holds_two,
    lemma_holds_three,
    lemma_holds_four,
    lemma_holds_five,
    lemma_holds_six,
    lemma_holds_seven,
}

// -- laws -------------------------------------------------------------------

proof fn lemma_start_is_blank(s: Seq<char>) -> (n: int)
    ensures
        0 <= n <= s.len(),
        trim_start(s) == s.skip(n),
        forall|i: int| 0 <= i < n ==> white_space(#[trigger] s[i]),
        n < s.len() ==> !white_space(s[n]),
    decreases s.len(),
{
    if s.len() > 0 && white_space(s[0]) {
        let rest = s.drop_first();
        let n = lemma_start_is_blank(rest);
        assert(s.skip(n + 1) =~= rest.skip(n));
        assert forall|i: int| 0 <= i < n + 1 implies white_space(#[trigger] s[i]) by {
            if i > 0 {
                assert(s[i] == rest[i - 1]);
            }
        }
        n + 1
    } else {
        assert(s.skip(0) =~= s);
        0
    }
}

proof fn lemma_end_is_blank(s: Seq<char>) -> (n: int)
    ensures
        0 <= n <= s.len(),
        trim_end(s) == s.take(n),
        forall|i: int| n <= i < s.len() ==> white_space(#[trigger] s[i]),
        n > 0 ==> !white_space(s[n - 1]),
    decreases s.len(),
{
    if s.len() > 0 && white_space(s.last()) {
        let front = s.drop_last();
        let n = lemma_end_is_blank(front);
        assert(s.take(n) =~= front.take(n));
        assert forall|i: int| n <= i < s.len() implies white_space(#[trigger] s[i]) by {
            if i < front.len() {
                assert(s[i] == front[i]);
            }
        }
        n
    } else {
        assert(s.take(s.len() as int) =~= s);
        s.len() as int
    }
}

/// Trimming takes away white space and nothing else: all of it at the start and at the end, and none
/// in between.
pub proof fn trimming_takes_the_blanks_around(s: &str, r: String) -> (blanks: (
    Seq<char>,
    Seq<char>,
))
    requires
        call_ensures(trim, (s,), r),
    ensures
        s@ == blanks.0 + r@ + blanks.1,
        forall|i: int| 0 <= i < blanks.0.len() ==> white_space(#[trigger] blanks.0[i]),
        forall|i: int| 0 <= i < blanks.1.len() ==> white_space(#[trigger] blanks.1[i]),
        r@.len() > 0 ==> !white_space(r@[0]) && !white_space(r@.last()),
{
    let a = lemma_start_is_blank(s@);
    let rest = s@.skip(a);
    let b = lemma_end_is_blank(rest);
    let before = s@.take(a);
    let after = rest.skip(b);
    assert(s@ =~= before + r@ + after);
    assert forall|i: int| 0 <= i < before.len() implies white_space(#[trigger] before[i]) by {
        assert(before[i] == s@[i]);
    }
    assert forall|i: int| 0 <= i < after.len() implies white_space(#[trigger] after[i]) by {
        assert(after[i] == rest[b + i]);
    }
    if r@.len() > 0 {
        assert(r@[0] == s@[a]);
        assert(r@.last() == rest[b - 1]);
    }
    (before, after)
}

/// A text is cut at the first place where the character stands, or at the last one, and is not cut
/// where it does not stand.
pub proof fn texts_are_cut_where_the_character_stands(
    s: &str,
    c: char,
    first: Option<(String, String)>,
    last: Option<(String, String)>,
)
    requires
        call_ensures(split_once, (s, c), first),
        call_ensures(rsplit_once, (s, c), last),
    ensures
        match first {
            Some(pair) => s@ == pair.0@ + seq![c] + pair.1@ && !pair.0@.contains(c),
            None => !s@.contains(c),
        },
        match last {
            Some(pair) => s@ == pair.0@ + seq![c] + pair.1@ && !pair.1@.contains(c),
            None => !s@.contains(c),
        },
{
    lemma_find_bounds(s@, c);
    lemma_cut_last_parts(s@, c);
    lemma_cut_last_after(s@, c);
    let i = find(s@, c);
    if i < s@.len() {
        assert(s@ =~= s@.take(i) + seq![c] + s@.skip(i + 1));
    }
}

proof fn lemma_cut_last_after(s: Seq<char>, c: char)
    ensures
        match cut_last(s, c) {
            Some(pair) => !pair.1.contains(c),
            None => !s.contains(c),
        },
    decreases s.len(),
{
    if s.len() > 0 && s.last() != c {
        lemma_cut_last_after(s.drop_last(), c);
        match cut_last(s.drop_last(), c) {
            Some(pair) => {
                let after = pair.1.push(s.last());
                if after.contains(c) {
                    let k = choose|k: int| 0 <= k < after.len() && after[k] == c;
                    assert(pair.1[k] == c);
                }
            },
            None => {
                if s.contains(c) {
                    let k = choose|k: int| 0 <= k < s.len() && s[k] == c;
                    assert(s.drop_last()[k] == c);
                }
            },
        }
    }
}

/// The pieces of a text hold no separator, and make up the text again when they are joined with it.
pub proof fn pieces_make_up_the_text(s: Seq<char>, c: char)
    ensures
        pieces(s, c).len() > 0,
        joined(pieces(s, c), seq![c]) == s,
        forall|i: int| 0 <= i < pieces(s, c).len() ==> !(#[trigger] pieces(s, c)[i]).contains(c),
    decreases s.len(),
{
    lemma_find_bounds(s, c);
    let i = find(s, c);
    if i < s.len() {
        let rest = s.skip(i + 1);
        pieces_make_up_the_text(rest, c);
        let more = pieces(rest, c);
        let all = pieces(s, c);
        assert(all == seq![s.take(i)] + more);
        joining_goes_piece_by_piece(seq![s.take(i)], more, seq![c]);
        assert(joined(seq![s.take(i)], seq![c]) == s.take(i));
        assert(s =~= s.take(i) + seq![c] + rest);
        assert forall|k: int| 0 <= k < all.len() implies !(#[trigger] all[k]).contains(c) by {
            if k > 0 {
                assert(all[k] == more[k - 1]);
            }
        }
    } else {
        assert(joined(seq![s], seq![c]) == s);
    }
}

/// Joining goes piece by piece: what is joined of two lists is what is joined of the one, the
/// separator, and what is joined of the other.
pub proof fn joining_goes_piece_by_piece(a: Seq<Seq<char>>, b: Seq<Seq<char>>, sep: Seq<char>)
    requires
        a.len() > 0,
        b.len() > 0,
    ensures
        joined(a + b, sep) == joined(a, sep) + sep + joined(b, sep),
    decreases b.len(),
{
    assert((a + b).drop_last() =~= a + b.drop_last());
    assert((a + b).last() == b.last());
    if b.len() == 1 {
        assert(a + b.drop_last() =~= a);
    } else {
        joining_goes_piece_by_piece(a, b.drop_last(), sep);
        assert(joined(a, sep) + sep + (joined(b.drop_last(), sep) + sep + b.last()) =~= joined(
            a,
            sep,
        ) + sep + joined(b.drop_last(), sep) + sep + b.last());
    }
}

/// What follows a prefix, or precedes a suffix, makes up the text again with it; there is nothing
/// where the text does not start, or end, with it.
pub proof fn prefixes_and_suffixes_come_off(
    s: &str,
    end: &str,
    after: Option<String>,
    before: Option<String>,
    rest: Seq<char>,
)
    requires
        call_ensures(strip_prefix, (s, end), after),
        call_ensures(strip_suffix, (s, end), before),
    ensures
        s@ == end@ + rest <==> (after matches Some(text) && text@ == rest),
        s@ == rest + end@ <==> (before matches Some(text) && text@ == rest),
{
    if s@ == end@ + rest {
        assert(s@.take(end@.len() as int) =~= end@);
        assert(s@.skip(end@.len() as int) =~= rest);
    }
    if let Some(text) = after {
        assert(s@ =~= end@ + text@);
    }
    if s@ == rest + end@ {
        assert(s@.skip(s@.len() - end@.len()) =~= end@);
        assert(s@.take(s@.len() - end@.len()) =~= rest);
    }
    if let Some(text) = before {
        assert(s@ =~= text@ + end@);
    }
}

/// White space is the space, the tab and the characters that end a line or a page, and the spaces of
/// other scripts and widths; letters, digits and signs are none.
pub proof fn blanks_are_white_space(c: char, r: bool)
    requires
        call_ensures(is_white_space, (c,), r),
    ensures
        c == ' ' || c == '\t' || c == '\n' || c == '\r' || c == '\u{b}' || c == '\u{c}' ==> r,
        c == '\u{85}' || c == '\u{a0}' || c == '\u{1680}' || '\u{2000}' <= c <= '\u{200a}' || c
            == '\u{2028}' || c == '\u{2029}' || c == '\u{202f}' || c == '\u{205f}' || c
            == '\u{3000}' ==> r,
        '!' <= c <= '~' ==> !r,
        '\u{3001}' <= c ==> !r,
        '\u{a1}' <= c <= '\u{167f}' ==> !r,
{
}

} // verus!
