//! The order of versions.

use vstd::prelude::*;
use vstd::string::*;

use crate::text::chars_of;
use crate::text::split;
use crate::text::split_once;

verus! {

// -- model ------------------------------------------------------------------

/// -1, 0 or 1, as `a` is below, the same as or above `b`.
pub open spec fn number_order(a: nat, b: nat) -> int {
    if a < b {
        -1
    } else if a > b {
        1
    } else {
        0
    }
}

/// The order of texts, character by character; one that another starts with comes first.
pub open spec fn text_order(a: Seq<char>, b: Seq<char>) -> int
    decreases a.len(),
{
    if a.len() == 0 {
        if b.len() == 0 {
            0
        } else {
            -1
        }
    } else if b.len() == 0 {
        1
    } else if a[0] < b[0] {
        -1
    } else if a[0] > b[0] {
        1
    } else {
        text_order(a.drop_first(), b.drop_first())
    }
}

/// The order of the parts of a version: numbers by their value, other words as texts and after the
/// numbers.
pub open spec fn part_order(a: Seq<char>, b: Seq<char>) -> int {
    match (crate::number::unsigned_value(a), crate::number::unsigned_value(b)) {
        (Some(x), Some(y)) => number_order(x, y),
        (Some(_), None) => -1,
        (None, Some(_)) => 1,
        (None, None) => text_order(a, b),
    }
}

/// The order of lists of parts, part by part; one that another starts with comes first.
pub open spec fn list_order(a: Seq<Seq<char>>, b: Seq<Seq<char>>) -> int
    decreases a.len(),
{
    if a.len() == 0 {
        if b.len() == 0 {
            0
        } else {
            -1
        }
    } else if b.len() == 0 {
        1
    } else if part_order(a[0], b[0]) != 0 {
        part_order(a[0], b[0])
    } else {
        list_order(a.drop_first(), b.drop_first())
    }
}

/// A version without what follows a `+`, which does not count.
pub open spec fn without_build(v: Seq<char>) -> Seq<char> {
    match crate::text::cut(v, '+') {
        Some((front, _)) => front,
        None => v,
    }
}

/// The numbers of a version, up to a suffix.
pub open spec fn release_parts(v: Seq<char>) -> Seq<Seq<char>> {
    match crate::text::cut(without_build(v), '-') {
        Some((release, _)) => crate::text::pieces(release, '.'),
        None => crate::text::pieces(without_build(v), '.'),
    }
}

/// The parts of the suffix of a version, such as `-next` or `-rc.1`.
pub open spec fn suffix_parts(v: Seq<char>) -> Option<Seq<Seq<char>>> {
    match crate::text::cut(without_build(v), '-') {
        Some((_, suffix)) => Some(crate::text::pieces(suffix, '.')),
        None => None,
    }
}

/// The order of suffixes. A version with one comes before the version without.
pub open spec fn suffix_order(a: Option<Seq<Seq<char>>>, b: Option<Seq<Seq<char>>>) -> int {
    match (a, b) {
        (Some(x), Some(y)) => list_order(x, y),
        (Some(_), None) => -1,
        (None, Some(_)) => 1,
        (None, None) => 0,
    }
}

/// The order of versions: by their numbers, then by their suffixes.
pub open spec fn version_order(a: Seq<char>, b: Seq<char>) -> int {
    if list_order(release_parts(a), release_parts(b)) != 0 {
        list_order(release_parts(a), release_parts(b))
    } else {
        suffix_order(suffix_parts(a), suffix_parts(b))
    }
}

/// Whether a version is newer than another.
pub open spec fn is_newer(latest: Seq<char>, current: Seq<char>) -> bool {
    version_order(latest, current) > 0
}

// -- laws -------------------------------------------------------------------

proof fn lemma_text_mirrored(a: Seq<char>, b: Seq<char>)
    ensures
        text_order(a, b) == -text_order(b, a),
    decreases a.len(),
{
    if a.len() > 0 && b.len() > 0 {
        lemma_text_mirrored(a.drop_first(), b.drop_first());
    }
}

proof fn lemma_list_mirrored(a: Seq<Seq<char>>, b: Seq<Seq<char>>)
    ensures
        list_order(a, b) == -list_order(b, a),
    decreases a.len(),
{
    if a.len() > 0 && b.len() > 0 {
        lemma_text_mirrored(a[0], b[0]);
        lemma_list_mirrored(a.drop_first(), b.drop_first());
    }
}

/// Of two versions that are not level one is newer, and the other is not.
pub proof fn version_order_is_mirrored(a: Seq<char>, b: Seq<char>)
    ensures
        version_order(a, b) == -version_order(b, a),
{
    lemma_list_mirrored(release_parts(a), release_parts(b));
    if let (Some(x), Some(y)) = (suffix_parts(a), suffix_parts(b)) {
        lemma_list_mirrored(x, y);
    }
}

/// No version is newer than itself.
pub proof fn no_version_is_newer_than_itself(v: Seq<char>)
    ensures
        !is_newer(v, v),
{
    version_order_is_mirrored(v, v);
}

proof fn lemma_text_chain(a: Seq<char>, b: Seq<char>, c: Seq<char>)
    requires
        text_order(a, b) >= 0,
        text_order(b, c) >= 0,
    ensures
        text_order(a, c) >= 0,
        text_order(a, b) > 0 || text_order(b, c) > 0 ==> text_order(a, c) > 0,
    decreases a.len(),
{
    if a.len() > 0 && b.len() > 0 && c.len() > 0 && a[0] == b[0] && b[0] == c[0] {
        lemma_text_chain(a.drop_first(), b.drop_first(), c.drop_first());
    }
}

proof fn lemma_part_chain(a: Seq<char>, b: Seq<char>, c: Seq<char>)
    requires
        part_order(a, b) >= 0,
        part_order(b, c) >= 0,
    ensures
        part_order(a, c) >= 0,
        part_order(a, b) > 0 || part_order(b, c) > 0 ==> part_order(a, c) > 0,
{
    if crate::number::unsigned_value(a) is None && crate::number::unsigned_value(b) is None
        && crate::number::unsigned_value(c) is None {
        lemma_text_chain(a, b, c);
    }
}

proof fn lemma_list_chain(a: Seq<Seq<char>>, b: Seq<Seq<char>>, c: Seq<Seq<char>>)
    requires
        list_order(a, b) >= 0,
        list_order(b, c) >= 0,
    ensures
        list_order(a, c) >= 0,
        list_order(a, b) > 0 || list_order(b, c) > 0 ==> list_order(a, c) > 0,
    decreases a.len(),
{
    if a.len() > 0 && b.len() > 0 && c.len() > 0 {
        lemma_part_chain(a[0], b[0], c[0]);
        if part_order(a[0], b[0]) == 0 && part_order(b[0], c[0]) == 0 {
            lemma_text_mirrored(a[0], b[0]);
            lemma_text_mirrored(b[0], c[0]);
            lemma_text_mirrored(a[0], c[0]);
            lemma_part_chain(c[0], b[0], a[0]);
            lemma_list_chain(a.drop_first(), b.drop_first(), c.drop_first());
        }
    }
}

/// A version that is newer than one that is newer than a third is newer than the third.
pub proof fn newer_versions_chain(a: Seq<char>, b: Seq<char>, c: Seq<char>)
    requires
        is_newer(a, b),
        is_newer(b, c),
    ensures
        is_newer(a, c),
{
    lemma_list_chain(release_parts(a), release_parts(b), release_parts(c));
    if list_order(release_parts(a), release_parts(b)) == 0 && list_order(
        release_parts(b),
        release_parts(c),
    ) == 0 {
        lemma_list_mirrored(release_parts(a), release_parts(b));
        lemma_list_mirrored(release_parts(b), release_parts(c));
        lemma_list_mirrored(release_parts(a), release_parts(c));
        lemma_list_chain(release_parts(c), release_parts(b), release_parts(a));
        if let (Some(x), Some(y), Some(z)) = (suffix_parts(a), suffix_parts(b), suffix_parts(c)) {
            lemma_list_chain(x, y, z);
        }
    }
}

/// A release is newer than the versions with a suffix that lead up to it.
pub proof fn releases_follow_their_suffixes(release: Seq<char>, suffix: Seq<char>)
    requires
        forall|i: int|
            0 <= i < release.len() ==> #[trigger] release[i] != '-' && release[i] != '+',
    ensures
        is_newer(release, release + "-"@ + suffix),
{
    reveal_strlit("-");
    let n = release.len() as int;
    let v = release + "-"@ + suffix;
    crate::text::lemma_find(release, '+', n);
    crate::text::lemma_find(release, '-', n);
    crate::text::lemma_find_bounds(v, '+');
    let end = crate::text::find(v, '+');
    assert forall|i: int| 0 <= i <= n implies v[i] != '+' by {
        if i < n {
            assert(v[i] == release[i]);
        }
    }
    let w = without_build(v);
    assert(end > n);
    assert(w =~= v.take(end));
    assert forall|i: int| 0 <= i < n implies #[trigger] w[i] != '-' by {
        assert(w[i] == release[i]);
    }
    assert(w[n] == '-');
    crate::text::lemma_find(w, '-', n);
    assert(w.take(n) =~= release);
    assert(without_build(release) == release);
    assert(release_parts(v) == release_parts(release));
    lemma_list_mirrored(release_parts(release), release_parts(release));
}

// -- comparing --------------------------------------------------------------

/// Whether `chars` are decimal digits, and at least one.
fn are_digits(chars: &Vec<char>) -> (r: bool)
    ensures
        r == (crate::number::unsigned_value(chars@) is Some),
{
    if chars.len() == 0 {
        return false;
    }
    let mut i: usize = 0;
    while i < chars.len()
        invariant
            i <= chars@.len(),
            chars@.len() > 0,
            forall|j: int| 0 <= j < i ==> crate::number::is_digit(#[trigger] chars@[j]),
        decreases chars@.len() - i,
    {
        if !('0' <= chars[i] && chars[i] <= '9') {
            assert(!crate::number::is_digit(chars@[i as int]));
            return false;
        }
        i = i + 1;
    }
    true
}

/// How many digits of a number of `len` digits stand in the first `k` of `n` places.
spec fn digits_in(len: int, n: int, k: int) -> int {
    if k > n - len {
        k - (n - len)
    } else {
        0
    }
}

/// The digit at place `k` of `n`, where shorter numbers are filled up with zeros in front.
fn digit_at(digits: &Vec<char>, n: usize, k: usize) -> (r: u8)
    requires
        digits@.len() <= n,
        k < n,
        forall|j: int| 0 <= j < digits@.len() ==> crate::number::is_digit(#[trigger] digits@[j]),
    ensures
        r <= 9,
        crate::number::digits_value(
            digits@.take(digits_in(digits@.len() as int, n as int, k + 1)),
        ) == crate::number::digits_value(
            digits@.take(digits_in(digits@.len() as int, n as int, k as int)),
        ) * 10 + r,
{
    let fill: usize = n - digits.len();
    if k < fill {
        assert(digits@.take(0).len() == 0);
        0
    } else {
        let p: usize = k - fill;
        assert(crate::number::is_digit(digits@[p as int]));
        assert(digits@.take(p + 1).drop_last() =~= digits@.take(p as int));
        assert(digits@.take(p + 1).last() == digits@[p as int]);
        digits[p] as u8 - 48
    }
}

/// The order of two numbers, of any length.
fn order_of_numbers(a: &Vec<char>, b: &Vec<char>) -> (r: i8)
    requires
        forall|j: int| 0 <= j < a@.len() ==> crate::number::is_digit(#[trigger] a@[j]),
        forall|j: int| 0 <= j < b@.len() ==> crate::number::is_digit(#[trigger] b@[j]),
    ensures
        r == number_order(crate::number::digits_value(a@), crate::number::digits_value(b@)),
{
    let n: usize = if a.len() < b.len() {
        b.len()
    } else {
        a.len()
    };
    let mut r: i8 = 0;
    let mut k: usize = 0;
    proof {
        assert(a@.take(0).len() == 0 && b@.take(0).len() == 0);
    }
    while k < n
        invariant
            k <= n,
            a@.len() <= n,
            b@.len() <= n,
            forall|j: int| 0 <= j < a@.len() ==> crate::number::is_digit(#[trigger] a@[j]),
            forall|j: int| 0 <= j < b@.len() ==> crate::number::is_digit(#[trigger] b@[j]),
            r == number_order(
                crate::number::digits_value(
                    a@.take(digits_in(a@.len() as int, n as int, k as int)),
                ),
                crate::number::digits_value(
                    b@.take(digits_in(b@.len() as int, n as int, k as int)),
                ),
            ),
        decreases n - k,
    {
        let x: u8 = digit_at(a, n, k);
        let y: u8 = digit_at(b, n, k);
        if r == 0 {
            if x < y {
                r = -1;
            } else if x > y {
                r = 1;
            }
        }
        k = k + 1;
    }
    assert(a@.take(a@.len() as int) =~= a@);
    assert(b@.take(b@.len() as int) =~= b@);
    r
}

/// The order of two texts.
fn order_of_texts(a: &Vec<char>, b: &Vec<char>) -> (r: i8)
    ensures
        r == text_order(a@, b@),
{
    let mut i: usize = 0;
    assert(a@.skip(0) =~= a@ && b@.skip(0) =~= b@);
    while i < a.len() && i < b.len()
        invariant
            i <= a@.len(),
            i <= b@.len(),
            text_order(a@, b@) == text_order(a@.skip(i as int), b@.skip(i as int)),
        decreases a@.len() - i,
    {
        assert(a@.skip(i as int).drop_first() =~= a@.skip(i + 1));
        assert(b@.skip(i as int).drop_first() =~= b@.skip(i + 1));
        let x = a[i];
        let y = b[i];
        if x < y {
            return -1;
        }
        if x > y {
            return 1;
        }
        i = i + 1;
    }
    if i < b.len() {
        -1
    } else if i < a.len() {
        1
    } else {
        0
    }
}

/// The order of two parts of a version.
fn order_of_parts(a: &str, b: &str) -> (r: i8)
    ensures
        r == part_order(a@, b@),
{
    let x = chars_of(a);
    let y = chars_of(b);
    match (are_digits(&x), are_digits(&y)) {
        (true, true) => order_of_numbers(&x, &y),
        (true, false) => -1,
        (false, true) => 1,
        (false, false) => order_of_texts(&x, &y),
    }
}

/// The order of two lists of parts.
fn order_of_lists(a: &Vec<String>, b: &Vec<String>) -> (r: i8)
    ensures
        r == list_order(a.deep_view(), b.deep_view()),
{
    let ghost x = a.deep_view();
    let ghost y = b.deep_view();
    let mut i: usize = 0;
    assert(x.skip(0) =~= x && y.skip(0) =~= y);
    while i < a.len() && i < b.len()
        invariant
            i <= a@.len(),
            i <= b@.len(),
            x == a.deep_view(),
            y == b.deep_view(),
            list_order(x, y) == list_order(x.skip(i as int), y.skip(i as int)),
        decreases a@.len() - i,
    {
        assert(x.skip(i as int)[0] == a@[i as int]@ && y.skip(i as int)[0] == b@[i as int]@);
        assert(x.skip(i as int).drop_first() =~= x.skip(i + 1));
        assert(y.skip(i as int).drop_first() =~= y.skip(i + 1));
        let order: i8 = order_of_parts(a[i].as_str(), b[i].as_str());
        if order != 0 {
            return order;
        }
        i = i + 1;
    }
    if i < b.len() {
        -1
    } else if i < a.len() {
        1
    } else {
        0
    }
}

/// The numbers of a version, and the parts of its suffix.
fn parts_of(v: &str) -> (r: (Vec<String>, Option<Vec<String>>))
    ensures
        r.0.deep_view() == release_parts(v@),
        match r.1 {
            Some(suffix) => suffix_parts(v@) == Some(suffix.deep_view()),
            None => suffix_parts(v@) is None,
        },
{
    let front = match split_once(v, '+') {
        Some((front, _)) => front,
        None => v.to_owned(),
    };
    match split_once(front.as_str(), '-') {
        Some((release, suffix)) => (
            split(release.as_str(), '.'),
            Some(split(suffix.as_str(), '.')),
        ),
        None => (split(front.as_str(), '.'), None),
    }
}

/// Whether a version is newer than another.
pub fn newer(latest: &str, current: &str) -> (r: bool)
    ensures
        r == is_newer(latest@, current@),
{
    let (a, a_suffix) = parts_of(latest);
    let (b, b_suffix) = parts_of(current);
    let order: i8 = order_of_lists(&a, &b);
    if order != 0 {
        return order > 0;
    }
    match (a_suffix, b_suffix) {
        (Some(x), Some(y)) => order_of_lists(&x, &y) > 0,
        (Some(_), None) => false,
        (None, Some(_)) => true,
        (None, None) => false,
    }
}

// -- what the order means ---------------------------------------------------

/// The version with three numbers.
pub open spec fn numbered(major: nat, minor: nat, patch: nat) -> Seq<char> {
    crate::number::decimal_nat(major) + "."@ + crate::number::decimal_nat(minor) + "."@
        + crate::number::decimal_nat(patch)
}

proof fn lemma_number_part(n: nat)
    ensures
        crate::number::unsigned_value(crate::number::decimal_nat(n)) == Some(n),
        forall|i: int|
            0 <= i < crate::number::decimal_nat(n).len() ==> '0'
                <= #[trigger] crate::number::decimal_nat(n)[i] <= '9',
{
    crate::number::lemma_digits(n);
    let s = crate::number::decimal_nat(n);
    assert forall|i: int| 0 <= i < s.len() implies '0' <= #[trigger] s[i] <= '9' by {
        assert(crate::number::is_digit(s[i]));
    }
}

proof fn lemma_numbered(major: nat, minor: nat, patch: nat)
    ensures
        ({
            let v = numbered(major, minor, patch);
            &&& crate::text::pieces(v, '.') == seq![
                crate::number::decimal_nat(major),
                crate::number::decimal_nat(minor),
                crate::number::decimal_nat(patch),
            ]
            &&& forall|i: int| 0 <= i < v.len() ==> #[trigger] v[i] != '-' && v[i] != '+'
        }),
{
    reveal_strlit(".");
    let a = crate::number::decimal_nat(major);
    let b = crate::number::decimal_nat(minor);
    let c = crate::number::decimal_nat(patch);
    let parts = seq![a, b, c];
    lemma_number_part(major);
    lemma_number_part(minor);
    lemma_number_part(patch);
    assert forall|i: int, j: int|
        0 <= i < parts.len() && 0 <= j < parts[i].len() implies #[trigger] parts[i][j] != '.' by {
        assert(parts[i] == a || parts[i] == b || parts[i] == c);
    }
    crate::roundtrip::pieces_of_joined(parts, '.');
    let v = numbered(major, minor, patch);
    assert("."@ =~= seq!['.']);
    assert(parts.drop_last() =~= seq![a, b]);
    assert(parts.drop_last().drop_last() =~= seq![a]);
    assert(crate::text::joined(seq![a], seq!['.']) == a);
    assert(crate::text::joined(seq![a, b], seq!['.']) == a + seq!['.'] + b);
    assert(crate::text::joined(parts, seq!['.']) =~= v);
    assert forall|i: int| 0 <= i < v.len() implies #[trigger] v[i] != '-' && v[i] != '+' by {
        let n = a.len() as int;
        let m = n + 1 + b.len();
        if i < n {
            assert(v[i] == a[i]);
        } else if n < i < m {
            assert(v[i] == b[i - n - 1]);
        } else if m < i {
            assert(v[i] == c[i - m - 1]);
        }
    }
}

proof fn lemma_plain_release(v: Seq<char>)
    requires
        forall|i: int| 0 <= i < v.len() ==> #[trigger] v[i] != '-' && v[i] != '+',
    ensures
        release_parts(v) == crate::text::pieces(v, '.'),
        suffix_parts(v) is None,
{
    crate::text::lemma_find(v, '+', v.len() as int);
    crate::text::lemma_find(v, '-', v.len() as int);
}

/// A release is newer than another where its first number is higher, or its second where the first
/// are the same, or its third where the first two are: numbers count by their value, however many
/// digits they have.
pub proof fn releases_are_ordered_by_their_numbers(
    latest: &str,
    current: &str,
    r: bool,
    a: (nat, nat, nat),
    b: (nat, nat, nat),
)
    requires
        call_ensures(newer, (latest, current), r),
        latest@ == numbered(a.0, a.1, a.2),
        current@ == numbered(b.0, b.1, b.2),
    ensures
        r <==> a.0 > b.0 || (a.0 == b.0 && (a.1 > b.1 || (a.1 == b.1 && a.2 > b.2))),
{
    lemma_numbered(a.0, a.1, a.2);
    lemma_numbered(b.0, b.1, b.2);
    lemma_plain_release(latest@);
    lemma_plain_release(current@);
    lemma_number_part(a.0);
    lemma_number_part(a.1);
    lemma_number_part(a.2);
    lemma_number_part(b.0);
    lemma_number_part(b.1);
    lemma_number_part(b.2);
    let x = release_parts(latest@);
    let y = release_parts(current@);
    assert(x.drop_first().drop_first()[0] == x[2] && y.drop_first().drop_first()[0] == y[2]);
    assert(x.drop_first()[0] == x[1] && y.drop_first()[0] == y[1]);
    reveal_with_fuel(list_order, 4);
}

/// Of two candidates for one release the one with the higher number is newer.
pub proof fn candidates_are_ordered_by_their_numbers(
    latest: &str,
    current: &str,
    r: bool,
    release: Seq<char>,
    a: nat,
    b: nat,
)
    requires
        call_ensures(newer, (latest, current), r),
        forall|i: int|
            0 <= i < release.len() ==> #[trigger] release[i] != '-' && release[i] != '+',
        latest@ == release + "-rc."@ + crate::number::decimal_nat(a),
        current@ == release + "-rc."@ + crate::number::decimal_nat(b),
    ensures
        r <==> a > b,
{
    lemma_candidate(release, a);
    lemma_candidate(release, b);
    lemma_number_part(a);
    lemma_number_part(b);
    lemma_list_mirrored(release_parts(latest@), release_parts(latest@));
    lemma_text_mirrored("rc"@, "rc"@);
    let x = suffix_parts(latest@)->0;
    let y = suffix_parts(current@)->0;
    assert(x.drop_first()[0] == x[1] && y.drop_first()[0] == y[1]);
    reveal_with_fuel(list_order, 3);
}

proof fn lemma_candidate(release: Seq<char>, n: nat)
    requires
        forall|i: int|
            0 <= i < release.len() ==> #[trigger] release[i] != '-' && release[i] != '+',
    ensures
        ({
            let v = release + "-rc."@ + crate::number::decimal_nat(n);
            &&& release_parts(v) == crate::text::pieces(release, '.')
            &&& suffix_parts(v) == Some(seq!["rc"@, crate::number::decimal_nat(n)])
        }),
{
    reveal_strlit("-rc.");
    reveal_strlit("rc");
    let digits = crate::number::decimal_nat(n);
    let v = release + "-rc."@ + digits;
    let k = release.len() as int;
    lemma_number_part(n);
    assert forall|i: int| 0 <= i < v.len() implies #[trigger] v[i] != '+' by {
        if i < k {
            assert(v[i] == release[i]);
        } else if i >= k + 4 {
            assert(v[i] == digits[i - k - 4]);
        }
    }
    crate::text::lemma_find(v, '+', v.len() as int);
    assert forall|i: int| 0 <= i < k implies #[trigger] v[i] != '-' by {
        assert(v[i] == release[i]);
    }
    crate::text::lemma_find(v, '-', k);
    assert(v.take(k) =~= release);
    let suffix = v.skip(k + 1);
    let parts = seq!["rc"@, digits];
    assert forall|i: int, j: int|
        0 <= i < parts.len() && 0 <= j < parts[i].len() implies #[trigger] parts[i][j] != '.' by {
        assert(parts[i] == "rc"@ || parts[i] == digits);
    }
    crate::roundtrip::pieces_of_joined(parts, '.');
    assert(parts.drop_last() =~= seq!["rc"@]);
    assert(crate::text::joined(seq!["rc"@], seq!['.']) == "rc"@);
    assert(crate::text::joined(parts, seq!['.']) =~= suffix);
}

/// What follows a `+` does not count: a version is neither newer nor older for it.
pub proof fn builds_do_not_count(latest: &str, current: &str, r: bool, v: Seq<char>, build: Seq<char>)
    requires
        call_ensures(newer, (latest, current), r),
        forall|i: int| 0 <= i < v.len() ==> #[trigger] v[i] != '+',
        (latest@ == v && current@ == v + "+"@ + build) || (latest@ == v + "+"@ + build && current@
            == v),
    ensures
        !r,
{
    reveal_strlit("+");
    let w = v + "+"@ + build;
    let n = v.len() as int;
    crate::text::lemma_find(v, '+', n);
    assert forall|i: int| 0 <= i < n implies #[trigger] w[i] != '+' by {
        assert(w[i] == v[i]);
    }
    assert(w[n] == '+');
    crate::text::lemma_find(w, '+', n);
    assert(w.take(n) =~= v);
    assert(without_build(w) == without_build(v));
    no_version_is_newer_than_itself(v);
}

/// A release is newer than each version with a suffix that leads up to it, and not the other way
/// round.
pub proof fn a_release_replaces_its_candidates(
    latest: &str,
    current: &str,
    r: bool,
    release: Seq<char>,
    suffix: Seq<char>,
)
    requires
        call_ensures(newer, (latest, current), r),
        forall|i: int|
            0 <= i < release.len() ==> #[trigger] release[i] != '-' && release[i] != '+',
        (latest@ == release && current@ == release + "-"@ + suffix) || (latest@ == release + "-"@
            + suffix && current@ == release),
    ensures
        r <==> latest@ == release,
{
    reveal_strlit("-");
    releases_follow_their_suffixes(release, suffix);
    version_order_is_mirrored(release, release + "-"@ + suffix);
    assert((release + "-"@ + suffix).len() > release.len());
}

/// Words are ordered by the first character in which they differ, and a word that another starts with
/// comes before it.
pub proof fn words_are_ordered_by_their_first_difference(
    start: Seq<char>,
    a: Seq<char>,
    b: Seq<char>,
)
    requires
        a.len() > 0 && b.len() > 0 ==> a[0] != b[0],
    ensures
        text_order(start + a, start + b) == if a.len() == 0 && b.len() == 0 {
            0int
        } else if a.len() == 0 {
            -1
        } else if b.len() == 0 {
            1
        } else if a[0] < b[0] {
            -1
        } else {
            1
        },
    decreases start.len(),
{
    if start.len() == 0 {
        assert(start + a =~= a);
        assert(start + b =~= b);
    } else {
        assert((start + a).drop_first() =~= start.drop_first() + a);
        assert((start + b).drop_first() =~= start.drop_first() + b);
        words_are_ordered_by_their_first_difference(start.drop_first(), a, b);
    }
}

/// Parts are compared one by one from the first on: what is the same at the start does not count, the
/// first difference decides, numbers come before words, and fewer parts before more.
pub proof fn the_first_different_part_decides(
    start: Seq<Seq<char>>,
    a: Seq<Seq<char>>,
    b: Seq<Seq<char>>,
)
    requires
        a.len() > 0 && b.len() > 0 ==> part_order(a[0], b[0]) != 0,
    ensures
        list_order(start + a, start + b) == if a.len() == 0 && b.len() == 0 {
            0int
        } else if a.len() == 0 {
            -1
        } else if b.len() == 0 {
            1
        } else {
            part_order(a[0], b[0])
        },
        a.len() > 0 && b.len() > 0 && crate::number::unsigned_value(a[0]) is Some
            && crate::number::unsigned_value(b[0]) is None ==> list_order(start + a, start + b) < 0,
    decreases start.len(),
{
    if start.len() == 0 {
        assert(start + a =~= a);
        assert(start + b =~= b);
    } else {
        assert((start + a).drop_first() =~= start.drop_first() + a);
        assert((start + b).drop_first() =~= start.drop_first() + b);
        lemma_text_mirrored(start[0], start[0]);
        the_first_different_part_decides(start.drop_first(), a, b);
    }
}

} // verus!
