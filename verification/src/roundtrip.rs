//! Links and requests agree: what a link carries is what the request that follows it asks for.

use vstd::prelude::*;
use vstd::string::*;
use vstd::utf8::*;

verus! {

// -- joining and splitting --------------------------------------------------

proof fn lemma_joined_front(parts: Seq<Seq<char>>, sep: Seq<char>)
    requires
        parts.len() >= 2,
    ensures
        crate::text::joined(parts, sep) == parts[0] + sep + crate::text::joined(
            parts.drop_first(),
            sep,
        ),
    decreases parts.len(),
{
    let rest = parts.drop_first();
    let front = parts.drop_last();
    if parts.len() == 2 {
        assert(front.len() == 1 && front[0] == parts[0]);
        assert(rest.len() == 1 && rest[0] == parts.last());
        assert(crate::text::joined(front, sep) == parts[0]);
    } else {
        lemma_joined_front(front, sep);
        assert(front.drop_first() =~= rest.drop_last());
        assert(rest.last() == parts.last());
        assert(crate::text::joined(parts, sep) =~= parts[0] + sep + crate::text::joined(rest, sep));
    }
}

/// Splitting gives back the pieces that were joined, where none of them holds the separator.
pub proof fn pieces_of_joined(parts: Seq<Seq<char>>, c: char)
    requires
        parts.len() > 0,
        forall|i: int, j: int|
            0 <= i < parts.len() && 0 <= j < parts[i].len() ==> #[trigger] parts[i][j] != c,
    ensures
        crate::text::pieces(crate::text::joined(parts, seq![c]), c) == parts,
    decreases parts.len(),
{
    let all = crate::text::joined(parts, seq![c]);
    if parts.len() == 1 {
        assert(all == parts[0]);
        crate::text::lemma_find(all, c, all.len() as int);
        assert(crate::text::pieces(all, c) =~= parts);
    } else {
        let rest = parts.drop_first();
        lemma_joined_front(parts, seq![c]);
        let n = parts[0].len() as int;
        assert forall|j: int| 0 <= j < n implies #[trigger] all[j] != c by {
            assert(all[j] == parts[0][j]);
        }
        crate::text::lemma_find(all, c, n);
        assert(all.take(n) =~= parts[0]);
        assert(all.skip(n + 1) =~= crate::text::joined(rest, seq![c]));
        assert forall|i: int, j: int| 0 <= i < rest.len() && 0 <= j < rest[i].len() implies
            #[trigger] rest[i][j] != c by {
            assert(parts[i + 1][j] != c);
        }
        pieces_of_joined(rest, c);
        assert(crate::text::pieces(all, c) =~= parts);
    }
}

// -- plain words ------------------------------------------------------------

/// Whether `s` is made of lower-case letters alone.
pub open spec fn is_word(s: Seq<char>) -> bool {
    forall|i: int| 0 <= i < s.len() ==> 'a' <= #[trigger] s[i] <= 'z'
}

/// Whether `c` stands for itself in the path of a link: it is no white space, which would end the
/// link, and none of the characters that mean something else there.
pub open spec fn plain_char(c: char) -> bool {
    !crate::text::white_space(c) && c != '%' && c != '+' && c != '?'
}

/// Whether `s` is made of such characters.
pub open spec fn is_plain(s: Seq<char>) -> bool {
    forall|i: int| 0 <= i < s.len() ==> plain_char(#[trigger] s[i])
}

proof fn lemma_plain_bytes(s: Seq<char>)
    requires
        is_plain(s),
    ensures
        forall|i: int|
            0 <= i < encode_utf8(s).len() ==> #[trigger] encode_utf8(s)[i] != 0x25 && encode_utf8(
                s,
            )[i] != 0x2b,
    decreases s.len(),
{
    if s.len() > 0 {
        let bytes = encode_utf8(s);
        let head = encode_scalar(s[0] as u32);
        let rest = encode_utf8(s.drop_first());
        assert forall|i: int| 0 <= i < s.drop_first().len() implies plain_char(
            #[trigger] s.drop_first()[i],
        ) by {
            assert(plain_char(s[i + 1]));
        }
        lemma_plain_bytes(s.drop_first());
        encode_utf8_first_scalar(s);
        assert(plain_char(s[0]));
        let b = bytes[0];
        if b == 0x25 || b == 0x2b {
            assert(b & 0x7f == b) by (bit_vector)
                requires
                    b == 0x25 || b == 0x2b,
            ;
            assert(s[0] as u32 == b as u32);
            char_u32_cast(s[0], b as u32);
        }
        assert forall|i: int| 0 <= i < bytes.len() implies #[trigger] bytes[i] != 0x25 && bytes[i]
            != 0x2b by {
            if i >= head.len() {
                assert(bytes[i] == rest[i - head.len()]);
            }
        }
    }
}

/// A plain path stands for itself.
proof fn lemma_path_is_plain(path: Seq<char>)
    requires
        is_plain(path),
    ensures
        crate::percent::decodable(path),
        crate::percent::percent_decoded(path) == path,
{
    lemma_plain_bytes(path);
    lemma_decoded_self(encode_utf8(path));
    encode_utf8_valid_utf8(path);
    encode_utf8_decode_utf8(path);
}

/// A word stands for itself.
proof fn lemma_word_is_plain(s: Seq<char>)
    requires
        is_word(s),
    ensures
        crate::percent::decodable(s),
        crate::percent::percent_decoded(s) == s,
{
    assert forall|i: int| 0 <= i < s.len() implies plain_char(#[trigger] s[i]) by {
        assert('a' <= s[i] <= 'z');
    }
    lemma_path_is_plain(s);
}

proof fn lemma_decoded_self(bytes: Seq<u8>)
    requires
        forall|i: int| 0 <= i < bytes.len() ==> #[trigger] bytes[i] != 0x25 && bytes[i] != 0x2b,
    ensures
        crate::percent::decoded(bytes) == bytes,
    decreases bytes.len(),
{
    if bytes.len() > 0 {
        lemma_decoded_self(bytes.skip(1));
        assert(crate::percent::decoded(bytes) =~= bytes);
    } else {
        assert(crate::percent::decoded(bytes) =~= bytes);
    }
}

// -- query strings ----------------------------------------------------------

/// Whether all keys are words.
pub open spec fn plain_keys(pairs: Seq<(Seq<char>, Seq<char>)>) -> bool {
    forall|i: int| 0 <= i < pairs.len() ==> is_word(#[trigger] pairs[i].0)
}

/// The characters that a query string is made of.
pub open spec fn link_char(c: char) -> bool {
    crate::percent::url_safe(c) || c == '=' || c == '&' || c == '/' || c == '?'
}

/// Whether `s` is made of such characters.
pub open spec fn link_text(s: Seq<char>) -> bool {
    forall|i: int| 0 <= i < s.len() ==> link_char(#[trigger] s[i])
}

proof fn lemma_piece(pair: (Seq<char>, Seq<char>))
    requires
        is_word(pair.0),
    ensures
        crate::request::pair_of(crate::query::piece_of(pair)) == pair,
        crate::request::piece_decodable(crate::query::piece_of(pair)),
        crate::query::piece_of(pair).len() > 0,
        link_text(crate::query::piece_of(pair)),
        forall|j: int|
            0 <= j < crate::query::piece_of(pair).len()
                ==> #[trigger] crate::query::piece_of(pair)[j] != '&',
{
    reveal_strlit("=");
    let piece = crate::query::piece_of(pair);
    let key = pair.0;
    let value = crate::percent::percent_encoded(pair.1);
    let n = key.len() as int;
    crate::percent::percent_encoded_is_url_safe(pair.1);
    crate::percent::percent_encode_round_trips(pair.1);
    lemma_word_is_plain(key);
    assert forall|j: int| 0 <= j < n implies #[trigger] piece[j] != '=' by {
        assert('a' <= key[j] <= 'z');
    }
    assert(piece[n] == '=');
    crate::text::lemma_find(piece, '=', n);
    assert(piece.take(n) =~= key);
    assert(piece.skip(n + 1) =~= value);
    assert forall|j: int| 0 <= j < piece.len() implies link_char(#[trigger] piece[j]) && piece[j]
        != '&' by {
        if j < n {
            assert('a' <= key[j] <= 'z');
        } else if j > n {
            assert(crate::percent::url_safe(value[j - n - 1]));
            assert(piece[j] == value[j - n - 1]);
        }
    }
}

proof fn lemma_pairs_of(pairs: Seq<(Seq<char>, Seq<char>)>)
    requires
        plain_keys(pairs),
    ensures
        crate::request::pairs_of(crate::query::pieces_of(pairs)) == pairs,
    decreases pairs.len(),
{
    let pieces = crate::query::pieces_of(pairs);
    if pairs.len() > 0 {
        assert forall|i: int| 0 <= i < pairs.drop_last().len() implies is_word(
            #[trigger] pairs.drop_last()[i].0,
        ) by {
            assert(is_word(pairs[i].0));
        }
        lemma_pairs_of(pairs.drop_last());
        assert(pieces.drop_last() =~= crate::query::pieces_of(pairs.drop_last()));
        assert(is_word(pairs[pairs.len() - 1].0));
        lemma_piece(pairs.last());
        assert(crate::request::pairs_of(pieces) =~= pairs);
    } else {
        assert(crate::request::pairs_of(pieces) =~= pairs);
    }
}

proof fn lemma_joined_link_text(parts: Seq<Seq<char>>)
    requires
        forall|i: int| 0 <= i < parts.len() ==> link_text(#[trigger] parts[i]),
    ensures
        link_text(crate::text::joined(parts, seq!['&'])),
    decreases parts.len(),
{
    if parts.len() == 1 {
        assert(link_text(parts[0]));
    } else if parts.len() > 1 {
        let front = crate::text::joined(parts.drop_last(), seq!['&']);
        lemma_joined_link_text(parts.drop_last());
        let all = crate::text::joined(parts, seq!['&']);
        assert(link_text(parts[parts.len() - 1]));
        assert forall|i: int| 0 <= i < all.len() implies link_char(#[trigger] all[i]) by {
            if i < front.len() {
                assert(all[i] == front[i]);
            } else if i > front.len() {
                assert(all[i] == parts.last()[i - front.len() - 1]);
            }
        }
    }
}

/// A query string reads back as the pairs that it was written from.
pub proof fn query_string_round_trips(pairs: Seq<(Seq<char>, Seq<char>)>)
    requires
        pairs.len() > 0,
        plain_keys(pairs),
    ensures
        ({
            let text = crate::text::joined(crate::query::pieces_of(pairs), "&"@);
            &&& crate::request::query_decodable(text)
            &&& crate::request::query_pairs(text) == pairs
            &&& link_text(text)
        }),
{
    reveal_strlit("&");
    assert("&"@ =~= seq!['&']);
    let parts = crate::query::pieces_of(pairs);
    assert forall|i: int| 0 <= i < parts.len() implies {
        &&& link_text(#[trigger] parts[i])
        &&& crate::request::piece_decodable(parts[i])
        &&& forall|j: int| 0 <= j < parts[i].len() ==> #[trigger] parts[i][j] != '&'
    } by {
        assert(is_word(pairs[i].0));
        lemma_piece(pairs[i]);
    }
    pieces_of_joined(parts, '&');
    lemma_joined_link_text(parts);
    lemma_pairs_of(pairs);
}

// -- request lines ----------------------------------------------------------

proof fn lemma_request_line(target: Seq<char>)
    requires
        target.len() > 0,
        forall|i: int|
            0 <= i < target.len() ==> !crate::text::white_space(#[trigger] target[i]),
    ensures
        crate::request::method_and_target("GET "@ + target + " HTTP/1.1\r\n"@) == Some(
            ("GET"@, target),
        ),
{
    reveal_strlit("GET ");
    reveal_strlit("GET");
    reveal_strlit(" HTTP/1.1\r\n");
    let tail = " HTTP/1.1\r\n"@;
    let line = "GET "@ + target + tail;
    let n = target.len() as int;
    crate::text::lemma_trim_start(line, 0);
    assert(line.skip(0) =~= line);
    assert(line[0] == 'G' && line[1] == 'E' && line[2] == 'T' && line[3] == ' ');
    crate::text::lemma_word_len(line, 3);
    assert(line.take(3) =~= "GET"@);
    let rest = line.skip(3);
    assert(rest[0] == ' ');
    assert(rest[1] == target[0]);
    assert(!crate::text::white_space(target[0]));
    crate::text::lemma_trim_start(rest, 1);
    let words = rest.skip(1);
    assert forall|j: int| 0 <= j < n implies !crate::text::white_space(#[trigger] words[j]) by {
        assert(words[j] == target[j]);
        assert(!crate::text::white_space(target[j]));
    }
    assert(words[n] == tail[0]);
    crate::text::lemma_word_len(words, n);
    assert(words.take(n) =~= target);
}

// -- looking pairs up -------------------------------------------------------

proof fn lemma_first_value_concat(
    a: Seq<(Seq<char>, Seq<char>)>,
    b: Seq<(Seq<char>, Seq<char>)>,
    key: Seq<char>,
)
    ensures
        crate::request::first_value(a + b, key) == (match crate::request::first_value(a, key) {
            Some(v) => Some(v),
            None => crate::request::first_value(b, key),
        }),
    decreases a.len(),
{
    if a.len() == 0 {
        assert(a + b =~= b);
    } else {
        lemma_first_value_concat(a.drop_first(), b, key);
        assert((a + b).drop_first() =~= a.drop_first() + b);
    }
}

proof fn lemma_all_values_concat(
    a: Seq<(Seq<char>, Seq<char>)>,
    b: Seq<(Seq<char>, Seq<char>)>,
    key: Seq<char>,
)
    ensures
        crate::request::all_values(a + b, key) == crate::request::all_values(a, key)
            + crate::request::all_values(b, key),
    decreases b.len(),
{
    if b.len() == 0 {
        assert(a + b =~= a);
        assert(crate::request::all_values(a, key) + crate::request::all_values(b, key)
            =~= crate::request::all_values(a, key));
    } else {
        lemma_all_values_concat(a, b.drop_last(), key);
        assert((a + b).drop_last() =~= a + b.drop_last());
        assert(crate::request::all_values(a + b, key) =~= crate::request::all_values(a, key)
            + crate::request::all_values(b, key));
    }
}

/// The pairs for a key that is not the one looked for.
proof fn lemma_other_key(pairs: Seq<(Seq<char>, Seq<char>)>, key: Seq<char>)
    requires
        forall|i: int| 0 <= i < pairs.len() ==> (#[trigger] pairs[i]).0 != key,
    ensures
        crate::request::first_value(pairs, key) is None,
        crate::request::all_values(pairs, key) == Seq::<Seq<char>>::empty(),
    decreases pairs.len(),
{
    if pairs.len() > 0 {
        lemma_other_key_first(pairs, key);
        assert(pairs[pairs.len() - 1].0 != key);
        lemma_other_key(pairs.drop_last(), key);
    }
}

proof fn lemma_other_key_first(pairs: Seq<(Seq<char>, Seq<char>)>, key: Seq<char>)
    requires
        forall|i: int| 0 <= i < pairs.len() ==> (#[trigger] pairs[i]).0 != key,
    ensures
        crate::request::first_value(pairs, key) is None,
    decreases pairs.len(),
{
    if pairs.len() > 0 {
        assert(pairs[0].0 != key);
        assert forall|i: int| 0 <= i < pairs.drop_first().len() implies (
            #[trigger] pairs.drop_first()[i]).0 != key by {
            assert(pairs[i + 1].0 != key);
        }
        lemma_other_key_first(pairs.drop_first(), key);
    }
}

proof fn lemma_tag_values(tags: Seq<Seq<char>>)
    ensures
        crate::request::all_values(crate::query::tag_pairs(tags), "tag"@) == tags,
    decreases tags.len(),
{
    let pairs = crate::query::tag_pairs(tags);
    if tags.len() > 0 {
        lemma_tag_values(tags.drop_last());
        assert(pairs.drop_last() =~= crate::query::tag_pairs(tags.drop_last()));
        assert(crate::request::all_values(pairs, "tag"@) =~= tags);
    } else {
        assert(crate::request::all_values(pairs, "tag"@) =~= tags);
    }
}

proof fn lemma_filter_pair(key: Seq<char>, value: Option<Seq<char>>, wanted: Seq<char>)
    ensures
        crate::request::first_value(crate::query::filter_pair(key, value), wanted) == if key
            == wanted {
            value
        } else {
            None
        },
        key != wanted ==> crate::request::all_values(crate::query::filter_pair(key, value), wanted)
            == Seq::<Seq<char>>::empty(),
{
    if key != wanted {
        lemma_other_key(crate::query::filter_pair(key, value), wanted);
    }
}

proof fn lemma_switch_pair(key: Seq<char>, on: bool, wanted: Seq<char>)
    ensures
        crate::request::first_value(crate::query::switch_pair(key, on), wanted) == if key == wanted
            && on {
            Some("1"@)
        } else {
            None
        },
        key != wanted ==> crate::request::all_values(crate::query::switch_pair(key, on), wanted)
            == Seq::<Seq<char>>::empty(),
{
    if key != wanted {
        lemma_other_key(crate::query::switch_pair(key, on), wanted);
    }
}

pub(crate) proof fn lemma_keys_differ()
    ensures
        "status"@ != "state"@,
        "status"@ != "tag"@,
        "status"@ != "assigned"@,
        "status"@ != "q"@,
        "status"@ != "all"@,
        "status"@ != "subissues"@,
        "status"@ != "order"@,
        "state"@ != "tag"@,
        "state"@ != "assigned"@,
        "state"@ != "q"@,
        "state"@ != "all"@,
        "state"@ != "subissues"@,
        "state"@ != "order"@,
        "tag"@ != "assigned"@,
        "tag"@ != "q"@,
        "tag"@ != "all"@,
        "tag"@ != "subissues"@,
        "tag"@ != "order"@,
        "assigned"@ != "q"@,
        "assigned"@ != "all"@,
        "assigned"@ != "subissues"@,
        "assigned"@ != "order"@,
        "q"@ != "all"@,
        "q"@ != "subissues"@,
        "q"@ != "order"@,
        "all"@ != "subissues"@,
        "all"@ != "order"@,
        "subissues"@ != "order"@,
        is_word("status"@),
        is_word("state"@),
        is_word("tag"@),
        is_word("assigned"@),
        is_word("q"@),
        is_word("all"@),
        is_word("subissues"@),
        is_word("order"@),
{
    reveal_strlit("status");
    reveal_strlit("state");
    reveal_strlit("tag");
    reveal_strlit("assigned");
    reveal_strlit("q");
    reveal_strlit("all");
    reveal_strlit("subissues");
    reveal_strlit("order");
    assert("status"@.len() == 6 && "state"@.len() == 5 && "assigned"@.len() == 8);
    assert("q"@.len() == 1 && "subissues"@.len() == 9);
    assert("order"@[0] == 'o' && "state"@[0] == 's');
    assert("tag"@[0] == 't' && "all"@[0] == 'a');
}

/// What a link carries under one key.
pub(crate) proof fn lemma_link_lookup(q: crate::query::QueryView, order: Option<Seq<char>>, key: Seq<char>)
    ensures
        crate::request::first_value(crate::query::link_pairs(q, order), key) == (if key
            == "status"@ {
            q.status
        } else if key == "state"@ {
            q.state
        } else if key == "assigned"@ {
            q.assigned
        } else if key == "q"@ {
            q.search
        } else if key == "all"@ {
            if q.all {
                Some("1"@)
            } else {
                None
            }
        } else if key == "subissues"@ {
            if q.subissues {
                Some("1"@)
            } else {
                None
            }
        } else if key == "order"@ {
            crate::query::link_order(q, order)
        } else {
            crate::request::first_value(crate::query::tag_pairs(q.tags), key)
        }),
        key == "tag"@ ==> crate::request::all_values(crate::query::link_pairs(q, order), key)
            == q.tags,
{
    lemma_keys_differ();
    let p1 = crate::query::filter_pair("status"@, q.status);
    let p2 = crate::query::filter_pair("state"@, q.state);
    let p3 = crate::query::tag_pairs(q.tags);
    let p4 = crate::query::filter_pair("assigned"@, q.assigned);
    let p5 = crate::query::filter_pair("q"@, q.search);
    let p6 = crate::query::switch_pair("all"@, q.all);
    let p7 = crate::query::switch_pair("subissues"@, q.subissues);
    let p8 = crate::query::filter_pair("order"@, crate::query::link_order(q, order));
    lemma_filter_pair("status"@, q.status, key);
    lemma_filter_pair("state"@, q.state, key);
    lemma_filter_pair("assigned"@, q.assigned, key);
    lemma_filter_pair("q"@, q.search, key);
    lemma_switch_pair("all"@, q.all, key);
    lemma_switch_pair("subissues"@, q.subissues, key);
    lemma_filter_pair("order"@, crate::query::link_order(q, order), key);
    if key != "tag"@ {
        assert forall|i: int| 0 <= i < p3.len() implies (#[trigger] p3[i]).0 != key by {
            assert(p3[i] == ("tag"@, q.tags[i]));
        }
        lemma_other_key(p3, key);
    } else {
        lemma_tag_values(q.tags);
    }
    lemma_first_value_concat(p1, p2, key);
    lemma_first_value_concat(p1 + p2, p3, key);
    lemma_first_value_concat(p1 + p2 + p3, p4, key);
    lemma_first_value_concat(p1 + p2 + p3 + p4, p5, key);
    lemma_first_value_concat(p1 + p2 + p3 + p4 + p5, p6, key);
    lemma_first_value_concat(p1 + p2 + p3 + p4 + p5 + p6, p7, key);
    lemma_first_value_concat(p1 + p2 + p3 + p4 + p5 + p6 + p7, p8, key);
    if key == "tag"@ {
        lemma_all_values_concat(p1, p2, key);
        lemma_all_values_concat(p1 + p2, p3, key);
        lemma_all_values_concat(p1 + p2 + p3, p4, key);
        lemma_all_values_concat(p1 + p2 + p3 + p4, p5, key);
        lemma_all_values_concat(p1 + p2 + p3 + p4 + p5, p6, key);
        lemma_all_values_concat(p1 + p2 + p3 + p4 + p5 + p6, p7, key);
        lemma_all_values_concat(p1 + p2 + p3 + p4 + p5 + p6 + p7, p8, key);
        assert(crate::request::all_values(crate::query::link_pairs(q, order), key) =~= q.tags);
    }
}

proof fn lemma_link_keys(q: crate::query::QueryView, order: Option<Seq<char>>)
    ensures
        plain_keys(crate::query::link_pairs(q, order)),
{
    lemma_keys_differ();
    let pairs = crate::query::link_pairs(q, order);
    let p3 = crate::query::tag_pairs(q.tags);
    let a = crate::query::filter_pair("status"@, q.status) + crate::query::filter_pair(
        "state"@,
        q.state,
    );
    let b = a + p3 + crate::query::filter_pair("assigned"@, q.assigned);
    let c = b + crate::query::filter_pair("q"@, q.search) + crate::query::switch_pair(
        "all"@,
        q.all,
    );
    let d = c + crate::query::switch_pair("subissues"@, q.subissues);
    assert(pairs == d + crate::query::filter_pair("order"@, crate::query::link_order(q, order)));
    assert(plain_keys(a));
    assert(plain_keys(p3));
    assert(plain_keys(a + p3)) by {
        assert forall|i: int| 0 <= i < (a + p3).len() implies is_word(
            #[trigger] (a + p3)[i].0,
        ) by {
            if i < a.len() {
                assert(is_word(a[i].0));
            } else {
                assert(is_word(p3[i - a.len()].0));
            }
        }
    }
    assert(plain_keys(b)) by {
        assert forall|i: int| 0 <= i < b.len() implies is_word(#[trigger] b[i].0) by {
            if i < (a + p3).len() {
                assert(is_word((a + p3)[i].0));
            }
        }
    }
    assert(plain_keys(c)) by {
        assert forall|i: int| 0 <= i < c.len() implies is_word(#[trigger] c[i].0) by {
            if i < b.len() {
                assert(is_word(b[i].0));
            }
        }
    }
    assert(plain_keys(d)) by {
        assert forall|i: int| 0 <= i < d.len() implies is_word(#[trigger] d[i].0) by {
            if i < c.len() {
                assert(is_word(c[i].0));
            }
        }
    }
    assert forall|i: int| 0 <= i < pairs.len() implies is_word(#[trigger] pairs[i].0) by {
        if i < d.len() {
            assert(is_word(d[i].0));
        }
    }
}

// -- the filters of a request -----------------------------------------------

/// Whether a filter is set to a text that is not blank and has no white space around it.
pub open spec fn is_clean(value: Option<Seq<char>>) -> bool {
    crate::request::cleaned(value) == value
}

/// Whether filters are as a request sets them: clean, and no tag blank.
pub open spec fn is_canonical(q: crate::query::QueryView) -> bool {
    &&& is_clean(q.status)
    &&& is_clean(q.state)
    &&& is_clean(q.assigned)
    &&& is_clean(q.search)
    &&& is_clean(q.order)
    &&& forall|i: int|
        0 <= i < q.tags.len() ==> crate::text::trimmed(#[trigger] q.tags[i]).len() > 0
}

proof fn lemma_trim_start_fixed(s: Seq<char>)
    ensures
        crate::text::trim_start(s).len() > 0 ==> !crate::text::white_space(
            crate::text::trim_start(s)[0],
        ),
    decreases s.len(),
{
    if s.len() > 0 && crate::text::white_space(s[0]) {
        lemma_trim_start_fixed(s.drop_first());
    }
}

proof fn lemma_trim_end_fixed(s: Seq<char>)
    ensures
        crate::text::trim_end(s).len() <= s.len(),
        crate::text::trim_end(s) == s.take(crate::text::trim_end(s).len() as int),
        crate::text::trim_end(s).len() > 0 ==> !crate::text::white_space(
            crate::text::trim_end(s).last(),
        ),
    decreases s.len(),
{
    if s.len() > 0 && crate::text::white_space(s.last()) {
        lemma_trim_end_fixed(s.drop_last());
        let n = crate::text::trim_end(s).len() as int;
        assert(s.drop_last().take(n) =~= s.take(n));
    } else {
        assert(s.take(s.len() as int) =~= s);
    }
}

/// Trimming twice is trimming once.
pub proof fn trimming_is_idempotent(s: Seq<char>)
    ensures
        crate::text::trimmed(crate::text::trimmed(s)) == crate::text::trimmed(s),
{
    let a = crate::text::trim_start(s);
    let t = crate::text::trim_end(a);
    lemma_trim_start_fixed(s);
    lemma_trim_end_fixed(a);
    if t.len() > 0 {
        assert(t[0] == a[0]);
    }
}

proof fn lemma_not_blank(texts: Seq<Seq<char>>)
    ensures
        forall|i: int|
            0 <= i < crate::query::not_blank(texts).len() ==> crate::text::trimmed(
                #[trigger] crate::query::not_blank(texts)[i],
            ).len() > 0,
    decreases texts.len(),
{
    if texts.len() > 0 {
        let front = crate::query::not_blank(texts.drop_last());
        lemma_not_blank(texts.drop_last());
        assert forall|i: int| 0 <= i < crate::query::not_blank(texts).len() implies crate::text::trimmed(
            #[trigger] crate::query::not_blank(texts)[i],
        ).len() > 0 by {
            if i < front.len() {
                assert(crate::query::not_blank(texts)[i] == front[i]);
            }
        }
    }
}

proof fn lemma_not_blank_fixed(texts: Seq<Seq<char>>)
    requires
        forall|i: int|
            0 <= i < texts.len() ==> crate::text::trimmed(#[trigger] texts[i]).len() > 0,
    ensures
        crate::query::not_blank(texts) == texts,
    decreases texts.len(),
{
    if texts.len() > 0 {
        assert forall|i: int| 0 <= i < texts.drop_last().len() implies crate::text::trimmed(
            #[trigger] texts.drop_last()[i],
        ).len() > 0 by {
            assert(crate::text::trimmed(texts[i]).len() > 0);
        }
        lemma_not_blank_fixed(texts.drop_last());
        assert(crate::text::trimmed(texts[texts.len() - 1]).len() > 0);
        assert(crate::query::not_blank(texts) =~= texts);
    } else {
        assert(crate::query::not_blank(texts) =~= texts);
    }
}

/// The filters that a request sets are clean.
pub proof fn request_filters_are_canonical(request: crate::request::RequestView)
    ensures
        is_canonical(crate::query::query_of(request)),
{
    assert forall|key: Seq<char>| is_clean(#[trigger] crate::query::param_filter(request, key)) by {
        let value = crate::request::first_value(request.params, key);
        if let Some(v) = value {
            trimming_is_idempotent(v);
        }
    }
    assert(is_clean(crate::query::param_filter(request, "status"@)));
    assert(is_clean(crate::query::param_filter(request, "state"@)));
    assert(is_clean(crate::query::param_filter(request, "assigned"@)));
    assert(is_clean(crate::query::param_filter(request, "q"@)));
    assert(is_clean(crate::query::param_filter(request, "order"@)));
    lemma_not_blank(crate::request::all_values(request.params, "tag"@));
}

/// The filters with another sort order.
pub open spec fn with_order(q: crate::query::QueryView, order: Option<Seq<char>>) -> crate::query::QueryView {
    crate::query::QueryView { order: crate::query::link_order(q, order), ..q }
}

proof fn lemma_filters_of_pairs(
    q: crate::query::QueryView,
    order: Option<Seq<char>>,
    request: crate::request::RequestView,
)
    requires
        is_canonical(q),
        is_clean(order),
        request.params == crate::query::link_pairs(q, order),
    ensures
        crate::query::query_of(request) == with_order(q, order),
{
    lemma_keys_differ();
    reveal_strlit("1");
    lemma_link_lookup(q, order, "status"@);
    lemma_link_lookup(q, order, "state"@);
    lemma_link_lookup(q, order, "tag"@);
    lemma_link_lookup(q, order, "assigned"@);
    lemma_link_lookup(q, order, "q"@);
    lemma_link_lookup(q, order, "all"@);
    lemma_link_lookup(q, order, "subissues"@);
    lemma_link_lookup(q, order, "order"@);
    lemma_not_blank_fixed(q.tags);
    assert(crate::query::query_of(request) =~= with_order(q, order));
}

/// Whether following the link `target` asks for the page at `path` with the filters `q`.
pub open spec fn leads_to(target: Seq<char>, path: Seq<char>, q: crate::query::QueryView) -> bool {
    let line = "GET "@ + target + " HTTP/1.1\r\n"@;
    &&& crate::request::line_decodable(line)
    &&& crate::request::request_of_line(line) matches Some(request)
    &&& request.method == "GET"@
    &&& request.path == path
    &&& crate::query::query_of(request) == q
}

pub(crate) proof fn lemma_target_reads(path: Seq<char>, pairs: Seq<(Seq<char>, Seq<char>)>)
    requires
        path.len() > 0,
        is_plain(path),
        plain_keys(pairs),
        pairs.len() > 0,
    ensures
        ({
            let text = crate::text::joined(crate::query::pieces_of(pairs), "&"@);
            let target = path + "?"@ + text;
            &&& forall|i: int|
                0 <= i < target.len() ==> !crate::text::white_space(#[trigger] target[i])
            &&& crate::request::path_and_query(target) == (path, text)
            &&& crate::percent::decodable(path)
            &&& crate::percent::percent_decoded(path) == path
            &&& crate::request::query_decodable(text)
            &&& crate::request::query_pairs(text) == pairs
        }),
{
    reveal_strlit("?");
    let text = crate::text::joined(crate::query::pieces_of(pairs), "&"@);
    let target = path + "?"@ + text;
    let n = path.len() as int;
    lemma_path_is_plain(path);
    query_string_round_trips(pairs);
    assert forall|i: int| 0 <= i < target.len() implies !crate::text::white_space(
        #[trigger] target[i],
    ) by {
        if i < n {
            assert(target[i] == path[i]);
            assert(plain_char(path[i]));
        } else if i > n {
            assert(target[i] == text[i - n - 1]);
            assert(link_char(text[i - n - 1]));
        }
    }
    assert forall|j: int| 0 <= j < n implies #[trigger] target[j] != '?' by {
        assert(target[j] == path[j]);
        assert(plain_char(path[j]));
    }
    crate::text::lemma_find(target, '?', n);
    assert(target.take(n) =~= path);
    assert(target.skip(n + 1) =~= text);
}

pub(crate) proof fn lemma_target(path: Seq<char>, pairs: Seq<(Seq<char>, Seq<char>)>)
    requires
        path.len() > 0,
        is_plain(path),
        plain_keys(pairs),
        pairs.len() > 0,
    ensures
        ({
            let text = crate::text::joined(crate::query::pieces_of(pairs), "&"@);
            let line = "GET "@ + (path + "?"@ + text) + " HTTP/1.1\r\n"@;
            &&& crate::request::line_decodable(line)
            &&& crate::request::request_of_line(line) == Some(
                crate::request::RequestView {
                    method: "GET"@,
                    path,
                    params: pairs,
                    body: Seq::empty(),
                },
            )
        }),
{
    let text = crate::text::joined(crate::query::pieces_of(pairs), "&"@);
    lemma_target_reads(path, pairs);
    lemma_request_line(path + "?"@ + text);
}

pub(crate) proof fn lemma_bare_target(path: Seq<char>)
    requires
        path.len() > 0,
        is_plain(path),
    ensures
        ({
            let line = "GET "@ + path + " HTTP/1.1\r\n"@;
            &&& crate::request::line_decodable(line)
            &&& crate::request::request_of_line(line) == Some(
                crate::request::RequestView {
                    method: "GET"@,
                    path,
                    params: Seq::empty(),
                    body: Seq::empty(),
                },
            )
        }),
{
    let none = Seq::<char>::empty();
    lemma_path_is_plain(path);
    assert forall|j: int| 0 <= j < path.len() implies #[trigger] path[j] != '?' by {
        assert(plain_char(path[j]));
    }
    assert forall|j: int| 0 <= j < path.len() implies !crate::text::white_space(
        #[trigger] path[j],
    ) by {
        assert(plain_char(path[j]));
    }
    crate::text::lemma_find(path, '?', path.len() as int);
    crate::text::lemma_find(none, '&', 0);
    crate::text::lemma_find(none, '=', 0);
    assert(crate::text::pieces(none, '&') =~= seq![none]);
    assert(crate::request::pairs_of(seq![none].drop_last()) =~= Seq::empty());
    assert(crate::request::query_pairs(none) =~= Seq::empty());
    lemma_word_is_plain(none);
    assert(crate::request::piece_decodable(none));
    lemma_request_line(path);
}

proof fn lemma_link(
    path: Seq<char>,
    q: crate::query::QueryView,
    order: Option<Seq<char>>,
    target: Seq<char>,
)
    requires
        path.len() > 0,
        is_plain(path),
        is_canonical(q),
        is_clean(order),
        target == if crate::query::link_pairs(q, order).len() == 0 {
            path
        } else {
            path + "?"@ + crate::text::joined(
                crate::query::pieces_of(crate::query::link_pairs(q, order)),
                "&"@,
            )
        },
    ensures
        leads_to(target, path, with_order(q, order)),
{
    let pairs = crate::query::link_pairs(q, order);
    lemma_link_keys(q, order);
    if pairs.len() > 0 {
        lemma_target(path, pairs);
    } else {
        lemma_bare_target(path);
        assert(pairs =~= Seq::empty());
    }
    let line = "GET "@ + target + " HTTP/1.1\r\n"@;
    lemma_filters_of_pairs(q, order, crate::request::request_of_line(line)->0);
}

/// Following the link to the list asks for the list with the same filters, in the order that the
/// link asks for.
pub proof fn href_round_trips(q: crate::query::QueryView, order: Option<Seq<char>>)
    requires
        is_canonical(q),
        is_clean(order),
    ensures
        leads_to(crate::query::href_text(q, order), "/"@, with_order(q, order)),
{
    reveal_strlit("/");
    reveal_strlit("/?");
    reveal_strlit("?");
    assert("/?"@ =~= "/"@ + "?"@);
    lemma_link("/"@, q, order, crate::query::href_text(q, order));
}

/// A link to another page carries the filters there.
pub proof fn links_keep_the_filters(q: crate::query::QueryView, path: Seq<char>)
    requires
        is_canonical(q),
        path.len() > 0,
        is_plain(path),
    ensures
        leads_to(crate::query::href_on_text(q, path), path, q),
{
    reveal_strlit("/");
    reveal_strlit("/?");
    reveal_strlit("?");
    let target = crate::query::href_on_text(q, path);
    let pairs = crate::query::link_pairs(q, None);
    let base = crate::query::href_text(q, None);
    let text = crate::text::joined(crate::query::pieces_of(pairs), "&"@);
    if pairs.len() > 0 {
        assert(base.len() >= 2);
        assert(base != "/"@);
        assert(base.skip(1) =~= "?"@ + text);
        assert(path + base.skip(1) =~= path + "?"@ + text);
    }
    lemma_link(path, q, None, target);
    assert(with_order(q, None) == q);
}

/// Switching between the list and the board keeps the filters.
pub proof fn views_keep_the_filters(q: crate::query::QueryView, mode: crate::query::ViewMode)
    requires
        is_canonical(q),
    ensures
        leads_to(crate::query::href_on_text(q, mode.address()), mode.address(), q),
{
    reveal_strlit("/");
    reveal_strlit("/kanban");
    links_keep_the_filters(q, mode.address());
}

/// The JSON form of a list is asked for with the filters of the list.
pub proof fn the_json_link_keeps_the_filters(q: crate::query::QueryView)
    requires
        is_canonical(q),
    ensures
        leads_to(crate::query::href_on_text(q, "/tickets.json"@), "/tickets.json"@, q),
{
    reveal_strlit("/tickets.json");
    links_keep_the_filters(q, "/tickets.json"@);
}

/// Clicking a column twice sorts by it and then the other way round, and a third click goes back.
pub proof fn order_toggles(order: Option<Seq<char>>, key: Seq<char>)
    requires
        order != Some(key),
    ensures
        ({
            let first = crate::query::next_order(order, key);
            let second = crate::query::next_order(Some(first), key);
            let third = crate::query::next_order(Some(second), key);
            &&& first == key
            &&& second == key + ".desc"@
            &&& third == first
            &&& crate::query::marker_text(Some(first), key) == " \u{2191}"@
            &&& crate::query::marker_text(Some(second), key) == " \u{2193}"@
        }),
{
    reveal_strlit(".desc");
    assert((key + ".desc"@).len() > key.len());
}

// -- narrowing --------------------------------------------------------------

/// A tag links to the list narrowed to it as well, and a list shown so is narrowed to it.
pub proof fn tag_links_narrow_the_list(q: crate::query::QueryView, tag: Seq<char>)
    requires
        is_canonical(q),
        crate::text::trimmed(tag).len() > 0,
    ensures
        leads_to(
            crate::query::href_text(crate::page::with_tag(q, tag), None),
            "/"@,
            crate::page::with_tag(q, tag),
        ),
        crate::page::with_tag(q, tag).tags.contains(tag),
{
    let narrow = crate::page::with_tag(q, tag);
    assert forall|i: int| 0 <= i < narrow.tags.len() implies crate::text::trimmed(
        #[trigger] narrow.tags[i],
    ).len() > 0 by {
        if i < q.tags.len() {
            assert(narrow.tags[i] == q.tags[i]);
        }
    }
    if !q.tags.contains(tag) {
        assert(narrow.tags[q.tags.len() as int] == tag);
    }
    href_round_trips(narrow, None);
    assert(with_order(narrow, None) == narrow);
}

proof fn lemma_filter_elements(tags: Seq<Seq<char>>, tag: Seq<char>)
    ensures
        ({
            let kept = tags.filter(crate::page::other_than(tag));
            &&& !kept.contains(tag)
            &&& forall|i: int| 0 <= i < kept.len() ==> tags.contains(#[trigger] kept[i])
        }),
    decreases tags.len(),
{
    reveal(Seq::filter);
    let keep = crate::page::other_than(tag);
    let kept = tags.filter(keep);
    if tags.len() > 0 {
        let front = tags.drop_last();
        let before = front.filter(keep);
        lemma_filter_elements(front, tag);
        assert forall|i: int| 0 <= i < kept.len() implies kept[i] != tag && tags.contains(
            #[trigger] kept[i],
        ) by {
            if i < before.len() {
                assert(kept[i] == before[i]);
                assert(before.contains(before[i]));
                let k = choose|k: int| 0 <= k < front.len() && front[k] == before[i];
                assert(tags[k] == kept[i]);
            } else {
                assert(kept[i] == tags[tags.len() - 1]);
            }
        }
    }
}

/// The chip of a tag links to the list without that tag, and with all else the same.
pub proof fn filter_chips_widen_the_list(q: crate::query::QueryView, tag: Seq<char>)
    requires
        is_canonical(q),
    ensures
        leads_to(
            crate::query::href_text(crate::page::without_tag(q, tag), None),
            "/"@,
            crate::page::without_tag(q, tag),
        ),
        !crate::page::without_tag(q, tag).tags.contains(tag),
{
    let wide = crate::page::without_tag(q, tag);
    lemma_filter_elements(q.tags, tag);
    assert forall|i: int| 0 <= i < wide.tags.len() implies crate::text::trimmed(
        #[trigger] wide.tags[i],
    ).len() > 0 by {
        assert(q.tags.contains(wide.tags[i]));
        let k = choose|k: int| 0 <= k < q.tags.len() && q.tags[k] == wide.tags[i];
        assert(crate::text::trimmed(q.tags[k]).len() > 0);
    }
    href_round_trips(wide, None);
    assert(with_order(wide, None) == wide);
}

// -- forms ------------------------------------------------------------------

/// A form reads back as the fields that it was filled with.
pub proof fn forms_round_trip(
    request: crate::request::RequestView,
    pairs: Seq<(Seq<char>, Seq<char>)>,
)
    requires
        pairs.len() > 0,
        plain_keys(pairs),
        request.body == encode_utf8(
            crate::text::joined(crate::query::pieces_of(pairs), "&"@),
        ),
    ensures
        request.form_decodable(),
        request.form() == pairs,
{
    let text = crate::text::joined(crate::query::pieces_of(pairs), "&"@);
    query_string_round_trips(pairs);
    encode_utf8_valid_utf8(text);
    encode_utf8_decode_utf8(text);
}

/// A form that echoes the token of the server carries it.
pub proof fn an_echoed_token_is_accepted(
    request: crate::request::RequestView,
    server: crate::page::Server,
    pairs: Seq<(Seq<char>, Seq<char>)>,
)
    requires
        pairs.len() > 0,
        plain_keys(pairs),
        request.body == encode_utf8(
            crate::text::joined(crate::query::pieces_of(pairs), "&"@),
        ),
        crate::request::first_value(pairs, "csrf"@) == Some(server.csrf@),
        is_clean(Some(server.csrf@)),
    ensures
        crate::edit::has_token(request, server),
{
    forms_round_trip(request, pairs);
}

/// Hidden inputs for pairs, one after the other.
pub open spec fn hidden_inputs_html(pairs: Seq<(Seq<char>, Seq<char>)>) -> Seq<char>
    decreases pairs.len(),
{
    if pairs.len() == 0 {
        Seq::empty()
    } else {
        hidden_inputs_html(pairs.drop_last()) + crate::html::hidden_input_html(
            pairs.last().0,
            pairs.last().1,
        )
    }
}

proof fn lemma_hidden_concat(a: Seq<(Seq<char>, Seq<char>)>, b: Seq<(Seq<char>, Seq<char>)>)
    ensures
        hidden_inputs_html(a + b) == hidden_inputs_html(a) + hidden_inputs_html(b),
    decreases b.len(),
{
    if b.len() == 0 {
        assert(a + b =~= a);
        assert(hidden_inputs_html(a) + Seq::<char>::empty() =~= hidden_inputs_html(a));
    } else {
        lemma_hidden_concat(a, b.drop_last());
        assert((a + b).drop_last() =~= a + b.drop_last());
        let last = crate::html::hidden_input_html(b.last().0, b.last().1);
        assert(hidden_inputs_html(a) + hidden_inputs_html(b.drop_last()) + last
            =~= hidden_inputs_html(a) + (hidden_inputs_html(b.drop_last()) + last));
    }
}

proof fn lemma_hidden_one(key: Seq<char>, value: Seq<char>)
    ensures
        hidden_inputs_html(seq![(key, value)]) == crate::html::hidden_input_html(key, value),
{
    let pairs = seq![(key, value)];
    assert(pairs.drop_last() =~= Seq::<(Seq<char>, Seq<char>)>::empty());
    assert(hidden_inputs_html(pairs.drop_last()) =~= Seq::<char>::empty());
    assert(Seq::<char>::empty() + crate::html::hidden_input_html(key, value)
        =~= crate::html::hidden_input_html(key, value));
}

proof fn lemma_hidden_filter(key: Seq<char>, value: Option<Seq<char>>)
    ensures
        hidden_inputs_html(crate::query::filter_pair(key, value))
            == crate::page::hidden_filter_html(key, value),
{
    if let Some(v) = value {
        lemma_hidden_one(key, v);
    }
}

proof fn lemma_hidden_switch(key: Seq<char>, on: bool)
    ensures
        hidden_inputs_html(crate::query::switch_pair(key, on)) == crate::page::hidden_switch_html(
            key,
            on,
        ),
{
    if on {
        lemma_hidden_one(key, "1"@);
    }
}

proof fn lemma_hidden_tags(tags: Seq<Seq<char>>, n: int)
    requires
        0 <= n <= tags.len(),
    ensures
        hidden_inputs_html(crate::query::tag_pairs(tags).take(n)) == crate::page::hidden_tags_html(
            tags,
            n,
        ),
    decreases n,
{
    let pairs = crate::query::tag_pairs(tags);
    if n > 0 {
        lemma_hidden_tags(tags, n - 1);
        assert(pairs.take(n).drop_last() =~= pairs.take(n - 1));
    }
}

/// The search form keeps every filter but the search and the order.
pub proof fn searching_keeps_the_filters(q: crate::query::QueryView)
    ensures
        crate::page::hidden_html(q) == hidden_inputs_html(
            crate::query::link_pairs(
                crate::query::QueryView { search: None, order: None, ..q },
                None,
            ),
        ),
{
    let p1 = crate::query::filter_pair("status"@, q.status);
    let p2 = crate::query::filter_pair("state"@, q.state);
    let p3 = crate::query::tag_pairs(q.tags);
    let p4 = crate::query::filter_pair("assigned"@, q.assigned);
    let p5 = crate::query::filter_pair("q"@, None);
    let p6 = crate::query::switch_pair("all"@, q.all);
    let p7 = crate::query::switch_pair("subissues"@, q.subissues);
    let p8 = crate::query::filter_pair("order"@, None);
    lemma_hidden_filter("status"@, q.status);
    lemma_hidden_filter("state"@, q.state);
    lemma_hidden_tags(q.tags, q.tags.len() as int);
    assert(p3.take(q.tags.len() as int) =~= p3);
    lemma_hidden_filter("assigned"@, q.assigned);
    lemma_hidden_switch("all"@, q.all);
    lemma_hidden_switch("subissues"@, q.subissues);
    assert(p1 + p2 + p3 + p4 + p5 =~= p1 + p2 + p3 + p4);
    assert(p1 + p2 + p3 + p4 + p5 + p6 + p7 + p8 =~= p1 + p2 + p3 + p4 + p6 + p7);
    lemma_hidden_concat(p1, p2);
    lemma_hidden_concat(p1 + p2, p3);
    lemma_hidden_concat(p1 + p2 + p3, p4);
    lemma_hidden_concat(p1 + p2 + p3 + p4, p6);
    lemma_hidden_concat(p1 + p2 + p3 + p4 + p6, p7);
}

/// Following the link of a column head gives the same list, sorted by the key of that column, or by
/// the reverse where it was in that order already.
pub proof fn column_links_ask_for_their_order(q: crate::query::QueryView, key: Seq<char>)
    requires
        is_canonical(q),
        is_clean(Some(key)),
    ensures
        leads_to(
            crate::query::href_text(q, Some(crate::list::asked_order(q, key))),
            "/"@,
            (crate::query::QueryView { order: Some(crate::list::asked_order(q, key)), ..q }),
        ),
{
    reveal_strlit(".desc");
    let wanted = crate::list::asked_order(q, key);
    let start = crate::text::trim_start(key);
    lemma_trim_start_fixed(key);
    lemma_trim_end_fixed(start);
    assert(crate::text::trimmed(key) == key && key.len() > 0);
    assert(key[0] == start[0]);
    if wanted != key {
        assert(wanted[0] == key[0]);
        assert(wanted.last() == 'c');
        crate::text::lemma_trim_start(wanted, 0);
        assert(wanted.skip(0) =~= wanted);
        crate::text::lemma_trim_end(wanted, wanted.len() as int);
        assert(wanted.take(wanted.len() as int) =~= wanted);
    }
    href_round_trips(q, Some(wanted));
    assert(with_order(q, Some(wanted)) == (crate::query::QueryView { order: Some(wanted), ..q }));
}

} // verus!
