//! Requests: the request line, the query, the form body and the header limits.

use vstd::prelude::*;
use vstd::slice::*;
use vstd::string::*;
use vstd::utf8::*;

use crate::number::parse_count;
use crate::percent::percent_decodable;
use crate::percent::percent_decode;
use crate::text::same;
use crate::text::chars_of;
use crate::text::split;
use crate::text::split_once;
use crate::text::split_word;
use crate::text::trim;

verus! {

/// Cap on the bytes of the request line and the headers.
pub const MAX_HEADER_BYTES: usize = 16 * 1024;

/// Cap on the bytes of a form body.
pub const MAX_BODY_BYTES: usize = 64 * 1024;

/// The error of `core::str::from_utf8`.
#[verifier::external_type_specification]
#[verifier::external_body]
pub struct ExUtf8Error(core::str::Utf8Error);

/// `core::str::from_utf8` takes the bytes that are UTF-8, and no others, as the text that they
/// encode.
pub assume_specification[ core::str::from_utf8 ](v: &[u8]) -> (r: Result<&str, core::str::Utf8Error>)
    ensures
        r is Ok <==> valid_utf8(v@),
        r matches Ok(s) ==> s@ == decode_utf8(v@),
;

// -- model ------------------------------------------------------------------

/// A request, as mathematical values.
#[verifier::ext_equal]
pub struct RequestView {
    pub method: Seq<char>,
    pub path: Seq<char>,
    pub params: Seq<(Seq<char>, Seq<char>)>,
    pub body: Seq<u8>,
}

/// The value of the first pair with this key.
pub open spec fn first_value(pairs: Seq<(Seq<char>, Seq<char>)>, key: Seq<char>) -> Option<Seq<char>>
    decreases pairs.len(),
{
    if pairs.len() == 0 {
        None
    } else if pairs[0].0 == key {
        Some(pairs[0].1)
    } else {
        first_value(pairs.drop_first(), key)
    }
}

/// The values of all pairs with this key, in order.
pub open spec fn all_values(pairs: Seq<(Seq<char>, Seq<char>)>, key: Seq<char>) -> Seq<Seq<char>>
    decreases pairs.len(),
{
    if pairs.len() == 0 {
        Seq::empty()
    } else if pairs.last().0 == key {
        all_values(pairs.drop_last(), key).push(pairs.last().1)
    } else {
        all_values(pairs.drop_last(), key)
    }
}

/// The key and value that one piece of a query writes down; without a `=` the value is empty.
pub open spec fn pair_of(piece: Seq<char>) -> (Seq<char>, Seq<char>) {
    match crate::text::cut(piece, '=') {
        Some((key, value)) => (
            crate::percent::percent_decoded(key),
            crate::percent::percent_decoded(value),
        ),
        None => (crate::percent::percent_decoded(piece), Seq::empty()),
    }
}

/// The pairs that the pieces of a query write down; empty pieces write none.
pub open spec fn pairs_of(pieces: Seq<Seq<char>>) -> Seq<(Seq<char>, Seq<char>)>
    decreases pieces.len(),
{
    if pieces.len() == 0 {
        Seq::empty()
    } else if pieces.last().len() > 0 {
        pairs_of(pieces.drop_last()).push(pair_of(pieces.last()))
    } else {
        pairs_of(pieces.drop_last())
    }
}

/// The pairs that a query writes down.
pub open spec fn query_pairs(query: Seq<char>) -> Seq<(Seq<char>, Seq<char>)> {
    pairs_of(crate::text::pieces(query, '&'))
}

/// Whether the key and the value of a piece can be decoded.
pub open spec fn piece_decodable(piece: Seq<char>) -> bool {
    match crate::text::cut(piece, '=') {
        Some((key, value)) => crate::percent::decodable(key) && crate::percent::decodable(value),
        None => crate::percent::decodable(piece),
    }
}

/// Whether every key and every value of a query can be decoded.
pub open spec fn query_decodable(query: Seq<char>) -> bool {
    forall|i: int|
        0 <= i < crate::text::pieces(query, '&').len() ==> piece_decodable(
            #[trigger] crate::text::pieces(query, '&')[i],
        )
}

/// The path and the query of a request target.
pub open spec fn path_and_query(target: Seq<char>) -> (Seq<char>, Seq<char>) {
    match crate::text::cut(target, '?') {
        Some(both) => both,
        None => (target, Seq::empty()),
    }
}

/// The method and the target of a request line: its first two words.
pub open spec fn method_and_target(line: Seq<char>) -> Option<(Seq<char>, Seq<char>)> {
    match crate::text::next_word(line) {
        Some((method, rest)) => match crate::text::next_word(rest) {
            Some((target, _)) => Some((method, target)),
            None => None,
        },
        None => None,
    }
}

/// The request that a request line makes, with an empty body.
pub open spec fn request_of_line(line: Seq<char>) -> Option<RequestView> {
    match method_and_target(line) {
        Some((method, target)) => Some(
            RequestView {
                method,
                path: crate::percent::percent_decoded(path_and_query(target).0),
                params: query_pairs(path_and_query(target).1),
                body: Seq::empty(),
            },
        ),
        None => None,
    }
}

/// Whether the path and the query of a request line can be decoded.
pub open spec fn line_decodable(line: Seq<char>) -> bool {
    match method_and_target(line) {
        Some((_, target)) => crate::percent::decodable(path_and_query(target).0)
            && query_decodable(path_and_query(target).1),
        None => true,
    }
}

/// The text of a form body; one that is not UTF-8 counts as empty.
pub open spec fn form_text(body: Seq<u8>) -> Seq<char> {
    if valid_utf8(body) {
        decode_utf8(body)
    } else {
        Seq::empty()
    }
}

/// A value without the white space around it, unless nothing is left.
pub open spec fn cleaned(value: Option<Seq<char>>) -> Option<Seq<char>> {
    match value {
        Some(v) if crate::text::trimmed(v).len() > 0 => Some(crate::text::trimmed(v)),
        _ => None,
    }
}

impl RequestView {
    /// The pairs of the form body.
    pub open spec fn form(self) -> Seq<(Seq<char>, Seq<char>)> {
        query_pairs(form_text(self.body))
    }

    /// Whether the form body can be decoded.
    pub open spec fn form_decodable(self) -> bool {
        query_decodable(form_text(self.body))
    }

    /// The first value of a form field, trimmed; a blank one counts as missing.
    pub open spec fn form_field(self, key: Seq<char>) -> Option<Seq<char>> {
        cleaned(first_value(self.form(), key))
    }

    /// Whether a parameter is switched on.
    pub open spec fn flag(self, key: Seq<char>) -> bool {
        match first_value(self.params, key) {
            Some(v) => v == "1"@ || v == "true"@ || v == "yes"@ || v.len() == 0,
            None => false,
        }
    }
}

// -- requests ---------------------------------------------------------------

/// What the server takes from a client: the method, the decoded path and query, and the raw body
/// of a form.
#[derive(Debug, Clone, PartialEq, Eq)]
pub struct Request {
    pub method: String,
    pub path: String,
    pub params: Vec<(String, String)>,
    pub body: Vec<u8>,
}

impl View for Request {
    type V = RequestView;

    open spec fn view(&self) -> RequestView {
        RequestView {
            method: self.method@,
            path: self.path@,
            params: self.params.deep_view(),
            body: self.body@,
        }
    }
}

/// The value of the first of `pairs` with this key.
fn lookup<'a>(pairs: &'a Vec<(String, String)>, key: &str) -> (r: Option<&'a str>)
    ensures
        match r {
            Some(v) => first_value(pairs.deep_view(), key@) == Some(v@),
            None => first_value(pairs.deep_view(), key@) is None,
        },
{
    let ghost all = pairs.deep_view();
    let mut i: usize = 0;
    assert(all.skip(0) =~= all);
    while i < pairs.len()
        invariant
            i <= pairs@.len(),
            all == pairs.deep_view(),
            first_value(all, key@) == first_value(all.skip(i as int), key@),
        decreases pairs@.len() - i,
    {
        assert(all.skip(i as int)[0] == (pairs@[i as int].0@, pairs@[i as int].1@));
        assert(all.skip(i as int).drop_first() =~= all.skip(i + 1));
        if same(pairs[i].0.as_str(), key) {
            return Some(pairs[i].1.as_str());
        }
        i = i + 1;
    }
    None
}

/// `value` without the white space around it, unless nothing is left.
pub fn clean(value: Option<&str>) -> (r: Option<String>)
    ensures
        r.deep_view() == cleaned(
            match value {
                Some(v) => Some(v@),
                None => None,
            },
        ),
{
    match value {
        Some(v) => {
            let t = trim(v);
            if t.as_str().is_empty() {
                None
            } else {
                Some(t)
            }
        },
        None => None,
    }
}

impl Request {
    /// The first value of a query parameter.
    pub fn param(&self, key: &str) -> (r: Option<&str>)
        ensures
            match r {
                Some(v) => first_value(self@.params, key@) == Some(v@),
                None => first_value(self@.params, key@) is None,
            },
    {
        lookup(&self.params, key)
    }

    /// All values of a query parameter, in order.
    pub fn param_values(&self, key: &str) -> (r: Vec<String>)
        ensures
            r.deep_view() == all_values(self@.params, key@),
    {
        let ghost all = self@.params;
        let mut out: Vec<String> = Vec::new();
        let mut i: usize = 0;
        assert(out.deep_view() =~= Seq::<Seq<char>>::empty());
        while i < self.params.len()
            invariant
                i <= self.params@.len(),
                all == self.params.deep_view(),
                out.deep_view() == all_values(all.take(i as int), key@),
            decreases self.params@.len() - i,
        {
            let ghost before = out.deep_view();
            assert(all.take(i + 1).drop_last() =~= all.take(i as int));
            assert(all.take(i + 1).last() == (
                self.params@[i as int].0@,
                self.params@[i as int].1@,
            ));
            if same(self.params[i].0.as_str(), key) {
                out.push(self.params[i].1.clone());
                assert(out.deep_view() =~= before.push(self.params@[i as int].1@));
            }
            i = i + 1;
        }
        assert(all.take(i as int) =~= all);
        out
    }

    /// Whether a query parameter is switched on: `1`, `true`, `yes` or nothing at all.
    pub fn flag(&self, key: &str) -> (r: bool)
        ensures
            r == self@.flag(key@),
    {
        match self.param(key) {
            Some(v) => same(v, "1") || same(v, "true") || same(v, "yes") || v.is_empty(),
            None => false,
        }
    }

    /// The text of the form body.
    fn form_body(&self) -> (r: &str)
        ensures
            r@ == form_text(self@.body),
    {
        match core::str::from_utf8(self.body.as_slice()) {
            Ok(s) => s,
            Err(_) => {
                let none = "";
                proof {
                    reveal_strlit("");
                    assert(none@ =~= Seq::<char>::empty());
                }
                none
            },
        }
    }

    /// Whether the form body can be decoded, so that `form` and `form_field` can be called.
    pub fn form_is_decodable(&self) -> (r: bool)
        ensures
            r == self@.form_decodable(),
    {
        query_is_decodable(self.form_body())
    }

    /// The pairs of the form body.
    pub fn form(&self) -> (r: Vec<(String, String)>)
        requires
            self@.form_decodable(),
        ensures
            r.deep_view() == self@.form(),
    {
        parse_query(self.form_body())
    }

    /// The first value of a form field, trimmed; a blank one counts as missing.
    pub fn form_field(&self, key: &str) -> (r: Option<String>)
        requires
            self@.form_decodable(),
        ensures
            r.deep_view() == self@.form_field(key@),
    {
        let pairs = self.form();
        clean(lookup(&pairs, key))
    }
}

// -- parsing ----------------------------------------------------------------

/// Whether every key and every value of `query` can be decoded.
pub fn query_is_decodable(query: &str) -> (r: bool)
    ensures
        r == query_decodable(query@),
{
    let parts = split(query, '&');
    let ghost all = parts.deep_view();
    let mut i: usize = 0;
    while i < parts.len()
        invariant
            i <= parts@.len(),
            all == parts.deep_view(),
            all == crate::text::pieces(query@, '&'),
            forall|j: int| 0 <= j < i ==> piece_decodable(#[trigger] all[j]),
        decreases parts@.len() - i,
    {
        assert(all[i as int] == parts@[i as int]@);
        let ok = match split_once(parts[i].as_str(), '=') {
            Some((key, value)) => percent_decodable(key.as_str()) && percent_decodable(
                value.as_str(),
            ),
            None => percent_decodable(parts[i].as_str()),
        };
        if !ok {
            assert(!piece_decodable(all[i as int]));
            return false;
        }
        i = i + 1;
    }
    true
}

/// The pairs that a query writes down.
pub fn parse_query(query: &str) -> (r: Vec<(String, String)>)
    requires
        query_decodable(query@),
    ensures
        r.deep_view() == query_pairs(query@),
{
    let parts = split(query, '&');
    let ghost all = parts.deep_view();
    let mut out: Vec<(String, String)> = Vec::new();
    let mut i: usize = 0;
    assert(out.deep_view() =~= Seq::<(Seq<char>, Seq<char>)>::empty());
    while i < parts.len()
        invariant
            i <= parts@.len(),
            all == parts.deep_view(),
            all == crate::text::pieces(query@, '&'),
            forall|j: int| 0 <= j < all.len() ==> piece_decodable(#[trigger] all[j]),
            out.deep_view() == pairs_of(all.take(i as int)),
        decreases parts@.len() - i,
    {
        let ghost before = out.deep_view();
        assert(all[i as int] == parts@[i as int]@);
        assert(all.take(i + 1).drop_last() =~= all.take(i as int));
        let piece = parts[i].as_str();
        assert(piece_decodable(piece@));
        if !piece.is_empty() {
            match split_once(piece, '=') {
                Some((key, value)) => {
                    out.push((percent_decode(key.as_str()), percent_decode(value.as_str())));
                },
                None => {
                    out.push((percent_decode(piece), String::new()));
                },
            }
            assert(out.deep_view() =~= before.push(pair_of(piece@)));
        }
        i = i + 1;
    }
    assert(all.take(i as int) =~= all);
    out
}

/// The path and the query of a request target.
fn split_target(target: &str) -> (r: (String, String))
    ensures
        path_and_query(target@) == (r.0@, r.1@),
{
    match split_once(target, '?') {
        Some(both) => both,
        None => (target.to_owned(), String::new()),
    }
}

/// Whether the path and the query of a request line can be decoded, so that
/// `parse_request_line` can be called.
pub fn request_line_is_decodable(line: &str) -> (r: bool)
    ensures
        r == line_decodable(line@),
{
    match split_word(line) {
        Some((_, rest)) => match split_word(rest.as_str()) {
            Some((target, _)) => {
                let (path, query) = split_target(target.as_str());
                percent_decodable(path.as_str()) && query_is_decodable(query.as_str())
            },
            None => true,
        },
        None => true,
    }
}

/// The request that a request line makes, with an empty body: its first word is the method, its
/// second the target.
pub fn parse_request_line(line: &str) -> (r: Option<Request>)
    requires
        line_decodable(line@),
    ensures
        match r {
            Some(request) => request_of_line(line@) == Some(request@),
            None => request_of_line(line@) is None,
        },
{
    let (method, rest) = match split_word(line) {
        Some(pair) => pair,
        None => {
            return None;
        },
    };
    let target = match split_word(rest.as_str()) {
        Some(pair) => pair.0,
        None => {
            return None;
        },
    };
    let (path, query) = split_target(target.as_str());
    Some(
        Request {
            method,
            path: percent_decode(path.as_str()),
            params: parse_query(query.as_str()),
            body: Vec::new(),
        },
    )
}

/// The request that a request line and a body make.
pub fn parse_request(line: &str, body: Vec<u8>) -> (r: Option<Request>)
    requires
        line_decodable(line@),
    ensures
        match r {
            Some(request) => request_of_line(line@) == Some(
                RequestView { body: Seq::empty(), ..request@ },
            ) && request@.body == body@,
            None => request_of_line(line@) is None,
        },
{
    match parse_request_line(line) {
        Some(request) => Some(
            Request { method: request.method, path: request.path, params: request.params, body },
        ),
        None => None,
    }
}

// -- headers ----------------------------------------------------------------

/// `s` with `A` to `Z` in lower case.
pub open spec fn ascii_lower(s: Seq<char>) -> Seq<char> {
    Seq::new(
        s.len(),
        |i: int|
            if 'A' <= s[i] <= 'Z' {
                (s[i] as int + 32) as char
            } else {
                s[i]
            },
    )
}

fn lower(s: &str) -> (r: String)
    ensures
        r@ == ascii_lower(s@),
{
    let chars = chars_of(s);
    let mut out = String::new();
    let mut i: usize = 0;
    while i < chars.len()
        invariant
            i <= chars@.len(),
            out@ == ascii_lower(chars@).take(i as int),
        decreases chars@.len() - i,
    {
        let c = chars[i];
        if 'A' <= c && c <= 'Z' {
            out.push((c as u8 + 32) as char);
        } else {
            out.push(c);
        }
        assert(out@ =~= ascii_lower(chars@).take(i + 1));
        i = i + 1;
    }
    assert(ascii_lower(chars@).take(i as int) =~= ascii_lower(chars@));
    out
}

/// The body length that a header line declares, capped, if it is a readable `Content-Length`.
pub open spec fn declared_length(header: Seq<char>) -> Option<int> {
    match crate::text::cut(header, ':') {
        Some((name, value)) if ascii_lower(crate::text::trimmed(name)) == "content-length"@ => {
            match crate::number::count_value(crate::text::trimmed(value)) {
                Some(n) => Some(
                    if n < MAX_BODY_BYTES {
                        n
                    } else {
                        MAX_BODY_BYTES as int
                    },
                ),
                None => None,
            }
        },
        _ => None,
    }
}

/// The body length that a header line declares, capped at `MAX_BODY_BYTES`, if the line is a
/// readable `Content-Length`.
pub fn content_length(header: &str) -> (r: Option<usize>)
    ensures
        match r {
            Some(n) => declared_length(header@) == Some(n as int),
            None => declared_length(header@) is None,
        },
        r matches Some(n) ==> n <= MAX_BODY_BYTES,
{
    match split_once(header, ':') {
        Some((name, value)) => {
            let name = lower(trim(name.as_str()).as_str());
            if same(name.as_str(), "content-length") {
                match parse_count(trim(value.as_str()).as_str()) {
                    Some(n) => Some(
                        if n < MAX_BODY_BYTES {
                            n
                        } else {
                            MAX_BODY_BYTES
                        },
                    ),
                    None => None,
                }
            } else {
                None
            }
        },
        None => None,
    }
}

/// A count of bytes, as far as the header cap can tell it: everything above the cap is one.
pub open spec fn capped(n: int) -> int {
    if n > MAX_HEADER_BYTES {
        MAX_HEADER_BYTES + 1
    } else {
        n
    }
}

/// What has been read of a request before its body.
pub struct RequestHead {
    /// The bytes read so far, capped.
    pub read: usize,
    /// The body length that was declared last.
    pub content_length: Option<usize>,
}

/// Whether a line that was read ends the headers: the end of input, an empty line, or the line
/// that passes the cap.
pub open spec fn ends_headers(read: int, header: Seq<char>) -> bool {
    ||| header.len() == 0
    ||| header == "\r\n"@
    ||| header == "\n"@
    ||| read + encode_utf8(header).len() > MAX_HEADER_BYTES
}

impl RequestHead {
    /// Whether the counts are within their caps.
    pub open spec fn wf(self) -> bool {
        &&& self.read <= MAX_HEADER_BYTES + 1
        &&& self.content_length matches Some(n) ==> n <= MAX_BODY_BYTES
    }

    /// The head after its request line.
    pub fn new(line: &str) -> (r: RequestHead)
        ensures
            r.wf(),
            r.read == capped(encode_utf8(line@).len() as int),
            r.content_length is None,
    {
        let n: usize = line.as_bytes().len();
        RequestHead {
            read: if n > MAX_HEADER_BYTES {
                MAX_HEADER_BYTES + 1
            } else {
                n
            },
            content_length: None,
        }
    }

    /// Takes the next header line and says whether more are to be read. A line that ends the
    /// headers is not looked into.
    pub fn take_header(&mut self, header: &str) -> (more: bool)
        requires
            old(self).wf(),
        ensures
            final(self).wf(),
            more == !ends_headers(old(self).read as int, header@),
            final(self).read == capped(old(self).read + encode_utf8(header@).len()),
            match (more, declared_length(header@)) {
                (true, Some(n)) => final(self).content_length == Some(n as usize),
                _ => final(self).content_length == old(self).content_length,
            },
    {
        let n: usize = header.as_bytes().len();
        self.read = if n > MAX_HEADER_BYTES - self.read.min(MAX_HEADER_BYTES) || self.read
            > MAX_HEADER_BYTES {
            MAX_HEADER_BYTES + 1
        } else {
            self.read + n
        };
        if header.is_empty() || same(header, "\r\n") || same(header, "\n") || self.read
            > MAX_HEADER_BYTES {
            return false;
        }
        if let Some(len) = content_length(header) {
            self.content_length = Some(len);
        }
        true
    }

    /// How many bytes of body are to be read.
    pub fn body_len(&self) -> (r: usize)
        requires
            self.wf(),
        ensures
            r == (match self.content_length {
                Some(n) => n as int,
                None => 0,
            }),
            r <= MAX_BODY_BYTES,
    {
        match self.content_length {
            Some(n) => n,
            None => 0,
        }
    }
}

// -- laws -------------------------------------------------------------------

proof fn lemma_first_value(pairs: Seq<(Seq<char>, Seq<char>)>, key: Seq<char>) -> (at: int)
    ensures
        0 <= at <= pairs.len(),
        forall|i: int| 0 <= i < at ==> (#[trigger] pairs[i]).0 != key,
        at < pairs.len() ==> pairs[at].0 == key && first_value(pairs, key) == Some(pairs[at].1),
        at == pairs.len() ==> first_value(pairs, key) is None,
    decreases pairs.len(),
{
    if pairs.len() == 0 || pairs[0].0 == key {
        0
    } else {
        let rest = pairs.drop_first();
        let at = lemma_first_value(rest, key);
        assert forall|i: int| 0 <= i < at + 1 implies (#[trigger] pairs[i]).0 != key by {
            if i > 0 {
                assert(rest[i - 1] == pairs[i]);
            }
        }
        at + 1
    }
}

/// The value of a parameter is that of the first one with its name; there is none where no parameter
/// has the name. A switch is on where that value is `1`, `true`, `yes` or empty.
pub proof fn the_first_parameter_counts(
    request: &Request,
    key: &str,
    r: Option<&str>,
    on: bool,
) -> (at: int)
    requires
        call_ensures(Request::param, (request, key), r),
        call_ensures(Request::flag, (request, key), on),
    ensures
        0 <= at <= request.params@.len(),
        forall|i: int| 0 <= i < at ==> (#[trigger] request.params@[i]).0@ != key@,
        at == request.params@.len() ==> r is None && !on,
        at < request.params@.len() ==> request.params@[at].0@ == key@ && (r matches Some(value)
            && value@ == request.params@[at].1@),
        at < request.params@.len() ==> (on <==> request.params@[at].1@ == "1"@
            || request.params@[at].1@ == "true"@ || request.params@[at].1@ == "yes"@
            || request.params@[at].1@.len() == 0),
{
    let pairs = request@.params;
    let at = lemma_first_value(pairs, key@);
    assert forall|i: int| 0 <= i < at implies (#[trigger] request.params@[i]).0@ != key@ by {
        assert(pairs[i].0 == request.params@[i].0@);
    }
    if at < pairs.len() {
        assert(pairs[at] == (request.params@[at].0@, request.params@[at].1@));
    }
    at
}

proof fn lemma_all_values(pairs: Seq<(Seq<char>, Seq<char>)>, key: Seq<char>) -> (at: Seq<int>)
    ensures
        at.len() == all_values(pairs, key).len(),
        forall|k: int|
            0 <= k < at.len() ==> 0 <= #[trigger] at[k] < pairs.len() && pairs[at[k]].0 == key
                && all_values(pairs, key)[k] == pairs[at[k]].1,
        forall|a: int, b: int| 0 <= a < b < at.len() ==> #[trigger] at[a] < #[trigger] at[b],
        forall|i: int| 0 <= i < pairs.len() && (#[trigger] pairs[i]).0 == key ==> at.contains(i),
    decreases pairs.len(),
{
    if pairs.len() == 0 {
        Seq::empty()
    } else {
        let front = pairs.drop_last();
        let n = front.len() as int;
        let before = lemma_all_values(front, key);
        let at = if pairs.last().0 == key {
            before.push(n)
        } else {
            before
        };
        assert forall|k: int| 0 <= k < at.len() implies 0 <= #[trigger] at[k] < pairs.len()
            && pairs[at[k]].0 == key && all_values(pairs, key)[k] == pairs[at[k]].1 by {
            if k < before.len() {
                assert(at[k] == before[k]);
            }
        }
        assert forall|a: int, b: int| 0 <= a < b < at.len() implies #[trigger] at[a]
            < #[trigger] at[b] by {
            assert(at[a] == before[a]);
            if b < before.len() {
                assert(at[b] == before[b]);
            }
        }
        assert forall|i: int| 0 <= i < pairs.len() && (#[trigger] pairs[i]).0
            == key implies at.contains(i) by {
            if i < n {
                assert(front[i] == pairs[i]);
                let k = choose|k: int| 0 <= k < before.len() && before[k] == i;
                assert(at[k] == i);
            } else {
                assert(at[before.len() as int] == n);
            }
        }
        at
    }
}

/// The values of a parameter that may be given more than once are those of all that have its name, in
/// their order. `at` is where they stand.
pub proof fn all_parameters_count(request: &Request, key: &str, r: Vec<String>) -> (at: Seq<int>)
    requires
        call_ensures(Request::param_values, (request, key), r),
    ensures
        at.len() == r@.len(),
        forall|k: int|
            0 <= k < at.len() ==> 0 <= #[trigger] at[k] < request.params@.len()
                && request.params@[at[k]].0@ == key@ && r@[k]@ == request.params@[at[k]].1@,
        forall|a: int, b: int| 0 <= a < b < at.len() ==> #[trigger] at[a] < #[trigger] at[b],
        forall|i: int|
            0 <= i < request.params@.len() && (#[trigger] request.params@[i]).0@ == key@
                ==> at.contains(i),
{
    let pairs = request@.params;
    let at = lemma_all_values(pairs, key@);
    assert(r.deep_view().len() == r@.len());
    assert forall|k: int| 0 <= k < at.len() implies 0 <= #[trigger] at[k] < request.params@.len()
        && request.params@[at[k]].0@ == key@ && r@[k]@ == request.params@[at[k]].1@ by {
        assert(r.deep_view()[k] == r@[k]@);
        assert(pairs[at[k]] == (request.params@[at[k]].0@, request.params@[at[k]].1@));
    }
    assert forall|i: int| 0 <= i < request.params@.len() && (#[trigger] request.params@[i]).0@
        == key@ implies at.contains(i) by {
        assert(pairs[i].0 == request.params@[i].0@);
    }
    at
}

/// A field of a form is the first one with its name, without the white space around it; a blank one
/// counts as none.
pub proof fn the_first_field_counts(
    request: &Request,
    key: &str,
    form: Vec<(String, String)>,
    r: Option<String>,
) -> (at: int)
    requires
        call_ensures(Request::form, (request,), form),
        call_ensures(Request::form_field, (request, key), r),
    ensures
        0 <= at <= form@.len(),
        forall|i: int| 0 <= i < at ==> (#[trigger] form@[i]).0@ != key@,
        at == form@.len() ==> r is None,
        at < form@.len() ==> form@[at].0@ == key@ && if crate::text::trimmed(form@[at].1@).len()
            > 0 {
            r matches Some(value) && value@ == crate::text::trimmed(form@[at].1@)
        } else {
            r is None
        },
{
    let pairs = form.deep_view();
    let at = lemma_first_value(pairs, key@);
    assert(pairs.len() == form@.len());
    assert forall|i: int| 0 <= i < at implies (#[trigger] form@[i]).0@ != key@ by {
        assert(pairs[i].0 == form@[i].0@);
    }
    if at < pairs.len() {
        assert(pairs[at] == (form@[at].0@, form@[at].1@));
    }
    at
}

proof fn lemma_two_words(method: Seq<char>, target: Seq<char>, rest: Seq<char>)
    requires
        method.len() > 0,
        target.len() > 0,
        forall|i: int| 0 <= i < method.len() ==> !crate::text::white_space(#[trigger] method[i]),
        forall|i: int| 0 <= i < target.len() ==> !crate::text::white_space(#[trigger] target[i]),
    ensures
        method_and_target(method + " "@ + target + " "@ + rest) == Some((method, target)),
{
    reveal_strlit(" ");
    let line = method + " "@ + target + " "@ + rest;
    let n = method.len() as int;
    let m = target.len() as int;
    assert(line[0] == method[0]);
    crate::text::lemma_trim_start(line, 0);
    assert(line.skip(0) =~= line);
    assert forall|j: int| 0 <= j < n implies !crate::text::white_space(#[trigger] line[j]) by {
        assert(line[j] == method[j]);
    }
    assert(line[n] == ' ');
    crate::text::lemma_word_len(line, n);
    assert(line.take(n) =~= method);
    let after = line.skip(n);
    assert(after[0] == ' ' && after[1] == target[0]);
    crate::text::lemma_trim_start(after, 1);
    let t = after.skip(1);
    assert forall|j: int| 0 <= j < m implies !crate::text::white_space(#[trigger] t[j]) by {
        assert(t[j] == target[j]);
    }
    assert(t[m] == ' ');
    crate::text::lemma_word_len(t, m);
    assert(t.take(m) =~= target);
}

/// A request line names the method, the path and the parameters of its request, in this order, and
/// the body is what follows the head.
pub proof fn a_request_is_read_as_it_was_sent(
    line: &str,
    body: Vec<u8>,
    r: Option<Request>,
    method: Seq<char>,
    path: Seq<char>,
    pairs: Seq<(Seq<char>, Seq<char>)>,
    version: Seq<char>,
)
    requires
        call_ensures(parse_request, (line, body), r),
        method.len() > 0,
        forall|i: int| 0 <= i < method.len() ==> !crate::text::white_space(#[trigger] method[i]),
        path.len() > 0,
        crate::roundtrip::is_plain(path),
        pairs.len() > 0,
        crate::roundtrip::plain_keys(pairs),
        line@ == method + " "@ + (path + "?"@ + crate::text::joined(
            Seq::new(
                pairs.len(),
                |i: int| pairs[i].0 + "="@ + crate::percent::percent_encoded(pairs[i].1),
            ),
            "&"@,
        )) + " "@ + version,
    ensures
        r matches Some(request) && request.method@ == method && request.path@ == path
            && request.params.deep_view() == pairs && request.body@ == body@,
{
    let pieces = crate::query::pieces_of(pairs);
    assert(pieces =~= Seq::new(
        pairs.len(),
        |i: int| pairs[i].0 + "="@ + crate::percent::percent_encoded(pairs[i].1),
    ));
    let text = crate::text::joined(pieces, "&"@);
    let target = path + "?"@ + text;
    crate::roundtrip::lemma_target_reads(path, pairs);
    lemma_two_words(method, target, version);
}

/// A request line without two words is no request.
pub proof fn a_blank_line_is_no_request(line: &str, body: Vec<u8>, r: Option<Request>)
    requires
        call_ensures(parse_request, (line, body), r),
        forall|i: int| 0 <= i < line@.len() ==> crate::text::white_space(#[trigger] line@[i]),
    ensures
        r is None,
{
    crate::text::lemma_trim_start(line@, line@.len() as int);
}

/// A header that declares the length of the body, however its name is cased and whatever blanks are
/// around the number, gives that number, or the most that is read where it is more.
pub proof fn the_declared_length_is_read(
    header: &str,
    r: Option<usize>,
    name: Seq<char>,
    value: Seq<char>,
    n: usize,
)
    requires
        call_ensures(content_length, (header,), r),
        header@ == name + ":"@ + value,
        forall|i: int| 0 <= i < name.len() ==> #[trigger] name[i] != ':',
        ascii_lower(crate::text::trimmed(name)) == "content-length"@,
        crate::text::trimmed(value) == crate::number::decimal(n as int),
    ensures
        r == Some(
            if n < MAX_BODY_BYTES {
                n
            } else {
                MAX_BODY_BYTES
            },
        ),
{
    reveal_strlit(":");
    let s = header@;
    let k = name.len() as int;
    assert forall|j: int| 0 <= j < k implies #[trigger] s[j] != ':' by {
        assert(s[j] == name[j]);
    }
    assert(s[k] == ':');
    crate::text::lemma_find(s, ':', k);
    assert(s.take(k) =~= name);
    assert(s.skip(k + 1) =~= value);
    crate::number::lemma_digits(n as nat);
    let digits = crate::number::decimal(n as int);
    assert(crate::number::is_digit(digits[0]));
}

/// A header of another name declares no length, and the body is as long as was declared last.
pub proof fn other_headers_declare_no_length(
    header: &str,
    r: Option<usize>,
    name: Seq<char>,
    value: Seq<char>,
)
    requires
        call_ensures(content_length, (header,), r),
        header@ == name + ":"@ + value,
        forall|i: int| 0 <= i < name.len() ==> #[trigger] name[i] != ':',
        ascii_lower(crate::text::trimmed(name)) != "content-length"@,
    ensures
        r is None,
{
    reveal_strlit(":");
    let s = header@;
    let k = name.len() as int;
    assert forall|j: int| 0 <= j < k implies #[trigger] s[j] != ':' by {
        assert(s[j] == name[j]);
    }
    assert(s[k] == ':');
    crate::text::lemma_find(s, ':', k);
    assert(s.take(k) =~= name);
}

/// The body of a request is as long as its head declared, and there is none where it declared none;
/// a head starts with nothing declared.
pub proof fn the_body_is_as_long_as_declared(head: &RequestHead, r: usize, line: &str, new: RequestHead)
    requires
        call_ensures(RequestHead::body_len, (head,), r),
        call_ensures(RequestHead::new, (line,), new),
    ensures
        match head.content_length {
            Some(n) => r == n,
            None => r == 0,
        },
        new.content_length is None,
        encode_utf8(line@).len() <= MAX_HEADER_BYTES ==> new.read == encode_utf8(line@).len(),
        encode_utf8(line@).len() > MAX_HEADER_BYTES ==> new.read > MAX_HEADER_BYTES,
{
}

/// A blank line, or none at all, ends the head, and so does a line behind which the head would be too
/// long. Any other line is read: one that declares the length of the body replaces what was declared
/// before, and nothing else does. Every line counts.
pub proof fn a_head_is_read_line_by_line(header: &str, more: bool)
    ensures
        forall|head: &mut RequestHead| #[trigger]
            call_ensures(RequestHead::take_header, (head, header), more) ==> {
                let length = encode_utf8(header@).len();
                &&& more <==> header@.len() > 0 && header@ != "\r\n"@ && header@ != "\n"@
                    && head.read + length <= MAX_HEADER_BYTES
                &&& head.read + length <= MAX_HEADER_BYTES ==> final(head).read == head.read
                    + length
                &&& head.read + length > MAX_HEADER_BYTES ==> final(head).read > MAX_HEADER_BYTES
                &&& more && declared_length(header@) is Some ==> (
                final(head).content_length matches Some(n) && declared_length(header@) == Some(
                    n as int,
                ))
                &&& !more || declared_length(header@) is None ==> final(head).content_length
                    == head.content_length
            },
{
}

/// A query is read as the pairs that were written into it, in their order.
pub proof fn a_query_is_read_as_it_was_written(
    query: &str,
    r: Vec<(String, String)>,
    pairs: Seq<(Seq<char>, Seq<char>)>,
)
    requires
        call_ensures(parse_query, (query,), r),
        pairs.len() > 0,
        crate::roundtrip::plain_keys(pairs),
        query@ == crate::text::joined(
            Seq::new(
                pairs.len(),
                |i: int| pairs[i].0 + "="@ + crate::percent::percent_encoded(pairs[i].1),
            ),
            "&"@,
        ),
    ensures
        r.deep_view() == pairs,
{
    assert(crate::query::pieces_of(pairs) =~= Seq::new(
        pairs.len(),
        |i: int| pairs[i].0 + "="@ + crate::percent::percent_encoded(pairs[i].1),
    ));
    crate::roundtrip::query_string_round_trips(pairs);
}

/// A body that is no text has no fields, and one that is has those of its text.
pub proof fn a_form_is_read_from_the_body(
    request: &Request,
    r: Vec<(String, String)>,
    text: &str,
    pairs: Vec<(String, String)>,
)
    requires
        call_ensures(Request::form, (request,), r),
        call_ensures(parse_query, (text,), pairs),
    ensures
        !valid_utf8(request.body@) ==> r@.len() == 0,
        request.body@ == encode_utf8(text@) ==> r.deep_view() == pairs.deep_view(),
{
    encode_utf8_valid_utf8(text@);
    encode_utf8_decode_utf8(text@);
    if !valid_utf8(request.body@) {
        let none = Seq::<char>::empty();
        crate::text::lemma_find(none, '&', 0);
        assert(crate::text::pieces(none, '&') =~= seq![none]);
        assert(seq![none].drop_last() =~= Seq::<Seq<char>>::empty());
        assert(pairs_of(Seq::<Seq<char>>::empty()).len() == 0);
        assert(seq![none].last().len() == 0);
        assert(pairs_of(seq![none]).len() == 0);
        assert(r.deep_view().len() == 0);
    }
}

} // verus!
