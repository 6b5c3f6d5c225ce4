//! HTML: escaping, the chrome that every page shares, and the small elements.

use vstd::prelude::*;
use vstd::string::*;
use vstd::utf8::*;

use crate::text::chars_of;
use crate::text::out_push;

verus! {

// -- escaping ---------------------------------------------------------------

/// One character as HTML text.
pub open spec fn escaped_char(c: char) -> Seq<char> {
    if c == '&' {
        "&amp;"@
    } else if c == '<' {
        "&lt;"@
    } else if c == '>' {
        "&gt;"@
    } else if c == '"' {
        "&quot;"@
    } else if c == '\'' {
        "&#39;"@
    } else {
        seq![c]
    }
}

/// `s` as HTML text.
pub open spec fn escaped(s: Seq<char>) -> Seq<char>
    decreases s.len(),
{
    if s.len() == 0 {
        Seq::empty()
    } else {
        escaped_char(s[0]) + escaped(s.drop_first())
    }
}

/// `value` as HTML text, fit for element content and for quoted attributes.
pub fn escape(value: &str) -> (r: String)
    ensures
        r@ == escaped(value@),
{
    let chars = chars_of(value);
    let mut out = String::new();
    let mut i: usize = 0;
    assert(chars@.skip(0) =~= chars@);
    assert(out@ + escaped(chars@) =~= escaped(chars@));
    while i < chars.len()
        invariant
            i <= chars@.len(),
            out@ + escaped(chars@.skip(i as int)) == escaped(chars@),
        decreases chars@.len() - i,
    {
        let c = chars[i];
        let ghost before = out@;
        assert(chars@.skip(i as int).drop_first() =~= chars@.skip(i + 1));
        if c == '&' {
            out_push(&mut out, "&amp;");
        } else if c == '<' {
            out_push(&mut out, "&lt;");
        } else if c == '>' {
            out_push(&mut out, "&gt;");
        } else if c == '"' {
            out_push(&mut out, "&quot;");
        } else if c == '\'' {
            out_push(&mut out, "&#39;");
        } else {
            out.push(c);
        }
        assert(out@ =~= before + escaped_char(c));
        assert(out@ + escaped(chars@.skip(i + 1)) =~= before + (escaped_char(c) + escaped(
            chars@.skip(i + 1),
        )));
        i = i + 1;
    }
    assert(out@ + escaped(chars@.skip(i as int)) =~= out@);
    out
}

/// The characters that can open or close a tag or a quoted attribute.
pub open spec fn is_markup(c: char) -> bool {
    c == '<' || c == '>' || c == '"' || c == '\''
}

/// Escaped text cannot open or close a tag or a quoted attribute.
pub proof fn escaped_has_no_markup(s: Seq<char>)
    ensures
        forall|i: int| 0 <= i < escaped(s).len() ==> !is_markup(#[trigger] escaped(s)[i]),
    decreases s.len(),
{
    if s.len() > 0 {
        reveal_strlit("&amp;");
        reveal_strlit("&lt;");
        reveal_strlit("&gt;");
        reveal_strlit("&quot;");
        reveal_strlit("&#39;");
        let head = escaped_char(s[0]);
        escaped_has_no_markup(s.drop_first());
        assert forall|i: int| 0 <= i < escaped(s).len() implies !is_markup(
            #[trigger] escaped(s)[i],
        ) by {
            if i < head.len() {
                assert(escaped(s)[i] == head[i]);
            } else {
                assert(escaped(s)[i] == escaped(s.drop_first())[i - head.len()]);
            }
        }
    }
}

/// Escaping loses nothing: different texts stay different.
pub proof fn escaped_is_injective(a: Seq<char>, b: Seq<char>)
    requires
        escaped(a) == escaped(b),
    ensures
        a == b,
    decreases a.len(),
{
    reveal_strlit("&amp;");
    reveal_strlit("&lt;");
    reveal_strlit("&gt;");
    reveal_strlit("&quot;");
    reveal_strlit("&#39;");
    if a.len() == 0 || b.len() == 0 {
        if a.len() > 0 {
            assert(escaped(a).len() >= escaped_char(a[0]).len());
        }
        if b.len() > 0 {
            assert(escaped(b).len() >= escaped_char(b[0]).len());
        }
        assert(a =~= b);
    } else {
        let ha = escaped_char(a[0]);
        let hb = escaped_char(b[0]);
        let ta = escaped(a.drop_first());
        let tb = escaped(b.drop_first());
        assert(escaped(a)[0] == ha[0] && escaped(b)[0] == hb[0]);
        if ha.len() > 1 && hb.len() > 1 {
            assert(escaped(a)[1] == ha[1] && escaped(b)[1] == hb[1]);
        }
        assert(a[0] == b[0]);
        assert(ta =~= escaped(a).skip(ha.len() as int));
        assert(tb =~= escaped(b).skip(hb.len() as int));
        escaped_is_injective(a.drop_first(), b.drop_first());
        assert(a =~= seq![a[0]] + a.drop_first());
        assert(b =~= seq![b[0]] + b.drop_first());
    }
}

/// `s` with a space in place of each line feed, carriage return and tab.
pub open spec fn flattened(s: Seq<char>) -> Seq<char> {
    Seq::new(
        s.len(),
        |i: int|
            if s[i] == '\n' || s[i] == '\r' || s[i] == '\t' {
                ' '
            } else {
                s[i]
            },
    )
}

/// `value` on one line: a space in place of each line feed, carriage return and tab.
pub fn flatten(value: &str) -> (r: String)
    ensures
        r@ == flattened(value@),
{
    let chars = chars_of(value);
    let mut out = String::new();
    let mut i: usize = 0;
    while i < chars.len()
        invariant
            i <= chars@.len(),
            out@ == flattened(chars@).take(i as int),
        decreases chars@.len() - i,
    {
        let c = chars[i];
        if c == '\n' || c == '\r' || c == '\t' {
            out.push(' ');
        } else {
            out.push(c);
        }
        assert(out@ =~= flattened(chars@).take(i + 1));
        i = i + 1;
    }
    assert(flattened(chars@).take(i as int) =~= flattened(chars@));
    out
}

/// A flattened text has as many characters, and none that breaks the line.
pub proof fn flattened_is_one_line(s: Seq<char>)
    ensures
        flattened(s).len() == s.len(),
        forall|i: int|
            0 <= i < s.len() ==> (#[trigger] flattened(s)[i]) != '\n' && flattened(s)[i] != '\r'
                && flattened(s)[i] != '\t',
{
}

// -- small elements ---------------------------------------------------------

/// A hidden form field.
pub open spec fn hidden_input_html(name: Seq<char>, value: Seq<char>) -> Seq<char> {
    "<input type=\"hidden\" name=\""@ + escaped(name) + "\" value=\""@ + escaped(value) + "\">"@
}

/// A hidden form field, which carries the active narrowing through the search form.
pub fn hidden_input(name: &str, value: &str) -> (r: String)
    ensures
        r@ == hidden_input_html(name@, value@),
{
    let mut out = "<input type=\"hidden\" name=\"".to_owned();
    out_push(&mut out, escape(name).as_str());
    out_push(&mut out, "\" value=\"");
    out_push(&mut out, escape(value).as_str());
    out_push(&mut out, "\">");
    out
}

/// One active filter, linking to itself removed.
pub open spec fn filter_chip_html(label: Seq<char>, href: Seq<char>) -> Seq<char> {
    "<a class=\"chip\" href=\""@ + escaped(href) + "\">"@ + escaped(label) + " \u{d7}</a>"@
}

/// One active filter, linking to itself removed.
pub fn filter_chip(label: &str, href: &str) -> (r: String)
    ensures
        r@ == filter_chip_html(label@, href@),
{
    let mut out = "<a class=\"chip\" href=\"".to_owned();
    out_push(&mut out, escape(href).as_str());
    out_push(&mut out, "\">");
    out_push(&mut out, escape(label).as_str());
    out_push(&mut out, " \u{d7}</a>");
    out
}

/// The bytes read as digits of base 31.
pub open spec fn byte_hash(bytes: Seq<u8>) -> nat
    decreases bytes.len(),
{
    if bytes.len() == 0 {
        0
    } else {
        byte_hash(bytes.drop_last()) * 31 + bytes.last() as nat
    }
}

/// The colour bucket of a tag.
pub open spec fn hue(tag: Seq<char>) -> nat {
    byte_hash(encode_utf8(tag)) % 8
}

/// The colour bucket of a tag, one of eight, always the same for the same tag.
pub fn tag_hue(tag: &str) -> (r: usize)
    ensures
        r == hue(tag@),
        r < 8,
{
    let bytes = tag.as_bytes();
    let mut acc: usize = 0;
    let mut i: usize = 0;
    while i < bytes.len()
        invariant
            i <= bytes@.len(),
            acc < 8,
            acc == byte_hash(bytes@.take(i as int)) % 8,
        decreases bytes@.len() - i,
    {
        assert(bytes@.take(i + 1).drop_last() =~= bytes@.take(i as int));
        acc = (acc * 31 + bytes[i] as usize) % 8;
        i = i + 1;
    }
    assert(bytes@.take(i as int) =~= bytes@);
    acc
}

// -- whole pages ------------------------------------------------------------

/// A whole page around `body`.
pub open spec fn document_html(title: Seq<char>, body: Seq<char>) -> Seq<char> {
    "<!doctype html>\n<html lang=\"en\"><head><meta charset=\"utf-8\">\
<meta name=\"viewport\" content=\"width=device-width,initial-scale=1\">\
<title>"@ + escaped(title) + "</title><style>"@ + STYLE@ + "</style></head><body><main>"@ + body
        + "</main>"@ + KANBAN_SCRIPT@ + "</body></html>\n"@
}

/// A whole page around `body`, which is HTML already; `title` is plain text.
pub fn document(title: &str, body: &str) -> (r: String)
    ensures
        r@ == document_html(title@, body@),
{
    let mut out = "<!doctype html>\n<html lang=\"en\"><head><meta charset=\"utf-8\">\
<meta name=\"viewport\" content=\"width=device-width,initial-scale=1\">\
<title>".to_owned();
    out_push(&mut out, escape(title).as_str());
    out_push(&mut out, "</title><style>");
    out_push(&mut out, STYLE);
    out_push(&mut out, "</style></head><body><main>");
    out_push(&mut out, body);
    out_push(&mut out, "</main>");
    out_push(&mut out, KANBAN_SCRIPT);
    out_push(&mut out, "</body></html>\n");
    out
}

/// The body of an error page.
pub open spec fn error_body_html(title: Seq<char>, detail: Seq<char>) -> Seq<char> {
    "<header class=\"detail\"><a class=\"back\" href=\"/\">\u{2190} all tickets</a><h1>"@ + escaped(
        title,
    ) + "</h1></header><pre class=\"prose\">"@ + escaped(detail) + "</pre>"@
}

/// The page that says what went wrong.
pub open spec fn error_page_html(title: Seq<char>, detail: Seq<char>) -> Seq<char> {
    document_html(title, error_body_html(title, detail))
}

/// The page that says what went wrong.
pub fn error_page(title: &str, detail: &str) -> (r: String)
    ensures
        r@ == error_page_html(title@, detail@),
{
    let mut body =
        "<header class=\"detail\"><a class=\"back\" href=\"/\">\u{2190} all tickets</a><h1>".to_owned();
    out_push(&mut body, escape(title).as_str());
    out_push(&mut body, "</h1></header><pre class=\"prose\">");
    out_push(&mut body, escape(detail).as_str());
    out_push(&mut body, "</pre>");
    document(title, body.as_str())
}

// -- laws -------------------------------------------------------------------

/// Escaping goes character by character: the escape of two texts is that of the one and that of the
/// other.
pub proof fn escaping_goes_piece_by_piece(a: Seq<char>, b: Seq<char>)
    ensures
        escaped(a + b) == escaped(a) + escaped(b),
    decreases a.len(),
{
    if a.len() == 0 {
        assert(a + b =~= b);
        assert(escaped(a) + escaped(b) =~= escaped(b));
    } else {
        assert((a + b).drop_first() =~= a.drop_first() + b);
        escaping_goes_piece_by_piece(a.drop_first(), b);
        assert(escaped(a + b) =~= escaped(a) + escaped(b));
    }
}

/// The five characters that mean something in HTML are written as the entities that stand for them,
/// and every other text is written as it is.
pub proof fn only_special_characters_are_escaped(value: &str, r: String)
    requires
        call_ensures(escape, (value,), r),
    ensures
        value@ == seq!['&'] ==> r@ == "&amp;"@,
        value@ == seq!['<'] ==> r@ == "&lt;"@,
        value@ == seq!['>'] ==> r@ == "&gt;"@,
        value@ == seq!['"'] ==> r@ == "&quot;"@,
        value@ == seq!['\''] ==> r@ == "&#39;"@,
        (forall|i: int|
            0 <= i < value@.len() ==> (#[trigger] value@[i]) != '&' && value@[i] != '<' && value@[i]
                != '>' && value@[i] != '"' && value@[i] != '\'') ==> r@ == value@,
{
    let s = value@;
    if s.len() == 1 {
        assert(s.drop_first() =~= Seq::<char>::empty());
        assert(escaped(s.drop_first()).len() == 0);
        assert(escaped(s) =~= escaped_char(s[0]));
    }
    if forall|i: int|
        0 <= i < s.len() ==> (#[trigger] s[i]) != '&' && s[i] != '<' && s[i] != '>' && s[i] != '"'
            && s[i] != '\'' {
        lemma_plain_is_kept(s);
    }
}

proof fn lemma_plain_is_kept(s: Seq<char>)
    requires
        forall|i: int|
            0 <= i < s.len() ==> (#[trigger] s[i]) != '&' && s[i] != '<' && s[i] != '>' && s[i]
                != '"' && s[i] != '\'',
    ensures
        escaped(s) == s,
    decreases s.len(),
{
    if s.len() > 0 {
        let rest = s.drop_first();
        assert forall|i: int| 0 <= i < rest.len() implies (#[trigger] rest[i]) != '&' && rest[i]
            != '<' && rest[i] != '>' && rest[i] != '"' && rest[i] != '\'' by {
            assert(rest[i] == s[i + 1]);
        }
        lemma_plain_is_kept(rest);
        assert(seq![s[0]] + rest =~= s);
    }
}

/// A text on one line has a space for each line feed, carriage return and tab, and is otherwise as it
/// was.
pub proof fn flattening_keeps_the_rest(value: &str, r: String, i: int)
    requires
        call_ensures(flatten, (value,), r),
        0 <= i < value@.len(),
    ensures
        r@.len() == value@.len(),
        r@[i] == if value@[i] == '\n' || value@[i] == '\r' || value@[i] == '\t' {
            ' '
        } else {
            value@[i]
        },
{
}

/// A page shows its title in the title bar, as text, and its body as it is.
pub proof fn a_document_shows_its_body(title: &str, body: &str, r: String)
    requires
        call_ensures(document, (title, body), r),
    ensures
        crate::text::holds(r@, escaped(title@) + "</title><style>"@),
        crate::text::holds(r@, "</style></head><body><main>"@ + body@ + "</main>"@),
{
    broadcast use crate::text::group_holds;

}

/// The error page shows what went wrong: the title as its title and its heading, and the detail
/// below, both as text; and leads back to the tickets.
pub proof fn an_error_page_says_what_went_wrong(title: &str, detail: &str, r: String)
    requires
        call_ensures(error_page, (title, detail), r),
    ensures
        crate::text::holds(r@, escaped(title@) + "</title><style>"@),
        crate::text::holds(
            r@,
            "<header class=\"detail\"><a class=\"back\" href=\"/\">\u{2190} all tickets</a><h1>"@
                + escaped(title@) + "</h1></header><pre class=\"prose\">"@ + escaped(detail@)
                + "</pre>"@,
        ),
{
    broadcast use crate::text::group_holds;

}

/// A hidden input has the name and the value that it was made for, and a chip the label and the
/// address, all as text.
pub proof fn small_elements_show_their_parts(
    name: &str,
    value: &str,
    input: String,
    chip: String,
)
    requires
        call_ensures(hidden_input, (name, value), input),
        call_ensures(filter_chip, (name, value), chip),
    ensures
        input@ == "<input type=\"hidden\" name=\""@ + escaped(name@) + "\" value=\""@ + escaped(
            value@,
        ) + "\">"@,
        chip@ == "<a class=\"chip\" href=\""@ + escaped(value@) + "\">"@ + escaped(name@)
            + " \u{d7}</a>"@,
{
}

/// A tag has one of eight colours. It goes by the bytes of the tag, read as digits to the base 31: no
/// bytes have the first colour, and one byte more takes the colour on.
pub proof fn a_tag_keeps_its_colour(tag: &str, r: usize, longer: &str, b: u8, next: usize)
    requires
        call_ensures(tag_hue, (tag,), r),
        call_ensures(tag_hue, (longer,), next),
        encode_utf8(longer@) == encode_utf8(tag@).push(b),
    ensures
        r < 8,
        encode_utf8(tag@).len() == 0 ==> r == 0,
        next == (r * 31 + b) % 8,
{
    let bytes = encode_utf8(longer@);
    assert(bytes.drop_last() =~= encode_utf8(tag@));
    assert(bytes.last() == b);
}

pub(crate) proof fn lemma_in_document(title: Seq<char>, body: Seq<char>, piece: Seq<char>)
    requires
        crate::text::holds(body, piece),
    ensures
        crate::text::holds(document_html(title, body), piece),
{
    let start = "<!doctype html>\n<html lang=\"en\"><head><meta charset=\"utf-8\">\
<meta name=\"viewport\" content=\"width=device-width,initial-scale=1\">\
<title>"@ + escaped(title) + "</title><style>"@ + STYLE@ + "</style></head><body><main>"@;
    let a = start + body;
    let b = a + "</main>"@;
    let c = b + KANBAN_SCRIPT@;
    crate::text::lemma_holds_end(start, body, piece);
    crate::text::lemma_holds_start(a, "</main>"@, piece);
    crate::text::lemma_holds_start(b, KANBAN_SCRIPT@, piece);
    crate::text::lemma_holds_start(c, "</body></html>\n"@, piece);
}

/// Documents with one title are the same only where their bodies are.
pub proof fn documents_differ_in_their_bodies(title: Seq<char>, a: Seq<char>, b: Seq<char>)
    requires
        document_html(title, a) == document_html(title, b),
    ensures
        a == b,
{
    let start = "<!doctype html>\n<html lang=\"en\"><head><meta charset=\"utf-8\">\
<meta name=\"viewport\" content=\"width=device-width,initial-scale=1\">\
<title>"@ + escaped(title) + "</title><style>"@ + STYLE@ + "</style></head><body><main>"@;
    lemma_middle(
        start,
        a,
        b,
        "</main>"@,
        KANBAN_SCRIPT@,
        "</body></html>\n"@,
    );
}

proof fn lemma_middle(
    start: Seq<char>,
    a: Seq<char>,
    b: Seq<char>,
    x: Seq<char>,
    y: Seq<char>,
    z: Seq<char>,
)
    requires
        start + a + x + y + z == start + b + x + y + z,
    ensures
        a == b,
{
    let whole = start + a + x + y + z;
    let other = start + b + x + y + z;
    assert(whole.len() == other.len());
    assert(a.len() == b.len());
    let n = start.len() as int;
    assert(whole.subrange(n, n + a.len()) =~= a);
    assert(other.subrange(n, n + b.len()) =~= b);
}

/// The style sheet of every page.
pub const STYLE: &'static str = "\
:root{color-scheme:light dark;--bg:#fff;--fg:#1c1c1e;--dim:#6b7280;--line:#e5e7eb;\
--accent:#2563eb;--chip:#f3f4f6;--hover:#f9fafb}\
@media(prefers-color-scheme:dark){:root{--bg:#111317;--fg:#e6e8eb;--dim:#8b93a1;--line:#262a31;\
--accent:#7aa2f7;--chip:#1c2027;--hover:#171a20}}\
*{box-sizing:border-box}\
body{margin:0;background:var(--bg);color:var(--fg);\
font:14px/1.5 ui-monospace,SFMono-Regular,Menlo,Consolas,monospace}\
main{max-width:1100px;margin:0 auto;padding:24px 20px 60px}\
a{color:inherit;text-decoration:none}a:hover{text-decoration:underline}\
header{display:flex;flex-wrap:wrap;gap:12px;align-items:center;\
padding-bottom:12px;border-bottom:1px solid var(--line);margin-bottom:16px}\
h1{font-size:18px;margin:0;font-weight:600}\
header nav{display:flex;gap:4px;margin-left:8px}\
nav .view{padding:3px 10px;border-radius:999px;color:var(--dim)}\
nav .view:hover{background:var(--hover);text-decoration:none}\
nav .view.active{background:var(--accent);color:#fff}\
header form{margin-left:auto}\
input[type=search]{font:inherit;padding:5px 10px;border:1px solid var(--line);\
border-radius:6px;background:var(--bg);color:var(--fg);min-width:200px}\
.filters{display:flex;gap:6px;flex-wrap:wrap;margin:-4px 0 14px}\
.chip{background:var(--chip);color:var(--dim);border-radius:999px;padding:2px 10px;font-size:12px}\
table{width:100%;border-collapse:collapse}\
th{text-align:left;font-weight:600;color:var(--dim);font-size:12px;\
text-transform:uppercase;letter-spacing:.04em;padding:6px 8px;border-bottom:1px solid var(--line)}\
th a{color:inherit}\
td{padding:6px 8px;border-bottom:1px solid var(--line);vertical-align:top}\
tbody tr:hover{background:var(--hover)}\
td.id a,td.age{color:var(--dim)}\
td.prio{color:#a855f7}td.age,td.prio,td.id{white-space:nowrap}\
td.title a{font-weight:500}\
tr.closed td.title a{color:var(--dim);text-decoration:line-through}\
td.who{color:var(--dim);white-space:nowrap}td.who.mine{color:#d97706;font-weight:600}\
.children{color:var(--dim)}.children-toggle{background:none;border:none;color:var(--dim);font:inherit;font-size:12px;cursor:pointer;padding:0 2px}.children-toggle:hover{color:var(--accent)}tr.sub td.title{padding-left:calc(10px * var(--depth, 1))}tr.sub{background:var(--hover)}.parent{color:var(--dim);font-size:12px;margin-right:4px}\
.tag{font-size:12px;border-radius:4px;padding:1px 6px;background:var(--chip);white-space:nowrap}\
.tag-0{color:#2563eb}.tag-1{color:#0891b2}.tag-2{color:#16a34a}.tag-3{color:#ca8a04}\
.tag-4{color:#c026d3}.tag-5{color:#0ea5e9}.tag-6{color:#65a30d}.tag-7{color:#e11d48}\
.badge{font-size:12px;border-radius:4px;padding:1px 6px;background:var(--chip)}\
.state-in-progress{color:#d97706}.state-blocked{color:#dc2626}.state-review{color:#2563eb}\
.state-resolved{color:#16a34a}.state-wontfix,.state-duplicate,.state-invalid{color:var(--dim)}\
.count,.empty{color:var(--dim);margin-top:16px}\
header.detail{display:block}.back{color:var(--dim);font-size:12px}\
.subtitle{color:var(--dim);margin:6px 0 0}\
.fields{display:grid;grid-template-columns:repeat(auto-fill,minmax(200px,1fr));gap:10px;margin:0 0 20px}\
dt{color:var(--dim);font-size:12px;text-transform:uppercase;letter-spacing:.04em}\
dd{margin:2px 0 0}\
h2{font-size:13px;text-transform:uppercase;letter-spacing:.04em;color:var(--dim);margin:24px 0 8px}\
.prose{white-space:pre-wrap;word-wrap:break-word;font:inherit;margin:0;\
background:var(--chip);border-radius:6px;padding:12px}\
.comment{margin-bottom:12px}.byline{color:var(--dim);font-size:12px;margin:0 0 4px}nav.modes{display:flex;gap:4px;margin-left:4px;padding-left:8px;border-left:1px solid var(--line)}.kanban{display:flex;gap:12px;overflow-x:auto;padding-bottom:12px}.kanban-col{flex:0 0 240px;background:var(--chip);border-radius:8px;padding:8px;display:flex;flex-direction:column;min-height:60px}.kanban-col h3{font-size:12px;text-transform:uppercase;letter-spacing:.04em;color:var(--dim);margin:0 0 8px;padding:2px 4px}.kanban-col h3 .n{float:right;font-weight:400}.kanban-cards{display:flex;flex-direction:column;gap:6px}.kcard{background:var(--bg);border:1px solid var(--line);border-radius:6px;padding:8px;display:block}.kcard:hover{border-color:var(--accent);text-decoration:none}.kcard .kt{font-weight:500;font-size:13px;line-height:1.3;margin-bottom:4px}.kcard .km{display:flex;gap:6px;flex-wrap:wrap;align-items:center;font-size:11px;color:var(--dim)}.kcard .kid{font-family:inherit;color:var(--dim)}.kcard .kp{color:#a855f7}.kcard .kpar{color:var(--dim)}.kcard .ka{color:#d97706}.kcard .kp{color:var(--dim)}.kcard .kc{color:var(--dim)}.kcard-sub{border-left:3px solid var(--accent)}.kgroup{display:flex;flex-direction:column;gap:6px}.kcard-parent{border-left:3px solid var(--accent)}.ktoggle{display:flex;align-items:center;gap:4px;background:none;border:none;color:var(--dim);font:inherit;font-size:11px;cursor:pointer;padding:2px 4px;border-radius:4px}.ktoggle:hover{background:var(--hover)}.ktoggle .kcount{background:var(--chip);border-radius:999px;padding:0 6px}.kchildren{display:flex;flex-direction:column;gap:4px;padding-left:12px;border-left:2px solid var(--line);margin-left:8px}.kchildren .kcard{font-size:12px;opacity:.9}.flow-empty{color:var(--dim);margin-top:16px}\
.detail-nav{display:flex;gap:4px;margin-top:10px}\
.detail-nav a{padding:3px 10px;border-radius:999px;color:var(--dim);background:var(--chip)}\
.detail-nav a:hover{background:var(--hover);text-decoration:none}\
.detail-nav a.active{background:var(--accent);color:#fff}\
.edit-error{background:#fef2f2;color:#b91c1c;border:1px solid #fecaca;border-radius:6px;\
padding:8px 10px;margin:0 0 16px}@media(prefers-color-scheme:dark){.edit-error{background:#2a1212;\
color:#fca5a5;border-color:#5b1f1f}}\
section.edit{margin-top:24px}\
.edit-form{display:flex;flex-wrap:wrap;gap:8px;align-items:end;margin:0 0 10px;\
padding:10px;background:var(--chip);border-radius:6px}\
.edit-form label{display:flex;flex-direction:column;gap:3px;font-size:12px;color:var(--dim);\
text-transform:uppercase;letter-spacing:.04em;flex:1 1 200px}\
.edit-form input,.edit-form select,.edit-form textarea{font:inherit;padding:5px 8px;\
border:1px solid var(--line);border-radius:6px;background:var(--bg);color:var(--fg);\
font-size:13px;text-transform:none;letter-spacing:0}\
.edit-form textarea{resize:vertical;min-height:3em}\
.edit-form button{font:inherit;padding:5px 14px;border:1px solid var(--accent);\
background:var(--accent);color:#fff;border-radius:6px;cursor:pointer}\
.edit-form button:hover{filter:brightness(1.08)}\
.edit-tag-remove{flex:0 0 auto;align-items:center}\
.edit-tag-remove span{margin-right:4px}\
.edit-comment{flex-direction:column;align-items:stretch}\
.edit-comment label{flex:1 1 auto}";

/// Folds and unfolds the nested cards and rows.
pub const KANBAN_SCRIPT: &'static str = "<script>\
function kanbanToggle(b){{var g=b.closest('.kgroup');var c=g.querySelector('.kchildren');\
var x=b.getAttribute('aria-expanded')==='true';\
c.style.display=x?'none':'flex';b.setAttribute('aria-expanded',x?'false':'true');\
b.innerHTML=(x?'\\u25B6':'\\u25BC')+'<span class=\"kcount\">'+c.children.length+'</span>';}}\
function listToggle(b){{var tr=b.closest('tr');var pid=tr.getAttribute('data-id');\
var x=b.getAttribute('aria-expanded')==='true';\
var rows=tr.closest('tbody').querySelectorAll('tr[data-parent=\"'+pid+'\"]');\
for(var i=0;i<rows.length;i++){{rows[i].style.display=x?'none':'table-row';}}\
b.setAttribute('aria-expanded',x?'false':'true');\
b.textContent=(x?'[+':'[-')+rows.length+']';}}\
</script>";

} // verus!
