//! Note text as HTML (Markdown), and the image captcha of the sign-up form.
use vstd::prelude::*;
use base64::Engine;
use crate::auth::captcha_token;
use crate::chars::{append_chars, chars_of, is_ascii_alnum, lowercase, string_of};
use crate::request::{captcha_accepted, captcha_name, cookie_pair, lemma_captcha_cookie_roundtrip};

verus! {

// ---------------------------------------------------------------------------
// Markdown
// ---------------------------------------------------------------------------

/// The HTML that pulldown-cmark writes for the Markdown `text`, with the
/// strikethrough, table and task-list extensions on as asked, and, when
/// `hard_breaks`, every soft line break written as a hard one.
pub uninterp spec fn cmark_html(
    text: Seq<char>,
    strikethrough: bool,
    tables: bool,
    tasklists: bool,
    hard_breaks: bool,
) -> Seq<char>;

/// The HTML of a note's Markdown: strikethrough, tables and task lists on,
/// and a line break inside a paragraph kept as a line break.
pub open spec fn markdown_html(text: Seq<char>) -> Seq<char> {
    cmark_html(text, true, true, true, true)
}

/// `pulldown_cmark::Parser::new_ext` with the extensions asked for, each
/// `Event::SoftBreak` passed on as `Event::HardBreak` when `hard_breaks`,
/// written out by `pulldown_cmark::html::push_html`: a function of the text
/// and the flags.
#[verifier::external_body]
fn markdown_to_html(
    text: &str,
    strikethrough: bool,
    tables: bool,
    tasklists: bool,
    hard_breaks: bool,
) -> (res: String)
    ensures
        res@ == cmark_html(text@, strikethrough, tables, tasklists, hard_breaks),
{
    let mut options = pulldown_cmark::Options::empty();
    options.set(pulldown_cmark::Options::ENABLE_STRIKETHROUGH, strikethrough);
    options.set(pulldown_cmark::Options::ENABLE_TABLES, tables);
    options.set(pulldown_cmark::Options::ENABLE_TASKLISTS, tasklists);
    let parser = pulldown_cmark::Parser::new_ext(text, options).map(|event| match event {
        pulldown_cmark::Event::SoftBreak if hard_breaks => pulldown_cmark::Event::HardBreak,
        other => other,
    });
    let mut html = String::new();
    pulldown_cmark::html::push_html(&mut html, parser);
    html
}

/// A note's Markdown as HTML: raw HTML passes through, strikethrough,
/// tables and task lists are on, and a line break inside a paragraph stays
/// a line break.
pub fn render_markdown(text: &str) -> (res: String)
    ensures
        res@ == markdown_html(text@),
{
    markdown_to_html(text, true, true, true, true)
}

// ---------------------------------------------------------------------------
// Captcha
// ---------------------------------------------------------------------------

/// A captcha answer as the captcha crate makes them: at most five ASCII
/// letters and digits.
pub open spec fn captcha_answer_shape(answer: Seq<char>) -> bool {
    answer.len() <= 5 && forall|i: int| 0 <= i < answer.len() ==> is_ascii_alnum(#[trigger] answer[i])
}

/// `captcha::Captcha::new()` with `count` random characters of the default
/// font (ASCII letters and digits; a character whose glyph fails to load is
/// left out), cut by `view` to `width` by `height` pixels around the text:
/// its characters and the PNG image (empty when encoding fails).  Both are
/// random.  `view` subtracts half the size from the middle of the text on
/// a 400 by 300 canvas, so other sizes and counts can cut outside it; the
/// sign-up form's (five characters, 220 by 80) is the one admitted.
#[verifier::external_body]
fn new_captcha(count: u32, width: u32, height: u32) -> (res: (String, Vec<u8>))
    requires
        count == 5,
        width == 220,
        height == 80,
    ensures
        res.0@.len() <= count,
        forall|i: int| 0 <= i < res.0@.len() ==> is_ascii_alnum(#[trigger] res.0@[i]),
{
    let mut captcha = captcha::Captcha::new();
    captcha.add_chars(count);
    captcha.view(width, height);
    (captcha.chars_as_string(), captcha.as_png().unwrap_or_default())
}

/// The character of the standard Base64 alphabet for `v` (0 to 63).
pub open spec fn base64_char(v: int) -> char {
    if v < 26 {
        ('A' as int + v) as char
    } else if v < 52 {
        ('a' as int + v - 26) as char
    } else if v < 62 {
        ('0' as int + v - 52) as char
    } else if v == 62 {
        '+'
    } else {
        '/'
    }
}

/// What the standard Base64 alphabet, with `=` padding, writes for
/// `bytes`: each three bytes as four characters of six bits each.
pub open spec fn base64_standard(bytes: Seq<u8>) -> Seq<char>
    decreases bytes.len(),
{
    if bytes.len() == 0 {
        Seq::empty()
    } else if bytes.len() == 1 {
        let a = bytes[0] as int;
        seq![base64_char(a / 4), base64_char((a % 4) * 16), '=', '=']
    } else if bytes.len() == 2 {
        let a = bytes[0] as int;
        let b = bytes[1] as int;
        seq![base64_char(a / 4), base64_char((a % 4) * 16 + b / 16), base64_char((b % 16) * 4), '=']
    } else {
        let a = bytes[0] as int;
        let b = bytes[1] as int;
        let c = bytes[2] as int;
        seq![
            base64_char(a / 4),
            base64_char((a % 4) * 16 + b / 16),
            base64_char((b % 16) * 4 + c / 64),
            base64_char(c % 64),
        ] + base64_standard(bytes.skip(3))
    }
}

/// `base64::engine::general_purpose::STANDARD.encode`: the standard
/// alphabet with padding.
#[verifier::external_body]
fn base64_encode(bytes: &[u8]) -> (res: String)
    ensures
        res@ == base64_standard(bytes@),
{
    base64::engine::general_purpose::STANDARD.encode(bytes)
}

/// The prefix of a PNG data URL.
pub open spec fn png_data_prefix() -> Seq<char> {
    "data:image/png;base64,"@
}

/// A PNG image as a `data:` URL.
pub fn png_data_url(png: &[u8]) -> (res: String)
    ensures
        res@ == png_data_prefix() + base64_standard(png@),
{
    let mut v = chars_of("data:image/png;base64,");
    let b = base64_encode(png);
    append_chars(&mut v, chars_of(b.as_str()).as_slice());
    string_of(v.as_slice())
}

/// A fresh captcha: its answer (at most five ASCII letters and digits) and
/// its image as a PNG `data:` URL.
pub fn generate_captcha_data() -> (res: (String, String))
    ensures
        captcha_answer_shape(res.0@),
        exists|png: Seq<u8>| res.1@ == png_data_prefix() + #[trigger] base64_standard(png),
{
    let (answer, png) = new_captcha(5, 220, 80);
    let url = png_data_url(png.as_slice());
    (answer, url)
}

/// A captcha answer has neither `:` nor `;`.
pub proof fn lemma_captcha_answer_plain(answer: Seq<char>)
    requires
        captcha_answer_shape(answer),
    ensures
        !answer.contains(':'),
        !answer.contains(';'),
{
    assert forall|i: int| 0 <= i < answer.len() implies answer[i] != ':' && answer[i] != ';' by {
        assert(is_ascii_alnum(answer[i]));
    }
}

/// The captcha cookie set for a fresh captcha passes the form exactly when
/// the answer typed equals the captcha's up to case, until the cookie
/// expires.
pub proof fn lemma_fresh_captcha_passes(
    secret: Seq<char>,
    answer: Seq<char>,
    expiry: i64,
    typed: Seq<char>,
    now: int,
)
    requires
        captcha_answer_shape(answer),
    ensures
        captcha_accepted(
            secret,
            Some(cookie_pair(captcha_name(), captcha_token(secret, answer, expiry as int))),
            typed,
            now,
        ) == (now <= expiry && lowercase(answer) == lowercase(typed)),
{
    lemma_captcha_answer_plain(answer);
    lemma_captcha_cookie_roundtrip(secret, answer, expiry, typed, now);
}

} // verus!
