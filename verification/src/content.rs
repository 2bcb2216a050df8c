//! Note text processing: HTML stripping, titles, hashtags, first image.
use vstd::prelude::*;
use crate::chars::{
    append_chars, chars_eq, chars_lt, chars_of, find_char, find_char_from, lemma_find_char,
    lemma_seq_lt_total, lemma_seq_lt_transitive, matches_at_exec, seq_lt, string_of, sub_chars,
    trim, trim_chars, find_sub, lemma_find_sub, find_sub_from, lowercase, uppercase, alphanumeric,
    to_lowercase_chars, char_to_uppercase, is_alphanumeric, is_ascii_char, is_ascii_text,
    is_ascii_lower, ascii_lower_char, ascii_lowered,
};
use vstd::arithmetic::power2::{lemma2_to64, lemma_pow2_strictly_increases, lemma_pow2_unfold, pow2};
use crate::num::{digit_char, hex16, hex_digit, hex_fixed, nat_digit_chars, nat_digits, parse_i64, parse_i64_spec};

verus! {

// ---------------------------------------------------------------------------
// strip_html
// ---------------------------------------------------------------------------

/// `s` begins with `p`.
pub open spec fn starts_with(s: Seq<char>, p: Seq<char>) -> bool {
    p.len() <= s.len() && s.take(p.len() as int) == p
}

/// A tag whose (trimmed) text this is ends a line of plain text:
/// `p`, `/p`, `br`, `br/`, `/div`, and anything starting with `br `, `/h` or `h`.
pub open spec fn tag_breaks_line(t: Seq<char>) -> bool {
    ||| t == seq!['p']
    ||| t == seq!['/', 'p']
    ||| t == seq!['b', 'r']
    ||| t == seq!['b', 'r', '/']
    ||| t == seq!['/', 'd', 'i', 'v']
    ||| starts_with(t, seq!['b', 'r', ' '])
    ||| starts_with(t, seq!['/', 'h'])
    ||| starts_with(t, seq!['h'])
}

/// State of the stripper after some input: text written so far, whether a
/// tag is open, and the text of the open tag.
pub type StripState = (Seq<char>, bool, Seq<char>);

/// One character through the stripper.  An unclosed `<` is written back
/// with its text when the next `<` comes; a stray `>` is kept.
pub open spec fn strip_step(st: StripState, c: char) -> StripState {
    let (out, in_tag, buf) = st;
    if c == '<' {
        (if in_tag {
            out + seq!['<'] + buf
        } else {
            out
        }, true, Seq::empty())
    } else if c == '>' {
        if in_tag {
            (if tag_breaks_line(trim(buf)) {
                out.push('\n')
            } else {
                out
            }, false, buf)
        } else {
            (out.push('>'), false, buf)
        }
    } else if in_tag {
        (out, true, buf.push(c))
    } else {
        (out.push(c), false, buf)
    }
}

/// The stripper's state after reading all of `s`.
pub open spec fn strip_state(s: Seq<char>) -> StripState
    decreases s.len(),
{
    if s.len() == 0 {
        (Seq::empty(), false, Seq::empty())
    } else {
        strip_step(strip_state(s.drop_last()), s.last())
    }
}

/// `s` with HTML tags removed; the line-ending tags become `\n`, and the
/// text of a tag left open at the end is kept with its `<`.
pub open spec fn strip_html_spec(s: Seq<char>) -> Seq<char> {
    let (out, in_tag, buf) = strip_state(s);
    if in_tag {
        out + seq!['<'] + buf
    } else {
        out
    }
}

/// Whether `v` begins with `p`.
pub fn starts_with_chars(v: &[char], p: &[char]) -> (res: bool)
    ensures
        res == starts_with(v@, p@),
{
    if p.len() > v.len() {
        return false;
    }
    let mut k: usize = 0;
    while k < p.len()
        invariant
            p@.len() <= v@.len(),
            k <= p@.len(),
            forall|j: int| 0 <= j < k ==> v@[j] == p@[j],
        decreases p.len() - k,
    {
        if v[k] != p[k] {
            assert(v@.take(p@.len() as int)[k as int] != p@[k as int]);
            return false;
        }
        k = k + 1;
    }
    assert(v@.take(p@.len() as int) =~= p@);
    true
}

fn tag_breaks_line_exec(buf: &Vec<char>) -> (res: bool)
    ensures
        res == tag_breaks_line(trim(buf@)),
{
    let t = trim_chars(buf);
    let p1: [char; 1] = ['p'];
    let p2: [char; 2] = ['/', 'p'];
    let p3: [char; 2] = ['b', 'r'];
    let p4: [char; 3] = ['b', 'r', '/'];
    let p5: [char; 4] = ['/', 'd', 'i', 'v'];
    let p6: [char; 3] = ['b', 'r', ' '];
    let p7: [char; 2] = ['/', 'h'];
    let p8: [char; 1] = ['h'];
    let ts = t.as_slice();
    assert(p1@ == seq!['p']);
    assert(p2@ == seq!['/', 'p']);
    assert(p3@ == seq!['b', 'r']);
    assert(p4@ == seq!['b', 'r', '/']);
    assert(p5@ == seq!['/', 'd', 'i', 'v']);
    assert(p6@ == seq!['b', 'r', ' ']);
    assert(p7@ == seq!['/', 'h']);
    assert(p8@ == seq!['h']);
    chars_eq(ts, &p1) || chars_eq(ts, &p2) || chars_eq(ts, &p3) || chars_eq(ts, &p4) || chars_eq(
        ts,
        &p5,
    ) || starts_with_chars(ts, &p6) || starts_with_chars(ts, &p7) || starts_with_chars(ts, &p8)
}

/// `strip_html` on characters.
pub fn strip_html_chars(v: &Vec<char>) -> (res: Vec<char>)
    ensures
        res@ == strip_html_spec(v@),
{
    let mut out: Vec<char> = Vec::new();
    let mut in_tag = false;
    let mut buf: Vec<char> = Vec::new();
    let mut i: usize = 0;
    while i < v.len()
        invariant
            i <= v.len(),
            strip_state(v@.take(i as int)) == (out@, in_tag, buf@),
        decreases v.len() - i,
    {
        let c = v[i];
        proof {
            assert(v@.take(i + 1).drop_last() =~= v@.take(i as int));
            assert(v@.take(i + 1).last() == c);
        }
        if c == '<' {
            if in_tag {
                out.push('<');
                append_chars(&mut out, buf.as_slice());
            }
            in_tag = true;
            buf = Vec::new();
        } else if c == '>' {
            if in_tag {
                in_tag = false;
                if tag_breaks_line_exec(&buf) {
                    out.push('\n');
                }
            } else {
                out.push('>');
            }
        } else if in_tag {
            buf.push(c);
        } else {
            out.push(c);
        }
        i = i + 1;
    }
    assert(v@.take(v@.len() as int) =~= v@);
    if in_tag {
        out.push('<');
        append_chars(&mut out, buf.as_slice());
    }
    out
}

/// Removes HTML tags from `s`: `<p>`, `</p>`, `<br>`, `<br/>`, `</div>`,
/// `<br ...>`, `</h...>` and `<h...>` become a line break, other tags vanish,
/// and text outside tags is kept as it is.
pub fn strip_html(s: &str) -> (res: String)
    ensures
        res@ == strip_html_spec(s@),
{
    let v = chars_of(s);
    let r = strip_html_chars(&v);
    string_of(r.as_slice())
}

// ---------------------------------------------------------------------------
// extract_title
// ---------------------------------------------------------------------------

/// The first line of `s` (lines end at `\n`) that is not blank, trimmed;
/// empty when there is none.
pub open spec fn first_line(s: Seq<char>) -> Seq<char>
    decreases s.len(),
{
    match find_char(s, '\n') {
        None => trim(s),
        Some(i) => {
            proof {
                lemma_find_char(s, '\n');
            }
            if trim(s.take(i)).len() > 0 {
                trim(s.take(i))
            } else {
                first_line(s.skip(i + 1))
            }
        },
    }
}

/// Markup that a title does not begin with.
pub open spec fn is_title_mark(c: char) -> bool {
    c == '#' || c == ' ' || c == '*' || c == '_'
}

/// `s` without its leading `#`, ` `, `*` and `_`.
pub open spec fn trim_title_marks(s: Seq<char>) -> Seq<char>
    decreases s.len(),
{
    if s.len() > 0 && is_title_mark(s[0]) {
        trim_title_marks(s.drop_first())
    } else {
        s
    }
}

/// The text "Note".
pub open spec fn default_title() -> Seq<char> {
    seq!['N', 'o', 't', 'e']
}

/// The title of a note: its first non-blank line of plain text without
/// leading markup, or "Note".
pub open spec fn title_of(content: Seq<char>) -> Seq<char> {
    let clean = trim(trim_title_marks(first_line(strip_html_spec(trim(content)))));
    if clean.len() == 0 {
        default_title()
    } else {
        clean
    }
}

fn first_line_exec(v: &Vec<char>) -> (res: Vec<char>)
    ensures
        res@ == first_line(v@),
{
    let mut p: usize = 0;
    assert(v@.skip(0) =~= v@);
    loop
        invariant
            p <= v.len(),
            first_line(v@) == first_line(v@.skip(p as int)),
        decreases v.len() - p,
    {
        let ghost t = v@.skip(p as int);
        match find_char_from(v, p, '\n') {
            None => {
                let seg = sub_chars(v, p, v.len());
                assert(seg@ =~= t);
                return trim_chars(&seg);
            },
            Some(i) => {
                let seg = sub_chars(v, p, i);
                proof {
                    lemma_find_char(t, '\n');
                    assert(seg@ =~= t.take(i - p));
                    assert(t.skip(i - p + 1) =~= v@.skip(i + 1));
                }
                let tr = trim_chars(&seg);
                if tr.len() > 0 {
                    return tr;
                }
                p = i + 1;
            },
        }
    }
}

fn trim_title_marks_exec(v: &Vec<char>) -> (res: Vec<char>)
    ensures
        res@ == trim_title_marks(v@),
{
    let mut i: usize = 0;
    assert(v@.skip(0) =~= v@);
    while i < v.len() && (v[i] == '#' || v[i] == ' ' || v[i] == '*' || v[i] == '_')
        invariant
            i <= v.len(),
            trim_title_marks(v@) == trim_title_marks(v@.skip(i as int)),
        decreases v.len() - i,
    {
        assert(v@.skip(i as int).drop_first() =~= v@.skip(i + 1));
        i = i + 1;
    }
    let r = sub_chars(v, i, v.len());
    assert(r@ =~= v@.skip(i as int));
    r
}

/// The title of a note and the note's text trimmed.  The title is the first
/// non-blank line of the text with HTML stripped, without leading `#`, ` `,
/// `*`, `_`, trimmed; "Note" when that leaves nothing.
pub fn extract_title(content: &str) -> (res: (String, String))
    ensures
        res.0@ == title_of(content@),
        res.1@ == trim(content@),
{
    let v = chars_of(content);
    let trimmed = trim_chars(&v);
    let text = strip_html_chars(&trimmed);
    let line = first_line_exec(&text);
    let unmarked = trim_title_marks_exec(&line);
    let clean = trim_chars(&unmarked);
    let title = if clean.len() == 0 {
        let n = String::from_str("Note");
        proof {
            reveal_strlit("Note");
            assert(n@ =~= default_title());
        }
        n
    } else {
        string_of(clean.as_slice())
    };
    (title, string_of(trimmed.as_slice()))
}

// ---------------------------------------------------------------------------
// extract_tags
// ---------------------------------------------------------------------------

/// The entity `&nbsp;`.
pub open spec fn nbsp() -> Seq<char> {
    seq!['&', 'n', 'b', 's', 'p', ';']
}

/// `s` with every `&nbsp;` replaced by a space, left to right.
pub open spec fn replace_nbsp(s: Seq<char>) -> Seq<char>
    decreases s.len(),
{
    if s.len() == 0 {
        s
    } else if starts_with(s, nbsp()) {
        seq![' '] + replace_nbsp(s.skip(6))
    } else {
        seq![s[0]] + replace_nbsp(s.drop_first())
    }
}

/// `name` without its trailing underscores.
pub open spec fn trim_end_underscores(name: Seq<char>) -> Seq<char>
    decreases name.len(),
{
    if name.len() > 0 && name.last() == '_' {
        trim_end_underscores(name.drop_last())
    } else {
        name
    }
}

/// `tags` with the tag spelled `name` added, unless it is empty once its
/// trailing underscores are gone.
pub open spec fn push_tag(tags: Seq<Seq<char>>, name: Seq<char>) -> Seq<Seq<char>> {
    let n = trim_end_underscores(name);
    if n.len() > 0 {
        tags.push(lowercase(n))
    } else {
        tags
    }
}

/// A tag character besides letters and digits.
pub open spec fn is_tag_char(c: char) -> bool {
    alphanumeric(c) || c == '_' || c == '-'
}

/// The hashtag scanner after the first `n` characters of `s`: the tags found,
/// whether a tag is being read, and where its name starts.
pub open spec fn tag_scan(s: Seq<char>, n: int) -> (Seq<Seq<char>>, bool, int)
    decreases n,
{
    if n <= 0 {
        (Seq::empty(), false, 0)
    } else {
        let (tags, in_word, start) = tag_scan(s, n - 1);
        let i = n - 1;
        let c = s[i];
        if c == '#' && !in_word && (i == 0 || !alphanumeric(s[i - 1])) {
            (tags, true, i + 1)
        } else if in_word {
            if is_tag_char(c) {
                (tags, true, start)
            } else {
                (push_tag(tags, s.subrange(start, i)), false, start)
            }
        } else {
            (tags, in_word, start)
        }
    }
}

/// The hashtags of the plain text `s` in the order found, lower-cased: a `#`
/// that does not follow a letter or digit, then letters, digits, `_` and
/// `-`, without trailing `_`.
pub open spec fn raw_tags(s: Seq<char>) -> Seq<Seq<char>> {
    let (tags, in_word, start) = tag_scan(s, s.len() as int);
    if in_word {
        push_tag(tags, s.subrange(start, s.len() as int))
    } else {
        tags
    }
}

/// The hashtags of a note's content: those of its text with HTML stripped
/// and `&nbsp;` read as a space.
pub open spec fn content_tags(content: Seq<char>) -> Seq<Seq<char>> {
    raw_tags(replace_nbsp(strip_html_spec(content)))
}

/// A hashtag as found in ASCII text: not empty, made of `a` to `z`, `0` to
/// `9`, `_` and `-`, and not ending in `_`.
pub open spec fn is_ascii_tag(t: Seq<char>) -> bool {
    &&& t.len() > 0
    &&& t.last() != '_'
    &&& forall|i: int|
        0 <= i < t.len() ==> (is_ascii_lower(#[trigger] t[i]) || ('0' <= t[i] <= '9') || t[i]
            == '_' || t[i] == '-')
}

proof fn lemma_strip_ascii(s: Seq<char>)
    requires
        is_ascii_text(s),
    ensures
        is_ascii_text(strip_state(s).0),
        is_ascii_text(strip_state(s).2),
    decreases s.len(),
{
    if s.len() > 0 {
        let p = s.drop_last();
        assert(is_ascii_text(p)) by {
            assert forall|i: int| 0 <= i < p.len() implies is_ascii_char(#[trigger] p[i]) by {
                assert(p[i] == s[i]);
            }
        }
        lemma_strip_ascii(p);
        let (out, in_tag, buf) = strip_state(p);
        let c = s.last();
        assert(is_ascii_char(c));
        let o2 = out + seq!['<'] + buf;
        assert(is_ascii_text(o2)) by {
            assert forall|i: int| 0 <= i < o2.len() implies is_ascii_char(#[trigger] o2[i]) by {
                if i < out.len() {
                    assert(o2[i] == out[i]);
                } else if i > out.len() {
                    assert(o2[i] == buf[i - out.len() - 1]);
                }
            }
        }
        let o3 = out.push('\n');
        assert(is_ascii_text(o3)) by {
            assert forall|i: int| 0 <= i < o3.len() implies is_ascii_char(#[trigger] o3[i]) by {
                if i < out.len() {
                    assert(o3[i] == out[i]);
                }
            }
        }
        let o4 = out.push('>');
        assert(is_ascii_text(o4)) by {
            assert forall|i: int| 0 <= i < o4.len() implies is_ascii_char(#[trigger] o4[i]) by {
                if i < out.len() {
                    assert(o4[i] == out[i]);
                }
            }
        }
        let o5 = out.push(c);
        assert(is_ascii_text(o5)) by {
            assert forall|i: int| 0 <= i < o5.len() implies is_ascii_char(#[trigger] o5[i]) by {
                if i < out.len() {
                    assert(o5[i] == out[i]);
                }
            }
        }
        let b2 = buf.push(c);
        assert(is_ascii_text(b2)) by {
            assert forall|i: int| 0 <= i < b2.len() implies is_ascii_char(#[trigger] b2[i]) by {
                if i < buf.len() {
                    assert(b2[i] == buf[i]);
                }
            }
        }
        assert(is_ascii_text(Seq::<char>::empty()));
        assert(strip_state(s) == strip_step(strip_state(p), c));
    }
}

proof fn lemma_nbsp_ascii(s: Seq<char>)
    requires
        is_ascii_text(s),
    ensures
        is_ascii_text(replace_nbsp(s)),
    decreases s.len(),
{
    if s.len() > 0 {
        let rest = if starts_with(s, nbsp()) {
            s.skip(6)
        } else {
            s.drop_first()
        };
        let head = if starts_with(s, nbsp()) {
            ' '
        } else {
            s[0]
        };
        assert(is_ascii_char(head));
        assert(is_ascii_text(rest)) by {
            assert forall|i: int| 0 <= i < rest.len() implies is_ascii_char(#[trigger] rest[i]) by {
                if starts_with(s, nbsp()) {
                    assert(rest[i] == s[i + 6]);
                } else {
                    assert(rest[i] == s[i + 1]);
                }
            }
        }
        lemma_nbsp_ascii(rest);
        let r = replace_nbsp(rest);
        let out = seq![head] + r;
        assert(replace_nbsp(s) == out);
        assert forall|i: int| 0 <= i < out.len() implies is_ascii_char(#[trigger] out[i]) by {
            if i > 0 {
                assert(out[i] == r[i - 1]);
            }
        }
    }
}

proof fn lemma_trim_end_underscores(name: Seq<char>)
    ensures
        trim_end_underscores(name).len() <= name.len(),
        trim_end_underscores(name) == name.take(trim_end_underscores(name).len() as int),
        trim_end_underscores(name).len() > 0 ==> trim_end_underscores(name).last() != '_',
    decreases name.len(),
{
    if name.len() > 0 && name.last() == '_' {
        lemma_trim_end_underscores(name.drop_last());
        let t = trim_end_underscores(name.drop_last());
        assert(name.drop_last().take(t.len() as int) =~= name.take(t.len() as int));
    } else {
        assert(name.take(name.len() as int) =~= name);
    }
}

proof fn lemma_push_tag_ascii(tags: Seq<Seq<char>>, name: Seq<char>)
    requires
        forall|k: int| 0 <= k < tags.len() ==> is_ascii_tag(#[trigger] tags[k]),
        forall|i: int| 0 <= i < name.len() ==> is_ascii_char(#[trigger] name[i]) && is_tag_char(name[i]),
    ensures
        forall|k: int|
            0 <= k < push_tag(tags, name).len() ==> is_ascii_tag(#[trigger] push_tag(tags, name)[k]),
{
    lemma_trim_end_underscores(name);
    let n = trim_end_underscores(name);
    if n.len() > 0 {
        assert(is_ascii_text(n)) by {
            assert forall|i: int| 0 <= i < n.len() implies is_ascii_char(#[trigger] n[i]) by {
                assert(n[i] == name[i]);
            }
        }
        let low = lowercase(n);
        assert(low == ascii_lowered(n));
        assert forall|i: int| 0 <= i < low.len() implies (is_ascii_lower(#[trigger] low[i]) || ('0'
            <= low[i] <= '9') || low[i] == '_' || low[i] == '-') by {
            assert(n[i] == name[i]);
            assert(is_tag_char(name[i]));
            assert(low[i] == ascii_lower_char(n[i]));
        }
        assert(low.last() == ascii_lower_char(n.last()));
        assert(is_ascii_tag(low));
        let r = tags.push(low);
        assert forall|k: int| 0 <= k < r.len() implies is_ascii_tag(#[trigger] r[k]) by {
            if k < tags.len() {
                assert(r[k] == tags[k]);
            }
        }
    }
}

proof fn lemma_tag_scan_ascii(s: Seq<char>, n: int)
    requires
        is_ascii_text(s),
        0 <= n <= s.len(),
    ensures
        forall|k: int| 0 <= k < tag_scan(s, n).0.len() ==> is_ascii_tag(#[trigger] tag_scan(s, n).0[k]),
        tag_scan(s, n).1 ==> 0 <= tag_scan(s, n).2 <= n,
        tag_scan(s, n).1 ==> forall|j: int|
            tag_scan(s, n).2 <= j < n ==> is_tag_char(#[trigger] s[j]),
    decreases n,
{
    if n > 0 {
        lemma_tag_scan_ascii(s, n - 1);
        let (tags, in_word, start) = tag_scan(s, n - 1);
        let i = n - 1;
        let c = s[i];
        if c == '#' && !in_word && (i == 0 || !alphanumeric(s[i - 1])) {
        } else if in_word {
            if is_tag_char(c) {
            } else {
                let name = s.subrange(start, i);
                assert forall|j: int| 0 <= j < name.len() implies is_ascii_char(#[trigger] name[j])
                    && is_tag_char(name[j]) by {
                    assert(name[j] == s[start + j]);
                }
                lemma_push_tag_ascii(tags, name);
            }
        }
    }
}

/// On ASCII content every hashtag found is a lower-case ASCII tag: not empty,
/// made of `a` to `z`, `0` to `9`, `_` and `-`, not ending in `_`, and its
/// own lower-case form.
pub proof fn lemma_ascii_content_tags(content: Seq<char>)
    requires
        is_ascii_text(content),
    ensures
        forall|t: Seq<char>|
            #[trigger] content_tags(content).contains(t) ==> is_ascii_tag(t) && lowercase(t) == t,
{
    lemma_strip_ascii(content);
    let stripped = strip_html_spec(content);
    let (out, in_tag, buf) = strip_state(content);
    assert(is_ascii_text(stripped)) by {
        if in_tag {
            let o2 = out + seq!['<'] + buf;
            assert forall|i: int| 0 <= i < o2.len() implies is_ascii_char(#[trigger] o2[i]) by {
                if i < out.len() {
                    assert(o2[i] == out[i]);
                } else if i > out.len() {
                    assert(o2[i] == buf[i - out.len() - 1]);
                }
            }
        }
    }
    lemma_nbsp_ascii(stripped);
    let s = replace_nbsp(stripped);
    lemma_tag_scan_ascii(s, s.len() as int);
    let (tags, in_word, start) = tag_scan(s, s.len() as int);
    if in_word {
        let name = s.subrange(start, s.len() as int);
        assert forall|j: int| 0 <= j < name.len() implies is_ascii_char(#[trigger] name[j])
            && is_tag_char(name[j]) by {
            assert(name[j] == s[start + j]);
        }
        lemma_push_tag_ascii(tags, name);
    }
    let all = content_tags(content);
    assert forall|t: Seq<char>| #[trigger] all.contains(t) implies is_ascii_tag(t) && lowercase(t)
        == t by {
        let k = choose|k: int| 0 <= k < all.len() && all[k] == t;
        assert(is_ascii_tag(all[k]));
        assert(is_ascii_text(t)) by {
            assert forall|i: int| 0 <= i < t.len() implies is_ascii_char(#[trigger] t[i]) by {
                assert(is_ascii_lower(t[i]) || ('0' <= t[i] <= '9') || t[i] == '_' || t[i] == '-');
            }
        }
        assert forall|i: int| 0 <= i < t.len() implies #[trigger] ascii_lower_char(t[i]) == t[i] by {
            assert(is_ascii_lower(t[i]) || ('0' <= t[i] <= '9') || t[i] == '_' || t[i] == '-');
        }
        assert(ascii_lowered(t) =~= t);
    }
}

/// Each element sorts strictly before the next.
pub open spec fn strictly_sorted(s: Seq<Seq<char>>) -> bool {
    forall|i: int, j: int| 0 <= i < j < s.len() ==> seq_lt(#[trigger] s[i], #[trigger] s[j])
}

fn replace_nbsp_exec(v: &Vec<char>) -> (res: Vec<char>)
    ensures
        res@ == replace_nbsp(v@),
{
    let pat: [char; 6] = ['&', 'n', 'b', 's', 'p', ';'];
    let mut out: Vec<char> = Vec::new();
    let mut p: usize = 0;
    assert(v@.skip(0) =~= v@);
    while p < v.len()
        invariant
            p <= v.len(),
            pat@ == nbsp(),
            replace_nbsp(v@) == out@ + replace_nbsp(v@.skip(p as int)),
        decreases v.len() - p,
    {
        let ghost t = v@.skip(p as int);
        if matches_at_exec(v, &pat, p) {
            assert(t.take(6) =~= v@.subrange(p as int, p + 6));
            assert(t.skip(6) =~= v@.skip(p + 6));
            out.push(' ');
            p = p + 6;
        } else {
            assert(!starts_with(t, nbsp())) by {
                if starts_with(t, nbsp()) {
                    assert(t.take(6) =~= v@.subrange(p as int, p + 6));
                }
            }
            assert(t.drop_first() =~= v@.skip(p + 1));
            out.push(v[p]);
            p = p + 1;
        }
    }
    assert(v@.skip(p as int) =~= Seq::<char>::empty());
    out
}

fn trim_end_underscores_exec(v: &Vec<char>) -> (res: Vec<char>)
    ensures
        res@ == trim_end_underscores(v@),
{
    let mut k: usize = v.len();
    assert(v@.take(k as int) =~= v@);
    while k > 0 && v[k - 1] == '_'
        invariant
            k <= v.len(),
            trim_end_underscores(v@) == trim_end_underscores(v@.take(k as int)),
        decreases k,
    {
        assert(v@.take(k as int).drop_last() =~= v@.take(k - 1));
        k = k - 1;
    }
    let r = sub_chars(v, 0, k);
    assert(r@ =~= v@.take(k as int));
    r
}

/// Maps tag vectors to their character sequences.
pub open spec fn views(tags: Seq<Vec<char>>) -> Seq<Seq<char>> {
    tags.map_values(|t: Vec<char>| t@)
}

fn push_tag_exec(tags: &mut Vec<Vec<char>>, name: &Vec<char>)
    ensures
        views(final(tags)@) == push_tag(views(old(tags)@), name@),
{
    let n = trim_end_underscores_exec(name);
    if n.len() > 0 {
        let low = to_lowercase_chars(n.as_slice());
        let ghost before = tags@;
        tags.push(low);
        assert(views(tags@) =~= views(before).push(lowercase(n@)));
    }
}

proof fn lemma_tag_scan_start(s: Seq<char>, n: int)
    requires
        0 <= n <= s.len(),
    ensures
        0 <= tag_scan(s, n).2 <= n,
    decreases n,
{
    if n > 0 {
        lemma_tag_scan_start(s, n - 1);
    }
}

proof fn lemma_strip_plain(s: Seq<char>)
    requires
        !s.contains('<'),
    ensures
        strip_state(s) == (s, false, Seq::<char>::empty()),
        strip_html_spec(s) == s,
    decreases s.len(),
{
    if s.len() > 0 {
        let p = s.drop_last();
        assert(!p.contains('<')) by {
            if p.contains('<') {
                let i = choose|i: int| 0 <= i < p.len() && p[i] == '<';
                assert(s[i] == '<');
            }
        }
        lemma_strip_plain(p);
        assert(s.last() != '<') by {
            assert(s[s.len() - 1] == s.last());
        }
        assert(p.push(s.last()) =~= s);
    }
}

proof fn lemma_nbsp_space_concat(x: Seq<char>, y: Seq<char>)
    ensures
        replace_nbsp(x + seq![' '] + y) == replace_nbsp(x) + seq![' '] + replace_nbsp(y),
    decreases x.len(),
{
    let s = x + seq![' '] + y;
    if x.len() == 0 {
        assert(s =~= seq![' '] + y);
        assert(!starts_with(s, nbsp())) by {
            if starts_with(s, nbsp()) {
                assert(s.take(6)[0] == nbsp()[0]);
            }
        }
        assert(s.drop_first() =~= y);
        assert(replace_nbsp(x) =~= Seq::<char>::empty());
        assert(replace_nbsp(s) =~= seq![' '] + replace_nbsp(y));
    } else if starts_with(x, nbsp()) {
        assert(s.take(6) =~= x.take(6));
        assert(s.skip(6) =~= x.skip(6) + seq![' '] + y);
        lemma_nbsp_space_concat(x.skip(6), y);
        assert(replace_nbsp(s) =~= seq![' '] + replace_nbsp(x.skip(6)) + seq![' '] + replace_nbsp(y));
    } else {
        assert(!starts_with(s, nbsp())) by {
            if starts_with(s, nbsp()) {
                if x.len() >= 6 {
                    assert(s.take(6) =~= x.take(6));
                } else {
                    let k = x.len() as int;
                    assert(s.take(6)[k] == s[k]);
                    assert(s[k] == ' ');
                    assert(nbsp()[k] != ' ');
                }
            }
        }
        assert(s[0] == x[0]);
        assert(s.drop_first() =~= x.drop_first() + seq![' '] + y);
        lemma_nbsp_space_concat(x.drop_first(), y);
        assert(replace_nbsp(s) =~= seq![x[0]] + replace_nbsp(x.drop_first()) + seq![' '] + replace_nbsp(y));
    }
}

proof fn lemma_tag_scan_prefix(s: Seq<char>, p: Seq<char>, n: int)
    requires
        p.len() <= s.len(),
        forall|i: int| 0 <= i < p.len() ==> s[i] == p[i],
        0 <= n <= p.len(),
    ensures
        tag_scan(s, n) == tag_scan(p, n),
    decreases n,
{
    if n > 0 {
        lemma_tag_scan_prefix(s, p, n - 1);
        lemma_tag_scan_start(p, n - 1);
        let start = tag_scan(p, n - 1).2;
        assert(s.subrange(start, n - 1) =~= p.subrange(start, n - 1));
        assert(s[n - 1] == p[n - 1]);
        if n - 1 > 0 {
            assert(s[n - 2] == p[n - 2]);
        }
    }
}

proof fn lemma_push_tag_prefix(a: Seq<Seq<char>>, b: Seq<Seq<char>>, name: Seq<char>)
    ensures
        push_tag(a + b, name) == a + push_tag(b, name),
{
    let n = trim_end_underscores(name);
    if n.len() > 0 {
        assert((a + b).push(lowercase(n)) =~= a + b.push(lowercase(n)));
    }
}

/// The scanner over `p`, a space and `q`, `k` characters into `q`.
proof fn lemma_tag_scan_after_space(p: Seq<char>, q: Seq<char>, k: int)
    requires
        0 <= k <= q.len(),
    ensures
        ({
            let s = p + seq![' '] + q;
            let m = p.len() + 1;
            let (ts, ws, ss) = tag_scan(s, m + k);
            let (tq, wq, sq) = tag_scan(q, k);
            &&& ts == raw_tags(p) + tq
            &&& ws == wq
            &&& ws ==> ss == sq + m
        }),
    decreases k,
{
    let s = p + seq![' '] + q;
    let m = p.len() + 1;
    if k == 0 {
        lemma_tag_scan_prefix(s, p, p.len() as int);
        lemma_tag_scan_start(p, p.len() as int);
        let (tp, wp, sp) = tag_scan(p, p.len() as int);
        assert(s[m - 1] == ' ');
        assert(!alphanumeric(' '));
        if wp {
            assert(s.subrange(sp, m - 1) =~= p.subrange(sp, p.len() as int));
        }
        assert(raw_tags(p) + Seq::<Seq<char>>::empty() =~= raw_tags(p));
    } else {
        lemma_tag_scan_after_space(p, q, k - 1);
        lemma_tag_scan_start(q, k - 1);
        let (ts, ws, ss) = tag_scan(s, m + k - 1);
        let (tq, wq, sq) = tag_scan(q, k - 1);
        let i = m + k - 1;
        assert(s[i] == q[k - 1]);
        if k - 1 == 0 {
            assert(s[i - 1] == ' ');
            assert(!alphanumeric(' '));
        } else {
            assert(s[i - 1] == q[k - 2]);
        }
        if ws {
            assert(s.subrange(ss, i) =~= q.subrange(sq, k - 1));
            lemma_push_tag_prefix(raw_tags(p), tq, q.subrange(sq, k - 1));
        }
    }
}

/// Hashtags of text joined by a space: those of the first text, then those
/// of the second.
proof fn lemma_raw_tags_space_concat(p: Seq<char>, q: Seq<char>)
    ensures
        raw_tags(p + seq![' '] + q) == raw_tags(p) + raw_tags(q),
{
    let s = p + seq![' '] + q;
    let m = p.len() + 1;
    lemma_tag_scan_after_space(p, q, q.len() as int);
    lemma_tag_scan_start(q, q.len() as int);
    assert(s.len() == m + q.len());
    let (ts, ws, ss) = tag_scan(s, s.len() as int);
    let (tq, wq, sq) = tag_scan(q, q.len() as int);
    if ws {
        assert(s.subrange(ss, s.len() as int) =~= q.subrange(sq, q.len() as int));
        lemma_push_tag_prefix(raw_tags(p), tq, q.subrange(sq, q.len() as int));
    }
}

/// The hashtags of two texts without markup joined by a space are those of
/// the first followed by those of the second; so the sorted tags of the
/// joined text are those of either text.
pub proof fn lemma_content_tags_concat(a: Seq<char>, b: Seq<char>)
    requires
        !a.contains('<'),
        !b.contains('<'),
    ensures
        content_tags(a + seq![' '] + b) == content_tags(a) + content_tags(b),
        forall|t: Seq<char>|
            #[trigger] content_tags(a + seq![' '] + b).contains(t) <==> content_tags(a).contains(t)
                || content_tags(b).contains(t),
{
    let s = a + seq![' '] + b;
    assert(!s.contains('<')) by {
        if s.contains('<') {
            let i = choose|i: int| 0 <= i < s.len() && s[i] == '<';
            if i < a.len() {
                assert(a[i] == '<');
            } else if i > a.len() {
                assert(b[i - a.len() - 1] == '<');
            }
        }
    }
    lemma_strip_plain(a);
    lemma_strip_plain(b);
    lemma_strip_plain(s);
    lemma_nbsp_space_concat(a, b);
    lemma_raw_tags_space_concat(replace_nbsp(a), replace_nbsp(b));
    let (x, y) = (content_tags(a), content_tags(b));
    assert forall|t: Seq<char>| #[trigger] (x + y).contains(t) <==> x.contains(t) || y.contains(t) by {
        if (x + y).contains(t) {
            let i = choose|i: int| 0 <= i < (x + y).len() && (x + y)[i] == t;
            if i < x.len() {
                assert(x[i] == t);
            } else {
                assert(y[i - x.len()] == t);
            }
        }
        if x.contains(t) {
            let i = choose|i: int| 0 <= i < x.len() && x[i] == t;
            assert((x + y)[i] == t);
        }
        if y.contains(t) {
            let i = choose|i: int| 0 <= i < y.len() && y[i] == t;
            assert((x + y)[x.len() + i] == t);
        }
    }
}

fn raw_tags_exec(v: &Vec<char>) -> (res: Vec<Vec<char>>)
    ensures
        views(res@) == raw_tags(v@),
{
    let mut tags: Vec<Vec<char>> = Vec::new();
    let mut in_word = false;
    let mut start: usize = 0;
    let mut i: usize = 0;
    assert(views(tags@) =~= Seq::<Seq<char>>::empty());
    while i < v.len()
        invariant
            i <= v.len(),
            start <= i,
            tag_scan(v@, i as int) == (views(tags@), in_word, start as int),
        decreases v.len() - i,
    {
        let c = v[i];
        let prev_ok = i == 0 || !is_alphanumeric(v[i - 1]);
        if c == '#' && !in_word && prev_ok {
            in_word = true;
            start = i + 1;
        } else if in_word {
            if is_alphanumeric(c) || c == '_' || c == '-' {
            } else {
                let name = sub_chars(v, start, i);
                push_tag_exec(&mut tags, &name);
                in_word = false;
            }
        }
        i = i + 1;
    }
    if in_word {
        let name = sub_chars(v, start, v.len());
        push_tag_exec(&mut tags, &name);
    }
    tags
}

/// Inserts `t` into the strictly sorted `sorted` unless it is there already.
fn insert_sorted(sorted: &mut Vec<Vec<char>>, t: Vec<char>)
    requires
        strictly_sorted(views(old(sorted)@)),
    ensures
        strictly_sorted(views(final(sorted)@)),
        forall|x: Seq<char>|
            views(final(sorted)@).contains(x) <==> (views(old(sorted)@).contains(x) || x == t@),
{
    let ghost old_v = views(sorted@);
    let mut k: usize = 0;
    while k < sorted.len() && chars_lt(sorted[k].as_slice(), t.as_slice())
        invariant
            k <= sorted.len(),
            views(sorted@) == old_v,
            strictly_sorted(old_v),
            forall|j: int| 0 <= j < k ==> seq_lt(#[trigger] old_v[j], t@),
        decreases sorted.len() - k,
    {
        k = k + 1;
    }
    if k < sorted.len() && chars_eq(sorted[k].as_slice(), t.as_slice()) {
        assert(old_v[k as int] == t@);
        assert(forall|x: Seq<char>| x == t@ ==> old_v.contains(x));
        return;
    }
    proof {
        if k < sorted.len() {
            assert(!seq_lt(old_v[k as int], t@));
            assert(old_v[k as int] != t@);
            lemma_seq_lt_total(old_v[k as int], t@);
            assert(seq_lt(t@, old_v[k as int]));
        }
    }
    sorted.insert(k, t);
    let ghost new_v = views(sorted@);
    proof {
        assert(new_v =~= old_v.insert(k as int, t@));
        assert forall|i: int, j: int| 0 <= i < j < new_v.len() implies seq_lt(
            #[trigger] new_v[i],
            #[trigger] new_v[j],
        ) by {
            if j < k {
            } else if j == k {
            } else if i < k {
                let tt = t@;
                assert(new_v[j] == old_v[j - 1]);
                if j - 1 > k {
                    assert(seq_lt(old_v[k as int], old_v[j - 1]));
                    lemma_seq_lt_transitive(tt, old_v[k as int], old_v[j - 1]);
                }
                lemma_seq_lt_transitive(old_v[i], tt, old_v[j - 1]);
            } else if i == k {
                if j - 1 > k {
                    assert(seq_lt(old_v[k as int], old_v[j - 1]));
                    lemma_seq_lt_transitive(t@, old_v[k as int], old_v[j - 1]);
                }
            } else {
                assert(new_v[i] == old_v[i - 1]);
                assert(new_v[j] == old_v[j - 1]);
            }
        }
        assert forall|x: Seq<char>| new_v.contains(x) <==> (old_v.contains(x) || x == t@) by {
            if new_v.contains(x) {
                let m = choose|m: int| 0 <= m < new_v.len() && new_v[m] == x;
                if m < k {
                    assert(old_v[m] == x);
                } else if m > k {
                    assert(old_v[m - 1] == x);
                }
            }
            if old_v.contains(x) {
                let m = choose|m: int| 0 <= m < old_v.len() && old_v[m] == x;
                if m < k {
                    assert(new_v[m] == x);
                } else {
                    assert(new_v[m + 1] == x);
                }
            }
            if x == t@ {
                assert(new_v[k as int] == x);
            }
        }
    }
}

/// The hashtags of a note's content, lower-cased, sorted and without
/// repeats.  A hashtag is a `#` at the start or after a character that is not
/// a letter or digit, followed by letters, digits, `_` and `-`; trailing `_`
/// are dropped.  HTML is stripped first and `&nbsp;` reads as a space.
pub fn extract_tags(content: &str) -> (res: Vec<String>)
    ensures
        strictly_sorted(res@.map_values(|s: String| s@)),
        forall|t: Seq<char>|
            res@.map_values(|s: String| s@).contains(t) <==> content_tags(content@).contains(t),
{
    let v = chars_of(content);
    let stripped = strip_html_chars(&v);
    let clean = replace_nbsp_exec(&stripped);
    let raw = raw_tags_exec(&clean);
    let mut sorted: Vec<Vec<char>> = Vec::new();
    let mut i: usize = 0;
    while i < raw.len()
        invariant
            i <= raw.len(),
            strictly_sorted(views(sorted@)),
            forall|x: Seq<char>|
                views(sorted@).contains(x) <==> views(raw@).take(i as int).contains(x),
        decreases raw.len() - i,
    {
        let t = raw[i].clone();
        insert_sorted(&mut sorted, t);
        proof {
            let rv = views(raw@);
            let a = rv.take(i as int);
            let b = rv.take(i + 1);
            assert(b =~= a.push(rv[i as int]));
            assert forall|x: Seq<char>| b.contains(x) <==> (a.contains(x) || x == rv[i as int]) by {
                if b.contains(x) {
                    let m = choose|m: int| 0 <= m < b.len() && b[m] == x;
                    if m < i {
                        assert(a[m] == x);
                    }
                }
                if a.contains(x) {
                    let m = choose|m: int| 0 <= m < a.len() && a[m] == x;
                    assert(b[m] == x);
                }
                if x == rv[i as int] {
                    assert(b[i as int] == x);
                }
            }
        }
        i = i + 1;
    }
    assert(views(raw@).take(raw@.len() as int) =~= views(raw@));
    let mut res: Vec<String> = Vec::new();
    let mut j: usize = 0;
    while j < sorted.len()
        invariant
            j <= sorted.len(),
            res@.map_values(|s: String| s@) == views(sorted@).take(j as int),
        decreases sorted.len() - j,
    {
        let s = string_of(sorted[j].as_slice());
        let ghost old_res = res@;
        res.push(s);
        assert(res@.map_values(|s: String| s@) =~= old_res.map_values(|s: String| s@).push(s@));
        assert(views(sorted@).take(j + 1) =~= views(sorted@).take(j as int).push(sorted@[j as int]@));
        j = j + 1;
    }
    assert(views(sorted@).take(sorted@.len() as int) =~= views(sorted@));
    res
}

// ---------------------------------------------------------------------------
// extract_first_image_id
// ---------------------------------------------------------------------------

/// The start of a Markdown image, `![`.
pub open spec fn image_marker() -> Seq<char> {
    seq!['!', '[']
}

/// The link target prefix of an uploaded resource, `](/resources/`.
pub open spec fn resource_link_marker() -> Seq<char> {
    seq![']', '(', '/', 'r', 'e', 's', 'o', 'u', 'r', 'c', 'e', 's', '/']
}

/// The number after the first `](/resources/` that follows `![` at the start
/// of `sub`, up to the next `)`, when it parses as an `i64`.
pub open spec fn image_id_at(sub: Seq<char>) -> Option<int> {
    match find_sub(sub, resource_link_marker()) {
        Some(u) => {
            let start = u + 13;
            match find_char(sub.skip(start), ')') {
                Some(e) => parse_i64_spec(sub.subrange(start, start + e)),
                None => None,
            }
        },
        None => None,
    }
}

/// The resource id of the first Markdown image in `s` whose link parses.
pub open spec fn first_image_id(s: Seq<char>) -> Option<int>
    decreases s.len(),
{
    match find_sub(s, image_marker()) {
        None => None,
        Some(p) => {
            proof {
                lemma_find_sub(s, image_marker());
            }
            let sub = s.skip(p);
            if image_id_at(sub) is Some {
                image_id_at(sub)
            } else if sub.len() > 2 {
                first_image_id(sub.skip(2))
            } else {
                None
            }
        },
    }
}

/// The id of the first image of the form `![...](/resources/<id>)` in a
/// note's content: scanning each `![` in turn, the text between the next
/// `](/resources/` and the `)` after it, when it parses as a number.
pub fn extract_first_image_id(content: &str) -> (res: Option<i64>)
    ensures
        res matches Some(x) ==> first_image_id(content@) == Some(x as int),
        res is None ==> first_image_id(content@) is None,
{
    let v = chars_of(content);
    let img: [char; 2] = ['!', '['];
    let link: [char; 13] = [']', '(', '/', 'r', 'e', 's', 'o', 'u', 'r', 'c', 'e', 's', '/'];
    assert(img@ == image_marker());
    assert(link@ == resource_link_marker());
    let mut pos: usize = 0;
    assert(v@.skip(0) =~= v@);
    loop
        invariant
            pos <= v.len(),
            v@ == content@,
            img@ == image_marker(),
            link@ == resource_link_marker(),
            first_image_id(v@) == first_image_id(v@.skip(pos as int)),
        decreases v.len() - pos,
    {
        let ghost rem = v@.skip(pos as int);
        let p = match find_sub_from(&v, pos, &img) {
            None => {
                assert(find_sub(rem, image_marker()) is None);
                assert(first_image_id(rem) is None);
                return None;
            },
            Some(p) => p,
        };
        let ghost sub = v@.skip(p as int);
        proof {
            lemma_find_sub(rem, image_marker());
            assert(rem.skip(p - pos) =~= sub);
        }
        let mut found: Option<i64> = None;
        match find_sub_from(&v, p, &link) {
            Some(u) => {
                let start = u + 13;
                proof {
                    assert(sub.skip(start - p) =~= v@.skip(start as int));
                }
                match find_char_from(&v, start, ')') {
                    Some(e) => {
                        let id_chars = sub_chars(&v, start, e);
                        assert(id_chars@ =~= sub.subrange(start - p, start - p + (e - start)));
                        found = parse_i64(id_chars.as_slice());
                    },
                    None => {},
                }
            },
            None => {},
        }
        assert(found matches Some(x) ==> image_id_at(sub) == Some(x as int));
        assert(found is None ==> image_id_at(sub) is None);
        if let Some(x) = found {
            return Some(x);
        }
        if v.len() - p > 2 {
            assert(sub.skip(2) =~= v@.skip(p + 2));
            pos = p + 2;
        } else {
            assert(find_sub(rem, image_marker()) == Some(p - pos));
            assert(first_image_id(rem) is None);
            return None;
        }
    }
}

// ---------------------------------------------------------------------------
// avatar_char, get_month_name
// ---------------------------------------------------------------------------

/// The avatar letter of a user: the upper-case form of the first character
/// of the name, or of `?` when the name is empty.
pub open spec fn avatar_of(username: Seq<char>) -> Seq<char> {
    if username.len() == 0 {
        seq!['?']
    } else {
        uppercase(username[0])
    }
}

/// The avatar letter of a user name.
pub fn avatar_char(username: &str) -> (res: String)
    ensures
        res@ == avatar_of(username@),
{
    let v = chars_of(username);
    let c = if v.len() == 0 {
        '?'
    } else {
        v[0]
    };
    let up = char_to_uppercase(c);
    string_of(up.as_slice())
}

/// English name of month `m` (1 = January), or "Unknown".
pub open spec fn month_name(m: int) -> Seq<char> {
    if m == 1 {
        "January"@
    } else if m == 2 {
        "February"@
    } else if m == 3 {
        "March"@
    } else if m == 4 {
        "April"@
    } else if m == 5 {
        "May"@
    } else if m == 6 {
        "June"@
    } else if m == 7 {
        "July"@
    } else if m == 8 {
        "August"@
    } else if m == 9 {
        "September"@
    } else if m == 10 {
        "October"@
    } else if m == 11 {
        "November"@
    } else if m == 12 {
        "December"@
    } else {
        "Unknown"@
    }
}

/// English name of month `month` (1 = January), or "Unknown".
pub fn get_month_name(month: u32) -> (res: &'static str)
    ensures
        res@ == month_name(month as int),
{
    match month {
        1 => "January",
        2 => "February",
        3 => "March",
        4 => "April",
        5 => "May",
        6 => "June",
        7 => "July",
        8 => "August",
        9 => "September",
        10 => "October",
        11 => "November",
        12 => "December",
        _ => "Unknown",
    }
}

// ---------------------------------------------------------------------------
// Sizes
// ---------------------------------------------------------------------------

/// `x / d` rounded to the nearest integer, ties to even.
pub open spec fn round_div_even(x: nat, d: nat) -> nat {
    let q = x / d;
    let r = x % d;
    if 2 * r > d || (2 * r == d && q % 2 == 1) {
        q + 1
    } else {
        q
    }
}

/// The smallest power of two `d = 2^s` (`s` at most 11, searched from the
/// given `s` and `d`, with `lim == d * 2^53`) such that `n < d * 2^53`.
pub open spec fn f64_scale(n: nat, s: nat, lim: nat, d: nat) -> nat
    decreases 11 - s,
{
    if s >= 11 || n < lim {
        d
    } else {
        f64_scale(n, s + 1, lim * 2, d * 2)
    }
}

/// The value of `n as f64` for `0 <= n <= 2^63`: `n` rounded to 53
/// significant bits, ties to even.
pub open spec fn f64_value(n: nat) -> nat {
    let d = f64_scale(n, 0, 9007199254740992, 1);
    round_div_even(n, d) * d
}

/// `format!("{:.1}", m as f64 / d as f64)` for an exactly divided value:
/// the integer part, `.` and the tenths digit, rounded ties to even.
pub open spec fn one_decimal(m: nat, d: nat) -> Seq<char> {
    let t = round_div_even(m * 10, d);
    nat_digits(t / 10) + seq!['.', digit_char((t % 10) as int)]
}

/// The unit index that `format_bytes` picks for a positive size `m`:
/// the largest power of 1024 up to 1024^3 that is at most `m`.
pub open spec fn size_unit(m: nat) -> nat {
    if m >= 1073741824 {
        3
    } else if m >= 1048576 {
        2
    } else if m >= 1024 {
        1
    } else {
        0
    }
}

/// 1024 to the power `i` (0..=3).
pub open spec fn unit_size(i: nat) -> nat {
    if i == 0 {
        1
    } else if i == 1 {
        1024
    } else if i == 2 {
        1048576
    } else {
        1073741824
    }
}

/// The name of unit `i`.
pub open spec fn unit_name(i: nat) -> Seq<char> {
    if i == 0 {
        "Bytes"@
    } else if i == 1 {
        "KB"@
    } else if i == 2 {
        "MB"@
    } else {
        "GB"@
    }
}

/// What `format_bytes` writes for `bytes`: "0 Bytes" for zero; otherwise
/// the size in the largest fitting unit of Bytes, KB, MB, GB (powers of
/// 1024) with one decimal; a negative size is written in Bytes.  The value
/// divided is `bytes` as an `f64`.
pub open spec fn bytes_text(bytes: int) -> Seq<char> {
    if bytes == 0 {
        "0 Bytes"@
    } else {
        let m = f64_value(if bytes < 0 {
            (-bytes) as nat
        } else {
            bytes as nat
        });
        let i = if bytes < 0 {
            0
        } else {
            size_unit(m)
        };
        (if bytes < 0 {
            seq!['-']
        } else {
            Seq::<char>::empty()
        }) + one_decimal(m, unit_size(i)) + " "@ + unit_name(i)
    }
}

/// `n as f64` for `0 <= n <= 2^63`, as an exact integer.
pub(crate) fn f64_value_exec(n: u128) -> (res: u128)
    requires
        n <= 0x8000_0000_0000_0000,
    ensures
        res == f64_value(n as nat),
        res <= 0x8000_0000_0000_0800,
{
    let mut s: u128 = 0;
    let mut lim: u128 = 9007199254740992;
    let mut d: u128 = 1;
    proof {
        lemma2_to64();
    }
    while !(s >= 11 || n < lim)
        invariant
            s <= 11,
            d == pow2(s as nat),
            d >= 1,
            d <= 2048,
            lim == d * 9007199254740992,
            f64_scale(n as nat, 0, 9007199254740992, 1) == f64_scale(n as nat, s as nat, lim as nat, d as nat),
        decreases 11 - s,
    {
        proof {
            lemma_pow2_unfold((s + 1) as nat);
            lemma2_to64();
            if s + 1 < 11 {
                lemma_pow2_strictly_increases((s + 1) as nat, 11);
            }
        }
        s = s + 1;
        lim = lim * 2;
        d = d * 2;
    }
    let q = n / d;
    let r = n % d;
    let rq = if 2 * r > d || (2 * r == d && q % 2 == 1) {
        q + 1
    } else {
        q
    };
    proof {
        assert(rq * d <= 0x8000_0000_0000_0800) by (nonlinear_arith)
            requires
                q == n / d,
                r == n % d,
                d >= 1,
                d <= 2048,
                n <= 0x8000_0000_0000_0000,
                rq == q || rq == q + 1,
        {
            assert(n == q * d + r);
            assert(q * d <= n);
            assert((q + 1) * d == q * d + d);
        }
    }
    rq * d
}

/// `format!("{:.1}", m as f64 / d as f64)` when the quotient is exact.
pub(crate) fn one_decimal_exec(m: u128, d: u128) -> (res: Vec<char>)
    requires
        1 <= d <= 1073741824,
        m <= 0x8000_0000_0000_0800,
    ensures
        res@ == one_decimal(m as nat, d as nat),
{
    let x = m * 10;
    let q = x / d;
    let r = x % d;
    let t = if 2 * r > d || (2 * r == d && q % 2 == 1) {
        q + 1
    } else {
        q
    };
    assert(q <= x) by (nonlinear_arith)
        requires
            q == x / d,
            d >= 1,
            x >= 0,
    ;
    let whole = (t / 10) as u64;
    let mut res = nat_digit_chars(whole);
    res.push('.');
    let c = ((48u8 + (t % 10) as u8) as char);
    res.push(c);
    res
}

/// A file size for display: "0 Bytes", or the size in Bytes, KB, MB or GB
/// (powers of 1024, the largest that fits) with one decimal, e.g. "1.5 KB".
/// A negative size is written in Bytes.
pub fn format_bytes(bytes: i64) -> (res: String)
    ensures
        res@ == bytes_text(bytes as int),
{
    if bytes == 0 {
        return String::from_str("0 Bytes");
    }
    let neg = bytes < 0;
    let mag: u128 = if neg {
        (-(bytes as i128)) as u128
    } else {
        bytes as u128
    };
    let m = f64_value_exec(mag);
    let i: u8 = if neg {
        0
    } else if m >= 1073741824 {
        3
    } else if m >= 1048576 {
        2
    } else if m >= 1024 {
        1
    } else {
        0
    };
    let d: u128 = if i == 0 {
        1
    } else if i == 1 {
        1024
    } else if i == 2 {
        1048576
    } else {
        1073741824
    };
    let mut num: Vec<char> = Vec::new();
    if neg {
        num.push('-');
    }
    let digits = one_decimal_exec(m, d);
    append_chars(&mut num, digits.as_slice());
    let mut res = string_of(num.as_slice());
    res.append(" ");
    if i == 0 {
        res.append("Bytes");
    } else if i == 1 {
        res.append("KB");
    } else if i == 2 {
        res.append("MB");
    } else {
        res.append("GB");
    }
    res
}

// ---------------------------------------------------------------------------
// uuid_v4
// ---------------------------------------------------------------------------

/// Nanoseconds since the Unix epoch from the system clock (0 before it).
#[verifier::external_body]
fn unix_nanos_now() -> u128 {
    std::time::SystemTime::now().duration_since(std::time::UNIX_EPOCH).unwrap_or_default().as_nanos()
}

/// The file name stem made from a clock reading: the high and the low 64
/// bits of `nanos` as sixteen lower-case hexadecimal digits each.
pub open spec fn uuid_text(nanos: nat) -> Seq<char> {
    hex_fixed(nanos / 0x1_0000_0000_0000_0000, 16) + hex_fixed(nanos % 0x1_0000_0000_0000_0000, 16)
}

/// The file name stem for a clock reading of `nanos` nanoseconds.
pub fn uuid_from_nanos(nanos: u128) -> (res: String)
    ensures
        res@ == uuid_text(nanos as nat),
{
    let hi = (nanos / 0x1_0000_0000_0000_0000) as u64;
    let lo = (nanos % 0x1_0000_0000_0000_0000) as u64;
    let mut v = hex16(hi);
    let w = hex16(lo);
    append_chars(&mut v, w.as_slice());
    string_of(v.as_slice())
}

/// `16` to the power `c`.
pub open spec fn pow16(c: nat) -> nat
    decreases c,
{
    if c == 0 {
        1
    } else {
        16 * pow16((c - 1) as nat)
    }
}

proof fn lemma_hex_fixed_len(n: nat, c: nat)
    ensures
        hex_fixed(n, c).len() == c,
    decreases c,
{
    if c > 0 {
        lemma_hex_fixed_len(n / 16, (c - 1) as nat);
    }
}

proof fn lemma_hex_fixed_injective(a: nat, b: nat, c: nat)
    requires
        a < pow16(c),
        b < pow16(c),
        hex_fixed(a, c) == hex_fixed(b, c),
    ensures
        a == b,
    decreases c,
{
    if c > 0 {
        let p = pow16((c - 1) as nat);
        let ha = hex_fixed(a, c);
        let hb = hex_fixed(b, c);
        assert(ha.last() == hex_digit((a % 16) as int));
        assert(hb.last() == hex_digit((b % 16) as int));
        assert(ha.drop_last() =~= hex_fixed(a / 16, (c - 1) as nat));
        assert(hb.drop_last() =~= hex_fixed(b / 16, (c - 1) as nat));
        assert(a % 16 == b % 16);
        assert(a / 16 < p) by (nonlinear_arith)
            requires
                a < 16 * p,
        ;
        assert(b / 16 < p) by (nonlinear_arith)
            requires
                b < 16 * p,
        ;
        lemma_hex_fixed_injective(a / 16, b / 16, (c - 1) as nat);
    }
}

/// Two clock readings that differ give different file name stems.
pub proof fn lemma_uuid_text_injective(a: nat, b: nat)
    requires
        a < 0x1_0000_0000_0000_0000_0000_0000_0000_0000,
        b < 0x1_0000_0000_0000_0000_0000_0000_0000_0000,
        a != b,
    ensures
        uuid_text(a) != uuid_text(b),
{
    let m: nat = 0x1_0000_0000_0000_0000;
    assert(pow16(16) == m) by {
        reveal_with_fuel(pow16, 17);
    }
    let (ah, al, bh, bl) = (a / m, a % m, b / m, b % m);
    assert(ah < m && bh < m) by (nonlinear_arith)
        requires
            a < m * m,
            b < m * m,
            ah == a / m,
            bh == b / m,
            m > 0,
    ;
    if uuid_text(a) == uuid_text(b) {
        lemma_hex_fixed_len(ah, 16);
        lemma_hex_fixed_len(al, 16);
        lemma_hex_fixed_len(bh, 16);
        lemma_hex_fixed_len(bl, 16);
        let ua = uuid_text(a);
        assert(ua.subrange(0, 16) =~= hex_fixed(ah, 16));
        assert(ua.subrange(16, 32) =~= hex_fixed(al, 16));
        assert(uuid_text(b).subrange(0, 16) =~= hex_fixed(bh, 16));
        assert(uuid_text(b).subrange(16, 32) =~= hex_fixed(bl, 16));
        lemma_hex_fixed_injective(ah, bh, 16);
        lemma_hex_fixed_injective(al, bl, 16);
        assert(a == m * ah + al && b == m * bh + bl) by (nonlinear_arith)
            requires
                ah == a / m,
                al == a % m,
                bh == b / m,
                bl == b % m,
                m > 0,
        ;
    }
}

/// A fresh file name stem: 32 lower-case hexadecimal digits taken from the
/// current time in nanoseconds.
pub fn uuid_v4() -> (res: String)
    ensures
        exists|n: u128| res@ == uuid_text(n as nat),
{
    let n = unix_nanos_now();
    uuid_from_nanos(n)
}

} // verus!
