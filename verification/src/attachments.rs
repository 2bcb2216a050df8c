//! Files mentioned in a note: finding the `/resources/<id>` links in its
//! text, looking the files up, and dropping the links to files that are
//! gone.
use vstd::prelude::*;
use crate::chars::{
    append_chars, chars_of, find_char, find_char_from, find_sub, find_sub_from, lemma_find_char,
    lemma_find_sub, matches_at, string_of, sub_chars, trim, trim_chars,
};
use crate::content::{bytes_text, format_bytes, starts_with, starts_with_chars};
use crate::db::{resource_public_answer, Database, DbError, PublicResourceTuple};
use crate::num::{is_digit, parse_i64, parse_i64_spec};

verus! {

/// The text that starts a link to an uploaded file, `/resources/`.
pub open spec fn resources_marker() -> Seq<char> {
    seq!['/', 'r', 'e', 's', 'o', 'u', 'r', 'c', 'e', 's', '/']
}

/// The number of ASCII digits in `s` from index `i` on, before the first
/// other character.
pub open spec fn digit_run(s: Seq<char>, i: int) -> nat
    decreases s.len() - i,
{
    if 0 <= i < s.len() && is_digit(s[i]) {
        1 + digit_run(s, i + 1)
    } else {
        0
    }
}

/// Where a link ends after its number at index `j`: the offset in `s[j..]`
/// of the first `)`, else of the first `>`, else of the first `"`.
pub open spec fn link_end(s: Seq<char>, j: int) -> Option<int> {
    match find_char(s.skip(j), ')') {
        Some(e) => Some(e),
        None => match find_char(s.skip(j), '>') {
            Some(e) => Some(e),
            None => find_char(s.skip(j), '"'),
        },
    }
}

/// The links to files in `s` from index `pos` on, in order, each as (where
/// `/resources/` starts, the index just past the link's end, the file id).
/// Scanning goes from each `/resources/` found: one followed by digits and,
/// later, by an end character is a link, and the scan goes on after it;
/// otherwise the scan goes on after `/resources/`.  `None` when a link's
/// number does not fit an `i64` (such a text cannot be read).
pub open spec fn link_scan(s: Seq<char>, pos: int) -> Option<Seq<(int, int, int)>>
    decreases s.len() - pos,
{
    if pos < 0 || pos >= s.len() {
        Some(Seq::empty())
    } else {
        match find_sub(s.skip(pos), resources_marker()) {
            None => Some(Seq::empty()),
            Some(p) => {
                proof {
                    lemma_find_sub(s.skip(pos), resources_marker());
                }
                let a = pos + p;
                let ids = a + 11;
                let n = digit_run(s, ids);
                if n > 0 {
                    match parse_i64_spec(s.subrange(ids, ids + n)) {
                        None => None,
                        Some(id) => match link_end(s, ids + n) {
                            Some(eo) => {
                                proof {
                                    lemma_digit_run(s, ids);
                                    lemma_link_end(s, ids + n);
                                }
                                let end = ids + n + eo + 1;
                                match link_scan(s, end) {
                                    Some(rest) => Some(seq![(a, end, id)] + rest),
                                    None => None,
                                }
                            },
                            None => link_scan(s, ids),
                        },
                    }
                } else {
                    link_scan(s, ids)
                }
            },
        }
    }
}

/// The links of a note's text (`None` when a link's number overflows).
pub open spec fn note_links(s: Seq<char>) -> Option<Seq<(int, int, int)>> {
    link_scan(s, 0)
}

/// Links lie in order within `s`, from `from` on: each starts at or after
/// the end of the one before, and ends past where it starts.
pub open spec fn links_in_order(links: Seq<(int, int, int)>, from: int, len: int) -> bool {
    &&& forall|k: int| 0 <= k < links.len() ==> #[trigger] links[k].0 + 11 < links[k].1 <= len
    &&& forall|k: int| 0 <= k < links.len() ==> from <= #[trigger] links[k].0
    &&& forall|k: int| 0 < k < links.len() ==> links[k - 1].1 <= #[trigger] links[k].0
}

pub proof fn lemma_link_end(s: Seq<char>, j: int)
    requires
        0 <= j <= s.len(),
    ensures
        link_end(s, j) matches Some(e) ==> 0 <= e < s.len() - j,
{
    lemma_find_char(s.skip(j), ')');
    lemma_find_char(s.skip(j), '>');
    lemma_find_char(s.skip(j), '"');
}

pub proof fn lemma_digit_run(s: Seq<char>, i: int)
    requires
        0 <= i,
    ensures
        i + digit_run(s, i) <= s.len() || digit_run(s, i) == 0,
        forall|j: int| i <= j < i + digit_run(s, i) ==> is_digit(#[trigger] s[j]),
        i + digit_run(s, i) < s.len() ==> !is_digit(s[i + digit_run(s, i)]),
    decreases s.len() - i,
{
    if 0 <= i < s.len() && is_digit(s[i]) {
        lemma_digit_run(s, i + 1);
    }
}

proof fn lemma_link_scan_order(s: Seq<char>, pos: int)
    requires
        0 <= pos,
    ensures
        link_scan(s, pos) matches Some(links) ==> links_in_order(links, pos, s.len() as int),
    decreases s.len() - pos,
{
    if pos < 0 || pos >= s.len() {
    } else {
        let t = s.skip(pos);
        lemma_find_sub(t, resources_marker());
        match find_sub(t, resources_marker()) {
            None => {},
            Some(p) => {
                let a = pos + p;
                let ids = a + 11;
                assert(matches_at(t, resources_marker(), p));
                let n = digit_run(s, ids);
                lemma_digit_run(s, ids);
                if n > 0 {
                    match parse_i64_spec(s.subrange(ids, ids + n)) {
                        None => {},
                        Some(id) => match link_end(s, ids + n) {
                            Some(eo) => {
                                let end = ids + n + eo + 1;
                                lemma_find_char(s.skip(ids + n), ')');
                                lemma_find_char(s.skip(ids + n), '>');
                                lemma_find_char(s.skip(ids + n), '"');
                                assert(end <= s.len());
                                lemma_link_scan_order(s, end);
                                if link_scan(s, end) is Some {
                                    let rest = link_scan(s, end).unwrap();
                                    let all = seq![(a, end, id as int)] + rest;
                                    assert forall|k: int| 0 < k < all.len() implies all[k - 1].1 <= #[trigger] all[k].0 by {
                                        if k > 1 {
                                            assert(all[k - 1] == rest[k - 2]);
                                            assert(all[k] == rest[k - 1]);
                                        } else {
                                            assert(all[k] == rest[0]);
                                        }
                                    }
                                    assert forall|k: int| 0 <= k < all.len() implies #[trigger] all[k].0 + 11 < all[k].1 <= s.len() by {
                                        if k > 0 {
                                            assert(all[k] == rest[k - 1]);
                                        }
                                    }
                                    assert forall|k: int| 0 <= k < all.len() implies pos <= #[trigger] all[k].0 by {
                                        if k > 0 {
                                            assert(all[k] == rest[k - 1]);
                                        }
                                    }
                                }
                            },
                            None => {
                                lemma_link_scan_order(s, ids);
                            },
                        },
                    }
                } else {
                    lemma_link_scan_order(s, ids);
                }
            },
        }
    }
}

/// A link to a file in a note's text: where `/resources/` starts, the index
/// just past the link's end, and the file id.
#[derive(Debug, Clone, Copy)]
pub struct ResourceLink {
    pub start: usize,
    pub end: usize,
    pub id: i64,
}

/// The links as (start, end, id) triples.
pub open spec fn link_views(v: Seq<ResourceLink>) -> Seq<(int, int, int)> {
    v.map_values(|r: ResourceLink| (r.start as int, r.end as int, r.id as int))
}

/// The links to uploaded files in a note's text, in order; `None` when the
/// number of a link does not fit an `i64`.
pub fn resource_links(content: &str) -> (res: Option<Vec<ResourceLink>>)
    ensures
        match res {
            Some(v) => note_links(content@) == Some(link_views(v@)),
            None => note_links(content@) is None,
        },
{
    let v = chars_of(content);
    let marker: [char; 11] = ['/', 'r', 'e', 's', 'o', 'u', 'r', 'c', 'e', 's', '/'];
    assert(marker@ == resources_marker());
    let ghost s = v@;
    let mut out: Vec<ResourceLink> = Vec::new();
    let mut pos: usize = 0;
    while pos < v.len()
        invariant
            s == v@,
            s == content@,
            marker@ == resources_marker(),
            note_links(s) == (match link_scan(s, pos as int) {
                Some(rest) => Some(link_views(out@) + rest),
                None => None,
            }),
        decreases v.len() - pos,
    {
        let ghost t = s.skip(pos as int);
        let p = match find_sub_from(&v, pos, &marker) {
            Some(p) => p,
            None => {
                assert(link_scan(s, pos as int) == Some(Seq::<(int, int, int)>::empty()));
                assert(link_views(out@) + Seq::<(int, int, int)>::empty() =~= link_views(out@));
                return Some(out);
            },
        };
        proof {
            lemma_find_sub(t, resources_marker());
        }
        let ids = p + 11;
        let mut j: usize = ids;
        proof {
            lemma_digit_run(s, ids as int);
        }
        while j < v.len() && '0' <= v[j] && v[j] <= '9'
            invariant
                ids <= j <= v@.len(),
                s == v@,
                digit_run(s, ids as int) == (j - ids) + digit_run(s, j as int),
            decreases v.len() - j,
        {
            j = j + 1;
        }
        assert(digit_run(s, j as int) == 0);
        let n = j - ids;
        if n > 0 {
            let digits = sub_chars(&v, ids, j);
            let id = match parse_i64(digits.as_slice()) {
                Some(x) => x,
                None => {
                    assert(link_scan(s, pos as int) is None);
                    return None;
                },
            };
            let ghost sj = s.skip(j as int);
            let e = match find_char_from(&v, j, ')') {
                Some(e) => Some(e),
                None => match find_char_from(&v, j, '>') {
                    Some(e) => Some(e),
                    None => find_char_from(&v, j, '"'),
                },
            };
            match e {
                Some(e) => {
                    let end = e + 1;
                    assert(link_end(s, j as int) == Some(e - j));
                    let ghost old_views = link_views(out@);
                    out.push(ResourceLink { start: p, end, id });
                    proof {
                        assert(link_views(out@) =~= old_views.push((p as int, end as int, id as int)));
                        match link_scan(s, end as int) {
                            Some(rest) => {
                                assert(link_scan(s, pos as int) == Some(seq![(p as int, end as int, id as int)] + rest));
                                assert(old_views + (seq![(p as int, end as int, id as int)] + rest) =~= link_views(out@) + rest);
                            },
                            None => {},
                        }
                    }
                    pos = end;
                },
                None => {
                    assert(link_end(s, j as int) is None);
                    pos = ids;
                },
            }
        } else {
            pos = ids;
        }
    }
    assert(link_scan(s, pos as int) == Some(Seq::<(int, int, int)>::empty()));
    assert(link_views(out@) + Seq::<(int, int, int)>::empty() =~= link_views(out@));
    Some(out)
}

/// Index of the last `c` in `s`.
pub open spec fn rfind_char(s: Seq<char>, c: char) -> Option<int>
    decreases s.len(),
{
    if s.len() == 0 {
        None
    } else if s.last() == c {
        Some(s.len() - 1)
    } else {
        rfind_char(s.drop_last(), c)
    }
}

/// Where the text dropped for a link to a missing file begins, the link's
/// `/resources/` being at `a` and the text before it from `last_end` on: at
/// the last `[` before the last `]`, else at the last `<`, else at `a`.
pub open spec fn cut_start(s: Seq<char>, last_end: int, a: int) -> int {
    let before = s.subrange(last_end, a);
    let bracket = match rfind_char(before, ']') {
        Some(cb) => match rfind_char(before.take(cb), '[') {
            Some(ob) => Some(last_end + ob),
            None => None,
        },
        None => None,
    };
    match bracket {
        Some(x) => x,
        None => match rfind_char(before, '<') {
            Some(ts) => last_end + ts,
            None => a,
        },
    }
}

/// The text of `s` from `last_end` on with links `k..` handled: the text up
/// to the end of a link whose file was found is kept; for a link whose file
/// is missing the text up to where the link begins (see `cut_start`) is
/// kept and the link dropped.
pub open spec fn cleaned_from(
    s: Seq<char>,
    links: Seq<(int, int, int)>,
    found: Seq<bool>,
    k: int,
    last_end: int,
) -> Seq<char>
    decreases links.len() - k,
{
    if 0 <= k < links.len() {
        let (a, e, id) = links[k];
        let piece = if found[k] {
            s.subrange(last_end, e)
        } else {
            s.subrange(last_end, cut_start(s, last_end, a))
        };
        piece + cleaned_from(s, links, found, k + 1, e)
    } else if last_end < s.len() {
        s.subrange(last_end, s.len() as int)
    } else {
        Seq::empty()
    }
}

/// A note's text shown without its links to missing files, trimmed; `found`
/// says for each link whether its file exists.
pub open spec fn cleaned_text(s: Seq<char>, found: Seq<bool>) -> Seq<char> {
    match note_links(s) {
        Some(links) => trim(cleaned_from(s, links, found, 0, 0)),
        None => Seq::empty(),
    }
}

/// Index of the last `c` in `v[lo..hi]`, as an index into `v`.
fn rfind_in(v: &Vec<char>, lo: usize, hi: usize, c: char) -> (res: Option<usize>)
    requires
        lo <= hi <= v.len(),
    ensures
        match res {
            Some(i) => rfind_char(v@.subrange(lo as int, hi as int), c) == Some(i - lo) && lo <= i < hi,
            None => rfind_char(v@.subrange(lo as int, hi as int), c) is None,
        },
{
    let mut i: usize = hi;
    while i > lo
        invariant
            lo <= i <= hi <= v.len(),
            rfind_char(v@.subrange(lo as int, hi as int), c) == rfind_char(v@.subrange(lo as int, i as int), c),
        decreases i - lo,
    {
        let ghost t = v@.subrange(lo as int, i as int);
        assert(t.last() == v@[i - 1]);
        if v[i - 1] == c {
            return Some(i - 1);
        }
        assert(t.drop_last() =~= v@.subrange(lo as int, i - 1));
        i = i - 1;
    }
    None
}

fn cut_start_exec(v: &Vec<char>, last_end: usize, a: usize) -> (res: usize)
    requires
        last_end <= a <= v.len(),
    ensures
        res == cut_start(v@, last_end as int, a as int),
        last_end <= res <= a,
{
    let ghost before = v@.subrange(last_end as int, a as int);
    let bracket = match rfind_in(v, last_end, a, ']') {
        Some(cb) => {
            assert(before.take(cb - last_end) =~= v@.subrange(last_end as int, cb as int));
            match rfind_in(v, last_end, cb, '[') {
                Some(ob) => Some(ob),
                None => None,
            }
        },
        None => None,
    };
    match bracket {
        Some(x) => x,
        None => match rfind_in(v, last_end, a, '<') {
            Some(ts) => ts,
            None => a,
        },
    }
}

/// A note's text without its links to missing files, trimmed: `links` are
/// its links and `found` says for each whether its file exists.
pub fn clean_note_text(content: &str, links: &Vec<ResourceLink>, found: &Vec<bool>) -> (res: String)
    requires
        note_links(content@) == Some(link_views(links@)),
        found@.len() == links@.len(),
    ensures
        res@ == cleaned_text(content@, found@),
{
    let v = chars_of(content);
    let ghost s = v@;
    let ghost lv = link_views(links@);
    proof {
        lemma_link_scan_order(s, 0);
    }
    let mut out: Vec<char> = Vec::new();
    let mut last_end: usize = 0;
    let mut k: usize = 0;
    while k < links.len()
        invariant
            s == v@,
            s == content@,
            lv == link_views(links@),
            links_in_order(lv, 0, s.len() as int),
            found@.len() == links@.len(),
            k <= links@.len(),
            k == 0 ==> last_end == 0,
            k > 0 ==> last_end == lv[k - 1].1,
            last_end <= s.len(),
            k < links@.len() ==> last_end <= lv[k as int].0,
            cleaned_from(s, lv, found@, 0, 0) == out@ + cleaned_from(s, lv, found@, k as int, last_end as int),
        decreases links.len() - k,
    {
        let r = links[k];
        assert(lv[k as int] == (r.start as int, r.end as int, r.id as int));
        let piece_end = if found[k] {
            r.end
        } else {
            cut_start_exec(&v, last_end, r.start)
        };
        let piece = sub_chars(&v, last_end, piece_end);
        let ghost before = out@;
        append_chars(&mut out, piece.as_slice());
        assert(out@ =~= before + piece@);
        last_end = r.end;
        k = k + 1;
        proof {
            if k < links@.len() {
                assert(lv[k - 1].1 <= lv[k as int].0);
            }
        }
    }
    if last_end < v.len() {
        let rest = sub_chars(&v, last_end, v.len());
        append_chars(&mut out, rest.as_slice());
    } else {
        assert(out@ + Seq::<char>::empty() =~= out@);
    }
    let t = trim_chars(&out);
    string_of(t.as_slice())
}

/// A file shown with a note: id, stored name, original name, MIME type,
/// whether it is an image, and its size for display.
#[derive(Debug)]
pub struct ResourceInfo {
    pub id: i64,
    pub filename: String,
    pub original_name: String,
    pub mime_type: String,
    pub is_image: bool,
    pub size: String,
}

/// The MIME type prefix of images, `image/`.
pub open spec fn image_prefix() -> Seq<char> {
    seq!['i', 'm', 'a', 'g', 'e', '/']
}

/// `info` shows the stored file `r`.
pub open spec fn info_of(r: PublicResourceTuple, info: ResourceInfo) -> bool {
    &&& info.id == r.0
    &&& info.filename@ == r.1@
    &&& info.original_name@ == r.2@
    &&& info.mime_type@ == r.3@
    &&& info.is_image == starts_with(r.3@, image_prefix())
    &&& info.size@ == bytes_text(r.4 as int)
}

/// How a stored file is shown with a note.
pub fn resource_info(r: &PublicResourceTuple) -> (res: ResourceInfo)
    ensures
        info_of(*r, res),
{
    let mime = chars_of(r.3.as_str());
    let image: [char; 6] = ['i', 'm', 'a', 'g', 'e', '/'];
    assert(image@ == image_prefix());
    ResourceInfo {
        id: r.0,
        filename: r.1.clone(),
        original_name: r.2.clone(),
        mime_type: r.3.clone(),
        is_image: starts_with_chars(mime.as_slice(), &image),
        size: format_bytes(r.4),
    }
}

/// `infos` show the stored files `rows`, one for one.
pub open spec fn shows_rows(rows: Seq<PublicResourceTuple>, infos: Seq<ResourceInfo>) -> bool {
    rows.len() == infos.len() && forall|j: int| 0 <= j < rows.len() ==> info_of(#[trigger] rows[j], infos[j])
}

/// The number of `true` in `found`.
pub open spec fn count_true(found: Seq<bool>) -> nat
    decreases found.len(),
{
    if found.len() == 0 {
        0
    } else {
        count_true(found.drop_last()) + if found.last() {
            1nat
        } else {
            0nat
        }
    }
}

/// The numbers of the links whose file was found, in order (`found` says,
/// link by link, whether its file was found).
pub open spec fn found_ids(links: Seq<(int, int, int)>, found: Seq<bool>) -> Seq<int>
    decreases found.len(),
{
    if found.len() == 0 {
        Seq::empty()
    } else {
        let prev = found_ids(links, found.drop_last());
        if found.last() {
            prev.push(links[found.len() - 1].2)
        } else {
            prev
        }
    }
}

/// The ids of some stored files, in order.
pub open spec fn row_ids(rows: Seq<PublicResourceTuple>) -> Seq<int> {
    rows.map_values(|r: PublicResourceTuple| r.0 as int)
}

/// `r` is what the store gave when asked for the file with `r`'s id.
pub open spec fn stored_file(r: PublicResourceTuple) -> bool {
    resource_public_answer(r.0, Ok(Some(r)))
}

/// The store gave no file when asked for file `id` (none, or it failed).
pub open spec fn file_missing(id: int) -> bool {
    exists|rr: Result<Option<PublicResourceTuple>, DbError>|
        #[trigger] resource_public_answer(id as i64, rr) && !(rr matches Ok(Some(_)))
}

/// Each of `rows` is what the store gave for its id, and each link of
/// `links` whose file was not found (`found`) is one the store gave no file
/// for.
pub open spec fn lookups_answered(links: Seq<(int, int, int)>, found: Seq<bool>, rows: Seq<PublicResourceTuple>) -> bool {
    &&& forall|j: int| 0 <= j < rows.len() ==> #[trigger] stored_file(rows[j])
    &&& forall|k: int| 0 <= k < found.len() && !found[k] ==> #[trigger] file_missing(links[k].2)
}

/// `info` shows a file as the store gave it when asked for that file's id:
/// its stored name, original name, MIME type and size are the answer's.
pub open spec fn shown_as_stored(info: ResourceInfo) -> bool {
    exists|r: PublicResourceTuple|
        #[trigger] resource_public_answer(info.id, Ok(Some(r))) && info.filename@ == r.1@ && info.original_name@
            == r.2@ && info.mime_type@ == r.3@ && info.size@ == bytes_text(r.4 as int)
}

/// Every file listed with a note is shown as the store holds it (see
/// `shown_as_stored`).
pub proof fn lemma_listed_files_as_stored(rows: Seq<PublicResourceTuple>, infos: Seq<ResourceInfo>)
    requires
        shows_rows(rows, infos),
        forall|j: int| 0 <= j < rows.len() ==> #[trigger] stored_file(rows[j]),
    ensures
        forall|j: int| 0 <= j < infos.len() ==> #[trigger] shown_as_stored(infos[j]),
{
    assert forall|j: int| 0 <= j < infos.len() implies #[trigger] shown_as_stored(infos[j]) by {
        assert(info_of(rows[j], infos[j]));
        assert(stored_file(rows[j]));
    }
}

/// A note's text for display and the files it mentions: each link's file is
/// looked up; links to missing files are dropped from the text (see
/// `cleaned_text`), and the files found are listed in the order of their
/// links.  The text's link numbers must fit an `i64` (see
/// `resource_links`).
pub fn process_memo_content(db: &Database, content: &str) -> (res: (String, Vec<ResourceInfo>))
    requires
        note_links(content@) is Some,
    ensures
        exists|found: Seq<bool>, rows: Seq<PublicResourceTuple>|
            #![trigger cleaned_text(content@, found), shows_rows(rows, res.1@)]
            found.len() == note_links(content@).unwrap().len() && res.0@ == cleaned_text(content@, found)
                && shows_rows(rows, res.1@) && rows.len() == count_true(found) && row_ids(rows)
                == found_ids(note_links(content@).unwrap(), found) && lookups_answered(
                note_links(content@).unwrap(),
                found,
                rows,
            ),
{
    let links = match resource_links(content) {
        Some(l) => l,
        None => {
            assert(false);
            Vec::new()
        },
    };
    let mut found: Vec<bool> = Vec::new();
    let mut infos: Vec<ResourceInfo> = Vec::new();
    let ghost mut rows: Seq<PublicResourceTuple> = Seq::empty();
    let mut k: usize = 0;
    while k < links.len()
        invariant
            k <= links@.len(),
            found@.len() == k,
            rows.len() == infos@.len(),
            rows.len() == count_true(found@),
            forall|j: int| 0 <= j < rows.len() ==> info_of(#[trigger] rows[j], infos@[j]),
            row_ids(rows) == found_ids(link_views(links@), found@),
            lookups_answered(link_views(links@), found@, rows),
        decreases links.len() - k,
    {
        let ghost f0 = found@;
        let ghost r0 = rows;
        let answer = db.get_resource_public(links[k].id);
        let ghost ag = answer;
        assert(link_views(links@)[k as int].2 == links@[k as int].id as int);
        match answer {
            Ok(Some(r)) => {
                assert(stored_file(r));
                let info = resource_info(&r);
                infos.push(info);
                proof {
                    rows = rows.push(r);
                }
                found.push(true);
                assert(row_ids(rows) =~= row_ids(r0).push(r.0 as int));
            },
            _ => {
                assert(!(ag matches Ok(Some(_))));
                assert((links@[k as int].id as int) as i64 == links@[k as int].id);
                assert(resource_public_answer(links@[k as int].id, ag));
                assert(file_missing(links@[k as int].id as int));
                found.push(false);
            },
        }
        assert(found@.drop_last() =~= f0);
        assert(lookups_answered(link_views(links@), found@, rows)) by {
            assert forall|x: int| 0 <= x < found@.len() && !found@[x] implies #[trigger] file_missing(
                link_views(links@)[x].2,
            ) by {
                if x < k {
                    assert(found@[x] == f0[x]);
                }
            }
            assert forall|j: int| 0 <= j < rows.len() implies #[trigger] stored_file(rows[j]) by {
                if j < r0.len() {
                    assert(rows[j] == r0[j]);
                }
            }
        }
        assert(link_views(links@)[k as int].2 == links@[k as int].id as int);
        k = k + 1;
    }
    let text = clean_note_text(content, &links, &found);
    assert(link_views(links@).len() == links@.len());
    assert(shows_rows(rows, infos@));
    assert(text@ == cleaned_text(content@, found@));
    assert(found@.len() == note_links(content@).unwrap().len());
    assert(rows.len() == count_true(found@));
    let res = (text, infos);
    assert(res.0@ == cleaned_text(content@, found@) && shows_rows(rows, res.1@));
    res
}

/// When every linked file exists, the text from `last_end` on is kept whole.
proof fn lemma_cleaned_all_found(s: Seq<char>, links: Seq<(int, int, int)>, found: Seq<bool>, k: int, last_end: int)
    requires
        links_in_order(links, 0, s.len() as int),
        found.len() == links.len(),
        forall|j: int| 0 <= j < found.len() ==> found[j],
        0 <= k <= links.len(),
        0 <= last_end <= s.len(),
        k < links.len() ==> last_end <= links[k].0,
    ensures
        cleaned_from(s, links, found, k, last_end) == s.subrange(last_end, s.len() as int),
    decreases links.len() - k,
{
    if k < links.len() {
        let e = links[k].1;
        if k + 1 < links.len() {
            assert(links[k].1 <= links[k + 1].0);
        }
        lemma_cleaned_all_found(s, links, found, k + 1, e);
        assert(s.subrange(last_end, e) + s.subrange(e, s.len() as int) =~= s.subrange(last_end, s.len() as int));
    } else if last_end < s.len() {
    } else {
        assert(s.subrange(last_end, s.len() as int) =~= Seq::<char>::empty());
    }
}

/// When every file a note links to exists, its text is shown whole, only
/// trimmed.
pub proof fn lemma_all_files_found_keeps_text(s: Seq<char>, found: Seq<bool>)
    requires
        note_links(s) is Some,
        found.len() == note_links(s).unwrap().len(),
        forall|j: int| 0 <= j < found.len() ==> found[j],
    ensures
        cleaned_text(s, found) == trim(s),
{
    let links = note_links(s).unwrap();
    lemma_link_scan_order(s, 0);
    lemma_cleaned_all_found(s, links, found, 0, 0);
    assert(s.subrange(0, s.len() as int) =~= s);
}

/// A text without `/resources/` has no links, and is shown trimmed.
pub proof fn lemma_no_links_keeps_text(s: Seq<char>)
    requires
        forall|i: int| 0 <= i ==> !matches_at(s, resources_marker(), i),
    ensures
        note_links(s) == Some(Seq::<(int, int, int)>::empty()),
        cleaned_text(s, Seq::empty()) == trim(s),
{
    if s.len() > 0 {
        lemma_find_sub(s.skip(0), resources_marker());
        assert(s.skip(0) =~= s);
    }
    assert(s.subrange(0, s.len() as int) =~= s);
}

} // verus!
