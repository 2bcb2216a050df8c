//! What the pages decide from what a user sends: a note's visibility, a
//! registration, a share password, paging, file names and sizes.
use vstd::prelude::*;
use vstd::utf8::{encode_utf8, is_char_boundary};
use crate::attachments::image_prefix;
use crate::auth::{bcrypt_verdict, hash_password};
use crate::calendar::{datetime_as_label, note_list_date, opt_text};
use crate::chars::{append_chars, chars_of, string_of, trim, trim_chars};
use crate::content::{
    content_tags, extract_first_image_id, extract_tags, extract_title, f64_value, f64_value_exec,
    first_image_id, get_month_name, month_name, one_decimal, one_decimal_exec, starts_with,
    starts_with_chars, strictly_sorted, strip_html, strip_html_spec, title_of,
};
use crate::db::{
    contains_pattern, int_p, memos_answer, text_p, Database, DbError, MemoTuple, ResourceEntryTuple, SQL_MEMOS,
    SQL_MEMOS_BY_DATE, SQL_MEMOS_BY_TAG, SQL_SEARCH_MEMOS, PublicMemoTuple, memo_public_answer, memo_by_id_answer,
};
use crate::num::{dec, dec_chars, parse_i64, parse_i64_spec};
use crate::request::{
    is_protected, is_public, private_word, protected_word, public_word, resource_path,
    resource_ref_pattern,
};

verus! {

// ---------------------------------------------------------------------------
// Visibility of a note
// ---------------------------------------------------------------------------

/// The text of an optional string.
pub open spec fn opt_string(o: Option<String>) -> Option<Seq<char>> {
    match o {
        Some(s) => Some(s@),
        None => None,
    }
}

/// The visibility a form asks for: `public` or `protected` as given,
/// anything else (or nothing) `private`.
pub open spec fn requested_visibility(requested: Option<Seq<char>>) -> Seq<char> {
    match requested {
        Some(v) => if v == public_word() || v == protected_word() {
            v
        } else {
            private_word()
        },
        None => private_word(),
    }
}

/// The visibility and password hash a note gets: a protected note needs a
/// hash, and without one it becomes private; other notes have no hash.
pub open spec fn settled_visibility(requested: Option<Seq<char>>, hash: Option<Seq<char>>) -> (
    Seq<char>,
    Option<Seq<char>>,
) {
    let v = requested_visibility(requested);
    if v == protected_word() {
        match hash {
            Some(h) => (v, Some(h)),
            None => (private_word(), None),
        }
    } else {
        (v, None)
    }
}

/// A password was given: present and not only white space.
pub open spec fn password_given(password: Option<Seq<char>>) -> bool {
    password matches Some(p) && trim(p).len() > 0
}

/// Every note ends up public, private or protected; a protected note has a
/// password hash, and no other note has one.
pub proof fn lemma_visibility_settles(requested: Option<Seq<char>>, hash: Option<Seq<char>>)
    ensures
        ({
            let (v, h) = settled_visibility(requested, hash);
            &&& v == public_word() || v == private_word() || v == protected_word()
            &&& (v == protected_word() <==> h is Some)
        }),
{
    let v = requested_visibility(requested);
    assert(private_word() != protected_word()) by {
        assert(private_word()[2] != protected_word()[2]);
    }
    assert(public_word() != protected_word()) by {
        assert(public_word().len() != protected_word().len());
    }
}

/// A request for a protected note without a usable password gives a
/// private note.
pub proof fn lemma_protected_without_hash_is_private(requested: Option<Seq<char>>)
    requires
        requested_visibility(requested) == protected_word(),
    ensures
        settled_visibility(requested, None) == (private_word(), None::<Seq<char>>),
{
}

/// The visibility and hash a note gets from the requested visibility and
/// the hash available for it.
pub fn settle_visibility(requested: Option<&str>, hash: Option<String>) -> (res: (String, Option<String>))
    ensures
        (res.0@, opt_string(res.1)) == settled_visibility(opt_text(requested), opt_string(hash)),
{
    let v = match requested {
        Some(r) => {
            let c = chars_of(r);
            if is_public(c.as_slice()) || is_protected(c.as_slice()) {
                c
            } else {
                vec!['p', 'r', 'i', 'v', 'a', 't', 'e']
            }
        },
        None => vec!['p', 'r', 'i', 'v', 'a', 't', 'e'],
    };
    assert(v@ == requested_visibility(opt_text(requested)));
    if is_protected(v.as_slice()) {
        match hash {
            Some(h) => (string_of(v.as_slice()), Some(h)),
            None => {
                let p: [char; 7] = ['p', 'r', 'i', 'v', 'a', 't', 'e'];
                assert(p@ == private_word());
                (string_of(&p), None)
            },
        }
    } else {
        (string_of(v.as_slice()), None)
    }
}

/// Whether a password was given (present and not blank).
fn password_given_exec(password: Option<&str>) -> (res: bool)
    ensures
        res == password_given(opt_text(password)),
{
    match password {
        Some(p) => {
            let t = trim_chars(&chars_of(p));
            t.len() > 0
        },
        None => false,
    }
}

/// A fresh hash of `password` when the note asks to be protected and a
/// password is given.
fn hash_if_protected(requested: Option<&str>, password: Option<&str>) -> (res: Option<String>)
    ensures
        res matches Some(h) ==> requested_visibility(opt_text(requested)) == protected_word()
            && password_given(opt_text(password)) && bcrypt_verdict(password.unwrap()@, h@) == Some(
            true,
        ),
        !(requested_visibility(opt_text(requested)) == protected_word() && password_given(
            opt_text(password),
        )) ==> res is None,
{
    let wants = match requested {
        Some(r) => is_protected(chars_of(r).as_slice()),
        None => false,
    };
    if wants && password_given_exec(password) {
        match password {
            Some(p) => match hash_password(p) {
                Ok(h) => Some(h),
                Err(_) => None,
            },
            None => None,
        }
    } else {
        None
    }
}

/// A hash that `fresh` may be for a note: none unless the note asks to be
/// protected and a password is given, and when there is one, the password
/// checks against it.
pub open spec fn fresh_hash_for(
    requested: Option<Seq<char>>,
    password: Option<&str>,
    fresh: Option<Seq<char>>,
) -> bool {
    &&& (fresh matches Some(h) ==> requested_visibility(requested) == protected_word()
        && password_given(opt_text(password)) && bcrypt_verdict(password.unwrap()@, h) == Some(
        true,
    ))
    &&& (!(requested_visibility(requested) == protected_word() && password_given(
        opt_text(password),
    )) ==> fresh is None)
}

/// `(vis, hash)` is what a new note gets for some fresh hash of its password.
pub open spec fn new_note_visibility(
    requested: Option<Seq<char>>,
    password: Option<&str>,
    vis: Seq<char>,
    hash: Option<Seq<char>>,
) -> bool {
    exists|fresh: Option<Seq<char>>|
        #![trigger settled_visibility(requested, fresh)]
        fresh_hash_for(requested, password, fresh) && (vis, hash) == settled_visibility(
            requested,
            fresh,
        )
}

/// The visibility and password hash of a new note: a protected note with a
/// non-blank password keeps a fresh hash of it; a protected note without
/// one, or whose password could not be hashed, becomes private.
pub fn visibility_for_new_memo(requested: Option<&str>, password: Option<&str>) -> (res: (
    String,
    Option<String>,
))
    ensures
        new_note_visibility(opt_text(requested), password, res.0@, opt_string(res.1)),
        requested_visibility(opt_text(requested)) == protected_word() && !password_given(
            opt_text(password),
        ) ==> res.0@ == private_word() && res.1 is None,
{
    let h = hash_if_protected(requested, password);
    let res = settle_visibility(requested, h);
    assert((res.0@, opt_string(res.1)) == settled_visibility(opt_text(requested), opt_string(h)));
    res
}

/// The hash an edited note has to settle its visibility with: the fresh
/// one when there is one, else the one it has when it is protected now.
pub open spec fn edit_hash(
    fresh: Option<Seq<char>>,
    current_visibility: Seq<char>,
    existing: Option<Seq<char>>,
) -> Option<Seq<char>> {
    match fresh {
        Some(h) => Some(h),
        None => if current_visibility == protected_word() {
            existing
        } else {
            None
        },
    }
}

/// The visibility and hash an edited note gets from the visibility asked
/// for, a fresh hash, its current visibility and its current hash: a note
/// kept protected without a new password keeps its hash.
pub open spec fn edited_visibility(
    requested: Option<Seq<char>>,
    fresh: Option<Seq<char>>,
    current_visibility: Seq<char>,
    existing: Option<Seq<char>>,
) -> (Seq<char>, Option<Seq<char>>) {
    settled_visibility(requested, edit_hash(fresh, current_visibility, existing))
}

/// A note that is protected now and is edited with `protected` asked for
/// and no new hash keeps the hash it has; edited with a new hash, it takes
/// that one.
pub proof fn lemma_edit_keeps_hash(
    requested: Option<Seq<char>>,
    fresh: Option<Seq<char>>,
    existing: Seq<char>,
)
    requires
        requested_visibility(requested) == protected_word(),
    ensures
        fresh is None ==> edited_visibility(requested, fresh, protected_word(), Some(existing)) == (
            protected_word(),
            Some(existing),
        ),
        fresh matches Some(h) ==> edited_visibility(requested, fresh, protected_word(), Some(existing))
            == (protected_word(), Some(h)),
{
}

/// `(vis, hash)` is what an edited note gets for some fresh hash of its
/// password and some current visibility and hash of the note.
pub open spec fn edited_note_visibility(
    requested: Option<Seq<char>>,
    password: Option<&str>,
    vis: Seq<char>,
    hash: Option<Seq<char>>,
) -> bool {
    exists|fresh: Option<Seq<char>>, current: Seq<char>, existing: Option<Seq<char>>|
        #![trigger edited_visibility(requested, fresh, current, existing)]
        fresh_hash_for(requested, password, fresh) && (vis, hash) == edited_visibility(
            requested,
            fresh,
            current,
            existing,
        )
}

/// The visibility and hash of an edited note from the visibility asked for,
/// the fresh hash of its new password (if any), and the note's current
/// visibility and hash.
pub fn settle_edit_visibility(
    requested: Option<&str>,
    fresh: Option<String>,
    current_visibility: &str,
    existing_hash: Option<String>,
) -> (res: (String, Option<String>))
    ensures
        (res.0@, opt_string(res.1)) == edited_visibility(
            opt_text(requested),
            opt_string(fresh),
            current_visibility@,
            opt_string(existing_hash),
        ),
{
    let h = match fresh {
        Some(f) => Some(f),
        None => if is_protected(chars_of(current_visibility).as_slice()) {
            existing_hash
        } else {
            None
        },
    };
    settle_visibility(requested, h)
}

/// `h` is the password hash the store gave for note `memo_id`.
pub open spec fn stored_hash_of(memo_id: i64, h: Seq<char>) -> bool {
    exists|m: PublicMemoTuple| #[trigger] memo_public_answer(memo_id, Ok(Some(m))) && (m.4 matches Some(x) && x@ == h)
}

/// The store gave note `memo_id` of user `user_id` as protected.
pub open spec fn protected_now(memo_id: i64, user_id: i64) -> bool {
    exists|m: MemoTuple| #[trigger] memo_by_id_answer(memo_id, user_id, Ok(Some(m))) && m.3@ == protected_word()
}

/// Where the hash of an edited note comes from: when protection is asked
/// for with a usable password, the hash checks against that password, or
/// it is the note's stored hash and the note is protected now (the
/// password could not be hashed); without a usable password, only the
/// stored hash of a note protected now is kept.
pub open spec fn edit_hash_source(
    memo_id: i64,
    user_id: i64,
    requested: Option<Seq<char>>,
    password: Option<&str>,
    hash: Option<Seq<char>>,
) -> bool {
    &&& requested_visibility(requested) == protected_word() && password_given(opt_text(password)) ==> (hash matches Some(
        h,
    ) ==> (password matches Some(p) && bcrypt_verdict(p@, h) == Some(true)) || (stored_hash_of(memo_id, h)
        && protected_now(memo_id, user_id)))
    &&& requested_visibility(requested) == protected_word() && !password_given(opt_text(password)) ==> (hash matches Some(
        h,
    ) ==> stored_hash_of(memo_id, h) && protected_now(memo_id, user_id))
}

/// The visibility and password hash of an edited note: as for a new note,
/// except that a note that is protected now, kept protected and given no
/// usable new password keeps the hash it has.  The note's current
/// visibility (`private` when it cannot be read) and hash come from the
/// store.
pub fn visibility_for_edit(
    db: &Database,
    memo_id: i64,
    user_id: i64,
    requested: Option<&str>,
    password: Option<&str>,
) -> (res: (String, Option<String>))
    ensures
        edited_note_visibility(opt_text(requested), password, res.0@, opt_string(res.1)),
        requested_visibility(opt_text(requested)) != protected_word() ==> res.0@
            == requested_visibility(opt_text(requested)) && res.1 is None,
        edit_hash_source(memo_id, user_id, opt_text(requested), password, opt_string(res.1)),
        res.0@ == protected_word() <==> res.1 is Some,
{
    let cur_res = db.get_memo_by_id(memo_id, user_id);
    let ghost cg = cur_res;
    let current: String = match cur_res {
        Ok(Some(m)) => m.3,
        _ => {
            let p: [char; 7] = ['p', 'r', 'i', 'v', 'a', 't', 'e'];
            string_of(&p)
        },
    };
    let fresh = hash_if_protected(requested, password);
    let wants = match requested {
        Some(r) => is_protected(chars_of(r).as_slice()),
        None => false,
    };
    let existing: Option<String> = if wants && fresh.is_none() && is_protected(
        chars_of(current.as_str()).as_slice(),
    ) {
        let ex_res = db.get_memo_public(memo_id);
        let ghost eg = ex_res;
        match ex_res {
            Ok(Some(e)) => {
                assert(memo_public_answer(memo_id, eg));
                assert(current@ == protected_word());
                assert(memo_by_id_answer(memo_id, user_id, cg));
                assert(cg matches Ok(Some(m)) && m.3@ == protected_word());
                assert(protected_now(memo_id, user_id));
                assert(e.4 matches Some(x) ==> stored_hash_of(memo_id, x@));
                e.4
            },
            _ => None,
        }
    } else {
        None
    };
    assert(fresh_hash_for(opt_text(requested), password, opt_string(fresh)));
    let ghost args = (opt_string(fresh), current@, opt_string(existing));
    assert(existing matches Some(x) ==> stored_hash_of(memo_id, x@) && protected_now(memo_id, user_id));
    let res = settle_edit_visibility(requested, fresh, current.as_str(), existing);
    assert(edited_visibility(opt_text(requested), args.0, args.1, args.2) == (res.0@, opt_string(res.1)));
    proof {
        lemma_visibility_settles(opt_text(requested), edit_hash(args.0, args.1, args.2));
    }
    res
}

// ---------------------------------------------------------------------------
// Registration and share passwords
// ---------------------------------------------------------------------------

/// A registration form is acceptable: the name is not blank and the
/// password is at least four bytes long.
pub open spec fn registration_ok(username: Seq<char>, password: &str) -> bool {
    trim(username).len() > 0 && encode_utf8(password@).len() >= 4
}

/// Whether a registration form is acceptable.
pub fn registration_input_ok(username: &str, password: &str) -> (res: bool)
    ensures
        res == registration_ok(username@, password),
{
    let t = trim_chars(&chars_of(username));
    t.len() > 0 && password.as_bytes().len() >= 4
}

/// A share password is acceptable: given and at least four bytes long.
pub open spec fn share_password_ok(password: Option<&str>) -> bool {
    password matches Some(p) && encode_utf8(p@).len() >= 4
}

/// Whether a share password is acceptable.
pub fn share_password_acceptable(password: Option<&str>) -> (res: bool)
    ensures
        res == share_password_ok(password),
{
    match password {
        Some(p) => p.as_bytes().len() >= 4,
        None => false,
    }
}

// ---------------------------------------------------------------------------
// Paging
// ---------------------------------------------------------------------------

/// The offset of a page from the query: the `offset` parameter when it
/// parses as an `i64`, else 0.
pub open spec fn page_offset(param: Option<Seq<char>>) -> int {
    match param {
        Some(p) => match parse_i64_spec(p) {
            Some(x) => x,
            None => 0,
        },
        None => 0,
    }
}

/// The offset of a page from the `offset` query parameter.
pub fn parse_offset(param: Option<&str>) -> (res: i64)
    ensures
        res == page_offset(opt_text(param)),
{
    match param {
        Some(p) => match parse_i64(chars_of(p).as_slice()) {
            Some(x) => x,
            None => 0,
        },
        None => 0,
    }
}

/// A page of at most `limit` items out of the `fetched` ones (the query
/// asks for one more than a page): how many to show, and the offset of the
/// next page when there is more.
pub open spec fn page_split(fetched: int, limit: int, offset: int) -> (int, Option<int>) {
    if fetched > limit {
        (limit, Some(offset + limit))
    } else {
        (fetched, None)
    }
}

/// A page shows at most `limit` items, and there is a next page exactly
/// when more than `limit` came back; it starts right after this one.
pub proof fn lemma_page_split(fetched: int, limit: int, offset: int)
    requires
        0 <= fetched,
        0 <= limit,
    ensures
        page_split(fetched, limit, offset).0 <= limit,
        page_split(fetched, limit, offset).0 <= fetched,
        page_split(fetched, limit, offset).1 is Some <==> fetched > limit,
        page_split(fetched, limit, offset).1 matches Some(n) ==> n == offset + limit,
{
}

/// How many of `fetched` items to show on a page of `limit` at `offset`,
/// and the offset of the next page when there is more.
pub fn page_of(fetched: usize, limit: i64, offset: i64) -> (res: (usize, Option<i64>))
    requires
        0 <= limit,
        offset + limit <= i64::MAX,
    ensures
        (res.0 as int, match res.1 {
            Some(x) => Some(x as int),
            None => None,
        }) == page_split(fetched as int, limit as int, offset as int),
{
    if fetched as i128 > limit as i128 {
        (limit as usize, Some(offset + limit))
    } else {
        (fetched, None)
    }
}

// ---------------------------------------------------------------------------
// The note list
// ---------------------------------------------------------------------------

/// At most 500 bytes of `s`, cut at byte 500 (which must fall between two
/// characters when `s` is longer).
pub open spec fn snippet_bytes(s: Seq<char>) -> Seq<u8> {
    if encode_utf8(s).len() > 500 {
        encode_utf8(s).take(500)
    } else {
        encode_utf8(s)
    }
}

/// `s` is short, or byte 500 of it starts a character.
pub open spec fn snippet_ok(s: &str) -> bool {
    encode_utf8(s@).len() > 500 ==> is_char_boundary(encode_utf8(s@), 500)
}

/// The first 500 bytes of `s` (all of it when shorter).
pub fn search_snippet(s: &str) -> (res: String)
    requires
        snippet_ok(s),
    ensures
        encode_utf8(res@) == snippet_bytes(s@),
{
    if s.as_bytes().len() > 500 {
        let (a, _) = s.split_at(500);
        let r = a.to_owned();
        assert(encode_utf8(r@) =~= encode_utf8(s@).take(500));
        r
    } else {
        s.to_owned()
    }
}

/// `t` is the sorted list, without repeats, of the hashtags of `content`.
pub open spec fn tag_list_of(content: Seq<char>, t: Seq<Seq<char>>) -> bool {
    strictly_sorted(t) && forall|x: Seq<char>| t.contains(x) <==> content_tags(content).contains(x)
}

/// A note in the note list: id, title, hashtags, first image, creation time
/// for display, visibility, and the start of its plain text for search.
#[derive(Debug)]
pub struct NoteListEntry {
    pub id: i64,
    pub title: String,
    pub tags: Vec<String>,
    pub first_image_id: Option<i64>,
    pub created_at: String,
    pub visibility: String,
    pub search_text: String,
}

/// The text of a note with HTML stripped is short or can be cut at byte 500.
pub open spec fn note_listable(content: Seq<char>) -> bool {
    let t = strip_html_spec(content);
    encode_utf8(t).len() > 500 ==> is_char_boundary(encode_utf8(t), 500)
}

/// `e` is how note `m` shows in the note list.
pub open spec fn entry_of(m: MemoTuple, e: NoteListEntry) -> bool {
    &&& e.id == m.0
    &&& e.title@ == title_of(m.2@)
    &&& tag_list_of(m.2@, e.tags@.map_values(|s: String| s@))
    &&& (e.first_image_id matches Some(x) ==> first_image_id(m.2@) == Some(x as int))
    &&& (e.first_image_id is None ==> first_image_id(m.2@) is None)
    &&& e.created_at@ == match datetime_as_label(m.4@) {
        Some(l) => l,
        None => m.4@,
    }
    &&& e.visibility@ == m.3@
    &&& encode_utf8(e.search_text@) == snippet_bytes(strip_html_spec(m.2@))
}

/// How note `m` (id, title, content, visibility, creation time) shows in the
/// note list: its title from the content, its hashtags, its first image,
/// its time written for display, its visibility, and the first 500 bytes of
/// its text without HTML.
pub fn note_list_entry(m: &MemoTuple) -> (res: NoteListEntry)
    requires
        note_listable(m.2@),
    ensures
        entry_of(*m, res),
{
    let (title, _) = extract_title(m.2.as_str());
    let tags = extract_tags(m.2.as_str());
    let first = extract_first_image_id(m.2.as_str());
    let stripped = strip_html(m.2.as_str());
    let search_text = search_snippet(stripped.as_str());
    NoteListEntry {
        id: m.0,
        title,
        tags,
        first_image_id: first,
        created_at: note_list_date(m.4.as_str()),
        visibility: m.3.clone(),
        search_text,
    }
}

/// The month's heading: its name and the year, e.g. "January 2024".
pub fn month_label(month: u32, year: i32) -> (res: String)
    ensures
        res@ == month_name(month as int) + seq![' '] + dec(year as int),
{
    let mut v = chars_of(get_month_name(month));
    v.push(' ');
    let y = dec_chars(year as i64);
    append_chars(&mut v, y.as_slice());
    string_of(v.as_slice())
}

// ---------------------------------------------------------------------------
// Files
// ---------------------------------------------------------------------------

/// The size of a listed file: under 1024 in bytes (`"{} B"`), under 1 MiB
/// in KB with one decimal, else in MB with one decimal (the size divided
/// as an `f64`).
pub open spec fn file_size_text(size: int) -> Seq<char> {
    if size < 1024 {
        dec(size) + seq![' ', 'B']
    } else if size < 1048576 {
        one_decimal(f64_value(size as nat), 1024) + seq![' ', 'K', 'B']
    } else {
        one_decimal(f64_value(size as nat), 1048576) + seq![' ', 'M', 'B']
    }
}

/// The size of a listed file for display.
pub fn file_size_label(size: i64) -> (res: String)
    ensures
        res@ == file_size_text(size as int),
{
    let mut v: Vec<char>;
    if size < 1024 {
        v = dec_chars(size);
        v.push(' ');
        v.push('B');
    } else {
        let m = f64_value_exec(size as u128);
        if size < 1048576 {
            v = one_decimal_exec(m, 1024);
            v.push(' ');
            v.push('K');
            v.push('B');
        } else {
            v = one_decimal_exec(m, 1048576);
            v.push(' ');
            v.push('M');
            v.push('B');
        }
    }
    string_of(v.as_slice())
}

/// A listed file: id, stored name, original name, MIME type, size for
/// display, whether it is an image, upload time.
#[derive(Debug)]
pub struct FileEntry {
    pub id: i64,
    pub filename: String,
    pub original_name: String,
    pub mime_type: String,
    pub size_str: String,
    pub is_image: bool,
    pub created_at: String,
}

/// `e` is how the stored file `r` shows in the file list.
pub open spec fn file_entry_of(r: ResourceEntryTuple, e: FileEntry) -> bool {
    &&& e.id == r.0
    &&& e.filename@ == r.1@
    &&& e.original_name@ == r.2@
    &&& e.mime_type@ == r.3@
    &&& e.size_str@ == file_size_text(r.4 as int)
    &&& e.is_image == starts_with(r.3@, image_prefix())
    &&& e.created_at@ == r.5@
}

/// How a stored file shows in the file list.
pub fn file_entry(r: &ResourceEntryTuple) -> (res: FileEntry)
    ensures
        file_entry_of(*r, res),
{
    let image: [char; 6] = ['i', 'm', 'a', 'g', 'e', '/'];
    assert(image@ == image_prefix());
    FileEntry {
        id: r.0,
        filename: r.1.clone(),
        original_name: r.2.clone(),
        mime_type: r.3.clone(),
        size_str: file_size_label(r.4),
        is_image: starts_with_chars(chars_of(r.3.as_str()).as_slice(), &image),
        created_at: r.5.clone(),
    }
}

/// What `Path::extension` gives for a file name, as text.
pub uninterp spec fn path_extension(name: Seq<char>) -> Option<Seq<char>>;

/// `std::path::Path::new(name).extension()` read back as text (a `&str`
/// path's extension is always valid UTF-8).
#[verifier::external_body]
fn file_extension(name: &str) -> (res: Option<String>)
    ensures
        opt_string(res) == path_extension(name@),
{
    std::path::Path::new(name).extension().and_then(|e| e.to_str()).map(|e| e.to_string())
}

/// The extension a stored file keeps: the uploaded name's, else `bin`.
pub open spec fn stored_extension(original_name: Seq<char>) -> Seq<char> {
    match path_extension(original_name) {
        Some(e) => e,
        None => seq!['b', 'i', 'n'],
    }
}

/// The name a file is stored under: a fresh stem, `.` and the extension of
/// its uploaded name (`bin` when it has none).
pub fn stored_file_name(stem: &str, original_name: &str) -> (res: String)
    ensures
        res@ == stem@ + seq!['.'] + stored_extension(original_name@),
{
    let mut v = chars_of(stem);
    v.push('.');
    match file_extension(original_name) {
        Some(e) => {
            let c = chars_of(e.as_str());
            append_chars(&mut v, c.as_slice());
        },
        None => {
            v.push('b');
            v.push('i');
            v.push('n');
        },
    }
    string_of(v.as_slice())
}

/// The Markdown that links an uploaded file: `![name](/resources/<id>)`
/// for an image, `[name](/resources/<id>)` otherwise.
pub open spec fn upload_markdown(original_name: Seq<char>, mime: Seq<char>, id: int) -> Seq<char> {
    let link = seq!['['] + original_name + seq![']', '('] + resource_path(id) + seq![')'];
    if starts_with(mime, image_prefix()) {
        seq!['!'] + link
    } else {
        link
    }
}

/// The Markdown that links the uploaded file `id`.
pub fn upload_link(original_name: &str, mime_type: &str, id: i64) -> (res: String)
    ensures
        res@ == upload_markdown(original_name@, mime_type@, id as int),
{
    let image: [char; 6] = ['i', 'm', 'a', 'g', 'e', '/'];
    assert(image@ == image_prefix());
    let mut v: Vec<char> = Vec::new();
    if starts_with_chars(chars_of(mime_type).as_slice(), &image) {
        v.push('!');
    }
    v.push('[');
    append_chars(&mut v, chars_of(original_name).as_slice());
    v.push(']');
    v.push('(');
    let p = resource_ref_pattern(id);
    append_chars(&mut v, chars_of(p.as_str()).as_slice());
    v.push(')');
    proof {
        let link = seq!['['] + original_name@ + seq![']', '('] + resource_path(id as int) + seq![')'];
        if starts_with(mime_type@, image_prefix()) {
            assert(v@ =~= seq!['!'] + link);
        } else {
            assert(v@ =~= link);
        }
    }
    string_of(v.as_slice())
}

// ---------------------------------------------------------------------------
// Searching
// ---------------------------------------------------------------------------

/// Which notes a search lists.
#[derive(Debug)]
pub enum SearchQuery {
    /// Notes with this hashtag.
    Tag(String),
    /// Notes written on this day.
    Date(String),
    /// Notes whose title or content contains this text.
    Text(String),
    /// All notes.
    All,
}

/// The search the query parameters ask for: by `tag` first, then by `date`,
/// then by the text `q` (all notes when it is empty), else all notes.
pub fn search_query(tag: Option<&str>, date: Option<&str>, q: Option<&str>) -> (res: SearchQuery)
    ensures
        match (tag, date, q) {
            (Some(t), _, _) => res matches SearchQuery::Tag(x) && x@ == t@,
            (None, Some(d), _) => res matches SearchQuery::Date(x) && x@ == d@,
            (None, None, Some(s)) => if s@.len() == 0 {
                res is All
            } else {
                res matches SearchQuery::Text(x) && x@ == s@
            },
            (None, None, None) => res is All,
        },
{
    match tag {
        Some(t) => SearchQuery::Tag(t.to_owned()),
        None => match date {
            Some(d) => SearchQuery::Date(d.to_owned()),
            None => match q {
                Some(s) => if s.is_empty() {
                    SearchQuery::All
                } else {
                    SearchQuery::Text(s.to_owned())
                },
                None => SearchQuery::All,
            },
        },
    }
}

/// What the store gives when asked for user `user_id`'s notes that `query`
/// finds: by tag, by day, by text, or all.
pub open spec fn search_answer(user_id: i64, query: SearchQuery, r: Result<Vec<MemoTuple>, DbError>) -> bool {
    match query {
        SearchQuery::Tag(t) => memos_answer(SQL_MEMOS_BY_TAG@, seq![int_p(user_id), text_p(t@)], r),
        SearchQuery::Date(d) => memos_answer(SQL_MEMOS_BY_DATE@, seq![int_p(user_id), text_p(d@)], r),
        SearchQuery::Text(s) => memos_answer(SQL_SEARCH_MEMOS@, seq![int_p(user_id), text_p(contains_pattern(s@))], r),
        SearchQuery::All => memos_answer(SQL_MEMOS@, seq![int_p(user_id)], r),
    }
}

/// The notes a search lists, newest first (an error reads as no notes).
pub fn run_search(db: &Database, user_id: i64, query: &SearchQuery) -> (res: Vec<MemoTuple>)
    ensures
        exists|r: Result<Vec<MemoTuple>, DbError>|
            #[trigger] search_answer(user_id, *query, r) && res@ == match r {
                Ok(v) => v@,
                Err(_) => Seq::<MemoTuple>::empty(),
            },
{
    let r = match query {
        SearchQuery::Tag(t) => db.get_memos_by_tag(user_id, t.as_str()),
        SearchQuery::Date(d) => db.get_memos_by_date(user_id, d.as_str()),
        SearchQuery::Text(s) => db.search_memos(user_id, s.as_str()),
        SearchQuery::All => db.get_memos(user_id),
    };
    let ghost rg = r;
    assert(search_answer(user_id, *query, rg));
    match r {
        Ok(v) => v,
        Err(_) => Vec::new(),
    }
}

} // verus!
