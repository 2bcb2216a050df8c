//! What each page does with the store, apart from HTTP and HTML: who is
//! signed in, signing in and up, shared notes, downloads, and the notes and
//! files of a user.
use vstd::prelude::*;
use crate::attachments::{
    cleaned_text, count_true, found_ids, note_links, process_memo_content, resource_links, row_ids, shows_rows, ResourceInfo,
};
use crate::auth::{
    bcrypt_verdict, hash_password, issued_until, note_token, session_token, verify_password,
    week_secs,
};
use crate::calendar::{
    chrono_year, current_datetime_text, current_year_month, generate_calendar, is_month_grid, opt_text, texts,
    week_cells, CalendarDay,
};
use crate::chars::{lemma_trim_idempotent, trim, trim_str};
use crate::content::{
    avatar_char, avatar_of, extract_tags, extract_title, month_name, strip_html, title_of,
};
use crate::db::{
    Database, DbError, MemoTuple, PublicMemoTuple, PublicResourceTuple, ResourceEntryTuple, SQL_MEMOS_PAGE, int_p,
    memos_answer, user_by_id_answer, MemoRefTuple, SQL_MEMOS_REFERENCING, contains_pattern, refs_answer,
    resource_public_answer, text_p, texts_answer, SQL_MEMO_TAGS, memo_public_answer, UserAuthTuple, rate_answer,
    inserted, SQL_CREATE_USER, user_by_name_answer, SQL_DATES_IN_MONTH, SQL_DATES_IN_MONTH_FOR_QUERY, SQL_USER_TAGS,
    month_pattern, tag_counts_answer, executed, sqlite_execute_answer, SQL_DELETE_MEMO, ParamView, opt_p, ran,
    SQL_UPDATE_MEMO, SQL_CREATE_MEMO, SQL_RESOURCES_PAGE, entries_answer, resource_by_name_answer, SQL_DELETE_RESOURCE,
    SQL_CREATE_RESOURCE, memo_by_id_answer, has_password_answer, SQL_SEARCH_MEMOS, SQL_MEMOS, texts_of,
    memo_tags_answer, SQL_UPDATE_VISIBILITY,
};
use crate::num::dec;
use crate::forms::{
    entry_of, file_entry, file_entry_of, month_label, note_list_entry, note_listable, registration_input_ok,
    registration_ok, run_search, share_password_acceptable, share_password_ok, tag_list_of,
    upload_link, upload_markdown, visibility_for_edit, visibility_for_new_memo, FileEntry,
    NoteListEntry, SearchQuery, search_answer, new_note_visibility, edited_note_visibility, opt_string,
};
use crate::render::{markdown_html, render_markdown};
use crate::request::{
    captcha_accepted, captcha_answer_accepted, file_access, get_session_user_id,
    note_access, note_access_cookie, note_cookie_name, note_view, private_word, protected_word,
    public_word, resource_ref_pattern, session_cookie, session_name, session_user, set_cookie,
    shared_note_view, MemoRef, NoteView, file_access_at, resource_path,
};
use crate::timeline::{
    card_of, group_memos_by_date, is_timeline, memo_card, memo_card_with_tags, shows_a_note, some_timeline, timeline_of_some, timeline_ready,
    MemoCard, MemoGroup,
};

verus! {

// ---------------------------------------------------------------------------
// Sessions
// ---------------------------------------------------------------------------

/// Whether a request is signed in: its session cookie is valid and its user
/// still exists.
pub fn is_valid_session(db: &Database, secret: &str, cookie: Option<&str>) -> (res: bool)
    ensures
        res ==> exists|now: int|
            -8_400_000_000_000 <= now <= 8_400_000_000_000 && #[trigger] session_user(
                secret@,
                opt_text(cookie),
                now,
            ) is Some,
        res ==> session_user_stored(secret@, opt_text(cookie)),
{
    let current = get_session_user_id(secret, cookie);
    match current {
        Some(id) => {
            let found = db.get_user_by_id(id);
            let ghost fg = found;
            match found {
                Ok(Some(u)) => {
                    let ghost now = choose|now: int|
                        -8_400_000_000_000 <= now <= 8_400_000_000_000 && #[trigger] session_user(
                            secret@,
                            opt_text(cookie),
                            now,
                        ) == Some(id as int);
                    assert(user_by_id_answer(id, fg));
                    assert(session_user(secret@, opt_text(cookie), now) == Some(u.0 as int));
                    true
                },
                _ => false,
            }
        },
        None => false,
    }
}

/// At some clock reading the session cookie names a user, and the store
/// gave that user when asked for it.
pub open spec fn session_user_stored(secret: Seq<char>, cookie: Option<Seq<char>>) -> bool {
    exists|now: int, u: (i64, String)|
        #![trigger session_user(secret, cookie, now), user_by_id_answer(u.0, Ok(Some(u)))]
        session_user(secret, cookie, now) == Some(u.0 as int) && user_by_id_answer(u.0, Ok(Some(u)))
}

// ---------------------------------------------------------------------------
// Signing in
// ---------------------------------------------------------------------------

/// At some clock reading, the rate check of `action` by `key` (at most
/// `limit` per `window` seconds) let the request through: it allowed it,
/// or it failed.
pub open spec fn rate_let_through(key: Seq<char>, action: Seq<char>, limit: i64, window: i64) -> bool {
    exists|now: int, r: Result<bool, DbError>|
        #[trigger] rate_answer(key, action, limit, now - window, now, r) && (r matches Ok(b) ==> b)
}

/// At some clock reading, the rate check of `action` by `key` (at most
/// `limit` per `window` seconds) refused the request.
pub open spec fn rate_refused(key: Seq<char>, action: Seq<char>, limit: i64, window: i64) -> bool {
    exists|now: int| #[trigger] rate_answer(key, action, limit, now - window, now, Ok(false))
}

/// What the store gives when asked to add the user `name` with the password
/// hash `hash`.
pub open spec fn user_insert_answer(name: Seq<char>, hash: Seq<char>, res: Result<i64, DbError>) -> bool {
    inserted(SQL_CREATE_USER@, seq![text_p(name), text_p(hash)], res)
}

/// The store added a user named `name` with a bcrypt hash of `password`,
/// and gave `user_id` as the new row's id.
pub open spec fn user_added(name: Seq<char>, password: &str, user_id: i64) -> bool {
    exists|hash: Seq<char>|
        #[trigger] user_insert_answer(name, hash, Ok(user_id)) && bcrypt_verdict(password@, hash) == Some(true)
}

/// How a sign-in ends.
#[derive(Debug)]
pub enum LoginOutcome {
    /// Too many attempts from this address.
    RateLimited,
    /// No such user, or the wrong password.
    InvalidCredentials,
    /// Signed in: the session cookie to set.
    SignedIn(String),
}

/// Signs in `username` with `password`, from `client_ip` (at most 20
/// attempts an hour; a failing limit check lets the attempt through).
pub fn login(db: &Database, secret: &str, client_ip: &str, username: &str, password: &str) -> (res:
    LoginOutcome)
    ensures
        res matches LoginOutcome::SignedIn(c) ==> exists|user_id: i64, hash: Seq<char>, expiry: int|
            #![trigger session_token(secret@, user_id as int, expiry), bcrypt_verdict(password@, hash)]
            bcrypt_verdict(password@, hash) == Some(true) && issued_until(expiry, week_secs()) && c@
                == set_cookie(session_name(), session_token(secret@, user_id as int, expiry), 604800)
                && signed_in_user(username@, user_id, hash),
        res is RateLimited ==> rate_refused(client_ip@, "login"@, 20, 3600),
        !(res is RateLimited) ==> rate_let_through(client_ip@, "login"@, 20, 3600),
{
    let rate = db.check_and_record_rate_limit(client_ip, "login", 20, 3600);
    let ghost rate_g = rate;
    let ghost now_r = choose|now: int|
        -8_400_000_000_000 <= now <= 8_400_000_000_000 && #[trigger] rate_answer(
            client_ip@,
            "login"@,
            20,
            now - 3600,
            now,
            rate_g,
        );
    assert(rate_answer(client_ip@, "login"@, 20, now_r - 3600, now_r, rate_g));
    let allowed = match rate {
        Ok(b) => b,
        Err(_) => true,
    };
    if !allowed {
        return LoginOutcome::RateLimited;
    }
    let user = db.get_user_by_username(username);
    let ghost ug = user;
    match user {
        Ok(Some((id, name, hash))) => match verify_password(password, hash.as_str()) {
            Ok(true) => {
                assert(user_by_name_answer(username@, ug) && ug == Ok::<Option<UserAuthTuple>, DbError>(
                    Some((id, name, hash)),
                ));
                assert(signed_in_user(username@, id, hash@));
                LoginOutcome::SignedIn(session_cookie(secret, id))
            },
            _ => LoginOutcome::InvalidCredentials,
        },
        _ => LoginOutcome::InvalidCredentials,
    }
}

/// The store gave user `user_id`, named `name`, with the password hash
/// `hash` when asked for the user of that name.
pub open spec fn signed_in_user(name: Seq<char>, user_id: i64, hash: Seq<char>) -> bool {
    exists|u: UserAuthTuple|
        #[trigger] user_by_name_answer(name, Ok(Some(u))) && u.0 == user_id && u.2@ == hash
}

// ---------------------------------------------------------------------------
// Signing up
// ---------------------------------------------------------------------------

/// Why a registration was refused.
#[derive(Debug, Clone, Copy, PartialEq, Eq, Structural)]
pub enum RegisterError {
    RateLimited,
    BadCaptcha,
    BadInput,
    NameTaken,
    Failed,
}

impl RegisterError {
    /// The message shown on the form.
    pub fn message(&self) -> (res: &'static str)
        ensures
            res@ == match *self {
                RegisterError::RateLimited => "Rate limit exceeded (5 registrations/hour). Please try again later."@,
                RegisterError::BadCaptcha => "Incorrect or expired captcha answer"@,
                RegisterError::BadInput => "Username required and password must be at least 4 characters"@,
                RegisterError::NameTaken => "Username already taken"@,
                RegisterError::Failed => "Registration failed"@,
            },
    {
        match self {
            RegisterError::RateLimited => "Rate limit exceeded (5 registrations/hour). Please try again later.",
            RegisterError::BadCaptcha => "Incorrect or expired captcha answer",
            RegisterError::BadInput => "Username required and password must be at least 4 characters",
            RegisterError::NameTaken => "Username already taken",
            RegisterError::Failed => "Registration failed",
        }
    }
}

/// The checks of a registration form, in order: the rate limit, the
/// captcha, then the name and the password.
pub open spec fn registration_check(rate_ok: bool, captcha_ok: bool, username: Seq<char>, password: &str) -> Option<RegisterError> {
    if !rate_ok {
        Some(RegisterError::RateLimited)
    } else if !captcha_ok {
        Some(RegisterError::BadCaptcha)
    } else if !registration_ok(username, password) {
        Some(RegisterError::BadInput)
    } else {
        None
    }
}

/// Runs the checks of a registration form.
pub fn check_registration(rate_ok: bool, captcha_ok: bool, username: &str, password: &str) -> (res: Option<RegisterError>)
    ensures
        res == registration_check(rate_ok, captcha_ok, username@, password),
{
    if !rate_ok {
        Some(RegisterError::RateLimited)
    } else if !captcha_ok {
        Some(RegisterError::BadCaptcha)
    } else if !registration_input_ok(username, password) {
        Some(RegisterError::BadInput)
    } else {
        None
    }
}

/// Registers `username` (trimmed) with `password`, from `client_ip` (at
/// most 5 registrations an hour; a failing limit check lets it through),
/// the captcha cookie in `cookie` having to accept `captcha_answer`.  On
/// success, the session cookie of the new user.
pub fn register(
    db: &Database,
    secret: &str,
    cookie: Option<&str>,
    client_ip: &str,
    username: &str,
    password: &str,
    captcha_answer: &str,
) -> (res: Result<String, RegisterError>)
    ensures
        res matches Err(RegisterError::BadInput) ==> !registration_ok(username@, password),
        res matches Err(RegisterError::BadCaptcha) ==> exists|now: int|
            -8_400_000_000_000 <= now <= 8_400_000_000_000 && !#[trigger] captcha_accepted(
                secret@,
                opt_text(cookie),
                captcha_answer@,
                now,
            ),
        res is Ok ==> registration_ok(username@, password) && exists|now: int|
            -8_400_000_000_000 <= now <= 8_400_000_000_000 && #[trigger] captcha_accepted(
                secret@,
                opt_text(cookie),
                captcha_answer@,
                now,
            ),
        res matches Ok(c) ==> exists|user_id: i64, expiry: int|
            #![trigger session_token(secret@, user_id as int, expiry)]
            issued_until(expiry, week_secs()) && c@ == set_cookie(
                session_name(),
                session_token(secret@, user_id as int, expiry),
                604800,
            ) && user_added(trim(username@), password, user_id),
        res matches Err(RegisterError::RateLimited) ==> rate_refused(client_ip@, "signup"@, 5, 3600),
        !(res matches Err(RegisterError::RateLimited)) ==> rate_let_through(client_ip@, "signup"@, 5, 3600),
{
    let rate = db.check_and_record_rate_limit(client_ip, "signup", 5, 3600);
    let ghost rate_g = rate;
    let ghost now_r = choose|now: int|
        -8_400_000_000_000 <= now <= 8_400_000_000_000 && #[trigger] rate_answer(
            client_ip@,
            "signup"@,
            5,
            now - 3600,
            now,
            rate_g,
        );
    assert(rate_answer(client_ip@, "signup"@, 5, now_r - 3600, now_r, rate_g));
    let rate_ok = match rate {
        Ok(b) => b,
        Err(_) => true,
    };
    let captcha_ok = if rate_ok {
        captcha_answer_accepted(secret, cookie, captcha_answer)
    } else {
        false
    };
    if let Some(e) = check_registration(rate_ok, captcha_ok, username, password) {
        return Err(e);
    }
    let hash = match hash_password(password) {
        Ok(h) => h,
        Err(_) => return Err(RegisterError::Failed),
    };
    let name = crate::chars::trim_str(username);
    let created = db.create_user(name.as_str(), hash.as_str());
    let ghost cg = created;
    match created {
        Ok(user_id) => {
            assert(user_insert_answer(trim(username@), hash@, cg));
            assert(user_added(trim(username@), password, user_id));
            Ok(session_cookie(secret, user_id))
        },
        Err(e) => if e.is_unique_violation() {
            Err(RegisterError::NameTaken)
        } else {
            Err(RegisterError::Failed)
        },
    }
}

// ---------------------------------------------------------------------------
// Shared notes
// ---------------------------------------------------------------------------

/// A shared note as its visitors see it.
#[derive(Debug)]
pub struct SharedNote {
    pub id: i64,
    pub title: String,
    pub content_html: String,
    pub visibility: String,
    pub created_at: String,
    pub owner_id: i64,
    pub username: String,
    pub avatar: String,
    pub tags: Vec<String>,
    pub resources: Vec<ResourceInfo>,
}

/// What a visitor of a shared note gets.
#[derive(Debug)]
pub enum SharedNoteOutcome {
    /// No such note.
    NotFound,
    /// The note is private.
    Forbidden,
    /// The password form of the protected note with this id.
    AskPassword(i64),
    /// The note.
    Show(SharedNote),
    /// The note's text holds a link whose number does not fit an `i64`.
    Unreadable,
}

/// The visitor with this `Cookie` header may see note `n`: the note's rule
/// (see `note_view`) shows it to them, with the session and the access
/// cookie each checked at some clock reading.
pub open spec fn note_shown(secret: Seq<char>, cookie: Option<Seq<char>>, n: SharedNote) -> bool {
    exists|now1: int, now2: int|
        #![trigger session_user(secret, cookie, now1), note_access(secret, cookie, n.id as int, now2)]
        note_view(
            n.visibility@,
            session_user(secret, cookie, now1) == Some(n.owner_id as int),
            note_access(secret, cookie, n.id as int, now2),
        ) == NoteView::Show
}

/// `n` shows the shared note `m`: its id, title, visibility, creation time,
/// owner and the owner's name and avatar.
pub open spec fn shared_note_of(m: PublicMemoTuple, n: SharedNote) -> bool {
    &&& n.id == m.0
    &&& n.title@ == m.1@
    &&& n.visibility@ == m.3@
    &&& n.created_at@ == m.5@
    &&& n.owner_id == m.6
    &&& n.username@ == m.7@
    &&& n.avatar@ == avatar_of(m.7@)
    &&& shared_note_body(m, n)
}

/// The body of the shown note `n` of the stored note `m`: the HTML of its
/// text without the links to missing files, the files its links name, in
/// order, and the tags the store gave for it.
pub open spec fn shared_note_body(m: PublicMemoTuple, n: SharedNote) -> bool {
    &&& exists|found: Seq<bool>, rows: Seq<PublicResourceTuple>|
        #![trigger cleaned_text(m.2@, found), shows_rows(rows, n.resources@)]
        found.len() == note_links(m.2@).unwrap().len() && n.content_html@ == markdown_html(cleaned_text(m.2@, found))
            && shows_rows(rows, n.resources@) && row_ids(rows) == found_ids(note_links(m.2@).unwrap(), found)
    &&& exists|tr: Result<Vec<String>, DbError>| #[trigger] memo_tags_answer(m.0, tr) && n.tags@ == texts_of(tr)
}

/// What the visitor with the `Cookie` header `cookie` gets of the stored
/// note `m`, the session read at `now1` and the access cookie at `now2`.
pub open spec fn shared_view_of(
    secret: Seq<char>,
    cookie: Option<Seq<char>>,
    m: PublicMemoTuple,
    now1: int,
    now2: int,
) -> NoteView {
    note_view(
        m.3@,
        session_user(secret, cookie, now1) == Some(m.6 as int),
        note_access(secret, cookie, m.0 as int, now2),
    )
}

/// `res` answers a visit when the store gave the note `row` (`None`: no such
/// note, or the store failed): not found; refused for a private note of
/// someone else; the password form for a protected note of someone else
/// without its access cookie; else the note, unless its text holds a link
/// whose number does not fit an `i64`.
pub open spec fn shared_answer(
    res: SharedNoteOutcome,
    secret: Seq<char>,
    cookie: Option<Seq<char>>,
    row: Option<PublicMemoTuple>,
    now1: int,
    now2: int,
) -> bool {
    match row {
        None => res is NotFound,
        Some(m) => match shared_view_of(secret, cookie, m, now1, now2) {
            NoteView::Forbidden => res is Forbidden,
            NoteView::AskPassword => res matches SharedNoteOutcome::AskPassword(i) && i == m.0,
            NoteView::Show => if note_links(m.2@) is None {
                res is Unreadable
            } else {
                res matches SharedNoteOutcome::Show(n) && shared_note_of(m, n)
            },
        },
    }
}

/// `res` answers a visit to note `id` for some note with that id the store
/// gave (or none) and some clock readings.
pub open spec fn shared_note_answered(
    res: SharedNoteOutcome,
    secret: Seq<char>,
    cookie: Option<Seq<char>>,
    id: i64,
) -> bool {
    exists|row: Option<PublicMemoTuple>, now1: int, now2: int|
        #[trigger] shared_answer(res, secret, cookie, row, now1, now2) && (row matches Some(m)
            ==> m.0 == id) && shared_row_answer(id, row)
}

/// `row` is what the store gave when asked for the shared note `id`.
pub open spec fn shared_row_answer(id: i64, row: Option<PublicMemoTuple>) -> bool {
    exists|rr: Result<Option<PublicMemoTuple>, DbError>|
        #[trigger] memo_public_answer(id, rr) && row == match rr {
            Ok(Some(m)) => Some(m),
            _ => None::<PublicMemoTuple>,
        }
}

/// The shared note `id` for a visitor with the `Cookie` header `cookie`: a
/// private note only for its owner, a protected one for its owner and the
/// holders of its access cookie (the others get the password form), any
/// other note for everyone.
pub fn open_shared_note(db: &Database, secret: &str, cookie: Option<&str>, id: i64) -> (res: SharedNoteOutcome)
    ensures
        res matches SharedNoteOutcome::Show(n) ==> note_shown(secret@, opt_text(cookie), n),
        res matches SharedNoteOutcome::Show(n) ==> n.avatar@ == avatar_of(n.username@),
        shared_note_answered(res, secret@, opt_text(cookie), id),
{
    let current = get_session_user_id(secret, cookie);
    let ghost now1 = choose|now: int|
        -8_400_000_000_000 <= now <= 8_400_000_000_000 && #[trigger] session_user(
            secret@,
            opt_text(cookie),
            now,
        ) == (match current {
            Some(u) => Some(u as int),
            None => None,
        });
    let note_res = db.get_memo_public(id);
    let ghost rr = note_res;
    let note = match note_res {
        Ok(Some(n)) => n,
        _ => {
            assert(shared_answer(SharedNoteOutcome::NotFound, secret@, opt_text(cookie), None, 0, 0));
            assert(shared_row_answer(id, None));
            return SharedNoteOutcome::NotFound;
        },
    };
    let ghost row = note;
    assert(shared_row_answer(id, Some(row)));
    let (memo_id, title, content, visibility, _hash, created_at, owner_id, username) = note;
    let view = shared_note_view(secret, cookie, current, memo_id, owner_id, visibility.as_str());
    let ghost now2 = choose|now: int|
        -8_400_000_000_000 <= now <= 8_400_000_000_000 && view == note_view(
            visibility@,
            current == Some(owner_id),
            #[trigger] note_access(secret@, opt_text(cookie), memo_id as int, now),
        );
    assert((current == Some(owner_id)) == (session_user(secret@, opt_text(cookie), now1) == Some(owner_id as int)));
    assert(view == shared_view_of(secret@, opt_text(cookie), row, now1, now2));
    match view {
        NoteView::Forbidden => {
            assert(shared_answer(SharedNoteOutcome::Forbidden, secret@, opt_text(cookie), Some(row), now1, now2));
            return SharedNoteOutcome::Forbidden;
        },
        NoteView::AskPassword => {
            assert(shared_answer(SharedNoteOutcome::AskPassword(memo_id), secret@, opt_text(cookie), Some(row), now1, now2));
            return SharedNoteOutcome::AskPassword(memo_id);
        },
        NoteView::Show => {},
    }
    assert((current == Some(owner_id)) == (session_user(secret@, opt_text(cookie), now1) == Some(owner_id as int)));
    assert(note_view(
        visibility@,
        session_user(secret@, opt_text(cookie), now1) == Some(owner_id as int),
        note_access(secret@, opt_text(cookie), memo_id as int, now2),
    ) == NoteView::Show);
    if resource_links(content.as_str()).is_none() {
        assert(shared_answer(SharedNoteOutcome::Unreadable, secret@, opt_text(cookie), Some(row), now1, now2));
        return SharedNoteOutcome::Unreadable;
    }
    let avatar = avatar_char(username.as_str());
    let (cleaned, resources) = process_memo_content(db, content.as_str());
    let ghost (found, frows) = choose|found: Seq<bool>, rows: Seq<PublicResourceTuple>|
        found.len() == note_links(content@).unwrap().len() && cleaned@ == cleaned_text(content@, found)
            && shows_rows(rows, resources@) && row_ids(rows) == found_ids(note_links(content@).unwrap(), found);
    let content_html = render_markdown(cleaned.as_str());
    let tags_res = db.get_memo_tags(memo_id);
    let ghost tr = tags_res;
    let tags = match tags_res {
        Ok(t) => t,
        Err(_) => Vec::new(),
    };
    assert(tags@ == texts_of(tr));
    let n = SharedNote {
        id: memo_id,
        title,
        content_html,
        visibility,
        created_at,
        owner_id,
        username,
        avatar,
        tags,
        resources,
    };
    assert(note_view(
        n.visibility@,
        session_user(secret@, opt_text(cookie), now1) == Some(n.owner_id as int),
        note_access(secret@, opt_text(cookie), n.id as int, now2),
    ) == NoteView::Show);
    assert(note_shown(secret@, opt_text(cookie), n));
    assert(shows_rows(frows, n.resources@) && n.content_html@ == markdown_html(cleaned_text(row.2@, found)));
    assert(memo_tags_answer(row.0, tr));
    assert(shared_note_of(row, n));
    let res = SharedNoteOutcome::Show(n);
    assert(shared_answer(res, secret@, opt_text(cookie), Some(row), now1, now2));
    res
}

/// How a password sent for a shared note is answered.
#[derive(Debug)]
pub enum UnlockOutcome {
    /// No such note.
    NotFound,
    /// The note with this id is not protected: go and see it.
    NotProtected(i64),
    /// The password is right: the access cookie to set for the note with
    /// this id.
    Unlocked(i64, String),
    /// The password is wrong (or the note has no valid hash): the form
    /// again, for the note with this id.
    WrongPassword(i64),
}

/// The password a form sent; none reads as the empty one.
pub open spec fn given_password(password: Option<&str>) -> Seq<char> {
    match password {
        Some(p) => p@,
        None => Seq::empty(),
    }
}

/// `c` is a fresh access cookie for note `memo_id`, given for a password
/// that matches the note's hash.
pub open spec fn unlocked_with(secret: Seq<char>, password: Seq<char>, memo_id: i64, c: Seq<char>) -> bool {
    exists|hash: Seq<char>, expiry: int|
        #![trigger note_token(secret, memo_id as int, expiry), bcrypt_verdict(password, hash)]
        bcrypt_verdict(password, hash) == Some(true) && issued_until(expiry, week_secs()) && c == set_cookie(
            note_cookie_name(memo_id as int),
            note_token(secret, memo_id as int, expiry),
            604800,
        )
}

/// The password hash of a stored note (none reads as the empty hash).
pub open spec fn hash_or_empty(h: Option<String>) -> Seq<char> {
    match h {
        Some(x) => x@,
        None => Seq::empty(),
    }
}

/// `res` answers a password sent for note `id` when the store gave `rr`
/// for that note: not found; not protected; unlocked when the password
/// checks against its hash; else the form again.
pub open spec fn unlock_answer(rr: Result<Option<PublicMemoTuple>, DbError>, password: Seq<char>, res: UnlockOutcome) -> bool {
    match rr {
        Ok(Some(m)) => if m.3@ != protected_word() {
            res == UnlockOutcome::NotProtected(m.0)
        } else if bcrypt_verdict(password, hash_or_empty(m.4)) == Some(true) {
            res matches UnlockOutcome::Unlocked(i, _) && i == m.0
        } else {
            res == UnlockOutcome::WrongPassword(m.0)
        },
        _ => res is NotFound,
    }
}

/// Checks the password sent for shared note `id` (no password reads as the
/// empty one, no hash as the empty hash).
pub fn unlock_shared_note(db: &Database, secret: &str, id: i64, password: Option<&str>) -> (res: UnlockOutcome)
    ensures
        res matches UnlockOutcome::Unlocked(memo_id, c) ==> unlocked_with(secret@, given_password(password), memo_id, c@),
        exists|rr: Result<Option<PublicMemoTuple>, DbError>|
            #[trigger] memo_public_answer(id, rr) && unlock_answer(rr, given_password(password), res),
{
    let found = db.get_memo_public(id);
    let ghost rr = found;
    assert(memo_public_answer(id, rr));
    let note = match found {
        Ok(Some(n)) => n,
        _ => return UnlockOutcome::NotFound,
    };
    let ghost m = note;
    let (memo_id, _title, _content, visibility, hash, _created_at, _owner_id, _username) = note;
    if !crate::request::is_protected(crate::chars::chars_of(visibility.as_str()).as_slice()) {
        return UnlockOutcome::NotProtected(memo_id);
    }
    let pw = match password {
        Some(p) => p,
        None => "",
    };
    proof {
        reveal_strlit("");
    }
    assert(pw@ == given_password(password));
    let h = match hash {
        Some(h) => h,
        None => String::new(),
    };
    assert(h@ == hash_or_empty(m.4));
    match verify_password(pw, h.as_str()) {
        Ok(true) => {
            let c = note_access_cookie(secret, memo_id);
            let ghost e = choose|expiry: int|
                issued_until(expiry, week_secs()) && c@ == #[trigger] set_cookie(
                    note_cookie_name(memo_id as int),
                    note_token(secret@, memo_id as int, expiry),
                    604800,
                );
            assert(bcrypt_verdict(given_password(password), h@) == Some(true));
            assert(note_token(secret@, memo_id as int, e) == note_token(secret@, memo_id as int, e));
            assert(unlocked_with(secret@, given_password(password), memo_id, c@));
            UnlockOutcome::Unlocked(memo_id, c)
        },
        _ => UnlockOutcome::WrongPassword(memo_id),
    }
}

/// How a request to protect a note with a password ends.
#[derive(Debug, PartialEq, Eq, Structural)]
pub enum ProtectError {
    /// Not signed in.
    Unauthorized,
    /// The user has no such note.
    NotFound,
    /// No password, or one shorter than four bytes.
    BadPassword,
    /// The password could not be hashed.
    HashFailed,
    /// The note could not be updated.
    UpdateFailed,
}

/// Protects note `id` of the signed-in user with `password`; on success,
/// the note's share path `/share/<id>`.
pub fn protect_note(db: &Database, secret: &str, cookie: Option<&str>, id: i64, password: Option<&str>) -> (res: Result<String, ProtectError>)
    ensures
        res matches Err(ProtectError::BadPassword) ==> !share_password_ok(password),
        res is Ok ==> share_password_ok(password),
        res matches Ok(url) ==> url@ == share_path(id as int),
        res is Ok ==> protected_by(id, password),
{
    let user_id = match get_session_user_id(secret, cookie) {
        Some(u) => u,
        None => return Err(ProtectError::Unauthorized),
    };
    match db.get_memo_by_id(id, user_id) {
        Ok(Some(_)) => {},
        _ => return Err(ProtectError::NotFound),
    }
    if !share_password_acceptable(password) {
        return Err(ProtectError::BadPassword);
    }
    let pw = match password {
        Some(p) => p,
        None => return Err(ProtectError::BadPassword),
    };
    let hash = match hash_password(pw) {
        Ok(h) => h,
        Err(_) => return Err(ProtectError::HashFailed),
    };
    let updated = db.update_memo_visibility(id, user_id, "protected", Some(hash.as_str()));
    let ghost ug = updated;
    match updated {
        Ok(()) => {
            assert(visibility_update_answer(id, user_id, "protected"@, ParamView::Text(hash@), ug));
            assert(bcrypt_verdict(pw@, hash@) == Some(true));
            assert(password == Some(pw));
            assert(visibility_update_answer(id, user_id, "protected"@, ParamView::Text(hash@), Ok(())));
            assert(protected_by(id, password));
            Ok(share_url(id))
        },
        Err(_) => Err(ProtectError::UpdateFailed),
    }
}

/// What the store gives when asked to set the visibility and the password
/// hash of note `id` of user `user_id`.
pub open spec fn visibility_update_answer(
    id: i64,
    user_id: i64,
    vis: Seq<char>,
    hash: ParamView,
    res: Result<(), DbError>,
) -> bool {
    ran(SQL_UPDATE_VISIBILITY@, seq![text_p(vis), hash, int_p(id), int_p(user_id)], res)
}

/// The store set note `id` (of some user) to `protected` with a hash that
/// `password` checks against.
pub open spec fn protected_by(id: i64, password: Option<&str>) -> bool {
    exists|user_id: i64, hash: Seq<char>|
        #[trigger] visibility_update_answer(id, user_id, "protected"@, ParamView::Text(hash), Ok(()))
            && (password matches Some(p) && bcrypt_verdict(p@, hash) == Some(true))
}

/// The path of a shared note, `/share/<id>`.
pub open spec fn share_path(id: int) -> Seq<char> {
    seq!['/', 's', 'h', 'a', 'r', 'e', '/'] + crate::num::dec(id)
}

/// `/share/<id>`.
pub fn share_url(id: i64) -> (res: String)
    ensures
        res@ == share_path(id as int),
{
    let mut v: Vec<char> = vec!['/', 's', 'h', 'a', 'r', 'e', '/'];
    let d = crate::num::dec_chars(id);
    crate::chars::append_chars(&mut v, d.as_slice());
    assert(v@ =~= share_path(id as int));
    crate::chars::string_of(v.as_slice())
}

// ---------------------------------------------------------------------------
// Downloads
// ---------------------------------------------------------------------------

/// Whether a file may be downloaded, and where it is stored.
#[derive(Debug)]
pub enum DownloadOutcome {
    /// No such file.
    NotFound,
    /// The visitor may not have it.
    Forbidden,
    /// Allowed: the stored file name and the MIME type.
    Allowed(String, String),
}

/// `res` answers a download when the store gave the file `row` (`None`: no
/// such file, or the store failed) and the notes `refs` that mention it,
/// for the signed-in user `current` at time `now`: not found; the file when
/// `file_access` lets the visitor have it; else refused.
pub open spec fn download_outcome_is(
    res: DownloadOutcome,
    secret: Seq<char>,
    cookie: Option<Seq<char>>,
    current: Option<i64>,
    row: Option<PublicResourceTuple>,
    refs: Seq<MemoRef>,
    now: int,
) -> bool {
    match row {
        None => res is NotFound,
        Some(r) => if file_access(secret, cookie, current, r.5, refs, now) {
            res matches DownloadOutcome::Allowed(f, m) && f@ == r.1@ && m@ == r.3@
        } else {
            res is Forbidden
        },
    }
}

/// The answer to a download from the file the store gave and the notes
/// that mention it, for the signed-in user `current` at time `now`.
pub fn download_decision(
    secret: &str,
    cookie: Option<&str>,
    current: Option<i64>,
    row: Option<PublicResourceTuple>,
    refs: &[MemoRef],
    now: i64,
) -> (res: DownloadOutcome)
    ensures
        download_outcome_is(res, secret@, opt_text(cookie), current, row, refs@, now as int),
{
    match row {
        None => DownloadOutcome::NotFound,
        Some(r) => {
            if file_access_at(secret, cookie, current, r.5, refs, now) {
                DownloadOutcome::Allowed(r.1, r.3)
            } else {
                DownloadOutcome::Forbidden
            }
        },
    }
}

/// `refs` are the mentions `rows`, one for one.
pub open spec fn refs_match(refs: Seq<MemoRef>, rows: Seq<MemoRefTuple>) -> bool {
    &&& refs.len() == rows.len()
    &&& forall|i: int|
        0 <= i < rows.len() ==> (#[trigger] refs[i]).id == rows[i].0 && refs[i].visibility@ == rows[i].1@
            && refs[i].owner_id == rows[i].2
}

/// What the store gives when asked for the notes whose text holds
/// `/resources/<id>`.
pub open spec fn mentions_answer(id: i64, res: Result<Vec<MemoRefTuple>, DbError>) -> bool {
    refs_answer(SQL_MEMOS_REFERENCING@, seq![text_p(contains_pattern(resource_path(id as int)))], res)
}

/// The mentions the store gave (none when it failed).
pub open spec fn mentioned_by(res: Result<Vec<MemoRefTuple>, DbError>) -> Seq<MemoRefTuple> {
    match res {
        Ok(v) => v@,
        Err(_) => Seq::empty(),
    }
}

/// The file the store gave (none when there is none or it failed).
pub open spec fn file_row_of(res: Result<Option<PublicResourceTuple>, DbError>) -> Option<PublicResourceTuple> {
    match res {
        Ok(Some(r)) => Some(r),
        _ => None,
    }
}

/// `row` is what the store gave when asked for file `id`, and `refs` what
/// it gave when asked for the notes that mention it, which is asked only
/// when the file exists and the visitor `current` does not own it.
pub open spec fn download_store_answer(
    id: i64,
    current: Option<i64>,
    row: Option<PublicResourceTuple>,
    refs: Seq<MemoRef>,
) -> bool {
    &&& exists|rr: Result<Option<PublicResourceTuple>, DbError>|
        #[trigger] resource_public_answer(id, rr) && row == file_row_of(rr)
    &&& match row {
        Some(r) => if current == Some(r.5) {
            refs.len() == 0
        } else {
            exists|fr: Result<Vec<MemoRefTuple>, DbError>|
                #[trigger] mentions_answer(id, fr) && refs_match(refs, mentioned_by(fr))
        },
        None => refs.len() == 0,
    }
}

/// `res` answers a download of file `id` for the session read at some time,
/// the file and the notes mentioning it that the store gave when asked
/// about that id, and some clock reading.
pub open spec fn download_answered(
    res: DownloadOutcome,
    secret: Seq<char>,
    cookie: Option<Seq<char>>,
    id: i64,
) -> bool {
    exists|
        current: Option<i64>,
        now1: int,
        row: Option<PublicResourceTuple>,
        refs: Seq<MemoRef>,
        now: int,
    |
        #![trigger download_outcome_is(res, secret, cookie, current, row, refs, now), session_user(secret, cookie, now1)]
        session_user(secret, cookie, now1) == (match current {
            Some(u) => Some(u as int),
            None => None,
        }) && download_outcome_is(res, secret, cookie, current, row, refs, now) && download_store_answer(
            id,
            current,
            row,
            refs,
        )
}

/// Whether the visitor may download file `id`: its owner may, and so may
/// whoever a note mentioning it opens it to (see `file_access`).
pub fn download_resource(db: &Database, secret: &str, cookie: Option<&str>, id: i64) -> (res: DownloadOutcome)
    ensures
        download_answered(res, secret@, opt_text(cookie), id),
{
    let current = get_session_user_id(secret, cookie);
    let ghost now1 = choose|now: int|
        -8_400_000_000_000 <= now <= 8_400_000_000_000 && #[trigger] session_user(
            secret@,
            opt_text(cookie),
            now,
        ) == (match current {
            Some(u) => Some(u as int),
            None => None,
        });
    let row_res = db.get_resource_public(id);
    let ghost rr = row_res;
    let row: Option<PublicResourceTuple> = match row_res {
        Ok(Some(r)) => Some(r),
        _ => None,
    };
    assert(row == file_row_of(rr));
    let mut refs: Vec<MemoRef> = Vec::new();
    let is_owner = match &row {
        Some(r) => current == Some(r.5),
        None => true,
    };
    if !is_owner {
        let pattern = resource_ref_pattern(id);
        let refs_res = db.get_memos_referencing_resource(pattern.as_str());
        let ghost fr = refs_res;
        let rows = match refs_res {
            Ok(v) => v,
            Err(_) => Vec::new(),
        };
        assert(rows@ == mentioned_by(fr));
        let mut k: usize = 0;
        while k < rows.len()
            invariant
                k <= rows@.len(),
                refs@.len() == k,
                forall|i: int|
                    0 <= i < k ==> (#[trigger] refs@[i]).id == rows@[i].0 && refs@[i].visibility@ == rows@[i].1@
                        && refs@[i].owner_id == rows@[i].2,
            decreases rows.len() - k,
        {
            let r = &rows[k];
            refs.push(MemoRef { id: r.0, visibility: r.1.clone(), owner_id: r.2 });
            k = k + 1;
        }
        assert(refs_match(refs@, mentioned_by(fr)));
        assert(mentions_answer(id, fr));
    }
    let now = crate::auth::now_timestamp();
    let ghost row_g = row;
    let res = download_decision(secret, cookie, current, row, refs.as_slice(), now);
    assert(session_user(secret@, opt_text(cookie), now1) == (match current {
        Some(u) => Some(u as int),
        None => None,
    }));
    assert(download_outcome_is(res, secret@, opt_text(cookie), current, row_g, refs@, now as int));
    assert(download_store_answer(id, current, row_g, refs@));
    res
}

// ---------------------------------------------------------------------------
// A user's notes
// ---------------------------------------------------------------------------

/// A page cannot be made.
#[derive(Debug, PartialEq, Eq, Structural)]
pub enum PageError {
    /// The signed-in user no longer exists.
    NoUser,
    /// A note holds what cannot be shown: a link number that does not fit an
    /// `i64`, or a creation time whose day cannot be cut out.
    Unreadable,
}

/// Whether a note can be put on the timeline (see `timeline_ready`).
pub fn memo_timeline_ready(m: &MemoTuple) -> (res: bool)
    ensures
        res == timeline_ready(*m),
{
    m.4.as_str().as_bytes().len() >= 10 && m.4.as_str().is_char_boundary(10) && resource_links(m.2.as_str()).is_some()
}

/// The timeline of some notes, or `None` when one of them cannot be shown.
pub fn timeline_of(db: &Database, memos: &Vec<MemoTuple>) -> (res: Option<Vec<MemoGroup>>)
    ensures
        res is None <==> exists|i: int| 0 <= i < memos@.len() && !timeline_ready(#[trigger] memos@[i]),
        res matches Some(groups) ==> is_timeline(memos@, groups@),
{
    let mut k: usize = 0;
    while k < memos.len()
        invariant
            k <= memos@.len(),
            forall|i: int| 0 <= i < k ==> timeline_ready(#[trigger] memos@[i]),
        decreases memos.len() - k,
    {
        if !memo_timeline_ready(&memos[k]) {
            return None;
        }
        k = k + 1;
    }
    Some(group_memos_by_date(db, memos.as_slice()))
}

/// The first page of `limit` out of `fetched` notes (one more than a page
/// was asked for), and whether there is more.
fn first_page(memos: Vec<MemoTuple>, limit: usize) -> (res: (Vec<MemoTuple>, bool))
    ensures
        res.1 == (memos@.len() > limit),
        res.0@ == if memos@.len() > limit {
            memos@.take(limit as int)
        } else {
            memos@
        },
{
    let more = memos.len() > limit;
    let mut v = memos;
    v.truncate(limit);
    (v, more)
}

/// The main page of a user: their name and avatar, the first page of their
/// timeline (20 notes), the offset of the next page, and the selected note
/// when it is theirs.
#[derive(Debug)]
pub struct AppPage {
    pub username: String,
    pub avatar: String,
    pub memo_groups: Vec<MemoGroup>,
    pub next_offset: Option<i64>,
    pub selected_note: Option<MemoCard>,
}

/// The first `n` of `memos` (all of them when there are no more).
pub open spec fn first_of(memos: Seq<MemoTuple>, n: int) -> Seq<MemoTuple> {
    if memos.len() > n {
        memos.take(n)
    } else {
        memos
    }
}

/// `groups` and `next` are the timeline page of user `user_id` at `offset`
/// made from what the store gave when asked for 21 of the user's notes
/// after the first `offset`: the first 20 grouped by day, and a next page
/// exactly when more than 20 came back.
pub open spec fn timeline_page_answer(
    groups: Seq<MemoGroup>,
    next: Option<i64>,
    user_id: i64,
    offset: i64,
    fetched: Result<Vec<MemoTuple>, DbError>,
) -> bool {
    &&& memos_page_answer(user_id, 21, offset, fetched)
    &&& is_timeline(first_of(listed(fetched), 20), groups)
    &&& next == if listed(fetched).len() > 20 {
        Some((offset + 20) as i64)
    } else {
        None
    }
}

/// `groups` and `next` are the timeline page of user `user_id` at `offset`
/// for some answer of the store.
pub open spec fn timeline_from_store(groups: Seq<MemoGroup>, next: Option<i64>, user_id: i64, offset: i64) -> bool {
    exists|fetched: Result<Vec<MemoTuple>, DbError>|
        #[trigger] timeline_page_answer(groups, next, user_id, offset, fetched)
}

/// `name` is the name of user `user_id` as the store gave it.
pub open spec fn user_name_answer(user_id: i64, name: Seq<char>) -> bool {
    exists|u: (i64, String)| #[trigger] user_by_id_answer(user_id, Ok(Some(u))) && u.1@ == name
}

/// The main page of user `user_id`, with note `selected` opened.
pub fn app_page(db: &Database, user_id: i64, selected: Option<i64>) -> (res: Result<AppPage, PageError>)
    ensures
        res matches Ok(p) ==> p.avatar@ == avatar_of(p.username@),
        res matches Ok(p) ==> p.next_offset is None || p.next_offset == Some(20i64),
        res matches Ok(p) ==> timeline_of_some(p.memo_groups@, 20),
        res matches Ok(p) ==> (p.selected_note matches Some(c) ==> shows_a_note(c)),
        res matches Ok(p) ==> user_name_answer(user_id, p.username@) && timeline_from_store(
            p.memo_groups@,
            p.next_offset,
            user_id,
            0,
        ),
{
    let user_res = db.get_user_by_id(user_id);
    let ghost ug = user_res;
    let user = match user_res {
        Ok(Some(u)) => u,
        _ => return Err(PageError::NoUser),
    };
    assert(user_by_id_answer(user_id, ug));
    assert(user_name_answer(user_id, user.1@));
    let username = user.1;
    let avatar = avatar_char(username.as_str());
    let fetched_res = db.get_memos_paginated(user_id, 21, 0);
    let ghost fr = fetched_res;
    let fetched = match fetched_res {
        Ok(v) => v,
        Err(_) => Vec::new(),
    };
    assert(fetched@ == listed(fr));
    let (page, more) = first_page(fetched, 20);
    let groups = match timeline_of(db, &page) {
        Some(g) => g,
        None => return Err(PageError::Unreadable),
    };
    assert(timeline_page_answer(groups@, if more { Some(20i64) } else { None }, user_id, 0, fr));
    let mut selected_note: Option<MemoCard> = None;
    if let Some(note_id) = selected {
        if let Ok(Some(m)) = db.get_memo_by_id(note_id, user_id) {
            if resource_links(m.2.as_str()).is_none() {
                return Err(PageError::Unreadable);
            }
            selected_note = Some(memo_card(db, &m));
        }
    }
    Ok(AppPage {
        username,
        avatar,
        memo_groups: groups,
        next_offset: if more {
            Some(20)
        } else {
            None
        },
        selected_note,
    })
}

/// A page of the timeline after the first: the groups, the user's name and
/// avatar, the offset asked for and the next one.
#[derive(Debug)]
pub struct FeedPage {
    pub memo_groups: Vec<MemoGroup>,
    pub username: String,
    pub avatar: String,
    pub offset: i64,
    pub next_offset: Option<i64>,
}

/// The page of user `user_id`'s timeline at `offset` (20 notes).
pub fn memos_feed(db: &Database, user_id: i64, offset: i64) -> (res: Result<FeedPage, PageError>)
    requires
        offset <= i64::MAX - 20,
    ensures
        res matches Ok(p) ==> p.offset == offset && (p.next_offset is None || p.next_offset == Some(
            (offset + 20) as i64,
        )),
        res matches Ok(p) ==> timeline_of_some(p.memo_groups@, 20),
        res matches Ok(p) ==> user_name_answer(user_id, p.username@) && p.avatar@ == avatar_of(p.username@)
            && timeline_from_store(p.memo_groups@, p.next_offset, user_id, offset),
{
    let user_res = db.get_user_by_id(user_id);
    let ghost ug = user_res;
    let user = match user_res {
        Ok(Some(u)) => u,
        _ => return Err(PageError::NoUser),
    };
    assert(user_by_id_answer(user_id, ug));
    assert(user_name_answer(user_id, user.1@));
    let avatar = avatar_char(user.1.as_str());
    let fetched_res = db.get_memos_paginated(user_id, 21, offset);
    let ghost fr = fetched_res;
    let fetched = match fetched_res {
        Ok(v) => v,
        Err(_) => Vec::new(),
    };
    assert(fetched@ == listed(fr));
    let (page, more) = first_page(fetched, 20);
    let groups = match timeline_of(db, &page) {
        Some(g) => g,
        None => return Err(PageError::Unreadable),
    };
    assert(timeline_page_answer(groups@, if more { Some((offset + 20) as i64) } else { None }, user_id, offset, fr));
    Ok(FeedPage {
        memo_groups: groups,
        username: user.1,
        avatar,
        offset,
        next_offset: if more {
            Some(offset + 20)
        } else {
            None
        },
    })
}

/// `groups` are the timeline of the notes the store gave for `query`.
pub open spec fn search_timeline(user_id: i64, query: SearchQuery, groups: Seq<MemoGroup>) -> bool {
    exists|r: Result<Vec<MemoTuple>, DbError>| #[trigger] search_answer(user_id, query, r) && is_timeline(listed(r), groups)
}

/// The timeline of the notes a search finds, with the user's name and
/// avatar.
pub fn search_page(db: &Database, user_id: i64, query: &SearchQuery) -> (res: Result<(Vec<MemoGroup>, String, String), PageError>)
    ensures
        res matches Ok(p) ==> p.2@ == avatar_of(p.1@),
        res matches Ok(p) ==> some_timeline(p.0@),
        res matches Ok(p) ==> search_timeline(user_id, *query, p.0@) && user_name_answer(user_id, p.1@),
{
    let memos = run_search(db, user_id, query);
    let ghost rg = choose|r: Result<Vec<MemoTuple>, DbError>|
        #[trigger] search_answer(user_id, *query, r) && memos@ == listed(r);
    let user_res = db.get_user_by_id(user_id);
    let ghost ug = user_res;
    let user = match user_res {
        Ok(Some(u)) => u,
        _ => return Err(PageError::NoUser),
    };
    assert(user_by_id_answer(user_id, ug));
    assert(user_name_answer(user_id, user.1@));
    let avatar = avatar_char(user.1.as_str());
    let groups = match timeline_of(db, &memos) {
        Some(g) => g,
        None => return Err(PageError::Unreadable),
    };
    assert(is_timeline(memos@, groups@));
    assert(search_answer(user_id, *query, rg));
    assert(search_timeline(user_id, *query, groups@));
    Ok((groups, user.1, avatar))
}

/// `html` and `files` show the text of note `m`: the HTML of the text
/// without the links to missing files, and the files its links name.
pub open spec fn note_body(m: MemoTuple, html: Seq<char>, files: Seq<ResourceInfo>) -> bool {
    exists|found: Seq<bool>, rows: Seq<PublicResourceTuple>|
        #![trigger cleaned_text(m.2@, found), shows_rows(rows, files)]
        found.len() == note_links(m.2@).unwrap().len() && html == markdown_html(cleaned_text(m.2@, found))
            && shows_rows(rows, files) && row_ids(rows) == found_ids(note_links(m.2@).unwrap(), found)
}

/// `html`, `created_at` and `files` are the detail of note `id` of user
/// `user_id` as the store gave it.
pub open spec fn stored_note_detail(
    id: i64,
    user_id: i64,
    html: Seq<char>,
    created_at: Seq<char>,
    files: Seq<ResourceInfo>,
) -> bool {
    exists|m: MemoTuple|
        #[trigger] memo_by_id_answer(id, user_id, Ok(Some(m))) && created_at == m.4@ && note_body(m, html, files)
}

/// `card` shows note `id` of user `user_id` as the store gave it.
pub open spec fn stored_note_card(id: i64, user_id: i64, card: MemoCard) -> bool {
    exists|m: MemoTuple| #[trigger] memo_by_id_answer(id, user_id, Ok(Some(m))) && card_of(m, card)
}

/// Note `id` of user `user_id` ready to show, with the user's name.
pub fn memo_fragment(db: &Database, user_id: i64, id: i64) -> (res: Result<Option<(MemoCard, String)>, PageError>)
    ensures
        res matches Ok(Some(p)) ==> p.0.id == id && shows_a_note(p.0),
        res matches Ok(Some(p)) ==> stored_note_card(id, user_id, p.0) && user_name_answer(user_id, p.1@),
{
    let user_res = db.get_user_by_id(user_id);
    let ghost ug = user_res;
    let user = match user_res {
        Ok(Some(u)) => u,
        _ => return Err(PageError::NoUser),
    };
    assert(user_by_id_answer(user_id, ug));
    assert(user_name_answer(user_id, user.1@));
    let found = db.get_memo_by_id(id, user_id);
    let ghost fg = found;
    match found {
        Ok(Some(m)) => {
            if resource_links(m.2.as_str()).is_none() {
                return Err(PageError::Unreadable);
            }
            assert(memo_by_id_answer(id, user_id, fg));
            let ghost mg = m;
            let shown: MemoTuple = (id, m.1, m.2, m.3, m.4);
            assert(shown == mg);
            let card = memo_card(db, &shown);
            assert(stored_note_card(id, user_id, card));
            Ok(Some((card, user.1)))
        },
        _ => Ok(None),
    }
}

/// A note's text as HTML, its creation time and its files, for the detail
/// view of note `id` of user `user_id`.
pub fn note_detail(db: &Database, user_id: i64, id: i64) -> (res: Result<Option<(String, String, Vec<ResourceInfo>)>, PageError>)
    ensures
        res matches Ok(Some(d)) ==> exists|content: Seq<char>, found: Seq<bool>|
            note_links(content) is Some && found.len() == note_links(content).unwrap().len() && d.0@
                == markdown_html(#[trigger] cleaned_text(content, found)),
        res matches Ok(Some(d)) ==> stored_note_detail(id, user_id, d.0@, d.1@, d.2@),
{
    let found_res = db.get_memo_by_id(id, user_id);
    let ghost fg = found_res;
    match found_res {
        Ok(Some(m)) => {
            if resource_links(m.2.as_str()).is_none() {
                return Err(PageError::Unreadable);
            }
            assert(memo_by_id_answer(id, user_id, fg));
            let ghost mg = m;
            let (cleaned, resources) = process_memo_content(db, m.2.as_str());
            let ghost (found, frows) = choose|found: Seq<bool>, rows: Seq<PublicResourceTuple>|
                found.len() == note_links(m.2@).unwrap().len() && cleaned@ == cleaned_text(m.2@, found)
                    && shows_rows(rows, resources@) && row_ids(rows) == found_ids(note_links(m.2@).unwrap(), found);
            let html = render_markdown(cleaned.as_str());
            assert(note_body(mg, html@, resources@)) by {
                assert(shows_rows(frows, resources@) && html@ == markdown_html(cleaned_text(mg.2@, found)));
            }
            Ok(Some((html, m.4, resources)))
        },
        _ => Ok(None),
    }
}

/// What the edit form of note `id` shows: its id, content, visibility, and
/// whether it has a password.
pub fn edit_form(db: &Database, user_id: i64, id: i64) -> (res: Option<(i64, String, String, bool)>)
    ensures
        res matches Some(f) ==> f.0 == id,
        match res {
            Some(f) => exists|m: MemoTuple|
                #[trigger] memo_by_id_answer(id, user_id, Ok(Some(m))) && f.1@ == m.2@ && f.2@ == m.3@
                    && has_password_answer(id, user_id, f.3),
            None => exists|r: Result<Option<MemoTuple>, DbError>| #[trigger] memo_by_id_answer(id, user_id, r) && !(r matches Ok(Some(_))),
        },
{
    let found = db.get_memo_by_id(id, user_id);
    let ghost fg = found;
    match found {
        Ok(Some(m)) => {
            let has_password = db.get_memo_has_password(m.0, user_id);
            assert(memo_by_id_answer(id, user_id, fg));
            Some((m.0, m.2, m.3, has_password))
        },
        _ => {
            assert(memo_by_id_answer(id, user_id, fg));
            None
        },
    }
}

/// `out` lists `memos` by id, title, content and visibility.
pub open spec fn projects_memos(memos: Seq<MemoTuple>, out: Seq<(i64, String, String, String)>) -> bool {
    memos.len() == out.len() && forall|i: int|
        0 <= i < memos.len() ==> (#[trigger] out[i]).0 == memos[i].0 && out[i].1@ == memos[i].1@ && out[i].2@
            == memos[i].2@ && out[i].3@ == memos[i].3@
}

/// What the store gives when asked for user `user_id`'s notes, those
/// containing `q` only when it is given and not empty.
pub open spec fn notes_found_answer(user_id: i64, q: Option<Seq<char>>, r: Result<Vec<MemoTuple>, DbError>) -> bool {
    match q {
        Some(t) if t.len() > 0 => memos_answer(SQL_SEARCH_MEMOS@, seq![int_p(user_id), text_p(contains_pattern(t))], r),
        _ => memos_answer(SQL_MEMOS@, seq![int_p(user_id)], r),
    }
}

/// The notes of the JSON list (found by `q` when it is given and not
/// empty): id, title, content, visibility.
pub fn memos_json(db: &Database, user_id: i64, q: Option<&str>) -> (res: Vec<(i64, String, String, String)>)
    ensures
        exists|r: Result<Vec<MemoTuple>, DbError>|
            #[trigger] notes_found_answer(user_id, opt_text(q), r) && projects_memos(listed(r), res@),
{
    let memos = match q {
        Some(s) => if s.is_empty() {
            db.get_memos(user_id)
        } else {
            db.search_memos(user_id, s)
        },
        None => db.get_memos(user_id),
    };
    let ghost rg = memos;
    assert(notes_found_answer(user_id, opt_text(q), rg));
    let memos = match memos {
        Ok(v) => v,
        Err(_) => Vec::new(),
    };
    let mut out: Vec<(i64, String, String, String)> = Vec::new();
    let mut k: usize = 0;
    while k < memos.len()
        invariant
            k <= memos@.len(),
            projects_memos(memos@.take(k as int), out@),
        decreases memos.len() - k,
    {
        let m = &memos[k];
        out.push((m.0, m.1.clone(), m.2.clone(), m.3.clone()));
        k = k + 1;
        assert(projects_memos(memos@.take(k as int), out@)) by {
            assert forall|i: int| 0 <= i < k implies memos@.take(k as int)[i] == memos@[i] by {}
        }
    }
    assert(memos@.take(memos@.len() as int) =~= memos@);
    out
}

// ---------------------------------------------------------------------------
// Writing notes
// ---------------------------------------------------------------------------

/// Why a note could not be written.
#[derive(Debug, PartialEq, Eq, Structural)]
pub enum MemoError {
    /// The text is blank.
    Empty,
    /// The store failed, or the user no longer exists.
    Failed,
    /// The text holds a link whose number does not fit an `i64`.
    Unreadable,
}

/// A note as written back to the page, with the author's name and avatar.
#[derive(Debug)]
pub struct MemoFragment {
    pub card: MemoCard,
    pub username: String,
    pub avatar: String,
}

/// What the store gives when asked to add a note of user `user_id` with
/// this title, text, visibility and password hash.
pub open spec fn memo_insert_answer(
    user_id: i64,
    title: Seq<char>,
    content: Seq<char>,
    vis: Seq<char>,
    hash: ParamView,
    res: Result<i64, DbError>,
) -> bool {
    inserted(SQL_CREATE_MEMO@, seq![int_p(user_id), text_p(title), text_p(content), text_p(vis), hash], res)
}

/// The store added note `id` of user `user_id` with this title, text and
/// visibility (and some password hash).
pub open spec fn memo_inserted(user_id: i64, title: Seq<char>, content: Seq<char>, vis: Seq<char>, id: i64) -> bool {
    exists|hash: ParamView| #[trigger] memo_insert_answer(user_id, title, content, vis, hash, Ok(id))
}

/// `vis` is the visibility a new note gets from the form, for some fresh
/// hash of its password.
pub open spec fn created_visibility(
    requested: Option<Seq<char>>,
    password: Option<&str>,
    vis: Seq<char>,
) -> bool {
    exists|hash: Option<Seq<char>>| #[trigger] new_note_visibility(requested, password, vis, hash)
}

/// `vis` is the visibility an edited note gets from the form, for some
/// fresh hash of its password and the note's current visibility and hash.
pub open spec fn edited_visibility_is(
    requested: Option<Seq<char>>,
    password: Option<&str>,
    vis: Seq<char>,
) -> bool {
    exists|hash: Option<Seq<char>>| #[trigger] edited_note_visibility(requested, password, vis, hash)
}

/// Writes a new note of user `user_id`: its text trimmed, its title from
/// the text, its visibility from the form (see `visibility_for_new_memo`),
/// its hashtags; gives the note ready to show.
pub fn create_memo(
    db: &Database,
    user_id: i64,
    content: &str,
    visibility: Option<&str>,
    password: Option<&str>,
) -> (res: Result<MemoFragment, MemoError>)
    ensures
        res matches Err(MemoError::Empty) <==> trim(content@).len() == 0,
        res matches Ok(f) ==> f.card.content@ == trim(content@) && f.card.title@ == title_of(trim(content@))
            && tag_list_of(trim(content@), f.card.tags@.map_values(|s: String| s@))
            && f.avatar@ == avatar_of(f.username@),
        res matches Ok(f) ==> f.card.visibility@ == public_word() || f.card.visibility@ == private_word()
            || f.card.visibility@ == protected_word(),
        res matches Ok(f) ==> created_visibility(opt_text(visibility), password, f.card.visibility@),
        res matches Ok(f) ==> memo_inserted(user_id, f.card.title@, f.card.content@, f.card.visibility@, f.card.id),
        res matches Err(MemoError::Unreadable) <==> trim(content@).len() > 0 && note_links(
            trim(content@),
        ) is None,
        res matches Ok(f) ==> shows_a_note(f.card),
{
    let raw = trim_str(content);
    if raw.as_str().is_empty() {
        return Err(MemoError::Empty);
    }
    let (vis, hash) = visibility_for_new_memo(visibility, password);
    let (title, text) = extract_title(raw.as_str());
    proof {
        lemma_trim_idempotent(content@);
    }
    let tags = extract_tags(text.as_str());
    let created_at = current_datetime_text();
    if resource_links(text.as_str()).is_none() {
        return Err(MemoError::Unreadable);
    }
    let hash_ref: Option<&str> = match &hash {
        Some(h) => Some(h.as_str()),
        None => None,
    };
    let created = db.create_memo(user_id, title.as_str(), text.as_str(), vis.as_str(), hash_ref);
    let ghost cg = created;
    match created {
        Ok(memo_id) => {
            assert(memo_insert_answer(user_id, title@, text@, vis@, opt_p(hash_ref), cg));
            let _ = db.set_memo_tags(memo_id, tags.as_slice());
            let user = match db.get_user_by_id(user_id) {
                Ok(Some(u)) => u,
                _ => return Err(MemoError::Failed),
            };
            let avatar = avatar_char(user.1.as_str());
            let m: MemoTuple = (memo_id, title, text, vis, created_at);
            let card = memo_card_with_tags(db, &m, tags);
            assert(card_of(m, card));
            Ok(MemoFragment { card, username: user.1, avatar })
        },
        Err(_) => Err(MemoError::Failed),
    }
}

/// Rewrites note `id` of user `user_id`: its text, its visibility (see
/// `visibility_for_edit`) and its hashtags; gives the note ready to show.
pub fn edit_memo(
    db: &Database,
    user_id: i64,
    id: i64,
    content: &str,
    visibility: Option<&str>,
    password: Option<&str>,
) -> (res: Result<MemoFragment, MemoError>)
    ensures
        res matches Err(MemoError::Empty) <==> trim(content@).len() == 0,
        res matches Ok(f) ==> f.card.id == id && f.card.content@ == trim(content@) && tag_list_of(
            trim(content@),
            f.card.tags@.map_values(|s: String| s@),
        ) && f.avatar@ == avatar_of(f.username@),
        res matches Ok(f) ==> edited_visibility_is(opt_text(visibility), password, f.card.visibility@),
        res matches Ok(_) ==> executed(SQL_UPDATE_MEMO@, seq![text_p(trim(content@)), int_p(id), int_p(user_id)]),
        res matches Ok(f) ==> shows_a_note(f.card),
{
    let raw = trim_str(content);
    if raw.as_str().is_empty() {
        return Err(MemoError::Empty);
    }
    let (vis, hash) = visibility_for_edit(db, id, user_id, visibility, password);
    let (title, text) = extract_title(raw.as_str());
    proof {
        lemma_trim_idempotent(content@);
    }
    let tags = extract_tags(text.as_str());
    let updated = db.update_memo(id, user_id, text.as_str());
    let ghost ug = updated;
    match updated {
        Ok(()) => {
            assert(ran(SQL_UPDATE_MEMO@, seq![text_p(text@), int_p(id), int_p(user_id)], ug));
            let hash_ref: Option<&str> = match &hash {
                Some(h) => Some(h.as_str()),
                None => None,
            };
            let _ = db.update_memo_visibility(id, user_id, vis.as_str(), hash_ref);
            let _ = db.set_memo_tags(id, tags.as_slice());
            let user = match db.get_user_by_id(user_id) {
                Ok(Some(u)) => u,
                _ => return Err(MemoError::Failed),
            };
            let avatar = avatar_char(user.1.as_str());
            let created_at = match db.get_memo_by_id(id, user_id) {
                Ok(Some(m)) => m.4,
                _ => String::new(),
            };
            if resource_links(text.as_str()).is_none() {
                return Err(MemoError::Unreadable);
            }
            let m: MemoTuple = (id, title, text, vis, created_at);
            let card = memo_card_with_tags(db, &m, tags);
            assert(card_of(m, card));
            Ok(MemoFragment { card, username: user.1, avatar })
        },
        Err(_) => Err(MemoError::Failed),
    }
}

/// The number of entries of `ids` that are ids.
pub open spec fn count_ids(ids: Seq<Option<i64>>) -> nat
    decreases ids.len(),
{
    if ids.len() == 0 {
        0
    } else {
        count_ids(ids.drop_last()) + if ids.last() is Some {
            1nat
        } else {
            0nat
        }
    }
}

/// What the store reported when asked to delete note `id` of user
/// `user_id`: done (`ok`) or refused.
pub open spec fn memo_delete_answer(id: i64, user_id: i64, ok: bool) -> bool {
    if ok {
        executed(SQL_DELETE_MEMO@, seq![int_p(id), int_p(user_id)])
    } else {
        sqlite_execute_answer(SQL_DELETE_MEMO@, seq![int_p(id), int_p(user_id)], None)
    }
}

/// `done` says, entry by entry of `ids`, whether the store reported the
/// deletion of that note of user `user_id` done; entries that are not ids
/// are not deleted.
pub open spec fn deletions_reported(ids: Seq<Option<i64>>, user_id: i64, done: Seq<bool>) -> bool {
    &&& done.len() == ids.len()
    &&& forall|i: int|
        0 <= i < ids.len() ==> match ids[i] {
            Some(id) => memo_delete_answer(id, user_id, #[trigger] done[i]),
            None => !done[i],
        }
}

/// Deletes the notes of user `user_id` whose ids are given (entries that
/// are not ids are passed over); gives how many deletions the store
/// reported done.
pub fn delete_memos(db: &Database, user_id: i64, ids: &[Option<i64>]) -> (res: u64)
    ensures
        res <= ids@.len(),
        res <= count_ids(ids@),
        exists|done: Seq<bool>| #[trigger] deletions_reported(ids@, user_id, done) && res == count_true(done),
{
    let mut deleted: u64 = 0;
    let mut k: usize = 0;
    let ghost mut done: Seq<bool> = Seq::empty();
    while k < ids.len()
        invariant
            k <= ids@.len(),
            deleted <= k,
            deleted <= count_ids(ids@.take(k as int)),
            done.len() == k,
            deleted == count_true(done),
            forall|i: int|
                0 <= i < k ==> match ids@[i] {
                    Some(id) => memo_delete_answer(id, user_id, #[trigger] done[i]),
                    None => !done[i],
                },
        decreases ids.len() - k,
    {
        assert(ids@.take(k + 1).drop_last() =~= ids@.take(k as int));
        let ghost d0 = done;
        let mut ok = false;
        if let Some(id) = ids[k] {
            let r = db.delete_memo(id, user_id);
            if r.is_ok() {
                ok = true;
                deleted = deleted + 1;
            }
            assert(memo_delete_answer(id, user_id, ok));
        }
        proof {
            done = done.push(ok);
            assert(done.drop_last() =~= d0);
        }
        k = k + 1;
    }
    assert(ids@.take(ids@.len() as int) =~= ids@);
    assert(deletions_reported(ids@, user_id, done));
    deleted
}

// ---------------------------------------------------------------------------
// The note list, the calendar and the files
// ---------------------------------------------------------------------------

/// Whether a note can be listed (see `note_listable`).
pub fn memo_listable(content: &str) -> (res: bool)
    ensures
        res == note_listable(content@),
{
    let t = strip_html(content);
    t.as_str().as_bytes().len() <= 500 || t.as_str().is_char_boundary(500)
}

/// A page of the note list: the notes, the user's name and avatar, the
/// offset asked for, the next one, and whether this page continues a list.
#[derive(Debug)]
pub struct NotesPanel {
    pub notes: Vec<NoteListEntry>,
    pub username: String,
    pub avatar: String,
    pub offset: i64,
    pub next_offset: Option<i64>,
    pub partial: bool,
}

/// The number of notes a page shows out of `fetched` (at most 30).
pub open spec fn shown_count(fetched: int) -> int {
    if fetched > 30 {
        30
    } else {
        fetched
    }
}

/// `p` is the notes panel of the user named `username` at `offset` made
/// from the notes `fetched` for it: the first 30 listed one for one, and a
/// next page exactly when more than 30 came back.
pub open spec fn notes_page_is(
    p: NotesPanel,
    fetched: Seq<MemoTuple>,
    username: Seq<char>,
    offset: int,
) -> bool {
    &&& p.notes@.len() == shown_count(fetched.len() as int)
    &&& forall|i: int| 0 <= i < p.notes@.len() ==> entry_of(fetched[i], #[trigger] p.notes@[i])
    &&& p.username@ == username
    &&& p.avatar@ == avatar_of(username)
    &&& p.offset == offset
    &&& p.partial == (offset > 0)
    &&& p.next_offset == if fetched.len() > 30 {
        Some((offset + 30) as i64)
    } else {
        None
    }
}

/// Some note among the first 30 of `fetched` cannot be listed.
pub open spec fn has_unlistable(fetched: Seq<MemoTuple>) -> bool {
    exists|i: int| 0 <= i < shown_count(fetched.len() as int) && !note_listable(#[trigger] fetched[i].2@)
}

/// The notes panel of the user named `username` at `offset`, from the notes
/// the store gave for that offset (one more than a page is asked for).
pub fn notes_page_of(fetched: Vec<MemoTuple>, username: String, offset: i64) -> (res: Result<NotesPanel, PageError>)
    requires
        offset <= i64::MAX - 30,
    ensures
        res matches Err(e) ==> e is Unreadable,
        res is Err <==> has_unlistable(fetched@),
        res matches Ok(p) ==> notes_page_is(p, fetched@, username@, offset as int),
{
    let ghost all = fetched@;
    let avatar = avatar_char(username.as_str());
    let (page, more) = first_page(fetched, 30);
    let mut notes: Vec<NoteListEntry> = Vec::new();
    let mut k: usize = 0;
    while k < page.len()
        invariant
            k <= page@.len(),
            all == fetched@,
            page@.len() == shown_count(all.len() as int),
            forall|i: int| 0 <= i < page@.len() ==> page@[i] == all[i],
            notes@.len() == k,
            forall|i: int| 0 <= i < k ==> entry_of(all[i], #[trigger] notes@[i]),
            forall|i: int| 0 <= i < k ==> note_listable(#[trigger] all[i].2@),
        decreases page.len() - k,
    {
        if !memo_listable(page[k].2.as_str()) {
            assert(!note_listable(all[k as int].2@));
            assert(has_unlistable(all));
            return Err(PageError::Unreadable);
        }
        notes.push(note_list_entry(&page[k]));
        k = k + 1;
    }
    assert(!has_unlistable(all));
    Ok(NotesPanel {
        notes,
        username,
        avatar,
        offset,
        next_offset: if more {
            Some(offset + 30)
        } else {
            None
        },
        partial: offset > 0,
    })
}

/// What a list of a user's notes gives when the store is asked for `limit`
/// of user `user_id`'s notes after the first `offset`.
pub open spec fn memos_page_answer(user_id: i64, limit: i64, offset: i64, res: Result<Vec<MemoTuple>, DbError>) -> bool {
    memos_answer(SQL_MEMOS_PAGE@, seq![int_p(user_id), int_p(limit), int_p(offset)], res)
}

/// The notes of a list the store gave (none when it failed).
pub open spec fn listed(res: Result<Vec<MemoTuple>, DbError>) -> Seq<MemoTuple> {
    match res {
        Ok(v) => v@,
        Err(_) => Seq::empty(),
    }
}

/// `p` is the notes panel of user `user_id` at `offset`: the store gave the
/// user, and gave `fetched` when asked for 31 of the user's notes after the
/// first `offset`, and `p` is the page made from them.
pub open spec fn notes_panel_answer(
    p: NotesPanel,
    user_id: i64,
    offset: i64,
    user: Result<Option<(i64, String)>, DbError>,
    fetched: Result<Vec<MemoTuple>, DbError>,
) -> bool {
    &&& user_by_id_answer(user_id, user)
    &&& user matches Ok(Some(u)) && p.username@ == u.1@
    &&& memos_page_answer(user_id, 31, offset, fetched)
    &&& notes_page_is(p, listed(fetched), p.username@, offset as int)
}

/// `p` is the notes panel of user `user_id` at `offset` for some answers
/// of the store.
pub open spec fn notes_panel_from_store(p: NotesPanel, user_id: i64, offset: i64) -> bool {
    exists|user: Result<Option<(i64, String)>, DbError>, fetched: Result<Vec<MemoTuple>, DbError>|
        #[trigger] notes_panel_answer(p, user_id, offset, user, fetched)
}

/// The page of user `user_id`'s note list at `offset` (30 notes).
pub fn notes_panel(db: &Database, user_id: i64, offset: i64) -> (res: Result<NotesPanel, PageError>)
    requires
        offset <= i64::MAX - 30,
    ensures
        res matches Ok(p) ==> notes_panel_from_store(p, user_id, offset),
{
    let user_res = db.get_user_by_id(user_id);
    let ghost ur = user_res;
    let user = match user_res {
        Ok(Some(u)) => u,
        _ => return Err(PageError::NoUser),
    };
    let fetched_res = db.get_memos_paginated(user_id, 31, offset);
    let ghost fr = fetched_res;
    let fetched = match fetched_res {
        Ok(v) => v,
        Err(_) => Vec::new(),
    };
    assert(fetched@ == listed(fr));
    let res = notes_page_of(fetched, user.1, offset);
    assert(res matches Ok(p) ==> notes_panel_answer(p, user_id, offset, ur, fr));
    res
}

/// `label` and `weeks` are the heading and the grid of some month (for some
/// today), with `memo_dates` marked and `selected` selected.
pub open spec fn calendar_of_some_month(
    label: Seq<char>,
    weeks: Seq<Vec<CalendarDay>>,
    memo_dates: Seq<Seq<char>>,
    selected: Option<Seq<char>>,
) -> bool {
    exists|year: int, month: int, today: Seq<char>|
        label == month_name(month) + seq![' '] + dec(year) && #[trigger] is_month_grid(
            week_cells(weeks),
            year,
            month,
            memo_dates,
            selected,
            today,
        )
}

/// The calendar of the current month: its heading and its weeks, with the
/// days of `memo_dates` marked and `selected` selected.
pub fn month_calendar(memo_dates: &[String], selected: Option<&str>) -> (res: Result<(String, Vec<Vec<CalendarDay>>), PageError>)
    ensures
        res matches Ok(c) ==> calendar_of_some_month(c.0@, c.1@, texts(memo_dates@), opt_text(selected)),
{
    let (year, month) = current_year_month();
    if month == 12 && year >= 262142 {
        return Err(PageError::Unreadable);
    }
    let label = month_label(month, year);
    let weeks = generate_calendar(year, month, memo_dates, selected);
    let ghost today = choose|today: Seq<char>|
        #[trigger] is_month_grid(
            week_cells(weeks@),
            year as int,
            month as int,
            texts(memo_dates@),
            opt_text(selected),
            today,
        );
    assert(calendar_of_some_month(label@, weeks@, texts(memo_dates@), opt_text(selected)));
    Ok((label, weeks))
}

/// The days of the current month on which user `user_id` wrote notes, those
/// containing `q` only when it is given and not empty.
pub fn memo_dates_this_month(db: &Database, user_id: i64, q: Option<&str>) -> (res: Vec<String>)
    ensures
        exists|year: i32, month: u32, r: Result<Vec<String>, DbError>|
            #[trigger] month_dates_answer(user_id, year, month, opt_text(q), r) && chrono_year(year as int) && 1
                <= month <= 12 && res@ == texts_of(r),
{
    let (year, month) = current_year_month();
    let r = match q {
        Some(s) => if s.is_empty() {
            db.get_memo_dates_in_month(user_id, year, month)
        } else {
            db.get_memo_dates_in_month_for_query(user_id, year, month, s)
        },
        None => db.get_memo_dates_in_month(user_id, year, month),
    };
    let ghost rg = r;
    assert(month_dates_answer(user_id, year, month, opt_text(q), rg));
    match r {
        Ok(v) => v,
        Err(_) => Vec::new(),
    }
}

/// What the store gives when asked for the days of `year-month` on which
/// user `user_id` wrote notes, those containing `q` only when it is given
/// and not empty.
pub open spec fn month_dates_answer(
    user_id: i64,
    year: i32,
    month: u32,
    q: Option<Seq<char>>,
    r: Result<Vec<String>, DbError>,
) -> bool {
    match q {
        Some(t) if t.len() > 0 => texts_answer(
            SQL_DATES_IN_MONTH_FOR_QUERY@,
            seq![int_p(user_id), text_p(month_pattern(year as int, month as int)), text_p(contains_pattern(t))],
            r,
        ),
        _ => texts_answer(SQL_DATES_IN_MONTH@, seq![int_p(user_id), text_p(month_pattern(year as int, month as int))], r),
    }
}

/// What the store gives when asked for user `user_id`'s tags and counts.
pub open spec fn tag_counts_of_user(user_id: i64, r: Result<Vec<(String, i64)>, DbError>) -> bool {
    tag_counts_answer(SQL_USER_TAGS@, seq![int_p(user_id)], r)
}

/// A user's tags with their counts (none when the store fails).
pub fn tag_counts(db: &Database, user_id: i64) -> (res: Vec<(String, i64)>)
    ensures
        exists|r: Result<Vec<(String, i64)>, DbError>|
            #[trigger] tag_counts_of_user(user_id, r) && res@ == match r {
                Ok(v) => v@,
                Err(_) => Seq::<(String, i64)>::empty(),
            },
{
    let r = db.get_user_tags(user_id);
    let ghost rg = r;
    assert(tag_counts_of_user(user_id, rg));
    match r {
        Ok(v) => v,
        Err(_) => Vec::new(),
    }
}

/// A page of the file list: the files, the offset asked for, the next one,
/// and whether this page continues a list.
#[derive(Debug)]
pub struct FilesPanel {
    pub resources: Vec<FileEntry>,
    pub offset: i64,
    pub next_offset: Option<i64>,
    pub partial: bool,
}

/// `p` is the files panel at `offset` made from the files `fetched` for
/// it: the first 30 shown one for one, and a next page exactly when more
/// than 30 came back.
pub open spec fn files_page_is(p: FilesPanel, fetched: Seq<ResourceEntryTuple>, offset: int) -> bool {
    &&& p.resources@.len() == shown_count(fetched.len() as int)
    &&& forall|i: int|
        0 <= i < p.resources@.len() ==> file_entry_of(fetched[i], #[trigger] p.resources@[i])
    &&& p.offset == offset
    &&& p.partial == (offset > 0)
    &&& p.next_offset == if fetched.len() > 30 {
        Some((offset + 30) as i64)
    } else {
        None
    }
}

/// The files panel at `offset` from the files the store gave for that
/// offset (one more than a page is asked for).
pub fn files_page_of(fetched: &Vec<ResourceEntryTuple>, offset: i64) -> (res: FilesPanel)
    requires
        offset <= i64::MAX - 30,
    ensures
        files_page_is(res, fetched@, offset as int),
{
    let more = fetched.len() > 30;
    let mut entries: Vec<FileEntry> = Vec::new();
    let mut k: usize = 0;
    while k < fetched.len() && k < 30
        invariant
            k <= 30,
            k <= fetched@.len(),
            entries@.len() == k,
            forall|i: int| 0 <= i < k ==> file_entry_of(fetched@[i], #[trigger] entries@[i]),
        decreases fetched.len() - k,
    {
        entries.push(file_entry(&fetched[k]));
        k = k + 1;
    }
    FilesPanel {
        resources: entries,
        offset,
        next_offset: if more {
            Some(offset + 30)
        } else {
            None
        },
        partial: offset > 0,
    }
}

/// The files the store gave (none when it failed).
pub open spec fn files_listed(res: Result<Vec<ResourceEntryTuple>, DbError>) -> Seq<ResourceEntryTuple> {
    match res {
        Ok(v) => v@,
        Err(_) => Seq::empty(),
    }
}

/// What the store gives when asked for 31 of user `user_id`'s files after
/// the first `offset`.
pub open spec fn files_page_answer(user_id: i64, offset: i64, res: Result<Vec<ResourceEntryTuple>, DbError>) -> bool {
    entries_answer(SQL_RESOURCES_PAGE@, seq![int_p(user_id), int_p(31), int_p(offset)], res)
}

/// `p` is the files panel of user `user_id` at `offset` made from what the
/// store gave when asked for 31 of the user's files after the first
/// `offset`.
pub open spec fn files_page_from_store(p: FilesPanel, user_id: i64, offset: i64) -> bool {
    exists|fetched: Result<Vec<ResourceEntryTuple>, DbError>|
        #[trigger] files_page_answer(user_id, offset, fetched) && files_page_is(p, files_listed(fetched), offset as int)
}

/// The page of user `user_id`'s files at `offset` (30 files).
pub fn files_panel(db: &Database, user_id: i64, offset: i64) -> (res: FilesPanel)
    requires
        offset <= i64::MAX - 30,
    ensures
        files_page_from_store(res, user_id, offset),
{
    let fetched_res = db.get_resources_paginated(user_id, 31, offset);
    let ghost fr = fetched_res;
    let fetched = match fetched_res {
        Ok(v) => v,
        Err(_) => Vec::new(),
    };
    assert(fetched@ == files_listed(fr));
    let res = files_page_of(&fetched, offset);
    assert(files_page_answer(user_id, offset, fr));
    res
}

/// A file just uploaded: id, the Markdown that links it, stored name,
/// original name, MIME type, size in bytes.
#[derive(Debug)]
pub struct UploadedFile {
    pub id: i64,
    pub markdown: String,
    pub filename: String,
    pub original_name: String,
    pub mime_type: String,
    pub size: i64,
}

/// The original name of an uploaded file: the name sent, or `file`.
pub fn upload_original_name(sent: Option<&str>) -> (res: String)
    ensures
        res@ == match sent {
            Some(n) => n@,
            None => "file"@,
        },
{
    match sent {
        Some(n) => String::from_str(n),
        None => String::from_str("file"),
    }
}

/// The MIME type of an uploaded file: the type sent, or
/// `application/octet-stream`.
pub fn upload_mime_type(sent: Option<&str>) -> (res: String)
    ensures
        res@ == match sent {
            Some(t) => t@,
            None => "application/octet-stream"@,
        },
{
    match sent {
        Some(t) => String::from_str(t),
        None => String::from_str("application/octet-stream"),
    }
}

/// The file user `user_id` uploaded last under `original_name`, which a new
/// upload of that name replaces: its record is deleted, and its id and
/// stored name are given so that the stored file can be removed.  `None`
/// when there is no such file (or the store fails to find one).
pub fn replace_previous_upload(db: &Database, user_id: i64, original_name: &str) -> (res: Option<(i64, String)>)
    ensures
        exists|found: Result<Option<(i64, String)>, DbError>|
            #[trigger] resource_by_name_answer(user_id, original_name@, found) && match found {
                Ok(Some(f)) => res matches Some(r) && r.0 == f.0 && r.1@ == f.1@ && exists|d: Result<(), DbError>|
                    #[trigger] resource_delete_answer(f.0, user_id, d),
                _ => res is None,
            },
{
    let found = db.find_resource_by_original_name(user_id, original_name);
    let ghost fg = found;
    match found {
        Ok(Some((old_id, old_filename))) => {
            let d = db.delete_resource(old_id, user_id);
            assert(resource_delete_answer(old_id, user_id, d));
            Some((old_id, old_filename))
        },
        _ => None,
    }
}

/// What the store gives when asked to delete file `id` of user `user_id`.
pub open spec fn resource_delete_answer(id: i64, user_id: i64, res: Result<(), DbError>) -> bool {
    ran(SQL_DELETE_RESOURCE@, seq![int_p(id), int_p(user_id)], res)
}

/// Records an uploaded file of user `user_id`, stored as `filename`; `None`
/// when the store refuses it.
pub fn record_upload(
    db: &Database,
    user_id: i64,
    filename: &str,
    original_name: &str,
    mime_type: &str,
    size: i64,
) -> (res: Option<UploadedFile>)
    ensures
        res matches Some(f) ==> f.markdown@ == upload_markdown(original_name@, mime_type@, f.id as int)
            && f.filename@ == filename@ && f.original_name@ == original_name@ && f.mime_type@ == mime_type@
            && f.size == size,
        res matches Some(f) ==> inserted(
            SQL_CREATE_RESOURCE@,
            seq![int_p(user_id), text_p(filename@), text_p(original_name@), text_p(mime_type@), int_p(size)],
            Ok(f.id),
        ),
{
    match db.create_resource(user_id, filename, original_name, mime_type, size) {
        Ok(id) => Some(UploadedFile {
            id,
            markdown: upload_link(original_name, mime_type, id),
            filename: filename.to_owned(),
            original_name: original_name.to_owned(),
            mime_type: mime_type.to_owned(),
            size,
        }),
        Err(_) => None,
    }
}

} // verus!
