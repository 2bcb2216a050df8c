//! The timeline: notes grouped by the day they were written, newest day
//! first, each note ready to show.
use vstd::prelude::*;
use vstd::utf8::{encode_utf8, is_char_boundary};
use crate::attachments::{
    cleaned_text, found_ids, note_links, process_memo_content, row_ids, shows_rows, ResourceInfo,
};
use crate::calendar::{
    clock_day_pair, clock_days, date_as_label, date_label_at, date_label_text, lemma_day_heading,
    relative_text,
    relative_time,
};
use crate::chars::{
    chars_eq, chars_lt, chars_of, lemma_seq_lt_irreflexive, lemma_seq_lt_total,
    lemma_seq_lt_transitive, seq_lt,
};
use crate::db::{Database, DbError, MemoTuple, PublicResourceTuple, memo_tags_answer, texts_of};
use crate::render::{markdown_html, render_markdown};

verus! {

/// A note ready to show: id, title, content, its HTML, visibility, creation
/// time, how long ago that was, the files it mentions, its tags.
#[derive(Debug)]
pub struct MemoCard {
    pub id: i64,
    pub title: String,
    pub content: String,
    pub content_html: String,
    pub visibility: String,
    pub created_at: String,
    pub created_at_relative: String,
    pub resources: Vec<ResourceInfo>,
    pub tags: Vec<String>,
}

/// `card` shows note `m`: the stored fields as they are, the HTML of the
/// text without links to missing files, and the time since it was written
/// at some clock reading.
pub open spec fn card_of(m: MemoTuple, card: MemoCard) -> bool {
    &&& card.id == m.0
    &&& card.title@ == m.1@
    &&& card.content@ == m.2@
    &&& card.visibility@ == m.3@
    &&& card.created_at@ == m.4@
    &&& exists|found: Seq<bool>, rows: Seq<PublicResourceTuple>|
        #![trigger cleaned_text(m.2@, found), shows_rows(rows, card.resources@)]
        found.len() == note_links(m.2@).unwrap().len() && card.content_html@ == markdown_html(
            cleaned_text(m.2@, found),
        ) && shows_rows(rows, card.resources@) && row_ids(rows) == found_ids(
            note_links(m.2@).unwrap(),
            found,
        )
    &&& exists|now: int| card.created_at_relative@ == #[trigger] relative_text(m.4@, now)
}

/// A note can be shown on the timeline: its creation time has at least ten
/// bytes, the tenth ending a character, and its link numbers fit an `i64`.
pub open spec fn timeline_ready(m: MemoTuple) -> bool {
    &&& encode_utf8(m.4@).len() >= 10
    &&& is_char_boundary(encode_utf8(m.4@), 10)
    &&& note_links(m.2@) is Some
}

/// The day of a creation time: the text of its first ten bytes.
pub open spec fn day_of(created_at: Seq<char>, day: Seq<char>) -> bool {
    encode_utf8(day) == encode_utf8(created_at).take(10)
}

/// A note ready to show, with the tags given.
pub fn memo_card_with_tags(db: &Database, m: &MemoTuple, tags: Vec<String>) -> (res: MemoCard)
    requires
        note_links(m.2@) is Some,
    ensures
        card_of(*m, res),
        res.tags@ == tags@,
{
    let (cleaned, resources) = process_memo_content(db, m.2.as_str());
    let ghost (found, rows) = choose|found: Seq<bool>, rows: Seq<PublicResourceTuple>|
        found.len() == note_links(m.2@).unwrap().len() && cleaned@ == cleaned_text(m.2@, found)
            && shows_rows(rows, resources@) && row_ids(rows) == found_ids(
            note_links(m.2@).unwrap(),
            found,
        );
    let html = render_markdown(cleaned.as_str());
    let rel = relative_time(m.4.as_str());
    let card = MemoCard {
        id: m.0,
        title: m.1.clone(),
        content: m.2.clone(),
        content_html: html,
        visibility: m.3.clone(),
        created_at: m.4.clone(),
        created_at_relative: rel,
        resources,
        tags,
    };
    assert(shows_rows(rows, card.resources@) && card.content_html@ == markdown_html(
        cleaned_text(m.2@, found),
    ));
    card
}

/// A note ready to show, with its stored tags (none when the store fails).
pub fn memo_card(db: &Database, m: &MemoTuple) -> (res: MemoCard)
    requires
        note_links(m.2@) is Some,
    ensures
        card_of(*m, res),
        exists|tr: Result<Vec<String>, DbError>| #[trigger] memo_tags_answer(m.0, tr) && res.tags@ == texts_of(tr),
{
    let tr = db.get_memo_tags(m.0);
    let ghost tg = tr;
    let tags = match tr {
        Ok(t) => t,
        Err(_) => Vec::new(),
    };
    assert(tags@ == texts_of(tg));
    let res = memo_card_with_tags(db, m, tags);
    assert(memo_tags_answer(m.0, tg));
    res
}

/// The notes written on one day: the day (`YYYY-MM-DD`), its heading, and
/// the notes in the order given.
#[derive(Debug)]
pub struct MemoGroup {
    pub date: String,
    pub label: String,
    pub memos: Vec<MemoCard>,
}

/// The indices, in increasing order, of the notes whose day is `d`.
pub open spec fn day_indices(days: Seq<Seq<char>>, d: Seq<char>) -> Seq<int>
    decreases days.len(),
{
    if days.len() == 0 {
        Seq::empty()
    } else {
        let rest = day_indices(days.drop_last(), d);
        if days.last() == d {
            rest.push(days.len() - 1)
        } else {
            rest
        }
    }
}

proof fn lemma_day_indices_push(days: Seq<Seq<char>>, x: Seq<char>, d: Seq<char>)
    ensures
        day_indices(days.push(x), d) == if x == d {
            day_indices(days, d).push(days.len() as int)
        } else {
            day_indices(days, d)
        },
{
    assert(days.push(x).drop_last() =~= days);
}

proof fn lemma_day_indices(days: Seq<Seq<char>>, d: Seq<char>)
    ensures
        forall|j: int|
            0 <= j < day_indices(days, d).len() ==> 0 <= #[trigger] day_indices(days, d)[j] < days.len()
                && days[day_indices(days, d)[j]] == d,
        day_indices(days, d).len() == 0 ==> forall|i: int| 0 <= i < days.len() ==> days[i] != d,
    decreases days.len(),
{
    if days.len() > 0 {
        lemma_day_indices(days.drop_last(), d);
        let rest = day_indices(days.drop_last(), d);
        assert forall|j: int| 0 <= j < rest.len() implies days.drop_last()[rest[j]] == days[rest[j]] by {}
        assert forall|i: int| 0 <= i < days.len() - 1 implies days.drop_last()[i] == days[i] by {}
    }
}

/// `groups` is the timeline of `memos`, whose days are `days`: one group per
/// day, newest day first, each holding the notes of its day in their order.
pub open spec fn grouped(memos: Seq<MemoTuple>, days: Seq<Seq<char>>, groups: Seq<MemoGroup>) -> bool {
    &&& forall|a: int, b: int|
        0 <= a < b < groups.len() ==> seq_lt(#[trigger] groups[b].date@, #[trigger] groups[a].date@)
    &&& forall|d: Seq<char>|
        (exists|g: int| 0 <= g < groups.len() && #[trigger] groups[g].date@ == d) <==> #[trigger] day_indices(days, d).len() > 0
    &&& forall|g: int|
        0 <= g < groups.len() ==> (#[trigger] groups[g]).memos@.len() == day_indices(days, groups[g].date@).len()
    &&& forall|g: int, j: int|
        0 <= g < groups.len() && 0 <= j < groups[g].memos@.len() ==> card_of(
            memos[day_indices(days, groups[g].date@)[j]],
            #[trigger] groups[g].memos@[j],
        )
    &&& forall|g: int| 0 <= g < groups.len() ==> labelled(#[trigger] groups[g])
}

/// The heading of a group is that of its day, for some today.
pub open spec fn labelled(group: MemoGroup) -> bool {
    exists|today: Seq<char>, yesterday: Seq<char>|
        group.label@ == #[trigger] date_label_text(group.date@, today, yesterday)
}

/// The day of a creation time, `created_at[..10]`.
fn day_text(created_at: &str) -> (res: String)
    requires
        encode_utf8(created_at@).len() >= 10,
        is_char_boundary(encode_utf8(created_at@), 10),
    ensures
        day_of(created_at@, res@),
{
    let (a, _) = created_at.split_at(10);
    let r = a.to_owned();
    assert(encode_utf8(r@) =~= encode_utf8(created_at@).take(10));
    r
}

/// Distinct days: a group's day is no other group's.
proof fn lemma_sorted_distinct(groups: Seq<MemoGroup>, a: int, b: int)
    requires
        forall|x: int, y: int|
            0 <= x < y < groups.len() ==> seq_lt(#[trigger] groups[y].date@, #[trigger] groups[x].date@),
        0 <= a < groups.len(),
        0 <= b < groups.len(),
        a != b,
    ensures
        groups[a].date@ != groups[b].date@,
{
    if a < b {
        lemma_seq_lt_irreflexive(groups[a].date@);
    } else {
        lemma_seq_lt_irreflexive(groups[b].date@);
    }
}

/// Adding note `i`, of day `d`, to the group of that day, at `k`.
proof fn lemma_add_to_group(
    memos: Seq<MemoTuple>,
    days: Seq<Seq<char>>,
    groups: Seq<MemoGroup>,
    new_groups: Seq<MemoGroup>,
    k: int,
    d: Seq<char>,
)
    requires
        grouped(memos, days, groups),
        days.len() < memos.len(),
        0 <= k < groups.len(),
        groups[k].date@ == d,
        new_groups.len() == groups.len(),
        forall|g: int| 0 <= g < groups.len() && g != k ==> new_groups[g] == groups[g],
        new_groups[k].date@ == d,
        new_groups[k].label == groups[k].label,
        new_groups[k].memos@ == groups[k].memos@.push(new_groups[k].memos@.last()),
        card_of(memos[days.len() as int], new_groups[k].memos@.last()),
    ensures
        grouped(memos, days.push(d), new_groups),
{
    let nd = days.push(d);
    let i = days.len() as int;
    assert forall|x: Seq<char>| #[trigger] day_indices(nd, x) == if x == d {
        day_indices(days, x).push(i)
    } else {
        day_indices(days, x)
    } by {
        lemma_day_indices_push(days, d, x);
    }
    assert forall|a: int, b: int|
        0 <= a < b < new_groups.len() implies seq_lt(#[trigger] new_groups[b].date@, #[trigger] new_groups[a].date@) by {
        assert(new_groups[a].date@ == groups[a].date@);
        assert(new_groups[b].date@ == groups[b].date@);
    }
    assert forall|x: Seq<char>|
        (exists|g: int| 0 <= g < new_groups.len() && #[trigger] new_groups[g].date@ == x) <==> #[trigger] day_indices(nd, x).len() > 0 by {
        if exists|g: int| 0 <= g < new_groups.len() && #[trigger] new_groups[g].date@ == x {
            let g = choose|g: int| 0 <= g < new_groups.len() && #[trigger] new_groups[g].date@ == x;
            assert(groups[g].date@ == x);
        }
        if day_indices(nd, x).len() > 0 {
            if x != d {
                let g = choose|g: int| 0 <= g < groups.len() && #[trigger] groups[g].date@ == x;
                assert(new_groups[g].date@ == x);
            } else {
                assert(new_groups[k].date@ == x);
            }
        }
    }
    assert forall|g: int| 0 <= g < new_groups.len() implies (#[trigger] new_groups[g]).memos@.len() == day_indices(nd, new_groups[g].date@).len() by {
        if g != k {
            lemma_sorted_distinct(groups, g, k);
            assert(groups[g].memos@.len() == day_indices(days, groups[g].date@).len());
        } else {
            assert(groups[k].memos@.len() == day_indices(days, groups[k].date@).len());
        }
    }
    assert forall|g: int, j: int|
        0 <= g < new_groups.len() && 0 <= j < new_groups[g].memos@.len() implies card_of(
            memos[day_indices(nd, new_groups[g].date@)[j]],
            #[trigger] new_groups[g].memos@[j],
        ) by {
        if g != k {
            lemma_sorted_distinct(groups, g, k);
            assert(card_of(memos[day_indices(days, groups[g].date@)[j]], groups[g].memos@[j]));
        } else {
            assert(groups[k].memos@.len() == day_indices(days, groups[k].date@).len());
            if j < groups[k].memos@.len() {
                assert(new_groups[k].memos@[j] == groups[k].memos@[j]);
                assert(card_of(memos[day_indices(days, groups[k].date@)[j]], groups[k].memos@[j]));
            }
        }
    }
    assert forall|g: int| 0 <= g < new_groups.len() implies labelled(#[trigger] new_groups[g]) by {
        assert(labelled(groups[g]));
    }
}

/// Adding note `i`, of a day `d` no group has, as a new group at `k`.
proof fn lemma_new_group(
    memos: Seq<MemoTuple>,
    days: Seq<Seq<char>>,
    groups: Seq<MemoGroup>,
    k: int,
    d: Seq<char>,
    group: MemoGroup,
)
    requires
        grouped(memos, days, groups),
        days.len() < memos.len(),
        0 <= k <= groups.len(),
        forall|g: int| 0 <= g < k ==> seq_lt(d, #[trigger] groups[g].date@),
        k < groups.len() ==> seq_lt(groups[k].date@, d),
        group.date@ == d,
        group.memos@.len() == 1,
        card_of(memos[days.len() as int], group.memos@[0]),
        labelled(group),
    ensures
        grouped(memos, days.push(d), groups.insert(k, group)),
{
    let nd = days.push(d);
    let i = days.len() as int;
    let ng = groups.insert(k, group);
    assert forall|x: Seq<char>| #[trigger] day_indices(nd, x) == if x == d {
        day_indices(days, x).push(i)
    } else {
        day_indices(days, x)
    } by {
        lemma_day_indices_push(days, d, x);
    }
    assert forall|g: int| k <= g < groups.len() implies seq_lt(#[trigger] groups[g].date@, d) by {
        if g > k {
            lemma_seq_lt_transitive(groups[g].date@, groups[k].date@, d);
        }
    }
    assert forall|g: int| 0 <= g < groups.len() implies #[trigger] groups[g].date@ != d by {
        if g < k {
            lemma_seq_lt_irreflexive(d);
        } else {
            lemma_seq_lt_irreflexive(d);
        }
    }
    assert(day_indices(days, d).len() == 0);
    assert forall|g: int| 0 <= g < ng.len() implies #[trigger] ng[g] == if g < k {
        groups[g]
    } else if g == k {
        group
    } else {
        groups[g - 1]
    } by {}
    assert forall|a: int, b: int| 0 <= a < b < ng.len() implies seq_lt(#[trigger] ng[b].date@, #[trigger] ng[a].date@) by {
        if b < k {
        } else if b == k {
        } else if a < k {
            lemma_seq_lt_transitive(groups[b - 1].date@, d, groups[a].date@);
        } else if a == k {
        } else {
        }
    }
    assert forall|x: Seq<char>|
        (exists|g: int| 0 <= g < ng.len() && #[trigger] ng[g].date@ == x) <==> #[trigger] day_indices(nd, x).len() > 0 by {
        if exists|g: int| 0 <= g < ng.len() && #[trigger] ng[g].date@ == x {
            let g = choose|g: int| 0 <= g < ng.len() && #[trigger] ng[g].date@ == x;
            if g < k {
                assert(groups[g].date@ == x);
            } else if g > k {
                assert(groups[g - 1].date@ == x);
            }
        }
        if day_indices(nd, x).len() > 0 {
            if x != d {
                let g = choose|g: int| 0 <= g < groups.len() && #[trigger] groups[g].date@ == x;
                if g < k {
                    assert(ng[g].date@ == x);
                } else {
                    assert(ng[g + 1].date@ == x);
                }
            } else {
                assert(ng[k].date@ == x);
            }
        }
    }
    assert forall|g: int| 0 <= g < ng.len() implies (#[trigger] ng[g]).memos@.len() == day_indices(nd, ng[g].date@).len() by {
        if g < k {
            assert(groups[g].memos@.len() == day_indices(days, groups[g].date@).len());
        } else if g > k {
            assert(groups[g - 1].memos@.len() == day_indices(days, groups[g - 1].date@).len());
        }
    }
    assert forall|g: int, j: int|
        0 <= g < ng.len() && 0 <= j < ng[g].memos@.len() implies card_of(
            memos[day_indices(nd, ng[g].date@)[j]],
            #[trigger] ng[g].memos@[j],
        ) by {
        if g < k {
            assert(card_of(memos[day_indices(days, groups[g].date@)[j]], groups[g].memos@[j]));
        } else if g > k {
            assert(card_of(memos[day_indices(days, groups[g - 1].date@)[j]], groups[g - 1].memos@[j]));
        } else {
            assert(day_indices(nd, d) =~= seq![i]);
        }
    }
    assert forall|g: int| 0 <= g < ng.len() implies labelled(#[trigger] ng[g]) by {
        if g < k {
            assert(labelled(groups[g]));
        } else if g > k {
            assert(labelled(groups[g - 1]));
        }
    }
}

/// `groups` is the timeline of `memos`: grouped by their days (the first ten
/// bytes of their creation times).
pub open spec fn is_timeline(memos: Seq<MemoTuple>, groups: Seq<MemoGroup>) -> bool {
    exists|days: Seq<Seq<char>>|
        #![trigger grouped(memos, days, groups)]
        days.len() == memos.len() && (forall|i: int| 0 <= i < memos.len() ==> day_of(memos[i].4@, #[trigger] days[i]))
            && grouped(memos, days, groups)
}

/// `groups` is the timeline of at most `n` notes.
pub open spec fn timeline_of_some(groups: Seq<MemoGroup>, n: int) -> bool {
    exists|memos: Seq<MemoTuple>| memos.len() <= n && #[trigger] is_timeline(memos, groups)
}

/// `groups` is the timeline of some notes.
pub open spec fn some_timeline(groups: Seq<MemoGroup>) -> bool {
    exists|memos: Seq<MemoTuple>| #[trigger] is_timeline(memos, groups)
}

/// `card` shows some note.
pub open spec fn shows_a_note(card: MemoCard) -> bool {
    exists|m: MemoTuple| #[trigger] card_of(m, card)
}

/// Every group of `groups` is headed with its day's label for `today` and
/// `yesterday`.
pub open spec fn labelled_at(groups: Seq<MemoGroup>, today: Seq<char>, yesterday: Seq<char>) -> bool {
    forall|g: int|
        0 <= g < groups.len() ==> (#[trigger] groups[g]).label@ == date_label_text(groups[g].date@, today, yesterday)
}

/// Every group of `groups` is headed with its day's label for the today and
/// yesterday of one reading of the clock.
pub open spec fn labelled_by_clock(groups: Seq<MemoGroup>) -> bool {
    exists|today: Seq<char>, yesterday: Seq<char>|
        #[trigger] clock_day_pair(today, yesterday) && labelled_at(groups, today, yesterday)
}

/// A group of a timeline headed by one clock reading whose day is neither
/// that reading's today nor its yesterday is headed with its date written
/// `%b %d, %Y` (or its own text when it is not a date): never "Today" or
/// "Yesterday" unless its day is that day.
pub proof fn lemma_timeline_headings(groups: Seq<MemoGroup>, today: Seq<char>, yesterday: Seq<char>, g: int)
    requires
        labelled_at(groups, today, yesterday),
        0 <= g < groups.len(),
    ensures
        groups[g].date@ == today ==> groups[g].label@ == "Today"@,
        groups[g].date@ != today && groups[g].date@ == yesterday ==> groups[g].label@ == "Yesterday"@,
        groups[g].date@ != today && groups[g].date@ != yesterday ==> groups[g].label@ == match date_as_label(
            groups[g].date@,
        ) {
            Some(l) => l,
            None => groups[g].date@,
        },
{
    assert(groups[g].label@ == date_label_text(groups[g].date@, today, yesterday));
    lemma_day_heading(groups[g].date@, today, yesterday);
}

/// The timeline of `memos`: the notes grouped by the day they were written
/// (the first ten bytes of their creation time), the newest day first, each
/// group headed by its day's label and holding its notes in the order
/// given.
pub fn group_memos_by_date(db: &Database, memos: &[MemoTuple]) -> (res: Vec<MemoGroup>)
    requires
        forall|i: int| 0 <= i < memos@.len() ==> timeline_ready(#[trigger] memos@[i]),
    ensures
        is_timeline(memos@, res@),
        labelled_by_clock(res@),
{
    let (today, yesterday) = clock_days();
    let mut groups: Vec<MemoGroup> = Vec::new();
    let ghost mut days: Seq<Seq<char>> = Seq::empty();
    let mut i: usize = 0;
    while i < memos.len()
        invariant
            i <= memos@.len(),
            days.len() == i,
            forall|j: int| 0 <= j < memos@.len() ==> timeline_ready(#[trigger] memos@[j]),
            forall|j: int| 0 <= j < i ==> day_of(memos@[j].4@, #[trigger] days[j]),
            grouped(memos@, days, groups@),
            labelled_at(groups@, today@, yesterday@),
        decreases memos.len() - i,
    {
        let m = &memos[i];
        assert(timeline_ready(memos@[i as int]));
        let d = day_text(m.4.as_str());
        let card = memo_card(db, m);
        let dv = chars_of(d.as_str());
        let mut k: usize = 0;
        let mut stop = false;
        let mut same = false;
        while k < groups.len() && !stop
            invariant
                k <= groups@.len(),
                dv@ == d@,
                forall|g: int| 0 <= g < k ==> seq_lt(d@, #[trigger] groups@[g].date@),
                stop ==> k < groups@.len(),
                stop && same ==> groups@[k as int].date@ == d@,
                stop && !same ==> seq_lt(groups@[k as int].date@, d@),
                !stop ==> !same,
            decreases groups.len() - k + if stop {
                0int
            } else {
                1int
            },
        {
            let gd = chars_of(groups[k].date.as_str());
            if chars_eq(gd.as_slice(), dv.as_slice()) {
                stop = true;
                same = true;
            } else if chars_lt(gd.as_slice(), dv.as_slice()) {
                stop = true;
            } else {
                proof {
                    lemma_seq_lt_total(gd@, d@);
                }
                k = k + 1;
            }
        }
        let ghost old_groups = groups@;
        if same {
            let mut g = groups.remove(k);
            let ghost old_g = g;
            g.memos.push(card);
            groups.insert(k, g);
            proof {
                assert(groups@ =~= old_groups.update(k as int, g));
                assert(g.label == old_g.label && g.date == old_g.date);
                assert(labelled_at(groups@, today@, yesterday@)) by {
                    assert forall|x: int| 0 <= x < groups@.len() implies (#[trigger] groups@[x]).label@
                        == date_label_text(groups@[x].date@, today@, yesterday@) by {
                        if x != k {
                            assert(groups@[x] == old_groups[x]);
                        } else {
                            assert(old_groups[x] == old_g);
                        }
                    }
                }
                lemma_add_to_group(memos@, days, old_groups, groups@, k as int, d@);
            }
        } else {
            let label = date_label_at(d.as_str(), today.as_str(), yesterday.as_str());
            let group = MemoGroup { date: d, label, memos: vec![card] };
            groups.insert(k, group);
            proof {
                assert(labelled_at(groups@, today@, yesterday@)) by {
                    assert forall|x: int| 0 <= x < groups@.len() implies (#[trigger] groups@[x]).label@
                        == date_label_text(groups@[x].date@, today@, yesterday@) by {
                        if x < k {
                            assert(groups@[x] == old_groups[x]);
                        } else if x > k {
                            assert(groups@[x] == old_groups[x - 1]);
                        }
                    }
                }
                lemma_new_group(memos@, days, old_groups, k as int, group.date@, group);
            }
        }
        proof {
            days = days.push(d@);
        }
        i = i + 1;
    }
    assert(grouped(memos@, days, groups@));
    assert(labelled_by_clock(groups@));
    groups
}

proof fn lemma_day_indices_has(days: Seq<Seq<char>>, i: int)
    requires
        0 <= i < days.len(),
    ensures
        exists|j: int|
            0 <= j < day_indices(days, days[i]).len() && #[trigger] day_indices(days, days[i])[j] == i,
    decreases days.len(),
{
    let d = days[i];
    let rest = day_indices(days.drop_last(), d);
    if i == days.len() - 1 {
        assert(day_indices(days, d)[rest.len() as int] == i);
    } else {
        assert(days.drop_last()[i] == d);
        lemma_day_indices_has(days.drop_last(), i);
        let j = choose|j: int| 0 <= j < rest.len() && #[trigger] rest[j] == i;
        assert(day_indices(days, d)[j] == i);
    }
}

/// Every note is on the timeline, shown in the group of its day.
pub proof fn lemma_timeline_has_every_note(
    memos: Seq<MemoTuple>,
    days: Seq<Seq<char>>,
    groups: Seq<MemoGroup>,
    i: int,
)
    requires
        grouped(memos, days, groups),
        days.len() == memos.len(),
        0 <= i < memos.len(),
    ensures
        exists|g: int, j: int|
            0 <= g < groups.len() && groups[g].date@ == days[i] && 0 <= j < groups[g].memos@.len()
                && card_of(memos[i], #[trigger] groups[g].memos@[j]),
{
    lemma_day_indices_has(days, i);
    let d = days[i];
    let j = choose|j: int| 0 <= j < day_indices(days, d).len() && #[trigger] day_indices(days, d)[j] == i;
    assert(day_indices(days, d).len() > 0);
    let g = choose|g: int| 0 <= g < groups.len() && #[trigger] groups[g].date@ == d;
    assert(groups[g].memos@.len() == day_indices(days, groups[g].date@).len());
    assert(card_of(memos[day_indices(days, groups[g].date@)[j]], groups[g].memos@[j]));
}

/// Each group holds notes of its own day only.
pub proof fn lemma_group_holds_its_day(
    memos: Seq<MemoTuple>,
    days: Seq<Seq<char>>,
    groups: Seq<MemoGroup>,
    g: int,
    j: int,
)
    requires
        grouped(memos, days, groups),
        0 <= g < groups.len(),
        0 <= j < groups[g].memos@.len(),
    ensures
        0 <= day_indices(days, groups[g].date@)[j] < days.len(),
        days[day_indices(days, groups[g].date@)[j]] == groups[g].date@,
{
    lemma_day_indices(days, groups[g].date@);
}

} // verus!
