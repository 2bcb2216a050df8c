//! Character-sequence helpers shared by the text, token and request code:
//! conversions between `str` and `Vec<char>`, Unicode white space and
//! trimming, searching, splitting and lexicographic order.
use vstd::prelude::*;

verus! {

// ---------------------------------------------------------------------------
// Conversions (std)
// ---------------------------------------------------------------------------

/// `str::chars` collected into a vector: the characters of `s` in order.
#[verifier::external_body]
pub(crate) fn chars_of(s: &str) -> (res: Vec<char>)
    ensures
        res@ == s@,
{
    s.chars().collect()
}

/// `String::from_iter` over a slice of characters: the string made of them.
#[verifier::external_body]
pub(crate) fn string_of(v: &[char]) -> (res: String)
    ensures
        res@ == v@,
{
    v.iter().collect()
}

/// The characters `v[lo..hi]` as a new vector.
pub fn sub_chars(v: &Vec<char>, lo: usize, hi: usize) -> (res: Vec<char>)
    requires
        lo <= hi <= v.len(),
    ensures
        res@ == v@.subrange(lo as int, hi as int),
{
    let mut res: Vec<char> = Vec::new();
    let mut i: usize = lo;
    while i < hi
        invariant
            lo <= i <= hi <= v.len(),
            res@ == v@.subrange(lo as int, i as int),
        decreases hi - i,
    {
        res.push(v[i]);
        i = i + 1;
    }
    res
}

/// Appends all characters of `w` to `v`.
pub fn append_chars(v: &mut Vec<char>, w: &[char])
    ensures
        final(v)@ == old(v)@ + w@,
{
    let mut i: usize = 0;
    while i < w.len()
        invariant
            i <= w@.len(),
            v@ == old(v)@ + w@.subrange(0, i as int),
        decreases w.len() - i,
    {
        v.push(w[i]);
        i = i + 1;
        assert(w@.subrange(0, i as int) == w@.subrange(0, i - 1).push(w@[i - 1]));
    }
    assert(w@.subrange(0, w@.len() as int) == w@);
}

/// Whether two character sequences are equal.
pub fn chars_eq(a: &[char], b: &[char]) -> (res: bool)
    ensures
        res == (a@ == b@),
{
    if a.len() != b.len() {
        return false;
    }
    let mut i: usize = 0;
    while i < a.len()
        invariant
            a@.len() == b@.len(),
            i <= a@.len(),
            forall|j: int| 0 <= j < i ==> a@[j] == b@[j],
        decreases a.len() - i,
    {
        if a[i] != b[i] {
            return false;
        }
        i = i + 1;
    }
    assert(a@ =~= b@);
    true
}

// ---------------------------------------------------------------------------
// White space and trimming
// ---------------------------------------------------------------------------

/// Unicode `White_Space`: the characters for which `char::is_whitespace` holds.
pub open spec fn is_ws(c: char) -> bool {
    ||| ('\u{9}' <= c && c <= '\u{d}')
    ||| c == ' '
    ||| c == '\u{85}'
    ||| c == '\u{a0}'
    ||| c == '\u{1680}'
    ||| ('\u{2000}' <= c && c <= '\u{200a}')
    ||| c == '\u{2028}'
    ||| c == '\u{2029}'
    ||| c == '\u{202f}'
    ||| c == '\u{205f}'
    ||| c == '\u{3000}'
}

/// Whether `c` is Unicode white space.
pub fn is_whitespace(c: char) -> (res: bool)
    ensures
        res == is_ws(c),
{
    ('\u{9}' <= c && c <= '\u{d}') || c == ' ' || c == '\u{85}' || c == '\u{a0}' || c
        == '\u{1680}' || ('\u{2000}' <= c && c <= '\u{200a}') || c == '\u{2028}' || c
        == '\u{2029}' || c == '\u{202f}' || c == '\u{205f}' || c == '\u{3000}'
}

/// `s` without its leading white space.
pub open spec fn trim_start(s: Seq<char>) -> Seq<char>
    decreases s.len(),
{
    if s.len() > 0 && is_ws(s[0]) {
        trim_start(s.drop_first())
    } else {
        s
    }
}

/// `s` without its trailing white space.
pub open spec fn trim_end(s: Seq<char>) -> Seq<char>
    decreases s.len(),
{
    if s.len() > 0 && is_ws(s.last()) {
        trim_end(s.drop_last())
    } else {
        s
    }
}

/// `s` without leading and trailing white space (`str::trim`).
pub open spec fn trim(s: Seq<char>) -> Seq<char> {
    trim_end(trim_start(s))
}

pub proof fn lemma_trim_start_skip(s: Seq<char>, k: int)
    requires
        0 <= k <= s.len(),
        forall|i: int| 0 <= i < k ==> is_ws(#[trigger] s[i]),
    ensures
        trim_start(s) == trim_start(s.skip(k)),
    decreases k,
{
    if k == 0 {
        assert(s.skip(0) =~= s);
    } else {
        assert(is_ws(s[0]));
        assert(s.drop_first().skip(k - 1) =~= s.skip(k));
        assert forall|i: int| 0 <= i < k - 1 implies is_ws(#[trigger] s.drop_first()[i]) by {
            assert(s.drop_first()[i] == s[i + 1]);
        }
        lemma_trim_start_skip(s.drop_first(), k - 1);
    }
}

pub proof fn lemma_trim_end_take(s: Seq<char>, k: int)
    requires
        0 <= k <= s.len(),
        forall|i: int| k <= i < s.len() ==> is_ws(#[trigger] s[i]),
    ensures
        trim_end(s) == trim_end(s.take(k)),
    decreases s.len() - k,
{
    if k == s.len() {
        assert(s.take(k) =~= s);
    } else {
        assert(is_ws(s.last()));
        assert(s.drop_last().take(k) =~= s.take(k));
        lemma_trim_end_take(s.drop_last(), k);
    }
}

/// Index of the first non-white-space character of `v` at or after `lo`
/// (or `v.len()`).
fn first_non_ws(v: &Vec<char>, lo: usize) -> (res: usize)
    requires
        lo <= v.len(),
    ensures
        lo <= res <= v.len(),
        forall|i: int| lo <= i < res ==> is_ws(#[trigger] v@[i]),
        res < v.len() ==> !is_ws(v@[res as int]),
{
    let mut i: usize = lo;
    while i < v.len() && is_whitespace(v[i])
        invariant
            lo <= i <= v.len(),
            forall|j: int| lo <= j < i ==> is_ws(#[trigger] v@[j]),
        decreases v.len() - i,
    {
        i = i + 1;
    }
    i
}

/// Index just past the last non-white-space character of `v[lo..]`
/// (or `lo`).
fn end_non_ws(v: &Vec<char>, lo: usize) -> (res: usize)
    requires
        lo <= v.len(),
    ensures
        lo <= res <= v.len(),
        forall|i: int| res <= i < v.len() ==> is_ws(#[trigger] v@[i]),
        res > lo ==> !is_ws(v@[res - 1]),
{
    let mut i: usize = v.len();
    while i > lo && is_whitespace(v[i - 1])
        invariant
            lo <= i <= v.len(),
            forall|j: int| i <= j < v.len() ==> is_ws(#[trigger] v@[j]),
        decreases i,
    {
        i = i - 1;
    }
    i
}

/// `str::trim` on a character vector.
pub fn trim_chars(v: &Vec<char>) -> (res: Vec<char>)
    ensures
        res@ == trim(v@),
{
    let lo = first_non_ws(v, 0);
    let hi = end_non_ws(v, lo);
    proof {
        lemma_trim_start_skip(v@, lo as int);
        let t = v@.skip(lo as int);
        if lo < v.len() {
            assert(t[0] == v@[lo as int]);
        } else {
            assert(t.len() == 0);
        }
        assert(trim_start(t) == t);
        assert forall|i: int| hi - lo <= i < t.len() implies is_ws(#[trigger] t[i]) by {
            assert(t[i] == v@[lo + i]);
        }
        lemma_trim_end_take(t, hi - lo);
        let u = t.take(hi - lo);
        if hi > lo {
            assert(u.last() == v@[hi - 1]);
        }
        assert(trim_end(u) == u);
        assert(u =~= v@.subrange(lo as int, hi as int));
    }
    sub_chars(v, lo, hi)
}

/// `str::trim` on a string slice.
pub fn trim_str(s: &str) -> (res: String)
    ensures
        res@ == trim(s@),
{
    let v = chars_of(s);
    let t = trim_chars(&v);
    string_of(t.as_slice())
}

// ---------------------------------------------------------------------------
// Searching
// ---------------------------------------------------------------------------

/// Index of the first occurrence of `c` in `s`.
pub open spec fn find_char(s: Seq<char>, c: char) -> Option<int>
    decreases s.len(),
{
    if s.len() == 0 {
        None
    } else if s[0] == c {
        Some(0)
    } else {
        match find_char(s.drop_first(), c) {
            Some(i) => Some(i + 1),
            None => None,
        }
    }
}

pub proof fn lemma_find_char(s: Seq<char>, c: char)
    ensures
        find_char(s, c) matches Some(i) ==> {
            &&& 0 <= i < s.len()
            &&& s[i] == c
            &&& forall|j: int| 0 <= j < i ==> s[j] != c
        },
        find_char(s, c) is None ==> forall|j: int| 0 <= j < s.len() ==> s[j] != c,
    decreases s.len(),
{
    if s.len() > 0 && s[0] != c {
        lemma_find_char(s.drop_first(), c);
        assert forall|j: int| 1 <= j < s.len() implies s[j] == s.drop_first()[j - 1] by {}
    }
}

/// `s[i..]` begins with `pat`.
pub open spec fn matches_at(s: Seq<char>, pat: Seq<char>, i: int) -> bool {
    0 <= i && i + pat.len() <= s.len() && s.subrange(i, i + pat.len()) == pat
}

/// Index of the first occurrence of `pat` in `s` (`str::find`).
pub open spec fn find_sub(s: Seq<char>, pat: Seq<char>) -> Option<int>
    decreases s.len(),
{
    if s.len() < pat.len() {
        None
    } else if s.take(pat.len() as int) == pat {
        Some(0)
    } else if s.len() == 0 {
        None
    } else {
        match find_sub(s.drop_first(), pat) {
            Some(i) => Some(i + 1),
            None => None,
        }
    }
}

pub proof fn lemma_find_sub(s: Seq<char>, pat: Seq<char>)
    ensures
        find_sub(s, pat) matches Some(i) ==> {
            &&& matches_at(s, pat, i)
            &&& forall|j: int| 0 <= j < i ==> !matches_at(s, pat, j)
        },
        find_sub(s, pat) is None ==> forall|j: int| 0 <= j ==> !matches_at(s, pat, j),
    decreases s.len(),
{
    if s.len() < pat.len() {
    } else if s.take(pat.len() as int) == pat {
        assert(s.subrange(0, pat.len() as int) =~= s.take(pat.len() as int));
    } else if s.len() == 0 {
        assert(pat.len() == 0);
        assert(s.take(0) =~= pat);
    } else {
        let t = s.drop_first();
        lemma_find_sub(t, pat);
        assert(!matches_at(s, pat, 0)) by {
            assert(s.subrange(0, pat.len() as int) =~= s.take(pat.len() as int));
        }
        assert forall|j: int| 1 <= j implies matches_at(s, pat, j) == matches_at(t, pat, j - 1) by {
            if j + pat.len() <= s.len() {
                assert(s.subrange(j, j + pat.len()) =~= t.subrange(j - 1, j - 1 + pat.len()));
            }
        }
    }
}

/// Whether `pat` occurs in `v` at position `i`.
pub fn matches_at_exec(v: &Vec<char>, pat: &[char], i: usize) -> (res: bool)
    ensures
        res == matches_at(v@, pat@, i as int),
{
    if i > v.len() || pat.len() > v.len() - i {
        return false;
    }
    let mut k: usize = 0;
    while k < pat.len()
        invariant
            i <= v.len(),
            pat.len() <= v.len() - i,
            k <= pat@.len(),
            forall|j: int| 0 <= j < k ==> v@[i + j] == pat@[j],
        decreases pat.len() - k,
    {
        if v[i + k] != pat[k] {
            assert(v@.subrange(i as int, i + pat@.len())[k as int] != pat@[k as int]);
            return false;
        }
        k = k + 1;
    }
    assert(v@.subrange(i as int, i + pat@.len()) =~= pat@);
    true
}

pub proof fn lemma_matches_skip(v: Seq<char>, pat: Seq<char>, from: int, j: int)
    requires
        0 <= from <= v.len(),
        0 <= j,
    ensures
        matches_at(v.skip(from), pat, j) == matches_at(v, pat, j + from),
{
    let t = v.skip(from);
    if j + pat.len() <= t.len() {
        assert(t.subrange(j, j + pat.len()) =~= v.subrange(j + from, j + from + pat.len()));
    }
}

/// First occurrence of `pat` in `v[from..]`, as an index into `v`.
pub fn find_sub_from(v: &Vec<char>, from: usize, pat: &[char]) -> (res: Option<usize>)
    requires
        from <= v.len(),
    ensures
        res matches Some(i) ==> find_sub(v@.skip(from as int), pat@) == Some(i - from),
        res is None ==> find_sub(v@.skip(from as int), pat@) is None,
        res matches Some(i) ==> from <= i && i + pat@.len() <= v@.len(),
{
    let mut i: usize = from;
    loop
        invariant
            from <= i <= v.len(),
            forall|j: int| from <= j < i ==> !matches_at(v@, pat@, j),
        ensures
            forall|j: int| from <= j <= v.len() ==> !matches_at(v@, pat@, j),
        decreases v.len() - i,
    {
        if matches_at_exec(v, pat, i) {
            proof {
                let t = v@.skip(from as int);
                lemma_find_sub(t, pat@);
                lemma_matches_skip(v@, pat@, from as int, i - from);
                let k = find_sub(t, pat@);
                if k is Some {
                    let kk = k.unwrap();
                    lemma_matches_skip(v@, pat@, from as int, kk);
                }
            }
            return Some(i);
        }
        if i == v.len() {
            break;
        }
        i = i + 1;
    }
    proof {
        let t = v@.skip(from as int);
        lemma_find_sub(t, pat@);
        if find_sub(t, pat@) is Some {
            let kk = find_sub(t, pat@).unwrap();
            lemma_matches_skip(v@, pat@, from as int, kk);
        }
    }
    None
}

/// First occurrence of `c` in `v[from..]`, as an index into `v`.
pub fn find_char_from(v: &Vec<char>, from: usize, c: char) -> (res: Option<usize>)
    requires
        from <= v.len(),
    ensures
        res matches Some(i) ==> find_char(v@.skip(from as int), c) == Some(i - from) && from <= i
            < v.len(),
        res is None ==> find_char(v@.skip(from as int), c) is None,
{
    let mut i: usize = from;
    while i < v.len()
        invariant
            from <= i <= v.len(),
            forall|j: int| from <= j < i ==> v@[j] != c,
        decreases v.len() - i,
    {
        if v[i] == c {
            proof {
                let t = v@.skip(from as int);
                lemma_find_char(t, c);
                let k = find_char(t, c);
                if k is None {
                    assert(t[i - from] == c);
                } else {
                    let kk = k.unwrap();
                    if kk < i - from {
                        assert(t[kk] == v@[kk + from]);
                    } else if kk > i - from {
                        assert(t[i - from] == c);
                    }
                }
            }
            return Some(i);
        }
        i = i + 1;
    }
    proof {
        let t = v@.skip(from as int);
        lemma_find_char(t, c);
        if find_char(t, c) is Some {
            let kk = find_char(t, c).unwrap();
            assert(t[kk] == v@[kk + from]);
        }
    }
    None
}

// ---------------------------------------------------------------------------
// Splitting
// ---------------------------------------------------------------------------

/// The pieces of `s` between occurrences of `c` (`str::split` on a char).
pub open spec fn split_char(s: Seq<char>, c: char) -> Seq<Seq<char>>
    decreases s.len(),
{
    match find_char(s, c) {
        None => seq![s],
        Some(i) => {
            proof {
                lemma_find_char(s, c);
            }
            seq![s.take(i)] + split_char(s.skip(i + 1), c)
        },
    }
}

/// A sequence without `c` splits into itself alone.
pub proof fn lemma_split_none(s: Seq<char>, c: char)
    requires
        !s.contains(c),
    ensures
        split_char(s, c) == seq![s],
{
    lemma_find_char(s, c);
    if find_char(s, c) is Some {
        let i = find_char(s, c).unwrap();
        assert(s[i] == c);
    }
}

/// Trimming leaves a sequence alone whose ends are not white space.
pub proof fn lemma_trim_plain(s: Seq<char>)
    requires
        s.len() > 0 ==> !is_ws(s[0]) && !is_ws(s.last()),
    ensures
        trim(s) == s,
{
}

/// Trimming twice is trimming once.
pub proof fn lemma_trim_idempotent(s: Seq<char>)
    ensures
        trim(trim(s)) == trim(s),
{
    let t = trim(s);
    lemma_trim_ends(s);
    lemma_trim_plain(t);
}

/// What trimming leaves neither starts nor ends with white space.
pub proof fn lemma_trim_ends(s: Seq<char>)
    ensures
        trim(s).len() > 0 ==> !is_ws(trim(s)[0]) && !is_ws(trim(s).last()),
    decreases s.len(),
{
    lemma_trim_start_ends(s);
    lemma_trim_end_ends(trim_start(s));
}

proof fn lemma_trim_start_ends(s: Seq<char>)
    ensures
        trim_start(s).len() > 0 ==> !is_ws(trim_start(s)[0]),
        trim_start(s).len() <= s.len(),
    decreases s.len(),
{
    if s.len() > 0 && is_ws(s[0]) {
        lemma_trim_start_ends(s.drop_first());
    }
}

proof fn lemma_trim_end_ends(s: Seq<char>)
    ensures
        trim_end(s).len() > 0 ==> !is_ws(trim_end(s).last()),
        trim_end(s).len() > 0 && s.len() > 0 && !is_ws(s[0]) ==> !is_ws(trim_end(s)[0]),
        trim_end(s).len() <= s.len(),
        forall|i: int| 0 <= i < trim_end(s).len() ==> trim_end(s)[i] == s[i],
    decreases s.len(),
{
    if s.len() > 0 && is_ws(s.last()) {
        lemma_trim_end_ends(s.drop_last());
        assert forall|i: int| 0 <= i < trim_end(s).len() implies trim_end(s)[i] == s[i] by {
            assert(s.drop_last()[i] == s[i]);
        }
    }
}

/// `str::split` on a character, each piece as a character vector.
pub fn split_chars(v: &Vec<char>, c: char) -> (res: Vec<Vec<char>>)
    ensures
        res@.len() == split_char(v@, c).len(),
        forall|k: int| 0 <= k < res@.len() ==> #[trigger] res@[k]@ == split_char(v@, c)[k],
{
    let mut res: Vec<Vec<char>> = Vec::new();
    let mut p: usize = 0;
    assert(v@.skip(0) =~= v@);
    loop
        invariant
            p <= v.len(),
            split_char(v@, c).len() == res@.len() + split_char(v@.skip(p as int), c).len(),
            forall|k: int| 0 <= k < res@.len() ==> #[trigger] res@[k]@ == split_char(v@, c)[k],
            forall|k: int|
                0 <= k < split_char(v@.skip(p as int), c).len() ==> #[trigger] split_char(
                    v@.skip(p as int),
                    c,
                )[k] == split_char(v@, c)[res@.len() + k],
        decreases v.len() - p,
    {
        let ghost t = v@.skip(p as int);
        let ghost old_res = res@;
        let ghost old_p = p as int;
        match find_char_from(v, p, c) {
            None => {
                let piece = sub_chars(v, p, v.len());
                assert(piece@ =~= t);
                assert(split_char(t, c) == seq![t]);
                res.push(piece);
                assert(split_char(t, c)[0] == t);
                return res;
            },
            Some(i) => {
                let piece = sub_chars(v, p, i);
                proof {
                    lemma_find_char(t, c);
                    assert(piece@ =~= t.take(i - p));
                    assert(t.skip(i - p + 1) =~= v@.skip(i + 1));
                    assert(split_char(t, c) == seq![t.take(i - p)] + split_char(v@.skip(i + 1), c));
                }
                res.push(piece);
                p = i + 1;
                proof {
                    let u = v@.skip(p as int);
                    assert forall|k: int| 0 <= k < res@.len() implies #[trigger] res@[k]@
                        == split_char(v@, c)[k] by {
                        if k < old_res.len() {
                            assert(res@[k] == old_res[k]);
                        } else {
                            assert(res@[k]@ == t.take(i - old_p));
                            assert(split_char(t, c)[0] == t.take(i - old_p));
                        }
                    }
                    assert forall|k: int| 0 <= k < split_char(u, c).len() implies #[trigger] split_char(
                        u,
                        c,
                    )[k] == split_char(v@, c)[res@.len() + k] by {
                        assert(split_char(t, c)[k + 1] == split_char(u, c)[k]);
                    }
                }
            },
        }
    }
}

// ---------------------------------------------------------------------------
// Lexicographic order (the order of `str` / `String`)
// ---------------------------------------------------------------------------

/// `a` sorts strictly before `b`, comparing characters by code point.
pub open spec fn seq_lt(a: Seq<char>, b: Seq<char>) -> bool
    decreases a.len(),
{
    if a.len() == 0 {
        b.len() > 0
    } else if b.len() == 0 {
        false
    } else if a[0] != b[0] {
        a[0] < b[0]
    } else {
        seq_lt(a.drop_first(), b.drop_first())
    }
}

pub proof fn lemma_seq_lt_irreflexive(a: Seq<char>)
    ensures
        !seq_lt(a, a),
    decreases a.len(),
{
    if a.len() > 0 {
        lemma_seq_lt_irreflexive(a.drop_first());
    }
}

pub proof fn lemma_seq_lt_total(a: Seq<char>, b: Seq<char>)
    ensures
        !seq_lt(a, b) && !seq_lt(b, a) ==> a == b,
        !(seq_lt(a, b) && seq_lt(b, a)),
    decreases a.len(),
{
    if a.len() == 0 || b.len() == 0 {
        if a.len() == 0 && b.len() == 0 {
            assert(a =~= b);
        }
    } else if a[0] == b[0] {
        let a1 = a.drop_first();
        let b1 = b.drop_first();
        lemma_seq_lt_total(a1, b1);
        if !seq_lt(a, b) && !seq_lt(b, a) {
            assert(a1 == b1);
            assert(a =~= b) by {
                assert forall|i: int| 0 <= i < a.len() implies a[i] == b[i] by {
                    if i > 0 {
                        assert(a[i] == a1[i - 1]);
                        assert(b[i] == b1[i - 1]);
                    }
                }
            }
        }
    }
}

pub proof fn lemma_seq_lt_transitive(a: Seq<char>, b: Seq<char>, c: Seq<char>)
    requires
        seq_lt(a, b),
        seq_lt(b, c),
    ensures
        seq_lt(a, c),
    decreases a.len(),
{
    if a.len() > 0 && b.len() > 0 && c.len() > 0 && a[0] == b[0] && b[0] == c[0] {
        lemma_seq_lt_transitive(a.drop_first(), b.drop_first(), c.drop_first());
    }
}

/// Whether `a` sorts strictly before `b`.
pub fn chars_lt(a: &[char], b: &[char]) -> (res: bool)
    ensures
        res == seq_lt(a@, b@),
{
    let mut k: usize = 0;
    assert(a@.skip(0) =~= a@);
    assert(b@.skip(0) =~= b@);
    while k < a.len() && k < b.len()
        invariant
            k <= a@.len(),
            k <= b@.len(),
            seq_lt(a@, b@) == seq_lt(a@.skip(k as int), b@.skip(k as int)),
        decreases a.len() - k,
    {
        if a[k] != b[k] {
            assert(a@.skip(k as int)[0] == a[k as int]);
            assert(b@.skip(k as int)[0] == b[k as int]);
            return a[k] < b[k];
        }
        assert(a@.skip(k as int).drop_first() =~= a@.skip(k + 1));
        assert(b@.skip(k as int).drop_first() =~= b@.skip(k + 1));
        k = k + 1;
    }
    k < b.len()
}

// ---------------------------------------------------------------------------
// Case mapping and character classes (std)
// ---------------------------------------------------------------------------

/// What `str::to_lowercase` gives for a text that is not all ASCII (the
/// Unicode lower-case mapping).
pub uninterp spec fn unicode_lowercase(s: Seq<char>) -> Seq<char>;

/// What `char::to_uppercase` yields for a character that is not ASCII (the
/// Unicode upper-case mapping).
pub uninterp spec fn unicode_uppercase(c: char) -> Seq<char>;

/// Whether `char::is_alphanumeric` holds for a character that is not ASCII
/// (Unicode Alphabetic or Numeric).
pub uninterp spec fn unicode_alphanumeric(c: char) -> bool;

/// An ASCII character.
pub open spec fn is_ascii_char(c: char) -> bool {
    (c as int) < 128
}

/// A text made of ASCII characters only.
pub open spec fn is_ascii_text(s: Seq<char>) -> bool {
    forall|i: int| 0 <= i < s.len() ==> is_ascii_char(#[trigger] s[i])
}

/// An ASCII upper-case letter.
pub open spec fn is_ascii_upper(c: char) -> bool {
    'A' <= c <= 'Z'
}

/// An ASCII lower-case letter.
pub open spec fn is_ascii_lower(c: char) -> bool {
    'a' <= c <= 'z'
}

/// An ASCII letter or digit.
pub open spec fn is_ascii_alnum(c: char) -> bool {
    is_ascii_upper(c) || is_ascii_lower(c) || ('0' <= c <= '9')
}

/// `c` with an ASCII upper-case letter made lower case.
pub open spec fn ascii_lower_char(c: char) -> char {
    if is_ascii_upper(c) {
        ((c as int) + 32) as char
    } else {
        c
    }
}

/// `c` with an ASCII lower-case letter made upper case.
pub open spec fn ascii_upper_char(c: char) -> char {
    if is_ascii_lower(c) {
        ((c as int) - 32) as char
    } else {
        c
    }
}

/// Every ASCII upper-case letter of `s` made lower case.
pub open spec fn ascii_lowered(s: Seq<char>) -> Seq<char> {
    s.map_values(|c: char| ascii_lower_char(c))
}

/// What `str::to_lowercase` gives for the text `s`: on ASCII text, the
/// letters A to Z become a to z and nothing else changes.
pub open spec fn lowercase(s: Seq<char>) -> Seq<char> {
    if is_ascii_text(s) {
        ascii_lowered(s)
    } else {
        unicode_lowercase(s)
    }
}

/// What `char::to_uppercase` yields for `c`: for an ASCII character, the
/// character itself with a to z made A to Z.
pub open spec fn uppercase(c: char) -> Seq<char> {
    if is_ascii_char(c) {
        seq![ascii_upper_char(c)]
    } else {
        unicode_uppercase(c)
    }
}

/// Whether `char::is_alphanumeric` holds for `c`: for an ASCII character,
/// whether it is a letter or a digit.
pub open spec fn alphanumeric(c: char) -> bool {
    if is_ascii_char(c) {
        is_ascii_alnum(c)
    } else {
        unicode_alphanumeric(c)
    }
}

/// `str::to_lowercase` on the text made of `v`: on ASCII text the ASCII
/// lower-casing, on other text a function of the text alone.
#[verifier::external_body]
pub(crate) fn to_lowercase_chars(v: &[char]) -> (res: Vec<char>)
    ensures
        is_ascii_text(v@) ==> res@ == ascii_lowered(v@),
        !is_ascii_text(v@) ==> res@ == unicode_lowercase(v@),
{
    let s: String = v.iter().collect();
    s.to_lowercase().chars().collect()
}

/// `char::to_uppercase`, collected: for an ASCII character that character
/// with a to z made upper case, else one or more characters, a function of `c`.
#[verifier::external_body]
pub(crate) fn char_to_uppercase(c: char) -> (res: Vec<char>)
    ensures
        is_ascii_char(c) ==> res@ == seq![ascii_upper_char(c)],
        !is_ascii_char(c) ==> res@ == unicode_uppercase(c),
        res@.len() >= 1,
{
    c.to_uppercase().collect()
}

/// `char::is_alphanumeric`: for an ASCII character, whether it is a letter or
/// a digit; else a function of `c`.
#[verifier::external_body]
pub(crate) fn is_alphanumeric(c: char) -> (res: bool)
    ensures
        is_ascii_char(c) ==> res == is_ascii_alnum(c),
        !is_ascii_char(c) ==> res == unicode_alphanumeric(c),
{
    c.is_alphanumeric()
}

} // verus!
