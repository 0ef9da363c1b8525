//! Finding the short upstream commit hash that names a Citron Nightly build.
//!
//! A short hash is seven hexadecimal digits in lower case. It is taken from
//! the first run of at least seven hexadecimal digits in a text, or from the
//! text that follows the label `Citron Upstream Commit:`.

use vstd::prelude::*;
use vstd::string::*;
use crate::text::{ascii_lower, hex_char, is_hex_char, lower_seq, same_text, to_ascii_lowercase};

verus! {

/// Number of hexadecimal digits in a short hash.
pub const SHORT_SHA_LEN: usize = 7;

/// The label, in lower case, that precedes the upstream hash in a release text.
pub const UPSTREAM_COMMIT_LABEL: &'static str = "citron upstream commit:";

/// Every character is a hexadecimal digit.
pub open spec fn all_hex(s: Seq<char>) -> bool {
    forall|i: int| 0 <= i < s.len() ==> #[trigger] is_hex_char(s[i])
}

/// A short hash as this library hands it out: seven hexadecimal digits, none
/// of them an upper-case letter.
pub open spec fn is_short_sha(s: Seq<char>) -> bool {
    &&& s.len() == SHORT_SHA_LEN
    &&& all_hex(s)
    &&& forall|i: int| 0 <= i < s.len() ==> !('A' <= #[trigger] s[i] && s[i] <= 'Z')
}

/// The text without its leading non-hexadecimal characters.
pub open spec fn trim_start_non_hex(s: Seq<char>) -> Seq<char>
    decreases s.len(),
{
    if s.len() > 0 && !is_hex_char(s[0]) {
        trim_start_non_hex(s.drop_first())
    } else {
        s
    }
}

/// The text without its trailing non-hexadecimal characters.
pub open spec fn trim_end_non_hex(s: Seq<char>) -> Seq<char>
    decreases s.len(),
{
    if s.len() > 0 && !is_hex_char(s.last()) {
        trim_end_non_hex(s.drop_last())
    } else {
        s
    }
}

/// The text without non-hexadecimal characters at either end.
pub open spec fn trim_non_hex(s: Seq<char>) -> Seq<char> {
    trim_end_non_hex(trim_start_non_hex(s))
}

/// The short hash that a candidate text stands for: trimmed of
/// non-hexadecimal characters at both ends, it must be made of at least seven
/// hexadecimal digits; the first seven, in lower case, are the hash.
pub open spec fn short_sha_of(s: Seq<char>) -> Option<Seq<char>> {
    let c = trim_non_hex(s);
    if c.len() >= SHORT_SHA_LEN && all_hex(c) {
        Some(lower_seq(c.take(SHORT_SHA_LEN as int)))
    } else {
        None
    }
}

/// The short hash that `value` stands for, or `None` when it holds fewer than
/// seven hexadecimal digits between its non-hexadecimal ends.
pub fn normalize_short_sha(value: &str) -> (res: Option<String>)
    ensures
        match res {
            Some(r) => short_sha_of(value@) == Some(r@),
            None => short_sha_of(value@) is None,
        },
{
    let ghost s = value@;
    let n = value.unicode_len();
    let mut a: usize = 0;
    assert(s.skip(0) =~= s);
    while a < n && !hex_char(value.get_char(a))
        invariant
            n == s.len(),
            s == value@,
            a <= n,
            trim_start_non_hex(s) == trim_start_non_hex(s.skip(a as int)),
        decreases n - a,
    {
        assert(s.skip(a as int).drop_first() =~= s.skip(a + 1));
        a = a + 1;
    }
    assert(trim_start_non_hex(s.skip(a as int)) == s.skip(a as int));
    let mut b: usize = n;
    assert(s.skip(a as int) =~= s.subrange(a as int, n as int));
    while b > a && !hex_char(value.get_char(b - 1))
        invariant
            n == s.len(),
            s == value@,
            a <= b <= n,
            trim_non_hex(s) == trim_end_non_hex(s.subrange(a as int, b as int)),
        decreases b,
    {
        assert(s.subrange(a as int, b as int).drop_last() =~= s.subrange(a as int, b - 1));
        b = b - 1;
    }
    assert(trim_end_non_hex(s.subrange(a as int, b as int)) == s.subrange(a as int, b as int));
    let ghost c = s.subrange(a as int, b as int);
    assert(trim_non_hex(s) == c);
    if b - a < SHORT_SHA_LEN {
        return None;
    }
    let mut i: usize = a;
    while i < b
        invariant
            n == s.len(),
            s == value@,
            a <= i <= b <= n,
            c == s.subrange(a as int, b as int),
            trim_non_hex(s) == c,
            forall|j: int| 0 <= j < i - a ==> #[trigger] is_hex_char(c[j]),
        decreases b - i,
    {
        if !hex_char(value.get_char(i)) {
            assert(!is_hex_char(c[i - a]));
            assert(!all_hex(c));
            return None;
        }
        i = i + 1;
    }
    let sha = value.substring_char(a, a + SHORT_SHA_LEN);
    assert(sha@ =~= c.take(SHORT_SHA_LEN as int));
    Some(to_ascii_lowercase(sha))
}

} // verus!

verus! {

/// A run of hexadecimal digits starts at `k` and holds at least seven digits.
pub open spec fn is_sha_start(s: Seq<char>, k: int) -> bool {
    &&& 0 <= k
    &&& k + SHORT_SHA_LEN <= s.len()
    &&& (k == 0 || !is_hex_char(s[k - 1]))
    &&& forall|j: int| k <= j < k + SHORT_SHA_LEN ==> #[trigger] is_hex_char(s[j])
}

/// The first short hash in a text: the first seven digits, in lower case, of
/// the first run of at least seven hexadecimal digits.
#[verifier::opaque]
pub open spec fn short_sha_in_text(s: Seq<char>) -> Option<Seq<char>> {
    if exists|k: int| #[trigger] is_sha_start(s, k) {
        let k = choose|k: int|
            #[trigger] is_sha_start(s, k) && forall|j: int| 0 <= j < k ==> !is_sha_start(s, j);
        Some(lower_seq(s.subrange(k, k + SHORT_SHA_LEN)))
    } else {
        None
    }
}

/// A text made only of hexadecimal digits stands for its own first seven.
proof fn lemma_short_sha_of_hex_run(r: Seq<char>)
    requires
        all_hex(r),
    ensures
        short_sha_of(r) == (if r.len() >= SHORT_SHA_LEN {
            Some(lower_seq(r.take(SHORT_SHA_LEN as int)))
        } else {
            None::<Seq<char>>
        }),
{
    assert(trim_start_non_hex(r) == r);
    if r.len() > 0 {
        assert(is_hex_char(r.last()));
    }
    assert(trim_end_non_hex(r) == r);
}

/// The first hash start found by a scan is the one the spec chooses.
proof fn lemma_first_sha_start(s: Seq<char>, st: int)
    requires
        is_sha_start(s, st),
        forall|k: int| #[trigger] is_sha_start(s, k) ==> k >= st,
    ensures
        short_sha_in_text(s) == Some(lower_seq(s.subrange(st, st + SHORT_SHA_LEN))),
{
    reveal(short_sha_in_text);
    assert(is_sha_start(s, st) && forall|j: int| 0 <= j < st ==> !is_sha_start(s, j));
    let k = choose|k: int|
        #[trigger] is_sha_start(s, k) && forall|j: int| 0 <= j < k ==> !is_sha_start(s, j);
    assert(k == st);
}

/// The first short hash in `text`: the first seven digits, lower-cased, of its
/// first run of at least seven hexadecimal digits.
pub fn extract_short_sha_from_text(text: &str) -> (res: Option<String>)
    ensures
        match res {
            Some(r) => short_sha_in_text(text@) == Some(r@),
            None => short_sha_in_text(text@) is None,
        },
{
    proof {
        reveal(short_sha_in_text);
    }
    let ghost s = text@;
    let n = text.unicode_len();
    let mut run_start: Option<usize> = None;
    let mut index: usize = 0;
    while index < n
        invariant
            n == s.len(),
            s == text@,
            index <= n,
            match run_start {
                Some(st) => {
                    &&& st < index
                    &&& (st == 0 || !is_hex_char(s[st - 1]))
                    &&& forall|j: int| st <= j < index ==> #[trigger] is_hex_char(s[j])
                    &&& forall|k: int| #[trigger] is_sha_start(s, k) ==> k >= st
                },
                None => {
                    &&& (index == 0 || !is_hex_char(s[index - 1]))
                    &&& forall|k: int| #[trigger] is_sha_start(s, k) ==> k >= index
                },
            },
        decreases n - index,
    {
        let ch = text.get_char(index);
        if hex_char(ch) {
            if run_start.is_none() {
                run_start = Some(index);
            }
        } else if let Some(start) = run_start {
            run_start = None;
            let run = text.substring_char(start, index);
            proof {
                lemma_short_sha_of_hex_run(run@);
            }
            if let Some(sha) = normalize_short_sha(run) {
                proof {
                    assert(run@.take(SHORT_SHA_LEN as int) =~= s.subrange(
                        start as int,
                        start + SHORT_SHA_LEN,
                    ));
                    lemma_first_sha_start(s, start as int);
                }
                return Some(sha);
            }
            assert forall|k: int| #[trigger] is_sha_start(s, k) implies k >= index + 1 by {
                if k <= index {
                    if k > start {
                        assert(is_hex_char(s[k - 1]));
                    } else {
                        assert(is_hex_char(s[index as int]));
                    }
                }
            }
        } else {
            assert forall|k: int| #[trigger] is_sha_start(s, k) implies k >= index + 1 by {
                if k == index {
                    assert(is_hex_char(s[k]));
                }
            }
        }
        index = index + 1;
    }
    if let Some(start) = run_start {
        let run = text.substring_char(start, n);
        proof {
            lemma_short_sha_of_hex_run(run@);
        }
        let res = normalize_short_sha(run);
        proof {
            if res.is_some() {
                assert(run@.take(SHORT_SHA_LEN as int) =~= s.subrange(
                    start as int,
                    start + SHORT_SHA_LEN,
                ));
                lemma_first_sha_start(s, start as int);
            } else {
                assert(!exists|k: int| #[trigger] is_sha_start(s, k));
            }
        }
        res
    } else {
        assert(!exists|k: int| #[trigger] is_sha_start(s, k));
        None
    }
}

} // verus!

verus! {

/// The label occurs in the lower-cased text `low` at position `p`.
pub open spec fn label_at(low: Seq<char>, p: int) -> bool {
    &&& 0 <= p
    &&& p + UPSTREAM_COMMIT_LABEL@.len() <= low.len()
    &&& low.subrange(p, p + UPSTREAM_COMMIT_LABEL@.len()) == UPSTREAM_COMMIT_LABEL@
}

/// The short hash that follows the first `Citron Upstream Commit:` label of a
/// text (the label matched without regard to ASCII case), if there is one.
#[verifier::opaque]
pub open spec fn labeled_upstream_sha(text: Seq<char>) -> Option<Seq<char>> {
    let low = lower_seq(text);
    if exists|p: int| #[trigger] label_at(low, p) {
        let p = choose|p: int|
            #[trigger] label_at(low, p) && forall|q: int| 0 <= q < p ==> !label_at(low, q);
        short_sha_in_text(text.skip(p + UPSTREAM_COMMIT_LABEL@.len()))
    } else {
        None
    }
}

/// The short hash after the first `Citron Upstream Commit:` label of `text`.
pub fn extract_labeled_upstream_sha(text: &str) -> (res: Option<String>)
    ensures
        match res {
            Some(r) => labeled_upstream_sha(text@) == Some(r@),
            None => labeled_upstream_sha(text@) is None,
        },
{
    proof {
        reveal(labeled_upstream_sha);
    }
    let label = UPSTREAM_COMMIT_LABEL;
    let text_lower = to_ascii_lowercase(text);
    let low = text_lower.as_str();
    let ghost lows = low@;
    let label_len = label.unicode_len();
    proof {
        reveal_strlit("citron upstream commit:");
        assert(label_len == 23);
    }
    let n = low.unicode_len();
    assert(lows == lower_seq(text@));
    if n < label_len {
        assert(!exists|p: int| #[trigger] label_at(lows, p));
        return None;
    }
    let mut p: usize = 0;
    let mut found: Option<usize> = None;
    while p <= n - label_len
        invariant_except_break
            found is None,
        invariant
            n == lows.len(),
            lows == low@,
            label_len == label@.len(),
            0 < label_len <= n,
            label == UPSTREAM_COMMIT_LABEL,
            p <= n - label_len + 1,
            forall|q: int| 0 <= q < p ==> !#[trigger] label_at(lows, q),
        ensures
            match found {
                Some(f) => label_at(lows, f as int) && forall|q: int|
                    0 <= q < f ==> !#[trigger] label_at(lows, q),
                None => forall|q: int| 0 <= q ==> !#[trigger] label_at(lows, q),
            },
        decreases n - label_len + 1 - p,
    {
        if same_text(low.substring_char(p, p + label_len), label) {
            found = Some(p);
            break;
        }
        p = p + 1;
    }
    match found {
        Some(f) => {
            proof {
                let k = choose|q: int|
                    #[trigger] label_at(lows, q) && forall|r: int| 0 <= r < q ==> !label_at(lows, r);
                assert(label_at(lows, f as int) && forall|r: int| 0 <= r < f ==> !label_at(lows, r));
                assert(k == f);
            }
            let start = f + label_len;
            extract_short_sha_from_text(text.substring_char(start, n))
        },
        None => None,
    }
}

} // verus!

verus! {

/// Lower-casing a hexadecimal digit gives a hexadecimal digit that is not an
/// upper-case letter.
proof fn lemma_ascii_lower_hex(c: char)
    requires
        is_hex_char(c),
    ensures
        is_hex_char(ascii_lower(c)),
        !('A' <= ascii_lower(c) && ascii_lower(c) <= 'Z'),
{
}

/// Seven hexadecimal digits, lower-cased, form a short hash.
pub proof fn lemma_lower_hex_is_short_sha(s: Seq<char>)
    requires
        s.len() == SHORT_SHA_LEN,
        all_hex(s),
    ensures
        is_short_sha(lower_seq(s)),
{
    assert forall|i: int| 0 <= i < s.len() implies is_hex_char(#[trigger] lower_seq(s)[i]) && !(
    'A' <= lower_seq(s)[i] && lower_seq(s)[i] <= 'Z') by {
        lemma_ascii_lower_hex(s[i]);
    }
}

/// A short hash is left as it is by lower-casing and by normalizing.
pub proof fn lemma_short_sha_fixpoint(t: Seq<char>)
    requires
        is_short_sha(t),
    ensures
        lower_seq(t) == t,
        short_sha_of(t) == Some(t),
{
    assert(lower_seq(t) =~= t);
    lemma_short_sha_of_hex_run(t);
    assert(t.take(SHORT_SHA_LEN as int) =~= t);
}

/// What a text's first short hash is, is a short hash.
pub proof fn lemma_short_sha_in_text_is_short_sha(s: Seq<char>)
    ensures
        short_sha_in_text(s) matches Some(t) ==> is_short_sha(t),
{
    reveal(short_sha_in_text);
    if exists|k: int| #[trigger] is_sha_start(s, k) {
        let w = choose|k: int| #[trigger] is_sha_start(s, k);
        lemma_has_first_sha_start(s, w);
        let k = choose|k: int|
            #[trigger] is_sha_start(s, k) && forall|j: int| 0 <= j < k ==> !is_sha_start(s, j);
        let sub = s.subrange(k, k + SHORT_SHA_LEN);
        assert forall|i: int| 0 <= i < sub.len() implies #[trigger] is_hex_char(sub[i]) by {
            assert(sub[i] == s[k + i]);
        }
        lemma_lower_hex_is_short_sha(sub);
    }
}

/// Where a text has a hash start, it has a first one.
proof fn lemma_has_first_sha_start(s: Seq<char>, w: int)
    requires
        is_sha_start(s, w),
    ensures
        exists|k: int| #[trigger] is_sha_start(s, k) && forall|j: int| 0 <= j < k ==> !is_sha_start(s, j),
    decreases w,
{
    if exists|j: int| 0 <= j < w && #[trigger] is_sha_start(s, j) {
        let j = choose|j: int| 0 <= j < w && #[trigger] is_sha_start(s, j);
        lemma_has_first_sha_start(s, j);
    } else {
        assert(is_sha_start(s, w) && forall|j: int| 0 <= j < w ==> !is_sha_start(s, j));
    }
}

/// What follows the upstream label is a short hash.
pub proof fn lemma_labeled_upstream_sha_is_short_sha(s: Seq<char>)
    ensures
        labeled_upstream_sha(s) matches Some(t) ==> is_short_sha(t),
{
    reveal(labeled_upstream_sha);
    let low = lower_seq(s);
    if exists|p: int| #[trigger] label_at(low, p) {
        let p = choose|p: int|
            #[trigger] label_at(low, p) && forall|q: int| 0 <= q < p ==> !label_at(low, q);
        lemma_short_sha_in_text_is_short_sha(s.skip(p + UPSTREAM_COMMIT_LABEL@.len()));
    }
}

} // verus!

verus! {

/// Normalizing a short hash is idempotent: what `normalize_short_sha` gives is
/// a short hash that stands for itself.
pub proof fn law_normalize_short_sha_idempotent(s: Seq<char>)
    ensures
        short_sha_of(s) matches Some(t) ==> is_short_sha(t) && short_sha_of(t) == Some(t),
{
    let c = trim_non_hex(s);
    if c.len() >= SHORT_SHA_LEN && all_hex(c) {
        let head = c.take(SHORT_SHA_LEN as int);
        assert forall|i: int| 0 <= i < head.len() implies #[trigger] is_hex_char(head[i]) by {
            assert(head[i] == c[i]);
        }
        lemma_lower_hex_is_short_sha(head);
        lemma_short_sha_fixpoint(lower_seq(head));
    }
}

} // verus!

verus! {

/// The label `Citron Upstream Commit:` is found wherever it stands, in any
/// ASCII case: when its first occurrence in the text starts at `p`, the
/// labeled commit is the first short hash of what follows it; a text without
/// the label has no labeled commit.
pub proof fn law_labeled_upstream_sha_follows_first_label(text: Seq<char>, p: int)
    ensures
        (0 <= p && p + UPSTREAM_COMMIT_LABEL@.len() <= text.len() && lower_seq(text).subrange(
            p,
            p + UPSTREAM_COMMIT_LABEL@.len(),
        ) == UPSTREAM_COMMIT_LABEL@ && forall|q: int|
            0 <= q < p ==> #[trigger] lower_seq(text).subrange(q, q + UPSTREAM_COMMIT_LABEL@.len())
                != UPSTREAM_COMMIT_LABEL@) ==> labeled_upstream_sha(text) == short_sha_in_text(
            text.skip(p + UPSTREAM_COMMIT_LABEL@.len()),
        ),
        (forall|q: int|
            0 <= q && q + UPSTREAM_COMMIT_LABEL@.len() <= text.len() ==> #[trigger] lower_seq(
                text,
            ).subrange(q, q + UPSTREAM_COMMIT_LABEL@.len()) != UPSTREAM_COMMIT_LABEL@)
            ==> labeled_upstream_sha(text) is None,
{
    reveal(labeled_upstream_sha);
    let low = lower_seq(text);
    let l = UPSTREAM_COMMIT_LABEL@.len();
    assert(low.len() == text.len());
    if 0 <= p && p + l <= text.len() && low.subrange(p, p + l) == UPSTREAM_COMMIT_LABEL@
        && forall|q: int| 0 <= q < p ==> #[trigger] low.subrange(q, q + l) != UPSTREAM_COMMIT_LABEL@ {
        assert(label_at(low, p));
        assert forall|q: int| 0 <= q < p implies !label_at(low, q) by {
            assert(low.subrange(q, q + l) != UPSTREAM_COMMIT_LABEL@);
        }
        let c = choose|c: int| #[trigger] label_at(low, c) && forall|q: int| 0 <= q < c ==> !label_at(low, q);
        assert(c == p);
    }
    if forall|q: int| 0 <= q && q + l <= text.len() ==> #[trigger] low.subrange(q, q + l) != UPSTREAM_COMMIT_LABEL@ {
        assert forall|q: int| !label_at(low, q) by {
            if 0 <= q && q + l <= low.len() {
                assert(low.subrange(q, q + l) != UPSTREAM_COMMIT_LABEL@);
            }
        }
    }
}

} // verus!

verus! {

/// Seven hexadecimal digits stand at `k`.
pub open spec fn hex_window_at(s: Seq<char>, k: int) -> bool {
    0 <= k && k + SHORT_SHA_LEN <= s.len() && forall|j: int|
        k <= j < k + SHORT_SHA_LEN ==> #[trigger] is_hex_char(s[j])
}

/// The first short hash of a text is read at the first place where seven
/// hexadecimal digits stand in a row, lower-cased; a text with no seven
/// hexadecimal digits in a row has none.
pub proof fn law_short_sha_in_text_first_window(s: Seq<char>, k: int)
    ensures
        hex_window_at(s, k) && (forall|m: int| 0 <= m < k ==> !#[trigger] hex_window_at(s, m))
            ==> short_sha_in_text(s) == Some(lower_seq(s.subrange(k, k + SHORT_SHA_LEN))),
        (forall|m: int| !#[trigger] hex_window_at(s, m)) ==> short_sha_in_text(s) is None,
{
    reveal(short_sha_in_text);
    if hex_window_at(s, k) && (forall|m: int| 0 <= m < k ==> !#[trigger] hex_window_at(s, m)) {
        if k > 0 && is_hex_char(s[k - 1]) {
            assert forall|j: int| k - 1 <= j < k - 1 + SHORT_SHA_LEN implies #[trigger] is_hex_char(s[j]) by {
                if j >= k {
                    assert(is_hex_char(s[j]));
                }
            }
            assert(hex_window_at(s, k - 1));
        }
        assert(is_sha_start(s, k));
        assert forall|c: int| #[trigger] is_sha_start(s, c) implies c >= k by {
            if c < k {
                assert(hex_window_at(s, c));
            }
        }
        lemma_first_sha_start(s, k);
    }
    if forall|m: int| !#[trigger] hex_window_at(s, m) {
        assert forall|c: int| !#[trigger] is_sha_start(s, c) by {
            if is_sha_start(s, c) {
                assert(hex_window_at(s, c));
            }
        }
    }
}

} // verus!

verus! {

/// No character is a hexadecimal digit.
pub open spec fn no_hex(s: Seq<char>) -> bool {
    forall|i: int| 0 <= i < s.len() ==> !#[trigger] is_hex_char(s[i])
}

proof fn lemma_trim_start_skips(x: Seq<char>, z: Seq<char>)
    requires
        no_hex(x),
    ensures
        trim_start_non_hex(x + z) == trim_start_non_hex(z),
    decreases x.len(),
{
    if x.len() > 0 {
        assert((x + z)[0] == x[0]);
        assert((x + z).drop_first() =~= x.drop_first() + z);
        lemma_trim_start_skips(x.drop_first(), z);
    } else {
        assert(x + z =~= z);
    }
}

proof fn lemma_trim_end_skips(z: Seq<char>, y: Seq<char>)
    requires
        no_hex(y),
    ensures
        trim_end_non_hex(z + y) == trim_end_non_hex(z),
    decreases y.len(),
{
    if y.len() > 0 {
        assert((z + y).last() == y.last());
        assert((z + y).drop_last() =~= z + y.drop_last());
        lemma_trim_end_skips(z, y.drop_last());
    } else {
        assert(z + y =~= z);
    }
}

/// A candidate made of a non-hexadecimal prefix `x`, a core `c` that starts
/// and ends with a hexadecimal digit, and a non-hexadecimal suffix `y` stands
/// for the first seven digits of its core, lower-cased, when the core is at
/// least seven hexadecimal digits, and for nothing otherwise. A candidate
/// with no hexadecimal digit at all stands for nothing.
pub proof fn law_short_sha_of_parts(x: Seq<char>, c: Seq<char>, y: Seq<char>)
    requires
        no_hex(x),
        no_hex(y),
        c.len() > 0 ==> is_hex_char(c[0]) && is_hex_char(c.last()),
    ensures
        short_sha_of(x + c + y) == (if c.len() >= SHORT_SHA_LEN && all_hex(c) {
            Some(lower_seq(c.take(SHORT_SHA_LEN as int)))
        } else {
            None::<Seq<char>>
        }),
{
    assert(x + c + y =~= x + (c + y));
    lemma_trim_start_skips(x, c + y);
    if c.len() > 0 {
        assert((c + y)[0] == c[0]);
        assert(trim_start_non_hex(c + y) == c + y);
        lemma_trim_end_skips(c, y);
        assert(trim_end_non_hex(c) == c);
    } else {
        assert(c + y =~= Seq::<char>::empty() + y);
        lemma_trim_start_skips(y, Seq::<char>::empty());
        assert(y + Seq::<char>::empty() =~= y);
        assert(c + y =~= y);
        assert(trim_start_non_hex(Seq::<char>::empty()) == Seq::<char>::empty());
    }
}

} // verus!
