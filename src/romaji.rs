use vstd::prelude::*;

use crate::text::{chars_of, is_lower, is_lower_char, string_of};

verus! {

/// Strict lexicographic order on character sequences (code point by code point; a proper
/// prefix comes first).
pub open spec fn lex_lt(a: Seq<char>, b: Seq<char>) -> bool
    decreases a.len(),
{
    if a.len() == 0 {
        b.len() > 0
    } else if b.len() == 0 {
        false
    } else if a[0] != b[0] {
        a[0] < b[0]
    } else {
        lex_lt(a.drop_first(), b.drop_first())
    }
}

pub open spec fn is_prefix(p: Seq<char>, s: Seq<char>) -> bool {
    p.len() <= s.len() && s.take(p.len() as int) == p
}

pub proof fn lemma_lex_irreflexive(a: Seq<char>)
    ensures
        !lex_lt(a, a),
    decreases a.len(),
{
    if a.len() > 0 {
        lemma_lex_irreflexive(a.drop_first());
    }
}

pub proof fn lemma_lex_trans(a: Seq<char>, b: Seq<char>, c: Seq<char>)
    requires
        lex_lt(a, b),
        lex_lt(b, c),
    ensures
        lex_lt(a, c),
    decreases a.len(),
{
    if a.len() > 0 && b.len() > 0 && c.len() > 0 && a[0] == b[0] && b[0] == c[0] {
        lemma_lex_trans(a.drop_first(), b.drop_first(), c.drop_first());
    }
}

pub proof fn lemma_lex_total(a: Seq<char>, b: Seq<char>)
    ensures
        a == b || lex_lt(a, b) || lex_lt(b, a),
    decreases a.len(),
{
    if a.len() > 0 && b.len() > 0 && a[0] == b[0] {
        lemma_lex_total(a.drop_first(), b.drop_first());
        if a.drop_first() == b.drop_first() {
            assert(a == seq![a[0]] + a.drop_first());
            assert(b == seq![b[0]] + b.drop_first());
        }
    } else if a.len() > 0 && b.len() > 0 {
        assert(a[0] < b[0] || b[0] < a[0]);
    } else if a.len() == 0 && b.len() == 0 {
        assert(a == b);
    }
}

/// A sequence never comes after one that it is a prefix of.
pub proof fn lemma_prefix_not_after(p: Seq<char>, s: Seq<char>)
    requires
        is_prefix(p, s),
    ensures
        !lex_lt(s, p),
    decreases p.len(),
{
    if p.len() > 0 {
        assert(s[0] == p[0]);
        assert(is_prefix(p.drop_first(), s.drop_first())) by {
            assert(s.drop_first().take(p.len() - 1) == s.take(p.len() as int).drop_first());
        }
        lemma_prefix_not_after(p.drop_first(), s.drop_first());
    }
}

/// Whatever lies between `q` and a sequence that starts with `q` also starts with `q`.
pub proof fn lemma_prefix_between(q: Seq<char>, k: Seq<char>, s: Seq<char>)
    requires
        is_prefix(q, s),
        !lex_lt(k, q),
        lex_lt(k, s),
    ensures
        is_prefix(q, k),
    decreases q.len(),
{
    if q.len() > 0 {
        assert(s[0] == q[0]);
        assert(k.len() > 0);
        assert(k[0] == q[0]) by {
            if k[0] != q[0] {
                assert(k[0] > q[0]);
                assert(k[0] < s[0] || k[0] == s[0]);
            }
        }
        assert(is_prefix(q.drop_first(), s.drop_first())) by {
            assert(s.drop_first().take(q.len() - 1) == s.take(q.len() as int).drop_first());
        }
        lemma_prefix_between(q.drop_first(), k.drop_first(), s.drop_first());
        assert(k.take(q.len() as int) =~= seq![k[0]] + k.drop_first().take(q.len() - 1));
        assert(q =~= seq![q[0]] + q.drop_first());
        assert(k.take(q.len() as int) =~= q);
    } else {
        assert(k.take(0) =~= q);
    }
}

/// Whether `s` starts with `p`.
pub fn starts_with(s: &[char], p: &[char]) -> (r: bool)
    ensures
        r == is_prefix(p@, s@),
{
    if p.len() > s.len() {
        return false;
    }
    let mut i: usize = 0;
    while i < p.len()
        invariant
            i <= p@.len() <= s@.len(),
            s@.take(i as int) == p@.take(i as int),
        decreases p@.len() - i,
    {
        if s[i] != p[i] {
            proof {
                assert(s@.take(p@.len() as int)[i as int] != p@[i as int]);
            }
            return false;
        }
        proof {
            assert(s@.take(i + 1) == s@.take(i as int).push(s@[i as int]));
            assert(p@.take(i + 1) == p@.take(i as int).push(p@[i as int]));
        }
        i = i + 1;
    }
    proof {
        assert(p@.take(i as int) == p@);
    }
    true
}

/// Compares two character sequences: -1, 0 or 1 as `a` comes before, equals or comes after `b`.
pub fn compare_chars(a: &[char], b: &[char]) -> (r: i8)
    ensures
        r == 0 <==> a@ == b@,
        r < 0 <==> lex_lt(a@, b@),
        r > 0 <==> lex_lt(b@, a@),
{
    let mut i: usize = 0;
    assert(a@.skip(0) =~= a@);
    assert(b@.skip(0) =~= b@);
    while i < a.len() && i < b.len()
        invariant
            i <= a@.len(),
            i <= b@.len(),
            a@.take(i as int) == b@.take(i as int),
            lex_lt(a@, b@) == lex_lt(a@.skip(i as int), b@.skip(i as int)),
            lex_lt(b@, a@) == lex_lt(b@.skip(i as int), a@.skip(i as int)),
        decreases a@.len() - i,
    {
        if a[i] != b[i] {
            proof {
                assert(a@.skip(i as int)[0] == a@[i as int]);
                assert(b@.skip(i as int)[0] == b@[i as int]);
                assert(a@ != b@ ==> true);
                assert(a@[i as int] != b@[i as int]);
            }
            if a[i] < b[i] {
                return -1;
            } else {
                return 1;
            }
        }
        proof {
            assert(a@.skip(i as int).drop_first() == a@.skip(i + 1));
            assert(b@.skip(i as int).drop_first() == b@.skip(i + 1));
            assert(a@.take(i + 1) == a@.take(i as int).push(a@[i as int]));
            assert(b@.take(i + 1) == b@.take(i as int).push(b@[i as int]));
        }
        i = i + 1;
    }
    proof {
        if a@.len() == i && b@.len() == i {
            assert(a@ == a@.take(i as int));
            assert(b@ == b@.take(i as int));
        }
        if a@.len() != b@.len() {
            assert(a@ != b@);
        }
    }
    if a.len() < b.len() {
        -1
    } else if a.len() > b.len() {
        1
    } else {
        0
    }
}

/// The commit/pushback split of a table value: a trailing ASCII lower-case letter is a pending
/// consonant handed back to the accumulator; otherwise the whole value is committed.
pub open spec fn split_value(v: Seq<char>) -> (Seq<char>, Seq<char>) {
    if v.len() > 0 && is_lower(v.last()) {
        (v.drop_last(), seq![v.last()])
    } else {
        (v, seq![])
    }
}

/// One row of the transliteration table.
#[derive(Debug, Clone)]
pub struct RomajiEntry {
    key: Vec<char>,
    commit: String,
    pushback: String,
}

/// The transliteration table: romaji fragments in strictly increasing order, each with the
/// kana that it maps to.
#[derive(Debug, Clone)]
pub struct RomajiTable {
    entries: Vec<RomajiEntry>,
}

impl View for RomajiTable {
    type V = Seq<(Seq<char>, Seq<char>)>;

    closed spec fn view(&self) -> Seq<(Seq<char>, Seq<char>)> {
        self.entries@.map_values(|e: RomajiEntry| (e.key@, e.commit@ + e.pushback@))
    }
}

/// Keys strictly increasing and every value non-empty.
pub open spec fn table_ok(t: Seq<(Seq<char>, Seq<char>)>) -> bool {
    &&& forall|i: int, j: int| 0 <= i < j < t.len() ==> lex_lt(#[trigger] t[i].0, #[trigger] t[j].0)
    &&& forall|i: int| 0 <= i < t.len() ==> #[trigger] t[i].1.len() > 0
}

/// The result of feeding a romaji fragment to the table.
pub struct KanaConverted {
    pub commit: String,
    pub pushback: String,
}

pub enum KanaMatch {
    Success(KanaConverted),
    PrefixMatch,
    Failure,
}

/// What the table says of fragment `q`: `Some(Some(v))` for an exact entry with value `v`,
/// `Some(None)` when `q` only starts some key, `None` otherwise.
pub open spec fn has_key(t: Seq<(Seq<char>, Seq<char>)>, q: Seq<char>) -> bool {
    exists|i: int| 0 <= i < t.len() && #[trigger] t[i].0 == q
}

pub open spec fn key_value(t: Seq<(Seq<char>, Seq<char>)>, q: Seq<char>) -> Seq<char> {
    t[choose|i: int| 0 <= i < t.len() && #[trigger] t[i].0 == q].1
}

pub open spec fn starts_some_key(t: Seq<(Seq<char>, Seq<char>)>, q: Seq<char>) -> bool {
    exists|i: int| 0 <= i < t.len() && is_prefix(q, #[trigger] t[i].0)
}

/// The outcome that the table gives for fragment `q`, as (kind, commit, pushback) with kind
/// 0 = success, 1 = prefix match, 2 = failure.
pub open spec fn match_kind(t: Seq<(Seq<char>, Seq<char>)>, q: Seq<char>) -> int {
    if q.len() == 0 {
        2
    } else if has_key(t, q) {
        0
    } else if starts_some_key(t, q) {
        1
    } else {
        2
    }
}

/// Feeding the key of a table entry succeeds, and the entry's kana is split as the commit /
/// pushback rule says: a trailing ASCII lower-case letter goes to the pushback, the rest is
/// committed, and the two together give the kana back.
pub proof fn lemma_entry_split(t: Seq<(Seq<char>, Seq<char>)>, i: int)
    requires
        table_ok(t),
        0 <= i < t.len(),
        t[i].0.len() > 0,
    ensures
        match_kind(t, t[i].0) == 0,
        key_value(t, t[i].0) == t[i].1,
        split_value(t[i].1).0 + split_value(t[i].1).1 == t[i].1,
        is_lower(t[i].1.last()) ==> split_value(key_value(t, t[i].0)) == (
            t[i].1.drop_last(),
            seq![t[i].1.last()],
        ),
        !is_lower(t[i].1.last()) ==> split_value(key_value(t, t[i].0)) == (t[i].1, Seq::<char>::empty()),
{
    let q = t[i].0;
    assert(has_key(t, q));
    assert forall|k: int| 0 <= k < t.len() && #[trigger] t[k].0 == q implies k == i by {
        lemma_lex_irreflexive(q);
        if k < i {
            assert(lex_lt(t[k].0, t[i].0));
        } else if k > i {
            assert(lex_lt(t[i].0, t[k].0));
        }
    }
    let v = t[i].1;
    assert(v.len() > 0);
    if is_lower(v.last()) {
        assert(v.drop_last() + seq![v.last()] =~= v);
    } else {
        assert(v + Seq::<char>::empty() =~= v);
    }
}

impl RomajiTable {
    pub closed spec fn wf(&self) -> bool {
        &&& table_ok(self@)
        &&& forall|i: int|
            0 <= i < self.entries@.len() ==> split_value(
                (#[trigger] self.entries@[i]).commit@ + self.entries@[i].pushback@,
            ) == (self.entries@[i].commit@, self.entries@[i].pushback@)
    }

    /// Builds a table from (romaji, kana) pairs; `None` unless the romaji are in strictly
    /// increasing order and no kana is empty.
    pub fn new(pairs: &Vec<(String, String)>) -> (r: Option<RomajiTable>)
        ensures
            r is Some <==> table_ok(pairs@.map_values(|p: (String, String)| (p.0@, p.1@))),
            r is Some ==> r->0.wf() && r->0@ == pairs@.map_values(
                |p: (String, String)| (p.0@, p.1@),
            ),
    {
        let ghost want = pairs@.map_values(|p: (String, String)| (p.0@, p.1@));
        let mut entries: Vec<RomajiEntry> = Vec::new();
        let mut i: usize = 0;
        while i < pairs.len()
            invariant
                i <= pairs@.len(),
                want == pairs@.map_values(|p: (String, String)| (p.0@, p.1@)),
                entries@.len() == i,
                forall|j: int|
                    0 <= j < i ==> ((#[trigger] entries@[j]).key@, entries@[j].commit@
                        + entries@[j].pushback@) == want[j],
                forall|j: int|
                    0 <= j < i ==> split_value((#[trigger] entries@[j]).commit@
                        + entries@[j].pushback@) == (entries@[j].commit@, entries@[j].pushback@),
                table_ok(want.take(i as int)),
            decreases pairs@.len() - i,
        {
            let key = chars_of(pairs[i].0.as_str());
            let value = chars_of(pairs[i].1.as_str());
            let n = value.len();
            if n == 0 {
                proof {
                    assert(want[i as int].1.len() == 0);
                }
                return None;
            }
            if i > 0 {
                let c = compare_chars(entries[i - 1].key.as_slice(), key.as_slice());
                if c >= 0 {
                    proof {
                        assert(!lex_lt(want[i - 1].0, want[i as int].0));
                    }
                    return None;
                }
            }
            let last = value[n - 1];
            let (commit, pushback) = if is_lower_char(last) {
                let mut head = value.clone();
                head.pop();
                assert(head@ == value@.drop_last());
                (string_of(head.as_slice()), string_of(vec![last].as_slice()))
            } else {
                (string_of(value.as_slice()), String::new())
            };
            proof {
                if is_lower(last) {
                    assert(value@.drop_last() + seq![last] == value@);
                    assert((value@.drop_last() + seq![last]).drop_last() == value@.drop_last());
                } else {
                    assert(value@ + Seq::<char>::empty() == value@);
                }
                let t = want.take(i + 1);
                assert forall|a: int, b: int| 0 <= a < b < t.len() implies lex_lt(
                    #[trigger] t[a].0,
                    #[trigger] t[b].0,
                ) by {
                    if b < i {
                        assert(want.take(i as int)[a] == t[a]);
                        assert(want.take(i as int)[b] == t[b]);
                    } else if a < i - 1 {
                        assert(want.take(i as int)[a] == t[a]);
                        assert(want.take(i as int)[i - 1] == t[i - 1]);
                        lemma_lex_trans(t[a].0, t[i - 1].0, t[b].0);
                    }
                }
                assert forall|a: int| 0 <= a < t.len() implies #[trigger] t[a].1.len() > 0 by {
                    if a < i {
                        assert(want.take(i as int)[a] == t[a]);
                    }
                }
            }
            entries.push(RomajiEntry { key, commit, pushback });
            i = i + 1;
        }
        let r = RomajiTable { entries };
        proof {
            assert(want.take(i as int) == want);
            assert(r@ =~= want);
        }
        Some(r)
    }
}

/// Looks fragment `romaji` up in the table. Success carries the commit/pushback split of the
/// entry's value; a prefix match means some key starts with the fragment.
pub fn search_lookup_table(table: &RomajiTable, romaji: &str) -> (r: KanaMatch)
    requires
        table.wf(),
    ensures
        match_kind(table@, romaji@) == 0 <==> r is Success,
        match_kind(table@, romaji@) == 1 <==> r is PrefixMatch,
        match_kind(table@, romaji@) == 2 <==> r is Failure,
        r matches KanaMatch::Success(k) ==> (k.commit@, k.pushback@) == split_value(
            key_value(table@, romaji@),
        ),
{
    let q = chars_of(romaji);
    if q.len() == 0 {
        return KanaMatch::Failure;
    }
    let ghost t = table@;
    let entries = &table.entries;
    let mut lo: usize = 0;
    let mut hi: usize = entries.len();
    while lo < hi
        invariant
            lo <= hi <= entries@.len(),
            t == table@,
            table.wf(),
            entries@ == table.entries@,
            t.len() == entries@.len(),
            forall|j: int| 0 <= j < lo ==> lex_lt(#[trigger] t[j].0, q@),
            forall|j: int| hi <= j < t.len() ==> !lex_lt(#[trigger] t[j].0, q@),
        decreases hi - lo,
    {
        let mid = lo + (hi - lo) / 2;
        let c = compare_chars(entries[mid].key.as_slice(), q.as_slice());
        assert(t[mid as int].0 == entries@[mid as int].key@);
        if c < 0 {
            proof {
                assert forall|j: int| 0 <= j < mid + 1 implies lex_lt(#[trigger] t[j].0, q@) by {
                    if j < mid {
                        lemma_lex_trans(t[j].0, t[mid as int].0, q@);
                    }
                }
            }
            lo = mid + 1;
        } else {
            proof {
                assert forall|j: int| mid <= j < t.len() implies !lex_lt(#[trigger] t[j].0, q@) by {
                    if j > mid && lex_lt(t[j].0, q@) {
                        lemma_lex_trans(t[mid as int].0, t[j].0, q@);
                        lemma_lex_irreflexive(q@);
                        if t[mid as int].0 == q@ {
                        } else {
                            lemma_lex_total(t[mid as int].0, q@);
                        }
                    }
                }
            }
            hi = mid;
        }
    }
    proof {
        assert forall|j: int| 0 <= j < t.len() && #[trigger] t[j].0 == q@ implies j == lo by {
            if j < lo {
                lemma_lex_irreflexive(q@);
            } else if j > lo {
                lemma_lex_total(t[lo as int].0, q@);
            }
        }
    }
    if lo < entries.len() {
        let e = &entries[lo];
        let c = compare_chars(e.key.as_slice(), q.as_slice());
        if c == 0 {
            proof {
                assert(t[lo as int].0 == q@);
                assert(has_key(t, q@));
                let k = choose|i: int| 0 <= i < t.len() && #[trigger] t[i].0 == q@;
                assert(k == lo);
            }
            return KanaMatch::Success(
                KanaConverted { commit: e.commit.clone(), pushback: e.pushback.clone() },
            );
        }
        if starts_with(e.key.as_slice(), q.as_slice()) {
            proof {
                assert(t[lo as int].0 == e.key@);
                assert(is_prefix(q@, t[lo as int].0));
                assert(starts_some_key(t, q@));
                assert(!has_key(t, q@));
            }
            return KanaMatch::PrefixMatch;
        }
    }
    proof {
        assert(!has_key(t, q@));
        assert forall|j: int| 0 <= j < t.len() implies !is_prefix(q@, #[trigger] t[j].0) by {
            if j < lo {
                if is_prefix(q@, t[j].0) {
                    lemma_prefix_not_after(q@, t[j].0);
                }
            } else if j > lo && is_prefix(q@, t[j].0) {
                lemma_prefix_between(q@, t[lo as int].0, t[j].0);
            }
        }
    }
    KanaMatch::Failure
}

} // verus!
