use vstd::prelude::*;

use core::cmp::Ordering;

use crate::romaji::{compare_chars, lemma_lex_irreflexive, lemma_lex_total, lemma_lex_trans, lex_lt};
use crate::text::{chars_of, push_char};

verus! {

/// A whitespace character as `char::is_whitespace` has it (the Unicode `White_Space` set).
pub open spec fn is_ws(c: char) -> bool {
    ||| '\t' <= c <= '\r'
    ||| c == ' '
    ||| c == '\u{85}'
    ||| c == '\u{a0}'
    ||| c == '\u{1680}'
    ||| '\u{2000}' <= c <= '\u{200a}'
    ||| c == '\u{2028}'
    ||| c == '\u{2029}'
    ||| c == '\u{202f}'
    ||| c == '\u{205f}'
    ||| c == '\u{3000}'
}

fn is_ws_char(c: char) -> (r: bool)
    ensures
        r == is_ws(c),
{
    ('\t' <= c && c <= '\r') || c == ' ' || c == '\u{85}' || c == '\u{a0}' || c == '\u{1680}' || (
    '\u{2000}' <= c && c <= '\u{200a}') || c == '\u{2028}' || c == '\u{2029}' || c == '\u{202f}'
        || c == '\u{205f}' || c == '\u{3000}'
}

/// Index of the first `c` in `l` at or after `i`, or the length of `l`.
pub open spec fn index_of(l: Seq<char>, c: char, i: int) -> int
    decreases l.len() - i,
{
    if i >= l.len() {
        l.len() as int
    } else if l[i] == c {
        i
    } else {
        index_of(l, c, i + 1)
    }
}

/// Index of the first non-whitespace character of `l` at or after `i`, or the length of `l`.
pub open spec fn first_solid(l: Seq<char>, i: int) -> int
    decreases l.len() - i,
{
    if i >= l.len() {
        l.len() as int
    } else if !is_ws(l[i]) {
        i
    } else {
        first_solid(l, i + 1)
    }
}

/// The line of `t` that starts at `s`, without its newline.
pub open spec fn line_of(t: Seq<char>, s: int) -> Seq<char> {
    if 0 <= s < t.len() {
        t.subrange(s, index_of(t, '\n', s))
    } else {
        seq![]
    }
}

/// An entry line: not blank and, once trimmed, not a `;` comment.
pub open spec fn valid_line(l: Seq<char>) -> bool {
    first_solid(l, 0) < l.len() && l[first_solid(l, 0)] != ';'
}

/// `s` is the start of an entry line of `t`.
pub open spec fn valid_start(t: Seq<char>, s: int) -> bool {
    &&& 0 <= s < t.len()
    &&& (s == 0 || t[s - 1] == '\n')
    &&& valid_line(line_of(t, s))
}

/// The reading of a line: what stands before its first space (the whole line without one).
pub open spec fn yomi_of(l: Seq<char>) -> Seq<char> {
    l.take(index_of(l, ' ', 0))
}

pub open spec fn yomi_at(t: Seq<char>, s: int) -> Seq<char> {
    yomi_of(line_of(t, s))
}

/// Fields split on `/` so far, and the field being read.
pub open spec fn split_state(s: Seq<char>) -> (Seq<Seq<char>>, Seq<char>)
    decreases s.len(),
{
    if s.len() == 0 {
        (seq![], seq![])
    } else {
        let (done, cur) = split_state(s.drop_last());
        if s.last() == '/' {
            (
                if cur.len() > 0 {
                    done.push(cur)
                } else {
                    done
                },
                seq![],
            )
        } else {
            (done, cur.push(s.last()))
        }
    }
}

/// The non-empty fields of `s` between `/` separators.
pub open spec fn fields(s: Seq<char>) -> Seq<Seq<char>> {
    let (done, cur) = split_state(s);
    if cur.len() > 0 {
        done.push(cur)
    } else {
        done
    }
}

/// The candidates of an entry line `reading /c1/c2/.../`: none when the line has no space or
/// what follows the first space does not begin with `/`.
pub open spec fn candidates_of(l: Seq<char>) -> Seq<Seq<char>> {
    let sp = index_of(l, ' ', 0);
    if sp >= l.len() {
        seq![]
    } else {
        let rest = l.skip(sp + 1);
        if rest.len() == 0 || rest[0] != '/' {
            seq![]
        } else {
            fields(rest)
        }
    }
}

/// Entry order of the index: by reading, then by position in the text.
pub open spec fn entry_lt(t: Seq<char>, a: int, b: int) -> bool {
    ||| lex_lt(yomi_at(t, a), yomi_at(t, b))
    ||| (yomi_at(t, a) == yomi_at(t, b) && a < b)
}

/// The first entry line (in text order) of `t` with reading `q`.
pub open spec fn has_entry(t: Seq<char>, q: Seq<char>) -> bool {
    exists|s: int| valid_start(t, s) && #[trigger] yomi_at(t, s) == q
}

pub open spec fn is_first_entry(t: Seq<char>, q: Seq<char>, s: int) -> bool {
    &&& valid_start(t, s)
    &&& yomi_at(t, s) == q
    &&& forall|s2: int| valid_start(t, s2) && #[trigger] yomi_at(t, s2) == q ==> s <= s2
}

pub open spec fn first_entry(t: Seq<char>, q: Seq<char>) -> int {
    choose|s: int| is_first_entry(t, q, s)
}

/// What one source gives for reading `q`: the candidates of its first entry with that reading.
pub open spec fn source_lookup(t: Seq<char>, q: Seq<char>) -> Option<Seq<Seq<char>>> {
    if has_entry(t, q) {
        Some(candidates_of(line_of(t, first_entry(t, q))))
    } else {
        None
    }
}

/// The candidates of all sources for `q`, in source order.
pub open spec fn all_candidates(srcs: Seq<Seq<char>>, q: Seq<char>) -> Seq<Seq<char>>
    decreases srcs.len(),
{
    if srcs.len() == 0 {
        seq![]
    } else {
        all_candidates(srcs.drop_last(), q) + match source_lookup(srcs.last(), q) {
            Some(c) => c,
            None => seq![],
        }
    }
}

/// What the dictionary gives for `q`: `None` when no source has a candidate for it.
pub open spec fn dict_lookup(srcs: Seq<Seq<char>>, q: Seq<char>) -> Option<Seq<Seq<char>>> {
    let c = all_candidates(srcs, q);
    if c.len() == 0 {
        None
    } else {
        Some(c)
    }
}

pub open spec fn strings_view(v: Seq<String>) -> Seq<Seq<char>> {
    v.map_values(|s: String| s@)
}

/// One word-list source: its text and the start of each entry line, ordered by reading.
#[derive(Debug, Clone)]
struct SingleJisyo {
    text: Vec<char>,
    line_starts: Vec<usize>,
}

/// The dictionary: word-list sources consulted in order.
#[derive(Debug, Clone)]
pub struct Jisyo(Vec<SingleJisyo>);

impl View for Jisyo {
    type V = Seq<Seq<char>>;

    closed spec fn view(&self) -> Seq<Seq<char>> {
        self.0@.map_values(|j: SingleJisyo| j.text@)
    }
}

/// Relies on `slice::sort_by`: a permutation of the slice, ordered by the comparator (here a
/// strict total order on distinct positions: reading, then position).
#[verifier::external_body]
fn sort_line_starts(text: &Vec<char>, v: &mut Vec<usize>)
    requires
        forall|i: int, j: int| 0 <= i < j < old(v)@.len() ==> old(v)@[i] < old(v)@[j],
    ensures
        final(v)@.len() == old(v)@.len(),
        forall|x: usize| final(v)@.contains(x) <==> old(v)@.contains(x),
        forall|i: int, j: int|
            0 <= i < j < final(v)@.len() ==> entry_lt(
                text@,
                #[trigger] final(v)@[i] as int,
                #[trigger] final(v)@[j] as int,
            ),
{
    v.sort_by(|a, b| SingleJisyo::compare_entries(text, *a, *b))
}

/// Index of the first `c` in `t` at or after `i`, or the length of `t`.
fn find_char(t: &[char], c: char, i: usize, end: usize) -> (r: usize)
    requires
        i <= end <= t@.len(),
        index_of(t@.take(end as int), c, i as int) <= end,
    ensures
        r == index_of(t@.take(end as int), c, i as int),
{
    let ghost l = t@.take(end as int);
    let mut k = i;
    while k < end && t[k] != c
        invariant
            i <= k <= end,
            end <= t@.len(),
            l == t@.take(end as int),
            index_of(l, c, k as int) == index_of(l, c, i as int),
        decreases end - k,
    {
        k = k + 1;
    }
    k
}

proof fn lemma_index_of_bound(l: Seq<char>, c: char, i: int)
    requires
        0 <= i <= l.len(),
    ensures
        i <= index_of(l, c, i) <= l.len(),
        index_of(l, c, i) < l.len() ==> l[index_of(l, c, i)] == c,
        forall|k: int| i <= k < index_of(l, c, i) ==> l[k] != c,
    decreases l.len() - i,
{
    if i < l.len() && l[i] != c {
        lemma_index_of_bound(l, c, i + 1);
    }
}

/// End of the line that starts at `s` (position of its newline or the end of the text).
fn line_end(t: &Vec<char>, s: usize) -> (r: usize)
    requires
        s < t@.len(),
    ensures
        r == index_of(t@, '\n', s as int),
        s <= r <= t@.len(),
{
    proof {
        lemma_index_of_bound(t@, '\n', s as int);
        assert(t@.take(t@.len() as int) == t@);
    }
    find_char(t.as_slice(), '\n', s, t.len())
}

proof fn lemma_line_shift(t: Seq<char>, s: int, c: char, k: int)
    requires
        0 <= s < t.len(),
        0 <= k <= line_of(t, s).len(),
    ensures
        index_of(line_of(t, s), c, k) + s == index_of(t.take(index_of(t, '\n', s)), c, s + k),
    decreases line_of(t, s).len() - k,
{
    lemma_index_of_bound(t, '\n', s);
    let l = line_of(t, s);
    let e = index_of(t, '\n', s);
    if k < l.len() {
        assert(l[k] == t.take(e)[s + k]);
        if l[k] != c {
            lemma_line_shift(t, s, c, k + 1);
        }
    }
}

proof fn lemma_first_solid_bound(l: Seq<char>, i: int)
    requires
        0 <= i <= l.len(),
    ensures
        i <= first_solid(l, i) <= l.len(),
    decreases l.len() - i,
{
    if i < l.len() && is_ws(l[i]) {
        lemma_first_solid_bound(l, i + 1);
    }
}

impl SingleJisyo {
    /// Builds the index of one source text.
    fn load(text: &str) -> (r: SingleJisyo)
        ensures
            r.wf(),
            r.text@ == text@,
    {
        let t = chars_of(text);
        let mut starts: Vec<usize> = Vec::new();
        if Self::is_valid_line(&t, 0) {
            starts.push(0);
        }
        let mut i: usize = 0;
        proof {
            assert forall|x: usize| #[trigger]
                starts@.contains(x) <==> (valid_start(t@, x as int) && x <= 0) by {
                if starts@.contains(x) {
                    let a = choose|a: int| 0 <= a < starts@.len() && starts@[a] == x;
                }
                if valid_start(t@, x as int) && x <= 0 {
                    assert(starts@[0] == x);
                }
            }
        }
        while i < t.len()
            invariant
                i <= t@.len(),
                forall|a: int, b: int| 0 <= a < b < starts@.len() ==> starts@[a] < starts@[b],
                forall|a: int| 0 <= a < starts@.len() ==> starts@[a] <= i,
                forall|x: usize| #[trigger]
                    starts@.contains(x) <==> (valid_start(t@, x as int) && x <= i),
            decreases t@.len() - i,
        {
            if t[i] == '\n' {
                let s = i + 1;
                if s < t.len() && Self::is_valid_line(&t, s) {
                    let ghost old_starts = starts@;
                    starts.push(s);
                    proof {
                        assert(starts@ == old_starts.push(s));
                        assert forall|x: usize| #[trigger]
                            starts@.contains(x) <==> (valid_start(t@, x as int) && x <= s) by {
                            if starts@.contains(x) && x != s {
                                let a = choose|a: int| 0 <= a < starts@.len() && starts@[a] == x;
                                assert(old_starts[a] == x);
                                assert(old_starts.contains(x));
                            }
                            if valid_start(t@, x as int) && x <= s && x != s {
                                assert(old_starts.contains(x));
                                let a = choose|a: int| 0 <= a < old_starts.len() && old_starts[a] == x;
                                assert(starts@[a] == x);
                            }
                            if x == s {
                                assert(starts@[starts@.len() - 1] == x);
                            }
                        }
                    }
                } else {
                    proof {
                        assert forall|x: usize| #[trigger]
                            starts@.contains(x) <==> (valid_start(t@, x as int) && x <= i + 1) by {
                            if x == i + 1 && valid_start(t@, x as int) {
                                assert(false);
                            }
                        }
                    }
                }
            } else {
                proof {
                    assert forall|x: usize| #[trigger]
                        starts@.contains(x) <==> (valid_start(t@, x as int) && x <= i + 1) by {
                        if x == i + 1 && valid_start(t@, x as int) {
                            assert(t@[x - 1] == '\n');
                        }
                    }
                }
            }
            i = i + 1;
        }
        let ghost before = starts@;
        sort_line_starts(&t, &mut starts);
        proof {
            assert forall|a: int| 0 <= a < starts@.len() implies valid_start(
                t@,
                #[trigger] starts@[a] as int,
            ) by {
                assert(starts@.contains(starts@[a]));
            }
        }
        SingleJisyo { text: t, line_starts: starts }
    }

    spec fn wf(&self) -> bool {
        &&& forall|i: int, j: int|
            0 <= i < j < self.line_starts@.len() ==> entry_lt(
                self.text@,
                #[trigger] self.line_starts@[i] as int,
                #[trigger] self.line_starts@[j] as int,
            )
        &&& forall|x: usize| #[trigger]
            self.line_starts@.contains(x) <==> valid_start(self.text@, x as int)
    }

    /// The candidates of the first entry with reading `yomi`, if the source has one.
    fn lookup(&self, yomi: &[char]) -> (r: Option<Vec<String>>)
        requires
            self.wf(),
        ensures
            r is Some <==> source_lookup(self.text@, yomi@) is Some,
            r is Some ==> strings_view(r->0@) == source_lookup(self.text@, yomi@)->0,
    {
        let ghost t = self.text@;
        let ghost q = yomi@;
        let n = self.text.len();
        let starts = &self.line_starts;
        let mut lo: usize = 0;
        let mut hi: usize = starts.len();
        while lo < hi
            invariant
                lo <= hi <= starts@.len(),
                self.wf(),
                t == self.text@,
                q == yomi@,
                starts@ == self.line_starts@,
                forall|j: int| 0 <= j < lo ==> lex_lt(#[trigger] yomi_at(t, starts@[j] as int), q),
                forall|j: int|
                    hi <= j < starts@.len() ==> !lex_lt(#[trigger] yomi_at(t, starts@[j] as int), q),
            decreases hi - lo,
        {
            let mid = lo + (hi - lo) / 2;
            let c = Self::compare_yomi(&self.text, starts[mid], yomi);
            if c < 0 {
                proof {
                    assert forall|j: int| 0 <= j < mid + 1 implies lex_lt(
                        #[trigger] yomi_at(t, starts@[j] as int),
                        q,
                    ) by {
                        if j < mid {
                            assert(entry_lt(t, starts@[j] as int, starts@[mid as int] as int));
                            if yomi_at(t, starts@[j] as int) != yomi_at(t, starts@[mid as int] as int) {
                                lemma_lex_trans(
                                    yomi_at(t, starts@[j] as int),
                                    yomi_at(t, starts@[mid as int] as int),
                                    q,
                                );
                            }
                        }
                    }
                }
                lo = mid + 1;
            } else {
                proof {
                    assert forall|j: int| mid <= j < starts@.len() implies !lex_lt(
                        #[trigger] yomi_at(t, starts@[j] as int),
                        q,
                    ) by {
                        if j > mid && lex_lt(yomi_at(t, starts@[j] as int), q) {
                            assert(entry_lt(t, starts@[mid as int] as int, starts@[j] as int));
                            if yomi_at(t, starts@[j] as int) != yomi_at(t, starts@[mid as int] as int) {
                                lemma_lex_trans(
                                    yomi_at(t, starts@[mid as int] as int),
                                    yomi_at(t, starts@[j] as int),
                                    q,
                                );
                            }
                        }
                    }
                }
                hi = mid;
            }
        }
        let found = lo < starts.len() && Self::compare_yomi(&self.text, starts[lo], yomi) == 0;
        if found {
            let s = starts[lo];
            proof {
                assert(starts@.contains(s));
                assert(valid_start(t, s as int));
                assert(has_entry(t, q));
                assert forall|s2: int| valid_start(t, s2) && #[trigger] yomi_at(t, s2) == q implies s
                    <= s2 by {
                    assert(s2 < n);
                    assert(starts@.contains(s2 as usize));
                    let j = choose|j: int| 0 <= j < starts@.len() && starts@[j] == s2 as usize;
                    if j < lo {
                        lemma_lex_irreflexive(q);
                    } else if j > lo {
                        assert(entry_lt(t, starts@[lo as int] as int, starts@[j] as int));
                        lemma_lex_irreflexive(q);
                    }
                }
                assert(is_first_entry(t, q, s as int));
                let f = first_entry(t, q);
                assert(is_first_entry(t, q, f));
                assert(f == s);
            }
            return Some(Self::candidates_at(&self.text, s));
        }
        proof {
            assert forall|s2: int| valid_start(t, s2) implies #[trigger] yomi_at(t, s2) != q by {
                assert(s2 < n);
                assert(starts@.contains(s2 as usize));
                let j = choose|j: int| 0 <= j < starts@.len() && starts@[j] == s2 as usize;
                if j < lo {
                    lemma_lex_irreflexive(q);
                } else {
                    let y0 = yomi_at(t, starts@[lo as int] as int);
                    lemma_lex_irreflexive(q);
                    if j > lo {
                        assert(entry_lt(t, starts@[lo as int] as int, starts@[j] as int));
                    }
                }
            }
        }
        None
    }

    // ---- line helpers ----

    /// Whether the line at `start` is an entry line.
    fn is_valid_line(t: &Vec<char>, start: usize) -> (r: bool)
        ensures
            r == (start < t@.len() && valid_line(line_of(t@, start as int))),
    {
        if start >= t.len() {
            return false;
        }
        let e = line_end(t, start);
        let ghost l = line_of(t@, start as int);
        let mut i = start;
        while i < e && is_ws_char(t[i])
            invariant
                start <= i <= e,
                e == index_of(t@, '\n', start as int),
                e <= t@.len(),
                l == line_of(t@, start as int),
                l.len() == e - start,
                first_solid(l, (i - start) as int) == first_solid(l, 0),
            decreases e - i,
        {
            proof {
                assert(l[(i - start) as int] == t@[i as int]);
            }
            i = i + 1;
        }
        proof {
            lemma_first_solid_bound(l, 0);
            if i < e {
                assert(l[(i - start) as int] == t@[i as int]);
            }
        }
        i < e && t[i] != ';'
    }

    /// Compares the reading of the line at `s` with `q`.
    fn compare_yomi(t: &Vec<char>, s: usize, q: &[char]) -> (r: i8)
        ensures
            r == 0 <==> yomi_at(t@, s as int) == q@,
            r < 0 <==> lex_lt(yomi_at(t@, s as int), q@),
    {
        let (a, b) = Self::yomi_range(t, s);
        let y = vstd::slice::slice_subrange(t.as_slice(), a, b);
        compare_chars(y, q)
    }

    /// The positions in `t` of the reading of the line at `s`.
    fn yomi_range(t: &Vec<char>, s: usize) -> (r: (usize, usize))
        ensures
            r.0 <= r.1 <= t@.len(),
            t@.subrange(r.0 as int, r.1 as int) == yomi_at(t@, s as int),
    {
        if s >= t.len() {
            return (0, 0);
        }
        let e = line_end(t, s);
        proof {
            lemma_index_of_bound(t@.take(e as int), ' ', s as int);
        }
        let sp = find_char(t.as_slice(), ' ', s, e);
        proof {
            let l = line_of(t@, s as int);
            lemma_line_shift(t@, s as int, ' ', 0);
            lemma_index_of_bound(l, ' ', 0);
            assert(yomi_of(l) =~= t@.subrange(s as int, sp as int));
        }
        (s, sp)
    }

    /// Orders line starts by reading, then by position.
    fn compare_entries(t: &Vec<char>, a: usize, b: usize) -> (r: Ordering)
        ensures
            r == Ordering::Less <==> entry_lt(t@, a as int, b as int),
    {
        let (a0, a1) = Self::yomi_range(t, a);
        let (b0, b1) = Self::yomi_range(t, b);
        let ya = vstd::slice::slice_subrange(t.as_slice(), a0, a1);
        let yb = vstd::slice::slice_subrange(t.as_slice(), b0, b1);
        let c = compare_chars(ya, yb);
        if c < 0 {
            Ordering::Less
        } else if c > 0 {
            Ordering::Greater
        } else if a < b {
            Ordering::Less
        } else if a > b {
            Ordering::Greater
        } else {
            Ordering::Equal
        }
    }

    /// The candidates of the line at `start`.
    fn candidates_at(t: &Vec<char>, start: usize) -> (r: Vec<String>)
        requires
            start < t@.len(),
        ensures
            strings_view(r@) == candidates_of(line_of(t@, start as int)),
    {
        let e = line_end(t, start);
        let ghost l = line_of(t@, start as int);
        proof {
            lemma_index_of_bound(t@.take(e as int), ' ', start as int);
        }
        let sp = find_char(t.as_slice(), ' ', start, e);
        proof {
            lemma_line_shift(t@, start as int, ' ', 0);
            lemma_index_of_bound(l, ' ', 0);
        }
        let mut out: Vec<String> = Vec::new();
        if sp >= e || sp + 1 >= e || t[sp + 1] != '/' {
            proof {
                if sp < e {
                    let rest = l.skip(sp - start + 1);
                    if rest.len() > 0 {
                        assert(rest[0] == t@[sp + 1]);
                    }
                }
            }
            return out;
        }
        let ghost rest = l.skip(sp - start + 1);
        let mut cur = String::new();
        let mut k: usize = sp + 1;
        while k < e
            invariant
                sp + 1 <= k <= e,
                e <= t@.len(),
                start < t@.len(),
                e == index_of(t@, '\n', start as int),
                l == line_of(t@, start as int),
                l.len() == e - start,
                start <= sp,
                rest == l.skip(sp - start + 1),
                (strings_view(out@), cur@) == split_state(rest.take(k - sp - 1)),
            decreases e - k,
        {
            let c = t[k];
            proof {
                assert(l[k - start] == t@[k as int]);
                assert(rest[k - sp - 1] == l[(sp - start + 1) + (k - sp - 1)]);
                assert(rest.take(k - sp).drop_last() == rest.take(k - sp - 1));
                assert(rest.take(k - sp).last() == c);
            }
            if c == '/' {
                if !cur.as_str().is_empty() {
                    let ghost before = out@;
                    out.push(cur);
                    proof {
                        assert(strings_view(out@) == strings_view(before).push(cur@));
                    }
                } else {
                    proof {
                        assert(cur@.len() == 0);
                    }
                }
                cur = String::new();
            } else {
                push_char(&mut cur, c);
            }
            k = k + 1;
        }
        proof {
            assert(rest.take(k - sp - 1) == rest);
        }
        if !cur.as_str().is_empty() {
            let ghost before = out@;
            out.push(cur);
            proof {
                assert(strings_view(out@) == strings_view(before).push(cur@));
            }
        }
        out
    }
}

impl Jisyo {
    pub closed spec fn wf(&self) -> bool {
        forall|i: int| 0 <= i < self.0@.len() ==> (#[trigger] self.0@[i]).wf()
    }

    /// Builds the dictionary from the texts of its sources, in lookup order.
    pub fn load(texts: &Vec<String>) -> (r: Jisyo)
        ensures
            r.wf(),
            r@ == texts@.map_values(|s: String| s@),
    {
        let mut ret: Vec<SingleJisyo> = Vec::new();
        let mut i: usize = 0;
        while i < texts.len()
            invariant
                i <= texts@.len(),
                ret@.len() == i,
                forall|k: int| 0 <= k < i ==> (#[trigger] ret@[k]).wf(),
                forall|k: int| 0 <= k < i ==> (#[trigger] ret@[k]).text@ == texts@[k]@,
            decreases texts@.len() - i,
        {
            ret.push(SingleJisyo::load(texts[i].as_str()));
            i = i + 1;
        }
        let r = Jisyo(ret);
        assert(r@ =~= texts@.map_values(|s: String| s@));
        r
    }

    /// All candidates for `yomi`, source by source; `None` when there are none.
    pub fn lookup(&self, yomi: &str) -> (r: Option<Vec<String>>)
        requires
            self.wf(),
        ensures
            r is Some <==> dict_lookup(self@, yomi@) is Some,
            r is Some ==> strings_view(r->0@) == dict_lookup(self@, yomi@)->0,
    {
        let q = chars_of(yomi);
        let mut ret: Vec<String> = Vec::new();
        let mut i: usize = 0;
        while i < self.0.len()
            invariant
                i <= self.0@.len(),
                self.wf(),
                q@ == yomi@,
                strings_view(ret@) == all_candidates(self@.take(i as int), yomi@),
            decreases self.0@.len() - i,
        {
            let ghost before = ret@;
            if let Some(mut c) = self.0[i].lookup(q.as_slice()) {
                ret.append(&mut c);
            }
            proof {
                let s = self@.take(i + 1);
                assert(s.drop_last() == self@.take(i as int));
                assert(s.last() == self.0@[i as int].text@);
                assert(strings_view(before + ret@.skip(before.len() as int)) == strings_view(before)
                    + strings_view(ret@.skip(before.len() as int)));
                assert(ret@ == before + ret@.skip(before.len() as int));
            }
            i = i + 1;
        }
        proof {
            assert(self@.take(self.0@.len() as int) == self@);
        }
        if ret.len() == 0 {
            None
        } else {
            Some(ret)
        }
    }
}

} // verus!
