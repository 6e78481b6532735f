use vstd::prelude::*;

use crate::text::{chars_of, push_char, push_str};

verus! {

/// Relies on `char::from_u32`: `Some` exactly for Unicode scalar values, holding that code point.
#[verifier::external_body]
fn char_from_u32(i: u32) -> (r: Option<char>)
    ensures
        (0xE000 <= i <= 0x10FFFF || i < 0xD800) ==> r is Some,
        r is Some ==> r->0 as u32 == i,
{
    char::from_u32(i)
}

/// A hiragana letter (U+3041 to U+3096) turned into its katakana (U+30A1 to U+30F6); any
/// other character kept.
pub open spec fn katakana_char(c: char) -> char {
    if 0x3041 <= c as u32 <= 0x3096 {
        (c as u32 + 0x60) as char
    } else {
        c
    }
}

pub open spec fn katakana_of(s: Seq<char>) -> Seq<char> {
    s.map_values(|c: char| katakana_char(c))
}

/// A printable ASCII character turned into its full-width form; the space into the
/// ideographic space; any other character kept.
pub open spec fn zenkaku_char(c: char) -> char {
    if '!' <= c <= '~' {
        (c as u32 + 0xFEE0) as char
    } else if c == ' ' {
        '\u{3000}'
    } else {
        c
    }
}

/// `s` without the boundary markers `>`.
pub open spec fn without_setsuji(s: Seq<char>) -> Seq<char> {
    s.filter(|c: char| c != '>')
}

/// Half-width katakana for hiragana letters: characters in strictly increasing order, each
/// with its half-width spelling.
#[derive(Debug, Clone)]
pub struct HalfwidthTable {
    entries: Vec<(char, String)>,
}

impl View for HalfwidthTable {
    type V = Seq<(char, Seq<char>)>;

    closed spec fn view(&self) -> Seq<(char, Seq<char>)> {
        self.entries@.map_values(|e: (char, String)| (e.0, e.1@))
    }
}

pub open spec fn half_ok(t: Seq<(char, Seq<char>)>) -> bool {
    forall|i: int, j: int| 0 <= i < j < t.len() ==> (#[trigger] t[i].0) < (#[trigger] t[j].0)
}

/// What the table holds for `c`, if anything.
pub open spec fn half_lookup(t: Seq<(char, Seq<char>)>, c: char) -> Option<Seq<char>> {
    if exists|i: int| 0 <= i < t.len() && #[trigger] t[i].0 == c {
        Some(t[choose|i: int| 0 <= i < t.len() && #[trigger] t[i].0 == c].1)
    } else {
        None
    }
}

/// The half-width spelling of one character: the table's, or else its katakana.
pub open spec fn halfwidth_char(t: Seq<(char, Seq<char>)>, c: char) -> Seq<char> {
    match half_lookup(t, c) {
        Some(v) => v,
        None => seq![katakana_char(c)],
    }
}

pub open spec fn halfwidth_of(t: Seq<(char, Seq<char>)>, s: Seq<char>) -> Seq<char>
    decreases s.len(),
{
    if s.len() == 0 {
        seq![]
    } else {
        halfwidth_of(t, s.drop_last()) + halfwidth_char(t, s.last())
    }
}

impl HalfwidthTable {
    pub open spec fn wf(&self) -> bool {
        half_ok(self@)
    }

    /// Builds a table from (hiragana, half-width) pairs; `None` unless the characters are in
    /// strictly increasing order.
    pub fn new(pairs: Vec<(char, String)>) -> (r: Option<HalfwidthTable>)
        ensures
            r is Some <==> half_ok(pairs@.map_values(|e: (char, String)| (e.0, e.1@))),
            r is Some ==> r->0@ == pairs@.map_values(|e: (char, String)| (e.0, e.1@)),
    {
        let ghost t = pairs@.map_values(|e: (char, String)| (e.0, e.1@));
        let mut i: usize = 1;
        while i < pairs.len()
            invariant
                1 <= i,
                t == pairs@.map_values(|e: (char, String)| (e.0, e.1@)),
                i <= pairs@.len() || pairs@.len() == 0,
                forall|a: int, b: int|
                    0 <= a < b < i && b < t.len() ==> (#[trigger] t[a].0) < (#[trigger] t[b].0),
            decreases pairs@.len() - i,
        {
            if pairs[i - 1].0 >= pairs[i].0 {
                proof {
                    assert(t[i - 1].0 == pairs@[i - 1].0);
                    assert(t[i as int].0 == pairs@[i as int].0);
                    assert(!(t[i - 1].0 < t[i as int].0));
                }
                return None;
            }
            proof {
                assert forall|a: int, b: int| 0 <= a < b < i + 1 && b < t.len() implies (
                #[trigger] t[a].0) < (#[trigger] t[b].0) by {
                    if b == i && a < i - 1 {
                        assert(t[a].0 < t[i - 1].0);
                    }
                }
            }
            i = i + 1;
        }
        Some(HalfwidthTable { entries: pairs })
    }

    /// The spelling that the table holds for `c`.
    pub fn get(&self, c: char) -> (r: Option<&str>)
        requires
            self.wf(),
        ensures
            r is Some <==> half_lookup(self@, c) is Some,
            r is Some ==> r->0@ == half_lookup(self@, c)->0,
    {
        let ghost t = self@;
        let mut lo: usize = 0;
        let mut hi: usize = self.entries.len();
        while lo < hi
            invariant
                lo <= hi <= self.entries@.len(),
                t == self@,
                half_ok(t),
                t.len() == self.entries@.len(),
                forall|j: int| 0 <= j < lo ==> (#[trigger] t[j].0) < c,
                forall|j: int| hi <= j < t.len() ==> (#[trigger] t[j].0) >= c,
            decreases hi - lo,
        {
            let mid = lo + (hi - lo) / 2;
            assert(t[mid as int].0 == self.entries@[mid as int].0);
            if self.entries[mid].0 < c {
                proof {
                    assert forall|j: int| 0 <= j < mid + 1 implies (#[trigger] t[j].0) < c by {
                        if j < mid {
                            assert(t[j].0 < t[mid as int].0);
                        }
                    }
                }
                lo = mid + 1;
            } else {
                proof {
                    assert forall|j: int| mid <= j < t.len() implies (#[trigger] t[j].0) >= c by {
                        if j > mid {
                            assert(t[mid as int].0 < t[j].0);
                        }
                    }
                }
                hi = mid;
            }
        }
        if lo < self.entries.len() && self.entries[lo].0 == c {
            proof {
                assert(t[lo as int].0 == c);
                let k = choose|i: int| 0 <= i < t.len() && #[trigger] t[i].0 == c;
                if k < lo {
                } else if k > lo {
                    assert(t[lo as int].0 < t[k].0);
                }
                assert(k == lo);
            }
            Some(self.entries[lo].1.as_str())
        } else {
            proof {
                assert forall|j: int| 0 <= j < t.len() implies #[trigger] t[j].0 != c by {
                    if j > lo {
                        assert(t[lo as int].0 < t[j].0);
                    }
                }
            }
            None
        }
    }
}

proof fn lemma_char_code(k: char, v: u32)
    requires
        k as u32 == v,
    ensures
        k == v as char,
{
}

fn katakana_char_exec(c: char) -> (r: char)
    ensures
        r == katakana_char(c),
{
    let v = c as u32;
    if 0x3041 <= v && v <= 0x3096 {
        match char_from_u32(v + 0x60) {
            Some(k) => {
                assert(k as u32 == v + 0x60);
                proof { lemma_char_code(k, (v + 0x60) as u32); }
                k
            },
            None => c,
        }
    } else {
        c
    }
}

/// Hiragana letters turned into katakana; every other character kept.
pub fn convert_to_katakana(hiragana: &str) -> (r: String)
    ensures
        r@ == katakana_of(hiragana@),
{
    let mut out = String::new();
    for c in it: hiragana.chars()
        invariant
            it.seq() == hiragana@,
            out@ == katakana_of(hiragana@.take(it.index() as int)),
    {
        let k = katakana_char_exec(c);
        proof {
            let s = hiragana@.take(it.index() + 1);
            assert(katakana_of(s) =~= katakana_of(hiragana@.take(it.index() as int)).push(k));
        }
        push_char(&mut out, k);
    }
    proof {
        assert(hiragana@.take(hiragana@.len() as int) == hiragana@);
    }
    out
}

/// Each character in its half-width spelling: the table's where it has one, else its katakana.
pub fn convert_to_halfwidth_katakana(table: &HalfwidthTable, hiragana: &str) -> (r: String)
    requires
        table.wf(),
    ensures
        r@ == halfwidth_of(table@, hiragana@),
{
    let mut out = String::new();
    for c in it: hiragana.chars()
        invariant
            it.seq() == hiragana@,
            table.wf(),
            out@ == halfwidth_of(table@, hiragana@.take(it.index() as int)),
    {
        proof {
            let s = hiragana@.take(it.index() + 1);
            assert(s.drop_last() == hiragana@.take(it.index() as int));
            assert(s.last() == c);
        }
        match table.get(c) {
            Some(h) => push_str(&mut out, h),
            None => push_char(&mut out, katakana_char_exec(c)),
        }
    }
    proof {
        assert(hiragana@.take(hiragana@.len() as int) == hiragana@);
    }
    out
}

/// A printable ASCII character in its full-width form.
pub fn convert_to_zenkaku_ascii(c: char) -> (r: char)
    ensures
        r == zenkaku_char(c),
{
    if '!' <= c && c <= '~' {
        match char_from_u32(c as u32 + 0xFEE0) {
            Some(z) => {
                proof {
                    lemma_char_code(z, (c as u32 + 0xFEE0) as u32);
                }
                z
            },
            None => c,
        }
    } else if c == ' ' {
        '\u{3000}'
    } else {
        c
    }
}

/// `s` with every boundary marker `>` removed.
pub fn delete_setsuji(s: &str) -> (r: String)
    ensures
        r@ == without_setsuji(s@),
{
    let mut out = String::new();
    for c in it: s.chars()
        invariant
            it.seq() == s@,
            out@ == without_setsuji(s@.take(it.index() as int)),
    {
        proof {
            let t = s@.take(it.index() + 1);
            assert(t.drop_last() == s@.take(it.index() as int));
            assert(t.last() == c);
            reveal(Seq::filter);
            assert(t.filter(|c: char| c != '>') == t.drop_last().filter(|c: char| c != '>') + (if c
                != '>' {
                seq![c]
            } else {
                seq![]
            }));
        }
        if c != '>' {
            push_char(&mut out, c);
        }
    }
    proof {
        assert(s@.take(s@.len() as int) == s@);
    }
    out
}

} // verus!
