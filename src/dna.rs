//! Searching DNA strings for runs of bases described by a pattern.
//!
//! A pattern such as `A1-1,C2-4` is a comma-separated list of items; each
//! item is a base followed by a minimum and a maximum run length, one digit
//! each (dashes are ignored). A pattern matches at a position when, item
//! after item, the text continues with a run of at least the minimum number
//! of that base; the match takes as much of each run as the maximum allows.
//! Positions count characters.

use crate::text::{chars_of, digit_value, is_digit, split_chars, split_on};
use vstd::prelude::*;

verus! {

/// One pattern item: a base with the least and most of it to take.
pub struct Item {
    pub base: char,
    pub min: u32,
    pub max: u32,
}

/// `p` without its dashes.
pub open spec fn strip_dashes(p: Seq<char>) -> Seq<char>
    decreases p.len(),
{
    if p.len() == 0 {
        Seq::empty()
    } else if p.last() == '-' {
        strip_dashes(p.drop_last())
    } else {
        strip_dashes(p.drop_last()).push(p.last())
    }
}

pub open spec fn item_ok(p: Seq<char>) -> bool {
    let q = strip_dashes(p);
    q.len() >= 3 && is_digit(q[1]) && is_digit(q[2])
}

pub open spec fn item_of(p: Seq<char>) -> Item {
    let q = strip_dashes(p);
    Item { base: q[0], min: digit_value(q[1]) as u32, max: digit_value(q[2]) as u32 }
}

/// Every item of the pattern has a base and two digits.
pub open spec fn pattern_ok(t: Seq<char>) -> bool {
    forall|k: int| 0 <= k < split_on(t, ',').len() ==> item_ok(#[trigger] split_on(t, ',')[k])
}

pub open spec fn pattern_of(t: Seq<char>) -> Seq<Item> {
    split_on(t, ',').map_values(|p: Seq<char>| item_of(p))
}

/// Some item asks for at least one base and takes at least one, so every
/// match is non-empty.
pub open spec fn never_empty(pat: Seq<Item>) -> bool {
    exists|k: int| 0 <= k < pat.len() && #[trigger] pat[k].min >= 1 && pat[k].max >= 1
}

/// Length of the run of `c` in `s` that starts at `from`.
pub open spec fn run_len(s: Seq<char>, from: int, c: char) -> nat
    decreases s.len() - from,
{
    if 0 <= from < s.len() && s[from] == c {
        1 + run_len(s, from + 1, c)
    } else {
        0
    }
}

pub open spec fn min_nat(a: nat, b: nat) -> nat {
    if a < b {
        a
    } else {
        b
    }
}

/// Where the match of the first `k` items that starts at `pos` ends, if
/// they match.
pub open spec fn match_end(s: Seq<char>, pat: Seq<Item>, pos: int, k: nat) -> Option<int>
    decreases k,
{
    if k == 0 {
        Some(pos)
    } else {
        match match_end(s, pat, pos, (k - 1) as nat) {
            Some(p) => {
                let item = pat[k - 1];
                let l = run_len(s, p, item.base);
                if l >= item.min {
                    Some(p + min_nat(l, item.max as nat))
                } else {
                    None
                }
            },
            None => None,
        }
    }
}

/// The first match at a position from `from` on, as (start, end).
pub open spec fn first_match(s: Seq<char>, pat: Seq<Item>, from: int) -> Option<(int, int)>
    decreases s.len() - from,
{
    if from < 0 || from >= s.len() {
        None
    } else {
        match match_end(s, pat, from, pat.len()) {
            Some(e) => Some((from, e)),
            None => first_match(s, pat, from + 1),
        }
    }
}

/// The matches found scanning left to right from `from`, each search
/// starting where the previous match ended.
pub open spec fn all_matches(s: Seq<char>, pat: Seq<Item>, from: int) -> Seq<(int, int)>
    decreases s.len() - from,
{
    if from < 0 || from >= s.len() {
        Seq::empty()
    } else {
        match first_match(s, pat, from) {
            Some((i, e)) => if from < e <= s.len() {
                seq![(i, e)] + all_matches(s, pat, e)
            } else {
                seq![(i, e)]
            },
            None => Seq::empty(),
        }
    }
}

fn digit_of_char(c: char) -> (r: u32)
    requires
        is_digit(c),
    ensures
        r == digit_value(c) as u32,
{
    (c as u32) - ('0' as u32)
}

fn strip_dash_chars(p: &Vec<char>) -> (r: Vec<char>)
    ensures
        r@ == strip_dashes(p@),
{
    let mut q: Vec<char> = Vec::new();
    let mut i: usize = 0;
    while i < p.len()
        invariant
            i <= p@.len(),
            q@ == strip_dashes(p@.take(i as int)),
        decreases p@.len() - i,
    {
        assert(p@.take(i as int + 1).drop_last() =~= p@.take(i as int));
        if p[i] != '-' {
            q.push(p[i]);
        }
        i = i + 1;
    }
    assert(p@.take(p@.len() as int) =~= p@);
    q
}

/// The items of a pattern written as `A1-1,C2-4`.
pub fn parse_pattern(seq: &str) -> (r: Vec<Item>)
    requires
        pattern_ok(seq@),
    ensures
        r@ == pattern_of(seq@),
{
    let t = chars_of(seq);
    let parts = split_chars(&t, ',');
    let mut items: Vec<Item> = Vec::new();
    let mut k: usize = 0;
    while k < parts.len()
        invariant
            t@ == seq@,
            pattern_ok(seq@),
            parts@.len() == split_on(seq@, ',').len(),
            forall|j: int| 0 <= j < parts@.len() ==> (#[trigger] parts@[j])@ == split_on(seq@, ',')[j],
            k <= parts@.len(),
            items@.len() == k,
            forall|j: int| 0 <= j < k ==> #[trigger] items@[j] == item_of(split_on(seq@, ',')[j]),
        decreases parts@.len() - k,
    {
        let q = strip_dash_chars(&parts[k]);
        assert(item_ok(split_on(seq@, ',')[k as int]));
        let item = Item { base: q[0], min: digit_of_char(q[1]), max: digit_of_char(q[2]) };
        assert(item == item_of(split_on(seq@, ',')[k as int]));
        items.push(item);
        k = k + 1;
    }
    assert(items@ =~= pattern_of(seq@));
    items
}

fn run_length(cs: &Vec<char>, from: usize, c: char) -> (r: usize)
    requires
        from <= cs@.len(),
    ensures
        r == run_len(cs@, from as int, c),
        from + r <= cs@.len(),
{
    let mut j: usize = from;
    while j < cs.len() && cs[j] == c
        invariant
            from <= j <= cs@.len(),
            run_len(cs@, from as int, c) == (j - from) + run_len(cs@, j as int, c),
        decreases cs@.len() - j,
    {
        j = j + 1;
    }
    j - from
}

fn match_at(cs: &Vec<char>, pat: &Vec<Item>, pos: usize) -> (r: Option<usize>)
    requires
        pos <= cs@.len(),
    ensures
        r matches Some(e) ==> match_end(cs@, pat@, pos as int, pat@.len()) == Some(e as int)
            && e <= cs@.len(),
        r is None ==> match_end(cs@, pat@, pos as int, pat@.len()) is None,
{
    let mut p: usize = pos;
    let mut k: usize = 0;
    let n = cs.len();
    while k < pat.len()
        invariant
            n == cs@.len(),
            k <= pat@.len(),
            pos <= p <= cs@.len(),
            match_end(cs@, pat@, pos as int, k as nat) == Some(p as int),
        decreases pat@.len() - k,
    {
        let item = &pat[k];
        let l = run_length(cs, p, item.base);
        if l >= item.min as usize {
            let taken: usize = if l < item.max as usize {
                l
            } else {
                item.max as usize
            };
            assert(taken <= l);
            p = p + taken;
        } else {
            proof { lemma_failed_match_stays(cs@, pat@, pos as int, (k + 1) as nat, pat@.len()); }
            return None;
        }
        k = k + 1;
    }
    Some(p)
}

proof fn lemma_failed_match_stays(s: Seq<char>, pat: Seq<Item>, pos: int, k: nat, m: nat)
    requires
        match_end(s, pat, pos, k) is None,
        k <= m,
    ensures
        match_end(s, pat, pos, m) is None,
    decreases m - k,
{
    if k < m {
        lemma_failed_match_stays(s, pat, pos, k, (m - 1) as nat);
    }
}

fn find_from(cs: &Vec<char>, pat: &Vec<Item>, from: usize) -> (r: Option<(usize, usize)>)
    requires
        from <= cs@.len(),
    ensures
        r matches Some((i, e)) ==> first_match(cs@, pat@, from as int) == Some(
            (i as int, e as int),
        ) && from <= i <= e <= cs@.len() && match_end(cs@, pat@, i as int, pat@.len()) == Some(
            e as int,
        ),
        r is None ==> first_match(cs@, pat@, from as int) is None,
{
    let mut i: usize = from;
    while i < cs.len()
        invariant
            from <= i <= cs@.len(),
            first_match(cs@, pat@, from as int) == first_match(cs@, pat@, i as int),
        decreases cs@.len() - i,
    {
        match match_at(cs, pat, i) {
            Some(e) => {
                proof { lemma_match_end_after(cs@, pat@, i as int, pat@.len()); }
                return Some((i, e));
            },
            None => {},
        }
        i = i + 1;
    }
    None
}

proof fn lemma_match_end_after(s: Seq<char>, pat: Seq<Item>, pos: int, k: nat)
    ensures
        match_end(s, pat, pos, k) matches Some(e) ==> e >= pos,
    decreases k,
{
    if k > 0 {
        lemma_match_end_after(s, pat, pos, (k - 1) as nat);
    }
}

/// The first match of the pattern `seq` in `s`: its position and the
/// matched text.
pub fn find_sub<'a, 'b>(s: &'a str, seq: &'b str) -> (r: Option<(usize, &'a str)>)
    requires
        pattern_ok(seq@),
    ensures
        match first_match(s@, pattern_of(seq@), 0) {
            Some((i, e)) => r matches Some((j, t)) && j == i && t@ == s@.subrange(i, e),
            None => r is None,
        },
{
    let cs = chars_of(s);
    let pat = parse_pattern(seq);
    match find_from(&cs, &pat, 0) {
        Some((i, e)) => Some((i, s.substring_char(i, e))),
        None => None,
    }
}

/// Every match scanning left to right, each search resuming where the
/// previous match ended, as (start, end) positions.
fn match_positions(cs: &Vec<char>, pat: &Vec<Item>) -> (r: Vec<(usize, usize)>)
    requires
        never_empty(pat@),
    ensures
        r@.len() == all_matches(cs@, pat@, 0).len(),
        forall|k: int|
            0 <= k < r@.len() ==> (#[trigger] r@[k]).0 as int == all_matches(cs@, pat@, 0)[k].0
                && r@[k].1 as int == all_matches(cs@, pat@, 0)[k].1 && r@[k].0 <= r@[k].1
                <= cs@.len(),
{
    let mut out: Vec<(usize, usize)> = Vec::new();
    let mut last: usize = 0;
    let mut done = false;
    while last < cs.len() && !done
        invariant
            never_empty(pat@),
            last <= cs@.len(),
            forall|k: int|
                0 <= k < out@.len() ==> (#[trigger] out@[k]).0 as int == all_matches(cs@, pat@, 0)[k].0
                    && out@[k].1 as int == all_matches(cs@, pat@, 0)[k].1 && out@[k].0 <= out@[k].1
                    <= cs@.len(),
            !done ==> all_matches(cs@, pat@, 0) =~= out@.map_values(
                |m: (usize, usize)| (m.0 as int, m.1 as int),
            ) + all_matches(cs@, pat@, last as int),
            done ==> all_matches(cs@, pat@, 0) =~= out@.map_values(
                |m: (usize, usize)| (m.0 as int, m.1 as int),
            ),
        decreases cs@.len() - last + (if done {
            0int
        } else {
            1int
        }),
    {
        match find_from(cs, pat, last) {
            Some((i, e)) => {
                proof {
                    lemma_match_nonempty(cs@, pat@, i as int, pat@.len());
                }
                out.push((i, e));
                assert(all_matches(cs@, pat@, last as int) =~= seq![(i as int, e as int)]
                    + all_matches(cs@, pat@, e as int));
                last = e;
            },
            None => {
                assert(all_matches(cs@, pat@, last as int) =~= Seq::<(int, int)>::empty());
                done = true;
            },
        }
    }
    proof {
        if !done {
            assert(all_matches(cs@, pat@, last as int) =~= Seq::<(int, int)>::empty());
        }
    }
    out
}

proof fn lemma_match_nonempty(s: Seq<char>, pat: Seq<Item>, pos: int, k: nat)
    requires
        never_empty(pat),
        k == pat.len(),
    ensures
        match_end(s, pat, pos, k) matches Some(e) ==> e > pos,
{
    let j = choose|j: int| 0 <= j < pat.len() && #[trigger] pat[j].min >= 1 && pat[j].max >= 1;
    lemma_match_grows(s, pat, pos, k, j);
}

proof fn lemma_match_grows(s: Seq<char>, pat: Seq<Item>, pos: int, k: nat, j: int)
    requires
        0 <= j < k <= pat.len(),
        pat[j].min >= 1,
        pat[j].max >= 1,
    ensures
        match_end(s, pat, pos, k) matches Some(e) ==> e > pos,
    decreases k,
{
    if k - 1 > j {
        lemma_match_grows(s, pat, pos, (k - 1) as nat, j);
    } else {
        lemma_match_end_after(s, pat, pos, (k - 1) as nat);
    }
}

/// Every match of `seq` in `s` scanning left to right, each search resuming
/// where the previous match ended: positions and matched text.
pub fn subsequences1<'a, 'b>(s: &'a str, seq: &'b str) -> (r: Vec<(usize, &'a str)>)
    requires
        pattern_ok(seq@),
        never_empty(pattern_of(seq@)),
    ensures
        r@.len() == all_matches(s@, pattern_of(seq@), 0).len(),
        forall|k: int|
            0 <= k < r@.len() ==> (#[trigger] r@[k]).0 as int == all_matches(
                s@,
                pattern_of(seq@),
                0,
            )[k].0 && r@[k].1@ == s@.subrange(
                all_matches(s@, pattern_of(seq@), 0)[k].0,
                all_matches(s@, pattern_of(seq@), 0)[k].1,
            ),
{
    let cs = chars_of(s);
    let pat = parse_pattern(seq);
    let pos = match_positions(&cs, &pat);
    let mut out: Vec<(usize, &'a str)> = Vec::new();
    let mut k: usize = 0;
    while k < pos.len()
        invariant
            cs@ == s@,
            pat@ == pattern_of(seq@),
            k <= pos@.len(),
            pos@.len() == all_matches(cs@, pat@, 0).len(),
            forall|j: int|
                0 <= j < pos@.len() ==> (#[trigger] pos@[j]).0 as int == all_matches(cs@, pat@, 0)[j].0
                    && pos@[j].1 as int == all_matches(cs@, pat@, 0)[j].1 && pos@[j].0 <= pos@[j].1
                    <= cs@.len(),
            out@.len() == k,
            forall|j: int|
                0 <= j < k ==> (#[trigger] out@[j]).0 == pos@[j].0 && out@[j].1@ == s@.subrange(
                    pos@[j].0 as int,
                    pos@[j].1 as int,
                ),
        decreases pos@.len() - k,
    {
        let (i, e) = pos[k];
        out.push((i, s.substring_char(i, e)));
        k = k + 1;
    }
    out
}

/// The matches of each pattern of `seqs` in turn, scanning as
/// `subsequences1` does, each as (start, end, index of the pattern).
pub open spec fn tagged_matches(s: Seq<char>, seqs: Seq<Seq<char>>, n: nat) -> Seq<(int, int, int)>
    decreases n,
{
    if n == 0 {
        Seq::empty()
    } else {
        tagged_matches(s, seqs, (n - 1) as nat) + all_matches(s, pattern_of(seqs[n - 1]), 0).map_values(
            |m: (int, int)| (m.0, m.1, n - 1),
        )
    }
}

pub open spec fn str_views(seqs: Seq<&str>) -> Seq<Seq<char>> {
    seqs.map_values(|q: &str| q@)
}

/// The matches of every pattern of `seqs` in `s`, pattern after pattern:
/// position, matched text and the pattern that matched.
pub fn subsequences2<'a>(s: &'a str, seqs: &'a [&'a str]) -> (r: Vec<(usize, &'a str, &'a str)>)
    requires
        forall|j: int|
            0 <= j < seqs@.len() ==> pattern_ok((#[trigger] seqs@[j])@) && never_empty(
                pattern_of(seqs@[j]@),
            ),
    ensures
        r@.len() == tagged_matches(s@, str_views(seqs@), seqs@.len()).len(),
        forall|k: int|
            0 <= k < r@.len() ==> {
                let m = tagged_matches(s@, str_views(seqs@), seqs@.len())[k];
                &&& (#[trigger] r@[k]).0 as int == m.0
                &&& r@[k].1@ == s@.subrange(m.0, m.1)
                &&& r@[k].2 == seqs@[m.2]
            },
{
    let ghost views = str_views(seqs@);
    let mut out: Vec<(usize, &'a str, &'a str)> = Vec::new();
    let mut j: usize = 0;
    while j < seqs.len()
        invariant
            views == str_views(seqs@),
            j <= seqs@.len(),
            forall|q: int|
                0 <= q < seqs@.len() ==> pattern_ok((#[trigger] seqs@[q])@) && never_empty(
                    pattern_of(seqs@[q]@),
                ),
            out@.len() == tagged_matches(s@, views, j as nat).len(),
            forall|k: int|
                0 <= k < out@.len() ==> {
                    let m = tagged_matches(s@, views, j as nat)[k];
                    &&& (#[trigger] out@[k]).0 as int == m.0
                    &&& out@[k].1@ == s@.subrange(m.0, m.1)
                    &&& 0 <= m.2 < j
                    &&& out@[k].2 == seqs@[m.2]
                },
        decreases seqs@.len() - j,
    {
        let seq = seqs[j];
        let found = subsequences1(s, seq);
        let ghost before = out@;
        let ghost base = tagged_matches(s@, views, j as nat);
        let ghost here = all_matches(s@, pattern_of(seq@), 0).map_values(
            |m: (int, int)| (m.0, m.1, j as int),
        );
        assert(views[j as int] == seq@);
        assert(tagged_matches(s@, views, (j + 1) as nat) == base + here);
        let mut k: usize = 0;
        while k < found.len()
            invariant
                k <= found@.len(),
                found@.len() == all_matches(s@, pattern_of(seq@), 0).len(),
                forall|q: int|
                    0 <= q < found@.len() ==> (#[trigger] found@[q]).0 as int == all_matches(
                        s@,
                        pattern_of(seq@),
                        0,
                    )[q].0 && found@[q].1@ == s@.subrange(
                        all_matches(s@, pattern_of(seq@), 0)[q].0,
                        all_matches(s@, pattern_of(seq@), 0)[q].1,
                    ),
                here == all_matches(s@, pattern_of(seq@), 0).map_values(
                    |m: (int, int)| (m.0, m.1, j as int),
                ),
                here.len() == found@.len(),
                out@.len() == before.len() + k,
                before.len() == base.len(),
                forall|q: int| 0 <= q < before.len() ==> #[trigger] out@[q] == before[q],
                forall|q: int|
                    0 <= q < k ==> {
                        let m = here[q];
                        &&& (#[trigger] out@[before.len() + q]).0 as int == m.0
                        &&& out@[before.len() + q].1@ == s@.subrange(m.0, m.1)
                        &&& out@[before.len() + q].2 == seq
                    },
            decreases found@.len() - k,
        {
            let (i, t) = found[k];
            let ghost prev = out@;
            assert(here[k as int] == (
                all_matches(s@, pattern_of(seq@), 0)[k as int].0,
                all_matches(s@, pattern_of(seq@), 0)[k as int].1,
                j as int,
            ));
            out.push((i, t, seq));
            assert forall|q: int| 0 <= q < k implies #[trigger] out@[before.len() + q] == prev[before.len() + q] by {}
            k = k + 1;
        }
        assert forall|k2: int| 0 <= k2 < out@.len() implies {
            let m = tagged_matches(s@, views, (j + 1) as nat)[k2];
            &&& (#[trigger] out@[k2]).0 as int == m.0
            &&& out@[k2].1@ == s@.subrange(m.0, m.1)
            &&& 0 <= m.2 < j + 1
            &&& out@[k2].2 == seqs@[m.2]
        } by {
            if k2 >= before.len() {
                let q = k2 - before.len();
                assert(out@[before.len() + q] == out@[k2]);
            }
        }
        j = j + 1;
    }
    out
}

/// Like `subsequences1`, as (start, end) positions.
pub fn subsequences3(s: &str, seq: &str) -> (r: Vec<(usize, usize)>)
    requires
        pattern_ok(seq@),
        never_empty(pattern_of(seq@)),
    ensures
        r@.len() == all_matches(s@, pattern_of(seq@), 0).len(),
        forall|k: int|
            0 <= k < r@.len() ==> (#[trigger] r@[k]).0 as int == all_matches(
                s@,
                pattern_of(seq@),
                0,
            )[k].0 && r@[k].1 as int == all_matches(s@, pattern_of(seq@), 0)[k].1,
{
    let cs = chars_of(s);
    let pat = parse_pattern(seq);
    match_positions(&cs, &pat)
}

/// A resumable search: each `next` finds the next match after the previous
/// one.
pub struct SimpleDNAIter<'a, 'b> {
    s: &'a str,
    seq: &'b str,
    idx: usize,
}

impl<'a, 'b> SimpleDNAIter<'a, 'b> {
    pub closed spec fn text(&self) -> Seq<char> {
        self.s@
    }

    pub closed spec fn pattern(&self) -> Seq<char> {
        self.seq@
    }

    /// Where the next search starts.
    pub closed spec fn position(&self) -> int {
        self.idx as int
    }

    pub open spec fn wf(&self) -> bool {
        0 <= self.position() <= self.text().len() && pattern_ok(self.pattern())
    }

    pub fn new(s: &'a str, seq: &'b str) -> (r: SimpleDNAIter<'a, 'b>)
        requires
            pattern_ok(seq@),
        ensures
            r.wf(),
            r.text() == s@,
            r.pattern() == seq@,
            r.position() == 0,
    {
        SimpleDNAIter { s, seq, idx: 0 }
    }

    /// The next match from the current position on, after which the search
    /// resumes where it ended; `None`, with nothing changed, when there is
    /// none.
    pub fn next(&mut self) -> (r: Option<(usize, &'a str)>)
        requires
            old(self).wf(),
        ensures
            final(self).wf(),
            final(self).text() == old(self).text(),
            final(self).pattern() == old(self).pattern(),
            match first_match(old(self).text(), pattern_of(old(self).pattern()), old(self).position()) {
                Some((i, e)) => r matches Some((j, t)) && j == i && t@ == old(self).text().subrange(
                    i,
                    e,
                ) && final(self).position() == e,
                None => r is None && final(self).position() == old(self).position(),
            },
    {
        let cs = chars_of(self.s);
        let pat = parse_pattern(self.seq);
        match find_from(&cs, &pat, self.idx) {
            Some((i, e)) => {
                self.idx = e;
                Some((i, self.s.substring_char(i, e)))
            },
            None => None,
        }
    }
}

/// The same resumable search, meant to be driven as an iterator.
pub struct DNAIter<'a, 'b> {
    inner: SimpleDNAIter<'a, 'b>,
}

impl<'a, 'b> DNAIter<'a, 'b> {
    pub closed spec fn state(&self) -> SimpleDNAIter<'a, 'b> {
        self.inner
    }

    pub fn new(s: &'a str, seq: &'b str) -> (r: DNAIter<'a, 'b>)
        requires
            pattern_ok(seq@),
        ensures
            r.state().wf(),
            r.state().text() == s@,
            r.state().pattern() == seq@,
            r.state().position() == 0,
    {
        DNAIter { inner: SimpleDNAIter::new(s, seq) }
    }

    /// The next match, as `SimpleDNAIter::next` finds it.
    pub fn next(&mut self) -> (r: Option<(usize, &'a str)>)
        requires
            old(self).state().wf(),
        ensures
            final(self).state().wf(),
            final(self).state().text() == old(self).state().text(),
            final(self).state().pattern() == old(self).state().pattern(),
            match first_match(
                old(self).state().text(),
                pattern_of(old(self).state().pattern()),
                old(self).state().position(),
            ) {
                Some((i, e)) => r matches Some((j, t)) && j == i && t@ == old(
                    self,
                ).state().text().subrange(i, e) && final(self).state().position() == e,
                None => r is None && final(self).state().position() == old(
                    self,
                ).state().position(),
            },
    {
        self.inner.next()
    }
}

} // verus!
