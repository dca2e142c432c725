//! The core-range notation codec.
//!
//! A core list such as `0-2,4` denotes a set of core indices: segments are
//! separated by commas, each segment is either a single index or an
//! inclusive range `lo-hi`, and whitespace anywhere in the input is
//! ignored.  [`parse`] turns such text into a [`CoreSet`]; malformed text
//! is rejected as a whole with [`CoresError::MalformedRange`].

use vstd::prelude::*;
use crate::chars::{is_space, is_digits, digits_val, numeral_ok};
use crate::chars::{is_space_char, str_chars, parse_numeral};
use crate::CoresError;

verus! {

/// An unordered collection of unique core indices.
#[derive(Debug)]
pub struct CoreSet {
    items: Vec<usize>,
}

impl View for CoreSet {
    type V = Set<int>;

    /// The mathematical set of indices held.
    open spec fn view(&self) -> Set<int> {
        self.seq().to_set()
    }
}

impl CoreSet {
    /// The indices held, in insertion order.
    pub closed spec fn seq(&self) -> Seq<int> {
        self.items@.map_values(|v: usize| v as int)
    }

    /// Well-formed: no index is held twice.
    pub open spec fn wf(&self) -> bool {
        self.seq().no_duplicates()
    }

    /// The empty set.
    pub fn new() -> (r: CoreSet)
        ensures
            r.wf(),
            r@ == Set::<int>::empty(),
            r.seq().len() == 0,
    {
        let r = CoreSet { items: Vec::new() };
        proof {
            assert(r@ =~= Set::<int>::empty());
        }
        r
    }

    /// The number of indices held.
    pub fn len(&self) -> (r: usize)
        ensures
            r == self.seq().len(),
            self.wf() ==> r == self@.len(),
    {
        proof {
            if self.wf() {
                self.seq().unique_seq_to_set();
            }
        }
        self.items.len()
    }

    /// Membership test.
    pub fn contains(&self, v: usize) -> (r: bool)
        ensures
            r == self@.contains(v as int),
    {
        let n = self.items.len();
        let mut i: usize = 0;
        while i < n
            invariant
                i <= n == self.items@.len(),
                forall|j: int| 0 <= j < i ==> self.seq()[j] != v as int,
            decreases n - i,
        {
            if self.items[i] == v {
                proof {
                    assert(self.seq()[i as int] == v as int);
                }
                return true;
            }
            i = i + 1;
        }
        proof {
            assert(!self.seq().contains(v as int));
        }
        false
    }

    /// The index held at position `i` of the insertion order.
    pub fn get(&self, i: usize) -> (r: usize)
        requires
            i < self.seq().len(),
        ensures
            r as int == self.seq()[i as int],
            self@.contains(r as int),
    {
        let r = self.items[i];
        proof {
            assert(self.seq()[i as int] == r as int);
            assert(self.seq().contains(r as int));
        }
        r
    }

    /// Adds `v`; holding it already is a no-op.
    pub fn insert(&mut self, v: usize)
        requires
            old(self).wf(),
        ensures
            final(self).wf(),
            final(self)@ == old(self)@.insert(v as int),
    {
        if !self.contains(v) {
            let ghost s0 = self.seq();
            self.items.push(v);
            proof {
                assert(self.seq() =~= s0.push(v as int));
                assert(!s0.contains(v as int));
                assert(self.seq().drop_last() =~= s0);
                assert(self.wf());
                assert forall|x: int| self@.contains(x) implies old(self)@.insert(v as int).contains(
                    x,
                ) by {
                    let i = choose|i: int| 0 <= i < self.seq().len() && self.seq()[i] == x;
                    if i < s0.len() {
                        assert(s0[i] == x);
                    }
                }
                assert forall|x: int| old(self)@.insert(v as int).contains(x) implies self@.contains(
                    x,
                ) by {
                    if x == v as int {
                        assert(self.seq()[s0.len() as int] == x);
                    } else {
                        let i = choose|i: int| 0 <= i < s0.len() && s0[i] == x;
                        assert(self.seq()[i] == x);
                    }
                }
                assert(self@ =~= old(self)@.insert(v as int));
            }
        } else {
            proof {
                assert(self@ =~= old(self)@.insert(v as int));
            }
        }
    }

    /// Every index held is non-negative.
    pub proof fn lemma_members_nonneg(&self)
        ensures
            forall|x: int| self@.contains(x) ==> x >= 0,
    {
        assert forall|x: int| self@.contains(x) implies x >= 0 by {
            let i = choose|i: int| 0 <= i < self.seq().len() && self.seq()[i] == x;
            assert(self.seq()[i] == self.items@[i] as int);
        }
    }

    /// Whether every index held is also held by `other`.
    pub fn subset_of(&self, other: &CoreSet) -> (r: bool)
        ensures
            r == self@.subset_of(other@),
    {
        let n = self.items.len();
        let mut i: usize = 0;
        while i < n
            invariant
                i <= n == self.items@.len(),
                forall|j: int| 0 <= j < i ==> other@.contains(#[trigger] self.seq()[j]),
            decreases n - i,
        {
            let v = self.items[i];
            proof {
                assert(self.seq()[i as int] == v as int);
            }
            if !other.contains(v) {
                proof {
                    assert(self.seq().contains(v as int));
                    assert(self@.contains(v as int));
                }
                return false;
            }
            i = i + 1;
        }
        proof {
            assert forall|x: int| self@.contains(x) implies other@.contains(x) by {
                let j = choose|j: int| 0 <= j < self.seq().len() && self.seq()[j] == x;
                assert(other@.contains(self.seq()[j]));
            }
        }
        true
    }

    /// Whether `self` and `other` hold exactly the same indices.
    pub fn equals(&self, other: &CoreSet) -> (r: bool)
        ensures
            r == (self@ == other@),
    {
        let r = self.subset_of(other) && other.subset_of(self);
        proof {
            if r {
                assert(self@ =~= other@);
            }
        }
        r
    }
}

/// `s` with every whitespace character removed.
pub open spec fn strip(s: Seq<char>) -> Seq<char>
    decreases s.len(),
{
    if s.len() == 0 {
        Seq::empty()
    } else if is_space(s.last()) {
        strip(s.drop_last())
    } else {
        strip(s.drop_last()).push(s.last())
    }
}

/// The position of the first `c` in `s`, or `s.len()` when there is none.
pub open spec fn find0(s: Seq<char>, c: char) -> int
    decreases s.len(),
{
    if s.len() == 0 {
        0
    } else if s[0] == c {
        0
    } else {
        1 + find0(s.skip(1), c)
    }
}

/// When `c` does not occur, `find0` is `s.len()`.
pub proof fn lemma_find0_not_found(s: Seq<char>, c: char)
    requires
        forall|i: int| 0 <= i < s.len() ==> s[i] != c,
    ensures
        find0(s, c) == s.len(),
    decreases s.len(),
{
    if s.len() != 0 {
        assert(forall|i: int| 0 <= i < s.skip(1).len() ==> s.skip(1)[i] == s[i + 1]);
        lemma_find0_not_found(s.skip(1), c);
    }
}

/// The first occurrence of `c` pins `find0` down.
pub proof fn lemma_find0_first(s: Seq<char>, c: char, k: int)
    requires
        0 <= k < s.len(),
        s[k] == c,
        forall|i: int| 0 <= i < k ==> s[i] != c,
    ensures
        find0(s, c) == k,
    decreases s.len(),
{
    if k != 0 {
        assert(forall|i: int| 0 <= i < s.skip(1).len() ==> s.skip(1)[i] == s[i + 1]);
        lemma_find0_first(s.skip(1), c, k - 1);
    }
}

/// Whether the comma-free segment `s` is well formed: a single numeral, or
/// two numerals around the first hyphen with the lower bound first.
pub open spec fn seg_ok(s: Seq<char>) -> bool {
    let h = find0(s, '-');
    if h >= s.len() {
        numeral_ok(s)
    } else {
        numeral_ok(s.take(h)) && numeral_ok(s.skip(h + 1)) && digits_val(s.take(h)) <= digits_val(
            s.skip(h + 1),
        )
    }
}

/// The indices a well-formed segment denotes.
pub open spec fn seg_cores(s: Seq<char>) -> Set<int> {
    let h = find0(s, '-');
    if h >= s.len() {
        Set::new(|x: int| x == digits_val(s))
    } else {
        Set::new(|x: int| digits_val(s.take(h)) <= x <= digits_val(s.skip(h + 1)))
    }
}

/// Whether the whitespace-free notation `s` is well formed: comma-separated
/// well-formed segments.
pub open spec fn notation_ok(s: Seq<char>) -> bool
    decreases s.len(),
{
    let k = find0(s, ',');
    if k < 0 || k >= s.len() {
        seg_ok(s)
    } else {
        seg_ok(s.take(k)) && notation_ok(s.skip(k + 1))
    }
}

/// The indices a well-formed notation denotes: the union over its segments.
pub open spec fn notation_cores(s: Seq<char>) -> Set<int>
    decreases s.len(),
{
    let k = find0(s, ',');
    if k < 0 || k >= s.len() {
        seg_cores(s)
    } else {
        seg_cores(s.take(k)).union(notation_cores(s.skip(k + 1)))
    }
}

/// Scans `w[start..end]` for the first `c`.
fn find_from(w: &Vec<char>, start: usize, end: usize, c: char) -> (q: usize)
    requires
        start <= end <= w@.len(),
    ensures
        start <= q <= end,
        q as int == start + find0(w@.subrange(start as int, end as int), c),
        q < end ==> w@[q as int] == c,
        forall|j: int| start <= j < q ==> w@[j] != c,
{
    let ghost s = w@.subrange(start as int, end as int);
    let mut q: usize = start;
    while q < end
        invariant
            start <= q <= end <= w@.len(),
            s == w@.subrange(start as int, end as int),
            forall|j: int| start <= j < q ==> w@[j] != c,
        decreases end - q,
    {
        if w[q] == c {
            proof {
                assert(s[q - start] == c);
                assert(forall|i: int| 0 <= i < q - start ==> s[i] == w@[i + start] && s[i] != c);
                lemma_find0_first(s, c, q - start);
            }
            return q;
        }
        q = q + 1;
    }
    proof {
        assert(forall|i: int| 0 <= i < s.len() ==> s[i] == w@[i + start] && s[i] != c);
        lemma_find0_not_found(s, c);
    }
    q
}

/// Reads the segment `w[start..end]` as its pair of inclusive bounds; a
/// single numeral `v` stands for the pair `(v, v)`.
fn segment_bounds(w: &Vec<char>, start: usize, end: usize) -> (r: Result<
    (usize, usize),
    CoresError,
>)
    requires
        start <= end <= w@.len(),
    ensures
        r is Ok <==> seg_ok(w@.subrange(start as int, end as int)),
        r matches Ok(b) ==> b.0 <= b.1 && seg_cores(w@.subrange(start as int, end as int))
            == Set::new(|x: int| b.0 <= x <= b.1),
        r is Err ==> r->Err_0 == CoresError::MalformedRange,
{
    let ghost s = w@.subrange(start as int, end as int);
    let h = find_from(w, start, end, '-');
    if h == end {
        proof {
            assert(find0(s, '-') >= s.len());
        }
        match parse_numeral(w, start, end) {
            Some(v) => {
                proof {
                    assert(seg_cores(s) =~= Set::new(|x: int| v as int <= x <= v as int));
                }
                Ok((v, v))
            }
            None => Err(CoresError::MalformedRange),
        }
    } else {
        proof {
            assert(find0(s, '-') == h - start);
            assert(find0(s, '-') < s.len());
            assert(s.take(h - start) =~= w@.subrange(start as int, h as int));
            assert(s.skip(h - start + 1) =~= w@.subrange(h + 1, end as int));
        }
        let lo = match parse_numeral(w, start, h) {
            Some(v) => v,
            None => {
                return Err(CoresError::MalformedRange);
            }
        };
        let hi = match parse_numeral(w, h + 1, end) {
            Some(v) => v,
            None => {
                return Err(CoresError::MalformedRange);
            }
        };
        if lo > hi {
            return Err(CoresError::MalformedRange);
        }
        proof {
            assert(seg_cores(s) =~= Set::new(|x: int| lo as int <= x <= hi as int));
        }
        Ok((lo, hi))
    }
}

/// Parses core-range notation into the set of core indices it denotes.
///
/// Whitespace anywhere in the input is ignored; overlapping segments
/// collapse silently.  When any segment is malformed — not a numeral, a
/// numeral too large for `usize`, or a range whose upper bound precedes its
/// lower bound — the whole input is rejected with
/// [`CoresError::MalformedRange`] and no partial result is produced.
pub fn parse(input: &str) -> (r: Result<CoreSet, CoresError>)
    ensures
        r is Ok <==> notation_ok(strip(input@)),
        r matches Ok(cs) ==> cs.wf() && cs@ == notation_cores(strip(input@)),
        r is Err ==> r->Err_0 == CoresError::MalformedRange,
{
    let cs = str_chars(input);

    // Remove all whitespace characters from the input.
    let mut w: Vec<char> = Vec::new();
    let n = cs.len();
    let mut i: usize = 0;
    while i < n
        invariant
            i <= n == cs@.len(),
            w@ == strip(cs@.take(i as int)),
        decreases n - i,
    {
        let c = cs[i];
        proof {
            assert(cs@.take(i + 1).drop_last() =~= cs@.take(i as int));
            assert(cs@.take(i + 1).last() == c);
        }
        if !is_space_char(c) {
            w.push(c);
        }
        i = i + 1;
    }
    proof {
        assert(cs@.take(n as int) =~= cs@);
    }
    let ghost t = strip(input@);
    assert(w@ == t);

    // Split on commas and collect every segment's indices.
    let m = w.len();
    let mut res = CoreSet::new();
    let mut p: usize = 0;
    proof {
        assert(t.skip(0) =~= t);
        assert(Set::<int>::empty().union(notation_cores(t)) =~= notation_cores(t));
    }
    loop
        invariant_except_break
            p <= m == w@.len(),
            t == strip(input@),
            t == w@,
            res.wf(),
            notation_ok(t) <==> notation_ok(t.skip(p as int)),
            notation_ok(t) ==> notation_cores(t) == res@.union(notation_cores(t.skip(p as int))),
        ensures
            res.wf(),
            notation_ok(t),
            res@ == notation_cores(t),
        decreases m - p,
    {
        let ghost srem = t.skip(p as int);
        let q = find_from(&w, p, m, ',');
        proof {
            assert(srem =~= w@.subrange(p as int, m as int));
            assert(find0(srem, ',') == q - p);
            assert(srem.take(q - p) =~= w@.subrange(p as int, q as int));
        }
        let ghost seg = t.subrange(p as int, q as int);
        let (lo, hi) = match segment_bounds(&w, p, q) {
            Ok(b) => b,
            Err(e) => {
                proof {
                    if q == m {
                        assert(seg =~= srem);
                        assert(!notation_ok(srem));
                    } else {
                        assert(srem.take(q - p) == seg);
                        assert(!seg_ok(seg));
                        assert(!notation_ok(srem));
                    }
                    assert(!notation_ok(t));
                }
                return Err(e);
            }
        };
        let ghost base = res@;
        let mut v: usize = lo;
        while v < hi
            invariant
                lo <= v <= hi,
                res.wf(),
                res@ == base.union(Set::new(|x: int| lo as int <= x < v as int)),
            decreases hi - v,
        {
            res.insert(v);
            proof {
                assert(res@ =~= base.union(Set::new(|x: int| lo as int <= x < v + 1)));
            }
            v = v + 1;
        }
        res.insert(hi);
        proof {
            assert(res@ =~= base.union(Set::new(|x: int| lo as int <= x <= hi as int)));
            assert(res@ =~= base.union(seg_cores(seg)));
        }
        if q == m {
            proof {
                assert(seg =~= srem);
                assert(notation_ok(srem));
                assert(notation_cores(srem) == seg_cores(srem));
                assert(notation_ok(t));
                assert(notation_cores(t) == base.union(seg_cores(seg)));
                assert(res@ =~= notation_cores(t));
            }
            break;
        }
        proof {
            assert(find0(srem, ',') < srem.len());
            assert(notation_ok(srem) == (seg_ok(seg) && notation_ok(srem.skip(q - p + 1))));
            assert(srem.skip(q - p + 1) =~= t.skip(q + 1));
            assert(notation_ok(srem) ==> notation_cores(srem) == seg_cores(seg).union(
                notation_cores(t.skip(q + 1)),
            ));
            if notation_ok(t) {
                assert(notation_cores(t) == base.union(
                    seg_cores(seg).union(notation_cores(t.skip(q + 1))),
                ));
                assert(notation_cores(t) =~= res@.union(notation_cores(t.skip(q + 1))));
            }
        }
        p = q + 1;
    }
    Ok(res)
}

/// Stripping leaves no whitespace behind.
pub proof fn lemma_strip_no_spaces(s: Seq<char>)
    ensures
        forall|i: int| 0 <= i < strip(s).len() ==> !is_space(#[trigger] strip(s)[i]),
    decreases s.len(),
{
    if s.len() > 0 {
        lemma_strip_no_spaces(s.drop_last());
        if !is_space(s.last()) {
            assert forall|i: int| 0 <= i < strip(s).len() implies !is_space(
                #[trigger] strip(s)[i],
            ) by {
                if i < strip(s.drop_last()).len() {
                    assert(strip(s)[i] == strip(s.drop_last())[i]);
                } else {
                    assert(strip(s)[i] == s.last());
                }
            }
        }
    }
}

/// A whitespace-free string is a fixed point of stripping.
pub proof fn lemma_strip_spaceless(s: Seq<char>)
    requires
        forall|i: int| 0 <= i < s.len() ==> !is_space(#[trigger] s[i]),
    ensures
        strip(s) == s,
    decreases s.len(),
{
    if s.len() > 0 {
        assert forall|i: int| 0 <= i < s.drop_last().len() implies !is_space(
            #[trigger] s.drop_last()[i],
        ) by {
            assert(s.drop_last()[i] == s[i]);
        }
        lemma_strip_spaceless(s.drop_last());
        assert(strip(s) =~= s);
    }
}

/// Stripping twice is stripping once: feeding a whitespace-free input
/// back to the parser cannot change how it is read.
pub proof fn lemma_strip_idempotent(s: Seq<char>)
    ensures
        strip(strip(s)) == strip(s),
{
    lemma_strip_no_spaces(s);
    lemma_strip_spaceless(strip(s));
}

/// Parsing depends only on the input's non-whitespace characters: two
/// inputs that agree after whitespace removal are accepted or rejected
/// together, and denote the same set of cores.
pub proof fn lemma_parse_whitespace_insensitive(s1: Seq<char>, s2: Seq<char>)
    requires
        strip(s1) == strip(s2),
    ensures
        notation_ok(strip(s1)) == notation_ok(strip(s2)),
        notation_cores(strip(s1)) == notation_cores(strip(s2)),
{
}

} // verus!
