//! Binned frequency histogram: maps a bin index to how many documents fell
//! into that bin, with an optional policy of materializing zero-frequency
//! bins below the highest bin touched.

use vstd::prelude::*;

verus! {

/// The association list `s` read as a finite map from bin index to frequency
/// (later entries win, though well-formed histograms have unique keys).
pub open spec fn bins_to_map(s: Seq<(usize, usize)>) -> Map<int, int>
    decreases s.len(),
{
    if s.len() == 0 {
        Map::empty()
    } else {
        bins_to_map(s.drop_last()).insert(s.last().0 as int, s.last().1 as int)
    }
}

/// One count lands in bin `b`: its frequency grows by one, absent bins start
/// at one. Stored frequencies saturate at `usize::MAX` instead of
/// overflowing; reaching that bound would take more documents than any
/// machine can visit, so the saturation arm is unreachable in practice.
pub open spec fn spec_bump(m: Map<int, int>, b: int) -> Map<int, int> {
    if m.dom().contains(b) {
        m.insert(b, if m[b] < usize::MAX as int { m[b] + 1 } else { m[b] })
    } else {
        m.insert(b, 1)
    }
}

/// Back-fill: every bin index below `b` exists afterwards, missing ones with
/// frequency zero; nothing above `b` is created.
pub open spec fn spec_fill_zeroes(m: Map<int, int>, b: int) -> Map<int, int> {
    Map::new(
        |k: int| m.dom().contains(k) || 0 <= k < b,
        |k: int|
            if m.dom().contains(k) {
                m[k]
            } else {
                0
            },
    )
}

/// The full effect of recording one word count in a histogram with the given
/// configuration.
pub open spec fn spec_record(m: Map<int, int>, count: int, bin_size: int, zeroes: bool) -> Map<
    int,
    int,
> {
    let b = count / bin_size;
    if zeroes {
        spec_fill_zeroes(spec_bump(m, b), b)
    } else {
        spec_bump(m, b)
    }
}

/// Recording a sequence of counts, first to last.
pub open spec fn spec_record_all(
    m: Map<int, int>,
    counts: Seq<int>,
    bin_size: int,
    zeroes: bool,
) -> Map<int, int>
    decreases counts.len(),
{
    if counts.len() == 0 {
        m
    } else {
        spec_record_all(spec_record(m, counts[0], bin_size, zeroes), counts.drop_first(), bin_size, zeroes)
    }
}

/// A bin index is in the map exactly when some entry of the list carries it.
proof fn lemma_bins_to_map_dom(s: Seq<(usize, usize)>)
    ensures
        forall|k: int| #[trigger]
            bins_to_map(s).dom().contains(k) <==> exists|i: int|
                0 <= i < s.len() && s[i].0 as int == k,
    decreases s.len(),
{
    if s.len() > 0 {
        let t = s.drop_last();
        lemma_bins_to_map_dom(t);
        assert forall|k: int| #[trigger] bins_to_map(s).dom().contains(k) implies exists|i: int|
            0 <= i < s.len() && s[i].0 as int == k by {
            if k == s.last().0 as int {
                assert(s[s.len() - 1].0 as int == k);
            } else {
                assert(bins_to_map(t).dom().contains(k));
                let i = choose|i: int| 0 <= i < t.len() && t[i].0 as int == k;
                assert(t[i] == s[i]);
                assert(s[i].0 as int == k);
            }
        }
        assert forall|k: int|
            (exists|i: int| 0 <= i < s.len() && s[i].0 as int == k) implies #[trigger]
            bins_to_map(s).dom().contains(k) by {
            let i = choose|i: int| 0 <= i < s.len() && s[i].0 as int == k;
            if i < s.len() - 1 {
                assert(t[i].0 as int == k);
                assert(bins_to_map(t).dom().contains(k));
            }
        }
    }
}

/// With distinct keys, the map sends each listed bin to its listed frequency.
proof fn lemma_bins_to_map_index(s: Seq<(usize, usize)>, i: int)
    requires
        forall|p: int, q: int| 0 <= p < q < s.len() ==> s[p].0 != s[q].0,
        0 <= i < s.len(),
    ensures
        bins_to_map(s).dom().contains(s[i].0 as int),
        bins_to_map(s)[s[i].0 as int] == s[i].1 as int,
    decreases s.len(),
{
    if i < s.len() - 1 {
        let t = s.drop_last();
        assert(t[i] == s[i]);
        lemma_bins_to_map_index(t, i);
        assert(s[i].0 != s[s.len() - 1].0);
    }
}

/// Overwriting the frequency at position `i` updates just that key.
proof fn lemma_bins_to_map_update(s: Seq<(usize, usize)>, i: int, v: usize)
    requires
        forall|p: int, q: int| 0 <= p < q < s.len() ==> s[p].0 != s[q].0,
        0 <= i < s.len(),
    ensures
        bins_to_map(s.update(i, (s[i].0, v))) =~= bins_to_map(s).insert(s[i].0 as int, v as int),
    decreases s.len(),
{
    let s2 = s.update(i, (s[i].0, v));
    if i == s.len() - 1 {
        assert(s2.drop_last() =~= s.drop_last());
        assert(s2.last() == (s[i].0, v));
        assert(bins_to_map(s2) =~= bins_to_map(s).insert(s[i].0 as int, v as int));
    } else {
        let t = s.drop_last();
        assert(t[i] == s[i]);
        lemma_bins_to_map_update(t, i, v);
        assert(s2.drop_last() =~= t.update(i, (s[i].0, v)));
        assert(s2.last() == s.last());
        assert(s[i].0 != s.last().0);
        assert(bins_to_map(s2) =~= bins_to_map(s).insert(s[i].0 as int, v as int));
    }
}

/// Splicing a fresh key in at position `i` adds just that key.
proof fn lemma_bins_to_map_insert(s: Seq<(usize, usize)>, i: int, k: usize, v: usize)
    requires
        0 <= i <= s.len(),
        forall|j: int| 0 <= j < s.len() ==> s[j].0 != k,
    ensures
        bins_to_map(s.insert(i, (k, v))) =~= bins_to_map(s).insert(k as int, v as int),
    decreases s.len(),
{
    let s2 = s.insert(i, (k, v));
    if i == s.len() {
        assert(s2.drop_last() =~= s);
        assert(s2.last() == (k, v));
    } else {
        let t = s.drop_last();
        lemma_bins_to_map_insert(t, i, k, v);
        assert(s2.drop_last() =~= t.insert(i, (k, v)));
        assert(s2.last() == s.last());
        assert(s[s.len() - 1].0 != k);
        assert(bins_to_map(s2) =~= bins_to_map(s).insert(k as int, v as int));
    }
}

/// Recording a concatenation records the first part, then the second.
pub proof fn lemma_record_all_concat(
    m: Map<int, int>,
    a: Seq<int>,
    b: Seq<int>,
    bin_size: int,
    zeroes: bool,
)
    ensures
        spec_record_all(m, a + b, bin_size, zeroes) == spec_record_all(
            spec_record_all(m, a, bin_size, zeroes),
            b,
            bin_size,
            zeroes,
        ),
    decreases a.len(),
{
    if a.len() == 0 {
        assert(a + b =~= b);
    } else {
        assert((a + b)[0] == a[0]);
        assert((a + b).drop_first() =~= a.drop_first() + b);
        lemma_record_all_concat(spec_record(m, a[0], bin_size, zeroes), a.drop_first(), b, bin_size, zeroes);
    }
}

/// Recording a single count is one `spec_record` step.
pub proof fn lemma_record_all_singleton(m: Map<int, int>, c: int, bin_size: int, zeroes: bool)
    ensures
        spec_record_all(m, seq![c], bin_size, zeroes) == spec_record(m, c, bin_size, zeroes),
{
    reveal_with_fuel(spec_record_all, 2);
    assert(seq![c].drop_first() =~= Seq::<int>::empty());
    assert(seq![c][0] == c);
    assert(spec_record_all(m, seq![c], bin_size, zeroes) == spec_record_all(
        spec_record(m, c, bin_size, zeroes),
        seq![c].drop_first(),
        bin_size,
        zeroes,
    ));
}

/// Law: without zero-fill, recording a count increments the frequency of bin
/// `count / bin_size` by exactly one (from one if absent) and leaves every
/// other bin untouched; no other bin appears or disappears.
pub proof fn lemma_record_touches_one_bin(m: Map<int, int>, count: int, bin_size: int)
    requires
        bin_size >= 1,
        count >= 0,
        !m.dom().contains(count / bin_size) || m[count / bin_size] < usize::MAX as int,
    ensures
        ({
            let b = count / bin_size;
            let m2 = spec_record(m, count, bin_size, false);
            &&& m2.dom() =~= m.dom().insert(b)
            &&& m2[b] == if m.dom().contains(b) {
                m[b] + 1
            } else {
                1int
            }
            &&& forall|k: int| m.dom().contains(k) && k != b ==> #[trigger] m2[k] == m[k]
        }),
{
}

/// A frequency map without gaps: its bins are exactly `0, 1, ..., n - 1`.
pub open spec fn gapless(m: Map<int, int>, n: int) -> bool {
    forall|k: int| #[trigger] m.dom().contains(k) <==> 0 <= k < n
}

/// Law: with zero-fill, recording a count keeps the set of existing bins
/// gapless; after the call the bins are exactly `0 ..= max(highest so far,
/// count / bin_size)`.
pub proof fn lemma_record_preserves_gapless(m: Map<int, int>, count: int, bin_size: int, n: int)
    requires
        bin_size >= 1,
        count >= 0,
        n >= 0,
        gapless(m, n),
    ensures
        ({
            let b = count / bin_size;
            let n2 = if b + 1 > n {
                b + 1
            } else {
                n
            };
            gapless(spec_record(m, count, bin_size, true), n2)
        }),
{
    vstd::arithmetic::div_mod::lemma_div_pos_is_pos(count, bin_size);
}

/// Recording two counts commutes: the histogram does not depend on which of
/// the two documents finished first.
pub proof fn lemma_record_commutes(m: Map<int, int>, c1: int, c2: int, bin_size: int, zeroes: bool)
    requires
        bin_size >= 1,
        c1 >= 0,
        c2 >= 0,
    ensures
        spec_record(spec_record(m, c1, bin_size, zeroes), c2, bin_size, zeroes) == spec_record(
            spec_record(m, c2, bin_size, zeroes),
            c1,
            bin_size,
            zeroes,
        ),
{
    let a = spec_record(spec_record(m, c1, bin_size, zeroes), c2, bin_size, zeroes);
    let b = spec_record(spec_record(m, c2, bin_size, zeroes), c1, bin_size, zeroes);
    assert(a =~= b);
}

/// Recording the count at position `j` first gives the same histogram.
proof fn lemma_record_all_pull(m: Map<int, int>, s: Seq<int>, j: int, bin_size: int, zeroes: bool)
    requires
        bin_size >= 1,
        forall|i: int| 0 <= i < s.len() ==> s[i] >= 0,
        0 <= j < s.len(),
    ensures
        spec_record_all(m, s, bin_size, zeroes) == spec_record_all(
            spec_record(m, s[j], bin_size, zeroes),
            s.remove(j),
            bin_size,
            zeroes,
        ),
    decreases j,
{
    if j == 0 {
        assert(s.remove(0) =~= s.drop_first());
    } else {
        let m1 = spec_record(m, s[0], bin_size, zeroes);
        let rest = s.drop_first();
        lemma_record_all_pull(m1, rest, j - 1, bin_size, zeroes);
        lemma_record_commutes(m, s[0], s[j], bin_size, zeroes);
        let m2 = spec_record(m, s[j], bin_size, zeroes);
        assert(rest.remove(j - 1) =~= s.remove(j).drop_first());
        assert(s.remove(j)[0] == s[0]);
        assert(spec_record_all(m2, s.remove(j), bin_size, zeroes) == spec_record_all(
            spec_record(m2, s[0], bin_size, zeroes),
            s.remove(j).drop_first(),
            bin_size,
            zeroes,
        ));
    }
}

/// Law: the aggregate histogram is order-independent. Folding in any
/// rearrangement of the same multiset of word counts yields the same
/// frequency map, so the final histogram (and anything rendered from it)
/// does not depend on the order in which documents were visited.
pub proof fn lemma_record_all_permutation(
    m: Map<int, int>,
    s1: Seq<int>,
    s2: Seq<int>,
    bin_size: int,
    zeroes: bool,
)
    requires
        bin_size >= 1,
        forall|i: int| 0 <= i < s1.len() ==> s1[i] >= 0,
        forall|i: int| 0 <= i < s2.len() ==> s2[i] >= 0,
        s1.to_multiset() == s2.to_multiset(),
    ensures
        spec_record_all(m, s1, bin_size, zeroes) == spec_record_all(m, s2, bin_size, zeroes),
    decreases s1.len(),
{
    s1.to_multiset_ensures();
    s2.to_multiset_ensures();
    if s1.len() == 0 {
        assert(s2.len() == 0);
    } else {
        let x = s1[0];
        assert(s1.contains(x));
        assert(s2.to_multiset().count(x) > 0);
        assert(s2.contains(x));
        let j = choose|j: int| 0 <= j < s2.len() && s2[j] == x;
        lemma_record_all_pull(m, s2, j, bin_size, zeroes);
        let m1 = spec_record(m, x, bin_size, zeroes);
        assert(s1.drop_first() =~= s1.remove(0));
        assert(s1.remove(0).to_multiset() =~= s1.to_multiset().remove(x));
        assert(s2.remove(j).to_multiset() =~= s2.to_multiset().remove(x));
        assert forall|i: int| 0 <= i < s2.remove(j).len() implies s2.remove(j)[i] >= 0 by {
            if i < j {
                assert(s2.remove(j)[i] == s2[i]);
            } else {
                assert(s2.remove(j)[i] == s2[i + 1]);
            }
        }
        lemma_record_all_permutation(m1, s1.drop_first(), s2.remove(j), bin_size, zeroes);
    }
}

pub struct Histogram {
    data: Vec<(usize, usize)>,
    bin_size: usize,
    include_zeroes: bool,
}

impl Histogram {
    /// The bins as stored: (bin index, frequency) pairs.
    pub closed spec fn bins(&self) -> Seq<(usize, usize)> {
        self.data@
    }

    pub closed spec fn spec_bin_size(&self) -> int {
        self.bin_size as int
    }

    pub closed spec fn spec_include_zeroes(&self) -> bool {
        self.include_zeroes
    }

    /// The histogram as a map from bin index to frequency.
    pub open spec fn freqs(&self) -> Map<int, int> {
        bins_to_map(self.bins())
    }

    /// Well-formedness: a positive bin size, bin indices in strictly
    /// ascending order, and, under the zero-fill policy, no gaps: entry `i`
    /// carries bin index `i`.
    pub open spec fn wf(&self) -> bool {
        &&& self.spec_bin_size() >= 1
        &&& forall|p: int, q: int|
            0 <= p < q < self.bins().len() ==> self.bins()[p].0 < self.bins()[q].0
        &&& (self.spec_include_zeroes() ==> forall|i: int|
            0 <= i < self.bins().len() ==> #[trigger] self.bins()[i].0 as int == i)
    }

    pub fn new(bin_size: usize, include_zeroes: bool) -> (h: Histogram)
        requires
            bin_size >= 1,
        ensures
            h.wf(),
            h.spec_bin_size() == bin_size,
            h.spec_include_zeroes() == include_zeroes,
            h.bins() == Seq::<(usize, usize)>::empty(),
            h.freqs() == Map::<int, int>::empty(),
    {
        let h = Histogram { data: Vec::new(), bin_size, include_zeroes };
        proof {
            assert(h.bins() =~= Seq::<(usize, usize)>::empty());
            assert(h.freqs() =~= Map::<int, int>::empty());
        }
        h
    }

    /// The stored entries, in ascending bin order.
    pub fn entries(&self) -> (r: &Vec<(usize, usize)>)
        ensures
            r@ == self.bins(),
    {
        &self.data
    }

    pub fn bin_size(&self) -> (r: usize)
        ensures
            r as int == self.spec_bin_size(),
    {
        self.bin_size
    }

    pub fn include_zeroes(&self) -> (r: bool)
        ensures
            r == self.spec_include_zeroes(),
    {
        self.include_zeroes
    }

    /// Folds one document's word count into the histogram: the count's bin
    /// gains one occurrence, and under the zero-fill policy every bin below
    /// it is materialized.
    pub fn add_word_count(&mut self, count: usize)
        requires
            old(self).wf(),
        ensures
            final(self).wf(),
            final(self).spec_bin_size() == old(self).spec_bin_size(),
            final(self).spec_include_zeroes() == old(self).spec_include_zeroes(),
            final(self).freqs() == spec_record(
                old(self).freqs(),
                count as int,
                old(self).spec_bin_size(),
                old(self).spec_include_zeroes(),
            ),
    {
        let ghost m0 = self.freqs();
        let ghost s0 = self.bins();
        let bin = count / self.bin_size;
        proof {
            lemma_bins_to_map_dom(s0);
        }
        if self.include_zeroes {
            if bin < self.data.len() {
                let f = self.data[bin].1;
                let nf = if f < usize::MAX {
                    f + 1
                } else {
                    f
                };
                proof {
                    assert(s0[bin as int].0 == bin);
                    lemma_bins_to_map_index(s0, bin as int);
                    lemma_bins_to_map_update(s0, bin as int, nf);
                }
                self.data[bin] = (bin, nf);
                proof {
                    assert(self.bins() =~= s0.update(bin as int, (bin, nf)));
                    assert forall|i: int| 0 <= i < self.bins().len() implies #[trigger] self.bins()[i].0 as int
                        == i by {
                        assert(s0[i].0 as int == i);
                    }
                    assert forall|p: int, q: int|
                        0 <= p < q < self.bins().len() implies self.bins()[p].0
                        < self.bins()[q].0 by {}
                    assert(self.freqs() =~= spec_bump(m0, bin as int));
                    assert forall|k: int| 0 <= k < bin implies m0.dom().contains(k) by {
                        assert(s0[k].0 as int == k);
                    }
                    assert(spec_fill_zeroes(spec_bump(m0, bin as int), bin as int) =~= spec_bump(
                        m0,
                        bin as int,
                    ));
                }
            } else {
                let ghost start = self.data@.len();
                let mut k = self.data.len();
                while k < bin
                    invariant
                        self.bin_size == old(self).bin_size,
                        self.include_zeroes == old(self).include_zeroes,
                        start <= k <= bin,
                        self.data@.len() == k,
                        forall|i: int| 0 <= i < start ==> self.data@[i] == s0[i],
                        forall|i: int|
                            start <= i < k ==> #[trigger] self.data@[i].0 as int == i
                                && self.data@[i].1 == 0,
                    decreases bin - k,
                {
                    self.data.push((k, 0));
                    k += 1;
                }
                self.data.push((bin, 1));
                proof {
                    let s1 = self.bins();
                    let b = bin as int;
                    assert(s1.len() == b + 1);
                    assert forall|i: int| 0 <= i < s1.len() implies #[trigger] s1[i].0 as int
                        == i by {
                        if i < start {
                            assert(s1[i] == s0[i]);
                            assert(s0[i].0 as int == i);
                        }
                    }
                    assert forall|p: int, q: int| 0 <= p < q < s1.len() implies s1[p].0
                        != s1[q].0 by {
                        assert(s1[p].0 as int == p);
                        assert(s1[q].0 as int == q);
                    }
                    assert forall|p: int, q: int| 0 <= p < q < s1.len() implies s1[p].0
                        < s1[q].0 by {
                        assert(s1[p].0 as int == p);
                        assert(s1[q].0 as int == q);
                    }
                    lemma_bins_to_map_dom(s1);
                    assert forall|i: int|
                        0 <= i < s0.len() implies m0.dom().contains(i) && #[trigger] m0[i]
                            == s0[i].1 as int by {
                        lemma_bins_to_map_index(s0, i);
                    }
                    assert forall|k: int| m0.dom().contains(k) implies 0 <= k < start by {
                        let j = choose|j: int| 0 <= j < s0.len() && s0[j].0 as int == k;
                        assert(s0[j].0 as int == j);
                    }
                    assert(!m0.dom().contains(b));
                    let mr = spec_fill_zeroes(spec_bump(m0, b), b);
                    assert forall|k: int| #[trigger] bins_to_map(s1).dom().contains(k) <==> 0 <= k
                        <= b by {
                        if bins_to_map(s1).dom().contains(k) {
                            let j = choose|j: int| 0 <= j < s1.len() && s1[j].0 as int == k;
                            assert(s1[j].0 as int == j);
                        }
                        if 0 <= k <= b {
                            lemma_bins_to_map_index(s1, k);
                        }
                    }
                    assert forall|k: int| #[trigger] mr.dom().contains(k) <==> 0 <= k <= b by {}
                    assert forall|k: int| 0 <= k <= b implies #[trigger] bins_to_map(s1)[k]
                        == mr[k] by {
                        lemma_bins_to_map_index(s1, k);
                        assert(bins_to_map(s1)[k] == s1[k].1 as int);
                        if k < start {
                            assert(s1[k] == s0[k]);
                            assert(m0[k] == s0[k].1 as int);
                        } else if k < b {
                            assert(s1[k].1 == 0);
                            assert(!m0.dom().contains(k));
                        } else {
                            assert(s1[k].1 == 1);
                        }
                    }
                    assert(self.freqs() =~= mr);
                }
            }
        } else {
            let mut i: usize = 0;
            while i < self.data.len() && self.data[i].0 < bin
                invariant
                    self == old(self),
                    i <= self.data@.len(),
                    forall|j: int| 0 <= j < i ==> self.data@[j].0 < bin,
                decreases self.data@.len() - i,
            {
                i += 1;
            }
            if i < self.data.len() && self.data[i].0 == bin {
                let f = self.data[i].1;
                let nf = if f < usize::MAX {
                    f + 1
                } else {
                    f
                };
                proof {
                    lemma_bins_to_map_index(s0, i as int);
                    lemma_bins_to_map_update(s0, i as int, nf);
                }
                self.data[i] = (bin, nf);
                proof {
                    assert(self.bins() =~= s0.update(i as int, (bin, nf)));
                    assert(self.freqs() =~= spec_bump(m0, bin as int));
                    assert forall|p: int, q: int|
                        0 <= p < q < self.bins().len() implies self.bins()[p].0
                        < self.bins()[q].0 by {
                        assert(s0[p].0 < s0[q].0);
                    }
                }
            } else {
                proof {
                    assert forall|j: int| 0 <= j < s0.len() implies s0[j].0 != bin by {
                        if j >= i {
                            assert(s0[i as int].0 <= s0[j].0);
                        }
                    }
                    assert(!m0.dom().contains(bin as int));
                    lemma_bins_to_map_insert(s0, i as int, bin, 1);
                }
                self.data.insert(i, (bin, 1));
                proof {
                    assert(self.bins() =~= s0.insert(i as int, (bin, 1)));
                    assert(self.freqs() =~= spec_bump(m0, bin as int));
                    assert forall|p: int, q: int|
                        0 <= p < q < self.bins().len() implies self.bins()[p].0
                        < self.bins()[q].0 by {
                        let s1 = self.bins();
                        if p < i && q > i {
                            assert(s1[p] == s0[p]);
                            assert(s1[q] == s0[q - 1]);
                            assert(s0[p].0 < bin);
                            assert(s0[i as int].0 <= s0[q - 1].0);
                        } else if q == i {
                            assert(s1[p] == s0[p]);
                        } else if p == i {
                            assert(s1[q] == s0[q - 1]);
                            assert(s0[i as int].0 <= s0[q - 1].0);
                        }
                    }
                }
            }
        }
    }
}

} // verus!
