use vstd::prelude::*;
use crate::grid::{key_from_hash, spec_key_from_hash};
use crate::sort::{entry_le, sort_by_cell, sorted_by_cell};

verus! {

/// The entry of each particle, in particle order: `(i, key of hashes[i])`,
/// where the key is the hash reduced modulo the number of particles.
pub open spec fn particle_entries(hashes: Seq<usize>) -> Seq<(usize, usize)> {
    Seq::new(
        hashes.len(),
        |i: int| (i as usize, spec_key_from_hash(hashes[i], hashes.len())),
    )
}

/// Selects the entries whose cell key is `k`.
pub open spec fn has_key(k: usize) -> spec_fn((usize, usize)) -> bool {
    |x: (usize, usize)| x.1 == k
}

/// The position just past the run of entries with key `k` that begins at `s`.
pub open spec fn run_end(e: Seq<(usize, usize)>, s: int, k: usize) -> int
    decreases e.len() - s,
{
    if s < 0 || s >= e.len() || e[s].1 != k {
        s
    } else {
        run_end(e, s + 1, k)
    }
}

/// The entries that a lookup visits for cell key `k`: from the start index
/// of `k` up to the first entry of another cell; nothing where `k` has no
/// start index.
pub open spec fn cell_run(e: Seq<(usize, usize)>, starts: Seq<usize>, k: usize) -> Seq<
    (usize, usize),
> {
    if k >= starts.len() || starts[k as int] == usize::MAX || starts[k as int] >= e.len() {
        Seq::empty()
    } else {
        e.subrange(starts[k as int] as int, run_end(e, starts[k as int] as int, k))
    }
}

/// What a neighbour query over the cells with hashes `hashes` visits: the
/// run of each cell's key, cell after cell; nothing when there are no
/// particles.
pub open spec fn candidates(e: Seq<(usize, usize)>, starts: Seq<usize>, hashes: Seq<usize>) -> Seq<
    (usize, usize),
>
    decreases hashes.len(),
{
    if e.len() == 0 || hashes.len() == 0 {
        Seq::empty()
    } else {
        candidates(e, starts, hashes.drop_last()) + cell_run(
            e,
            starts,
            spec_key_from_hash(hashes.last(), e.len()),
        )
    }
}

/// `s` marks the first entry of key `k` in `e`, or is `usize::MAX` when no
/// entry has that key.
pub open spec fn start_is_first(e: Seq<(usize, usize)>, s: usize, k: usize) -> bool {
    &&& (s == usize::MAX ==> forall|p: int| 0 <= p < e.len() ==> e[p].1 != k)
    &&& (s != usize::MAX ==> s < e.len() && e[s as int].1 == k && forall|q: int|
        0 <= q < s ==> e[q].1 != k)
}

/// Particles ordered by the cell they hash to, with the position at which
/// each cell's run of particles begins.
#[derive(Debug)]
pub struct SpatialLookup {
    entries: Vec<(usize, usize)>,
    start_indices: Vec<usize>,
}

impl SpatialLookup {
    /// The `(particle_index, cell_key)` entries, in lookup order.
    pub closed spec fn entries(&self) -> Seq<(usize, usize)> {
        self.entries@
    }

    /// The start index of each cell key (`usize::MAX` for an empty cell).
    pub closed spec fn starts(&self) -> Seq<usize> {
        self.start_indices@
    }

    /// One start index per entry.
    #[verifier::type_invariant]
    spec fn one_start_per_entry(self) -> bool {
        self.start_indices@.len() == self.entries@.len()
    }

    /// The start index of the cell with hash `hash` is `usize::MAX` or lies
    /// within the entries (at most their count), so the run of that cell
    /// can be read.
    pub open spec fn start_in_bounds(&self, hash: usize) -> bool {
        let k = spec_key_from_hash(hash, self.entries().len());
        self.starts()[k as int] == usize::MAX || self.starts()[k as int] <= self.entries().len()
    }

    /// The runs of all cells with hashes `hashes` can be read: there are no
    /// particles, or each of those cells has its start in bounds.
    pub open spec fn starts_in_bounds_for(&self, hashes: Seq<usize>) -> bool {
        self.entries().len() > 0 ==> forall|i: int|
            0 <= i < hashes.len() ==> self.start_in_bounds(#[trigger] hashes[i])
    }

    /// The lookup of the particles whose cell hashes are `hashes`: every
    /// particle's entry once, ordered by cell key and then particle index,
    /// and for each key the position of its first entry.
    pub open spec fn is_built_from(&self, hashes: Seq<usize>) -> bool {
        &&& self.entries().len() == hashes.len()
        &&& sorted_by_cell(self.entries())
        &&& self.entries().to_multiset() == particle_entries(hashes).to_multiset()
        &&& self.starts().len() == hashes.len()
        &&& forall|k: int|
            0 <= k < hashes.len() ==> start_is_first(
                self.entries(),
                #[trigger] self.starts()[k],
                k as usize,
            )
    }

    /// An empty lookup, for no particles.
    pub fn new() -> (r: Self)
        ensures
            r.entries().len() == 0,
            r.starts().len() == 0,
    {
        SpatialLookup { entries: Vec::new(), start_indices: Vec::new() }
    }

    /// Forgets every particle.
    pub fn clear(&mut self)
        ensures
            final(self).entries().len() == 0,
            final(self).starts().len() == 0,
    {
        *self = SpatialLookup { entries: Vec::new(), start_indices: Vec::new() };
    }

    /// Room for `n` particles: the entries and the start indices are cut to
    /// `n`, or grown to `n` with entries `(0, 0)` and start indices
    /// `usize::MAX`; those kept are left as they are until the next rebuild.
    pub fn resize(&mut self, n: usize)
        ensures
            final(self).entries() == resized(old(self).entries(), n as nat, (0usize, 0usize)),
            final(self).starts() == resized(old(self).starts(), n as nat, usize::MAX),
    {
        proof {
            use_type_invariant(&*self);
        }
        let old_len = self.entries.len();
        let keep = if n < old_len {
            n
        } else {
            old_len
        };
        let mut entries: Vec<(usize, usize)> = Vec::new();
        let mut starts: Vec<usize> = Vec::new();
        let mut i: usize = 0;
        while i < keep
            invariant
                keep <= old_len == self.entries@.len() == self.start_indices@.len(),
                i <= keep,
                entries@ == self.entries@.subrange(0, i as int),
                starts@ == self.start_indices@.subrange(0, i as int),
            decreases keep - i,
        {
            proof {
                assert(self.entries@.subrange(0, i as int + 1) =~= self.entries@.subrange(
                    0,
                    i as int,
                ).push(self.entries@[i as int]));
                assert(self.start_indices@.subrange(0, i as int + 1) =~= self.start_indices@.subrange(
                    0,
                    i as int,
                ).push(self.start_indices@[i as int]));
            }
            entries.push(self.entries[i]);
            starts.push(self.start_indices[i]);
            i = i + 1;
        }
        let ghost kept_entries = entries@;
        let ghost kept_starts = starts@;
        while i < n
            invariant
                keep <= i <= n || (n <= keep && i == keep),
                keep == (if n < old_len { n } else { old_len }),
                entries@ == kept_entries + Seq::new((i - keep) as nat, |j: int| (0usize, 0usize)),
                starts@ == kept_starts + Seq::new((i - keep) as nat, |j: int| usize::MAX),
            decreases n - i,
        {
            proof {
                assert(kept_entries + Seq::new((i + 1 - keep) as nat, |j: int| (0usize, 0usize))
                    =~= (kept_entries + Seq::new((i - keep) as nat, |j: int| (0usize, 0usize))).push(
                    (0usize, 0usize),
                ));
                assert(kept_starts + Seq::new((i + 1 - keep) as nat, |j: int| usize::MAX)
                    =~= (kept_starts + Seq::new((i - keep) as nat, |j: int| usize::MAX)).push(
                    usize::MAX,
                ));
            }
            entries.push((0, 0));
            starts.push(usize::MAX);
            i = i + 1;
        }
        proof {
            if n <= old_len {
                assert(entries@ =~= self.entries@.subrange(0, n as int));
                assert(starts@ =~= self.start_indices@.subrange(0, n as int));
            } else {
                assert(kept_entries =~= self.entries@);
                assert(kept_starts =~= self.start_indices@);
            }
        }
        *self = SpatialLookup { entries, start_indices: starts };
    }

    /// Whether the runs of all cells with hashes `cell_hashes` can be read
    /// (see `starts_in_bounds_for`).
    pub fn starts_in_bounds(&self, cell_hashes: &Vec<usize>) -> (r: bool)
        ensures
            r == self.starts_in_bounds_for(cell_hashes@),
    {
        proof {
            use_type_invariant(self);
        }
        let n = self.entries.len();
        if n == 0 {
            return true;
        }
        let mut h: usize = 0;
        while h < cell_hashes.len()
            invariant
                n == self.entries@.len() == self.start_indices@.len(),
                n > 0,
                h <= cell_hashes@.len(),
                forall|i: int| 0 <= i < h ==> self.start_in_bounds(#[trigger] cell_hashes@[i]),
            decreases cell_hashes@.len() - h,
        {
            let key = key_from_hash(cell_hashes[h], n);
            let start = self.start_indices[key];
            if start != usize::MAX && start > n {
                return false;
            }
            h = h + 1;
        }
        true
    }

    /// The `(particle_index, cell_key)` entries, in lookup order.
    pub fn spatial_lookup(&self) -> (r: &Vec<(usize, usize)>)
        ensures
            r@ == self.entries(),
    {
        &self.entries
    }

    /// The start index of each cell key (`usize::MAX` for a cell without
    /// one).
    pub fn start_indices(&self) -> (r: &Vec<usize>)
        ensures
            r@ == self.starts(),
    {
        &self.start_indices
    }

    /// The number of particles the lookup holds.
    pub fn len(&self) -> (r: usize)
        ensures
            r == self.entries().len(),
    {
        self.entries.len()
    }

    /// Rebuilds the lookup for particles whose cells hash to `hashes`
    /// (particle `i` to `hashes[i]`): each particle gets the key
    /// `hashes[i] % hashes.len()`, the entries are ordered by key and then
    /// particle index, and each key gets the position of its first entry.
    pub fn rebuild(&mut self, hashes: &Vec<usize>)
        ensures
            final(self).is_built_from(hashes@),
    {
        let n = hashes.len();
        let mut raw: Vec<(usize, usize)> = Vec::new();
        let mut i: usize = 0;
        while i < n
            invariant
                n == hashes@.len(),
                i <= n,
                raw@ == particle_entries(hashes@).take(i as int),
            decreases n - i,
        {
            let key = key_from_hash(hashes[i], n);
            proof {
                assert(particle_entries(hashes@).take(i as int + 1) =~= particle_entries(
                    hashes@,
                ).take(i as int).push((i, key)));
            }
            raw.push((i, key));
            i = i + 1;
        }
        proof {
            assert(raw@ =~= particle_entries(hashes@));
        }
        let sorted = sort_by_cell(&raw);
        proof {
            lemma_entries_of_particles(sorted@, hashes@);
        }
        let mut starts: Vec<usize> = Vec::new();
        let mut k: usize = 0;
        while k < n
            invariant
                k <= n,
                starts@ == Seq::new(k as nat, |j: int| usize::MAX),
            decreases n - k,
        {
            starts.push(usize::MAX);
            k = k + 1;
        }
        let mut p: usize = 0;
        while p < n
            invariant
                n == hashes@.len(),
                n == sorted@.len(),
                p <= n,
                starts@.len() == n,
                sorted_by_cell(sorted@),
                forall|q: int| 0 <= q < n ==> (#[trigger] sorted@[q]).1 < n,
                forall|c: int|
                    0 <= c < n ==> {
                        let s = #[trigger] starts@[c];
                        &&& (s == usize::MAX ==> forall|q: int| 0 <= q < p ==> sorted@[q].1 != c)
                        &&& (s != usize::MAX ==> s < p && sorted@[s as int].1 == c && forall|q: int|
                            0 <= q < s ==> sorted@[q].1 != c)
                    },
            decreases n - p,
        {
            let key = sorted[p].1;
            let prev_key = if p == 0 {
                usize::MAX
            } else {
                sorted[p - 1].1
            };
            if key != prev_key {
                proof {
                    assert forall|q: int| 0 <= q < p implies sorted@[q].1 != key by {
                        assert(entry_le(sorted@[q], sorted@[p - 1]));
                        assert(entry_le(sorted@[p - 1], sorted@[p as int]));
                    }
                }
                starts.set(key, p);
            }
            p = p + 1;
        }
        *self = SpatialLookup { entries: sorted, start_indices: starts };
        proof {
            assert forall|c: int| 0 <= c < n implies start_is_first(
                self.entries(),
                #[trigger] self.starts()[c],
                c as usize,
            ) by {}
        }
    }

    /// The range of lookup positions that a query visits for the cell with
    /// hash `hash`: the run of the hash's key from its start index; an empty
    /// range where the key has no start.
    pub fn cell_range(&self, hash: usize) -> (r: (usize, usize))
        requires
            self.entries().len() > 0,
            self.start_in_bounds(hash),
        ensures
            r.0 <= r.1 <= self.entries().len(),
            self.entries().subrange(r.0 as int, r.1 as int) == cell_run(
                self.entries(),
                self.starts(),
                spec_key_from_hash(hash, self.entries().len()),
            ),
    {
        proof {
            use_type_invariant(self);
        }
        let n = self.entries.len();
        let key = key_from_hash(hash, n);
        let start = self.start_indices[key];
        if start == usize::MAX {
            proof {
                assert(self.entries().subrange(0, 0) =~= Seq::<(usize, usize)>::empty());
            }
            return (0, 0);
        }
        let mut end = start;
        while end < n && self.entries[end].1 == key
            invariant
                n == self.entries@.len(),
                start <= end <= n,
                run_end(self.entries@, start as int, key) == run_end(
                    self.entries@,
                    end as int,
                    key,
                ),
            decreases n - end,
        {
            end = end + 1;
        }
        (start, end)
    }

    /// The entries of the cells with hashes `cell_hashes`, visited in that
    /// order: for each hash, the run of its key (see `cell_range`). Nothing
    /// when the lookup holds no particle.
    pub fn neighbour_candidates(&self, cell_hashes: &Vec<usize>) -> (r: Vec<(usize, usize)>)
        requires
            self.starts_in_bounds_for(cell_hashes@),
        ensures
            r@ == candidates(self.entries(), self.starts(), cell_hashes@),
    {
        let mut out: Vec<(usize, usize)> = Vec::new();
        if self.entries.len() == 0 {
            return out;
        }
        let mut h: usize = 0;
        while h < cell_hashes.len()
            invariant
                self.starts_in_bounds_for(cell_hashes@),
                self.entries().len() > 0,
                h <= cell_hashes@.len(),
                out@ == candidates(self.entries(), self.starts(), cell_hashes@.take(h as int)),
            decreases cell_hashes@.len() - h,
        {
            let (start, end) = self.cell_range(cell_hashes[h]);
            let ghost before = out@;
            let mut p = start;
            while p < end
                invariant
                    start <= p <= end <= self.entries().len(),
                    out@ == before + self.entries().subrange(start as int, p as int),
                decreases end - p,
            {
                proof {
                    assert(self.entries().subrange(start as int, p as int + 1) =~= self.entries().subrange(
                        start as int,
                        p as int,
                    ).push(self.entries()[p as int]));
                }
                out.push(self.entries[p]);
                p = p + 1;
            }
            proof {
                let t = cell_hashes@.take(h as int + 1);
                assert(t.drop_last() =~= cell_hashes@.take(h as int));
                assert(t.last() == cell_hashes@[h as int]);
            }
            h = h + 1;
        }
        proof {
            assert(cell_hashes@.take(cell_hashes@.len() as int) =~= cell_hashes@);
        }
        out
    }
}

impl Clone for SpatialLookup {
    /// A copy with the same entries and start indices.
    fn clone(&self) -> (r: Self)
        ensures
            r.entries() == self.entries(),
            r.starts() == self.starts(),
    {
        proof {
            use_type_invariant(self);
        }
        let mut entries: Vec<(usize, usize)> = Vec::new();
        let mut i: usize = 0;
        while i < self.entries.len()
            invariant
                i <= self.entries@.len(),
                entries@ == self.entries@.subrange(0, i as int),
            decreases self.entries@.len() - i,
        {
            proof {
                assert(self.entries@.subrange(0, i as int + 1) =~= self.entries@.subrange(
                    0,
                    i as int,
                ).push(self.entries@[i as int]));
            }
            entries.push(self.entries[i]);
            i = i + 1;
        }
        proof {
            assert(self.entries@.subrange(0, i as int) =~= self.entries@);
        }
        SpatialLookup { entries, start_indices: self.start_indices.clone() }
    }
}

/// `s` cut to `n` elements, or grown to `n` with copies of `fill`.
pub open spec fn resized<T>(s: Seq<T>, n: nat, fill: T) -> Seq<T> {
    if n <= s.len() {
        s.subrange(0, n as int)
    } else {
        s + Seq::new((n - s.len()) as nat, |i: int| fill)
    }
}

/// In a lookup built from `hashes`, the run of every cell can be read.
pub proof fn lemma_built_starts_in_bounds(l: SpatialLookup, hashes: Seq<usize>, queries: Seq<usize>)
    requires
        l.is_built_from(hashes),
    ensures
        l.starts_in_bounds_for(queries),
{
    assert forall|i: int| 0 <= i < queries.len() && l.entries().len() > 0 implies l.start_in_bounds(
        #[trigger] queries[i],
    ) by {
        let k = spec_key_from_hash(queries[i], hashes.len());
        assert(start_is_first(l.entries(), l.starts()[k as int], k));
    }
}

/// The candidates whose flag in `inside` is set, in their order.
pub open spec fn kept(c: Seq<(usize, usize)>, inside: Seq<bool>) -> Seq<(usize, usize)>
    decreases c.len(),
{
    if c.len() == 0 {
        Seq::empty()
    } else {
        let before = kept(c.drop_last(), inside.drop_last());
        if inside.last() {
            before.push(c.last())
        } else {
            before
        }
    }
}

/// Each candidate paired with its flag.
pub open spec fn flagged(c: Seq<(usize, usize)>, inside: Seq<bool>) -> Seq<((usize, usize), bool)> {
    Seq::new(c.len(), |i: int| (c[i], inside[i]))
}

/// Selects the pairs whose flag is set.
pub open spec fn flag_is_set() -> spec_fn(((usize, usize), bool)) -> bool {
    |p: ((usize, usize), bool)| p.1
}

/// The candidate of a pair.
pub open spec fn candidate_of() -> spec_fn(((usize, usize), bool)) -> (usize, usize) {
    |p: ((usize, usize), bool)| p.0
}

/// Selects the set flags.
pub open spec fn is_set() -> spec_fn(bool) -> bool {
    |b: bool| b
}

/// Selects the flags that are not set.
pub open spec fn is_unset() -> spec_fn(bool) -> bool {
    |b: bool| !b
}

/// The kept candidates are exactly those whose flag is set, each once and
/// in their order: as many as there are set flags; the others, as many as
/// there are unset flags, are dropped.
pub proof fn lemma_kept_is_flagged_candidates(c: Seq<(usize, usize)>, inside: Seq<bool>)
    requires
        c.len() == inside.len(),
    ensures
        kept(c, inside) == flagged(c, inside).filter(flag_is_set()).map_values(candidate_of()),
        kept(c, inside).len() == inside.filter(is_set()).len(),
        c.len() - kept(c, inside).len() == inside.filter(is_unset()).len(),
    decreases c.len(),
{
    reveal(Seq::filter);
    let f = flagged(c, inside);
    if c.len() == 0 {
        assert(f.filter(flag_is_set()).map_values(candidate_of()) =~= Seq::<(usize, usize)>::empty());
    } else {
        let c1 = c.drop_last();
        let i1 = inside.drop_last();
        lemma_kept_is_flagged_candidates(c1, i1);
        assert(f.drop_last() =~= flagged(c1, i1));
        assert(f.last() == (c.last(), inside.last()));
        let g = flagged(c1, i1).filter(flag_is_set());
        if inside.last() {
            assert(f.filter(flag_is_set()) == g.push(f.last()));
            assert(g.push(f.last()).map_values(candidate_of()) =~= g.map_values(
                candidate_of(),
            ).push(c.last()));
        } else {
            assert(f.filter(flag_is_set()) == g);
        }
    }
}

/// Splits the candidates of a query by the distance test made on each
/// (`in_radius[i]` for `candidates[i]`): returns how many were discarded
/// and, in order, those kept.
pub fn select_in_radius(candidates: &Vec<(usize, usize)>, in_radius: &Vec<bool>) -> (r: (
    usize,
    Vec<(usize, usize)>,
))
    requires
        candidates@.len() == in_radius@.len(),
    ensures
        r.1@ == kept(candidates@, in_radius@),
        r.1@ == flagged(candidates@, in_radius@).filter(flag_is_set()).map_values(
            candidate_of(),
        ),
        r.0 + r.1@.len() == candidates@.len(),
        r.0 == in_radius@.filter(is_unset()).len(),
        r.1@.len() == in_radius@.filter(is_set()).len(),
{
    let mut out: Vec<(usize, usize)> = Vec::new();
    let mut discarded: usize = 0;
    let mut i: usize = 0;
    while i < candidates.len()
        invariant
            candidates@.len() == in_radius@.len(),
            i <= candidates@.len(),
            out@ == kept(candidates@.take(i as int), in_radius@.take(i as int)),
            discarded + out@.len() == i,
        decreases candidates@.len() - i,
    {
        proof {
            assert(candidates@.take(i as int + 1).drop_last() =~= candidates@.take(i as int));
            assert(in_radius@.take(i as int + 1).drop_last() =~= in_radius@.take(i as int));
        }
        if in_radius[i] {
            out.push(candidates[i]);
        } else {
            discarded = discarded + 1;
        }
        i = i + 1;
    }
    proof {
        assert(candidates@.take(candidates@.len() as int) =~= candidates@);
        assert(in_radius@.take(in_radius@.len() as int) =~= in_radius@);
        lemma_kept_is_flagged_candidates(candidates@, in_radius@);
    }
    (discarded, out)
}

/// Every entry of a sequence with the same elements as the particle
/// entries is a particle's entry: its index is a particle and its key is
/// that particle's key.
proof fn lemma_entries_of_particles(s: Seq<(usize, usize)>, hashes: Seq<usize>)
    requires
        s.to_multiset() == particle_entries(hashes).to_multiset(),
        hashes.len() <= usize::MAX,
    ensures
        forall|q: int|
            0 <= q < s.len() ==> (#[trigger] s[q]).0 < hashes.len() && s[q] == particle_entries(
                hashes,
            )[s[q].0 as int],
        forall|q: int| 0 <= q < s.len() ==> (#[trigger] s[q]).1 < hashes.len(),
        forall|i: int| 0 <= i < hashes.len() ==> s.contains(#[trigger] particle_entries(hashes)[i]),
{
    broadcast use vstd::seq_lib::group_to_multiset_ensures;

    let pe = particle_entries(hashes);
    assert forall|q: int| 0 <= q < s.len() implies (#[trigger] s[q]).0 < hashes.len() && s[q]
        == pe[s[q].0 as int] by {
        assert(s.contains(s[q]));
        assert(s.to_multiset().count(s[q]) > 0);
        assert(pe.contains(s[q]));
        let j = choose|j: int| 0 <= j < pe.len() && pe[j] == s[q];
        assert(pe[j].0 == j);
    }
    assert forall|q: int| 0 <= q < s.len() implies (#[trigger] s[q]).1 < hashes.len() by {
        assert(s[q] == pe[s[q].0 as int]);
    }
    assert forall|i: int| 0 <= i < hashes.len() implies s.contains(#[trigger] pe[i]) by {
        assert(pe.contains(pe[i]));
        assert(pe.to_multiset().count(pe[i]) > 0);
    }
}

/// The run that begins at `s` ends at the first entry of another key, or
/// at the end of the sequence.
proof fn lemma_run_end(e: Seq<(usize, usize)>, s: int, k: usize)
    requires
        0 <= s <= e.len(),
    ensures
        s <= run_end(e, s, k) <= e.len(),
        forall|q: int| s <= q < run_end(e, s, k) ==> e[q].1 == k,
        run_end(e, s, k) == e.len() || e[run_end(e, s, k)].1 != k,
    decreases e.len() - s,
{
    if s < e.len() && e[s].1 == k {
        lemma_run_end(e, s + 1, k);
    }
}

/// Where the entries of key `k` are exactly those at positions `a..b`,
/// selecting that key gives `e[a..b]`.
proof fn lemma_block_is_filter(e: Seq<(usize, usize)>, a: int, b: int, k: usize)
    requires
        0 <= a <= b <= e.len(),
        forall|q: int| a <= q < b ==> e[q].1 == k,
        forall|q: int| 0 <= q < e.len() && !(a <= q < b) ==> e[q].1 != k,
    ensures
        e.filter(has_key(k)) == e.subrange(a, b),
    decreases e.len(),
{
    reveal(Seq::filter);
    if e.len() == 0 {
        assert(e.subrange(a, b) =~= e);
    } else {
        let d = e.drop_last();
        let last = e.len() - 1;
        if b == e.len() && a < b {
            lemma_block_is_filter(d, a, b - 1, k);
            assert(e.subrange(a, b) =~= d.subrange(a, b - 1).push(e.last()));
        } else if b == e.len() {
            lemma_block_is_filter(d, last, last, k);
            assert(e.subrange(a, b) =~= d.subrange(last, last));
        } else {
            lemma_block_is_filter(d, a, b, k);
            assert(e.subrange(a, b) =~= d.subrange(a, b));
        }
    }
}

/// In a lookup built from `hashes`, the run that a query visits for a key
/// is exactly the entries with that key, in lookup order.
pub proof fn lemma_built_run_is_cell(l: SpatialLookup, hashes: Seq<usize>, k: usize)
    requires
        l.is_built_from(hashes),
        k < hashes.len(),
    ensures
        cell_run(l.entries(), l.starts(), k) == l.entries().filter(has_key(k)),
{
    let e = l.entries();
    let s = l.starts()[k as int];
    assert(start_is_first(e, s, k));
    if s == usize::MAX {
        lemma_block_is_filter(e, 0, 0, k);
        assert(e.subrange(0, 0) =~= Seq::<(usize, usize)>::empty());
    } else {
        lemma_run_end(e, s as int, k);
        let t = run_end(e, s as int, k);
        assert forall|q: int| 0 <= q < e.len() && !(s <= q < t) implies e[q].1 != k by {
            if q >= t {
                assert(entry_le(e[s as int], e[t]));
                if q > t {
                    assert(entry_le(e[t], e[q]));
                }
            }
        }
        lemma_block_is_filter(e, s as int, t, k);
    }
}

/// In a lookup built from `hashes`, the run of key `k` holds particle `i`
/// exactly when `i` hashes to key `k`, and holds nothing but entries of
/// particles with key `k`.
pub proof fn lemma_built_cell_members(l: SpatialLookup, hashes: Seq<usize>, k: usize, i: int)
    requires
        l.is_built_from(hashes),
        hashes.len() <= usize::MAX,
        k < hashes.len(),
        0 <= i < hashes.len(),
    ensures
        cell_run(l.entries(), l.starts(), k).contains(particle_entries(hashes)[i]) <==> (
        particle_entries(hashes)[i].1 == k),
        forall|x: (usize, usize)|
            cell_run(l.entries(), l.starts(), k).contains(x) ==> x.1 == k && x.0 < hashes.len()
                && x == particle_entries(hashes)[x.0 as int],
{
    broadcast use vstd::seq_lib::group_filter_ensures;

    let e = l.entries();
    let pe = particle_entries(hashes);
    lemma_built_run_is_cell(l, hashes, k);
    lemma_entries_of_particles(e, hashes);
    let f = e.filter(has_key(k));
    if pe[i].1 == k {
        assert(e.contains(pe[i]));
        let q = choose|q: int| 0 <= q < e.len() && e[q] == pe[i];
        e.lemma_filter_contains(has_key(k), q);
    } else if f.contains(pe[i]) {
        let q = choose|q: int| 0 <= q < f.len() && f[q] == pe[i];
        e.lemma_filter_pred(has_key(k), q);
    }
    assert forall|x: (usize, usize)| f.contains(x) implies x.1 == k && x.0 < hashes.len() && x
        == pe[x.0 as int] by {
        let q = choose|q: int| 0 <= q < f.len() && f[q] == x;
        e.lemma_filter_pred(has_key(k), q);
        e.lemma_filter_contains_rev(has_key(k), x);
        let p = choose|p: int| 0 <= p < e.len() && e[p] == x;
        assert(e[p].0 < hashes.len() && e[p] == pe[e[p].0 as int]);
    }
}

/// A neighbour query on a lookup built from `hashes` finds particle `i`
/// exactly when one of the queried cell hashes reduces to `i`'s key.
pub proof fn lemma_query_finds_exactly_neighbours(
    l: SpatialLookup,
    hashes: Seq<usize>,
    queries: Seq<usize>,
    i: int,
)
    requires
        l.is_built_from(hashes),
        0 < hashes.len() <= usize::MAX,
        0 <= i < hashes.len(),
    ensures
        candidates(l.entries(), l.starts(), queries).contains(particle_entries(hashes)[i]) <==> (
        exists|j: int|
            0 <= j < queries.len() && spec_key_from_hash(queries[j], hashes.len())
                == particle_entries(hashes)[i].1),
    decreases queries.len(),
{
    let pe = particle_entries(hashes);
    let n = hashes.len();
    if queries.len() > 0 {
        let rest = queries.drop_last();
        let k = spec_key_from_hash(queries.last(), n);
        lemma_query_finds_exactly_neighbours(l, hashes, rest, i);
        lemma_built_cell_members(l, hashes, k, i);
        let a = candidates(l.entries(), l.starts(), rest);
        let b = cell_run(l.entries(), l.starts(), k);
        assert(candidates(l.entries(), l.starts(), queries) == a + b);
        if a.contains(pe[i]) {
            let q = choose|q: int| 0 <= q < a.len() && a[q] == pe[i];
            assert((a + b)[q] == pe[i]);
            let j = choose|j: int|
                0 <= j < rest.len() && spec_key_from_hash(rest[j], n) == pe[i].1;
            assert(queries[j] == rest[j]);
        } else if b.contains(pe[i]) {
            let q = choose|q: int| 0 <= q < b.len() && b[q] == pe[i];
            assert((a + b)[a.len() + q] == pe[i]);
            assert(queries[queries.len() - 1] == queries.last());
        }
        if (a + b).contains(pe[i]) {
            let q = choose|q: int| 0 <= q < (a + b).len() && (a + b)[q] == pe[i];
            if q < a.len() {
                assert(a[q] == pe[i]);
            } else {
                assert(b[q - a.len()] == pe[i]);
            }
        }
        if exists|j: int| 0 <= j < queries.len() && spec_key_from_hash(queries[j], n) == pe[i].1 {
            let j = choose|j: int|
                0 <= j < queries.len() && spec_key_from_hash(queries[j], n) == pe[i].1;
            if j < rest.len() {
                assert(rest[j] == queries[j]);
            }
        }
    }
}

/// Everything a neighbour query on a lookup built from `hashes` returns is
/// the entry of a particle whose key is one of the queried keys.
pub proof fn lemma_query_returns_only_neighbours(
    l: SpatialLookup,
    hashes: Seq<usize>,
    queries: Seq<usize>,
    x: (usize, usize),
)
    requires
        l.is_built_from(hashes),
        0 < hashes.len() <= usize::MAX,
        candidates(l.entries(), l.starts(), queries).contains(x),
    ensures
        x.0 < hashes.len(),
        x == particle_entries(hashes)[x.0 as int],
        exists|j: int|
            0 <= j < queries.len() && spec_key_from_hash(queries[j], hashes.len()) == x.1,
    decreases queries.len(),
{
    let n = hashes.len();
    let rest = queries.drop_last();
    let k = spec_key_from_hash(queries.last(), n);
    let a = candidates(l.entries(), l.starts(), rest);
    let b = cell_run(l.entries(), l.starts(), k);
    assert(candidates(l.entries(), l.starts(), queries) == a + b);
    let q = choose|q: int| 0 <= q < (a + b).len() && (a + b)[q] == x;
    if q < a.len() {
        assert(a[q] == x);
        lemma_query_returns_only_neighbours(l, hashes, rest, x);
        let j = choose|j: int| 0 <= j < rest.len() && spec_key_from_hash(rest[j], n) == x.1;
        assert(queries[j] == rest[j]);
    } else {
        assert(b[q - a.len()] == x);
        assert(b.contains(x));
        lemma_built_cell_members(l, hashes, k, 0);
        assert(queries[queries.len() - 1] == queries.last());
    }
}

} // verus!
