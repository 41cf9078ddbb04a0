use vstd::prelude::*;

verus! {

/// Number of bytes of `p` equal to `b`.
pub open spec fn count_byte(p: Seq<u8>, b: u8) -> nat
    decreases p.len(),
{
    if p.len() == 0 {
        0
    } else {
        count_byte(p.drop_last(), b) + if p.last() == b { 1nat } else { 0nat }
    }
}

/// Every byte of `p` equals `b` (vacuously true of the empty sequence).
pub open spec fn all_bytes(p: Seq<u8>, b: u8) -> bool {
    forall|k: int| 0 <= k < p.len() ==> p[k] == b
}

/// A candidate made of low-information filler: empty, uniform padding or
/// traps, or more than four zero, `0xCC` or `0x90` bytes.
pub open spec fn is_degenerate(p: Seq<u8>) -> bool {
    p.len() == 0 || all_bytes(p, 0x00) || all_bytes(p, 0xFF) || all_bytes(p, 0xCC)
        || count_byte(p, 0x00) > 4 || count_byte(p, 0xCC) > 4 || count_byte(p, 0x90) > 4
}

/// `needle` starts at some offset `k` of `hay` at which a window of `width`
/// bytes still fits.
pub open spec fn starts_in_window(hay: Seq<u8>, needle: Seq<u8>, width: int) -> bool {
    exists|k: int|
        0 <= k && k + width <= hay.len() && #[trigger] hay.subrange(k, k + needle.len()) == needle
}

/// `needle` is non-empty and occurs as a contiguous run of bytes of `hay`.
pub open spec fn occurs_in(hay: Seq<u8>, needle: Seq<u8>) -> bool {
    needle.len() > 0 && starts_in_window(hay, needle, needle.len() as int)
}

/// Whether `needle` equals the bytes of `hay` starting at `start`.
fn matches_at(hay: &[u8], start: usize, needle: &[u8]) -> (r: bool)
    requires
        start + needle@.len() <= hay@.len(),
    ensures
        r == (hay@.subrange(start as int, start + needle@.len()) == needle@),
{
    let n = needle.len();
    let h = hay.len();
    let mut j: usize = 0;
    while j < n
        invariant
            start + n <= h,
            h == hay@.len(),
            n == needle@.len(),
            j <= n,
            forall|t: int| 0 <= t < j ==> hay@[start + t] == needle@[t],
        decreases n - j,
    {
        if hay[start + j] != needle[j] {
            assert(hay@.subrange(start as int, start + n)[j as int] != needle@[j as int]);
            return false;
        }
        j = j + 1;
    }
    assert(hay@.subrange(start as int, start + n) =~= needle@);
    true
}

/// Whether `needle` starts at an offset of `hay` at which `width` bytes fit.
pub(crate) fn find_in_windows(hay: &[u8], needle: &[u8], width: usize) -> (r: bool)
    requires
        needle@.len() <= width,
    ensures
        r == starts_in_window(hay@, needle@, width as int),
{
    if hay.len() < width {
        return false;
    }
    let last = hay.len() - width;
    let mut k: usize = 0;
    while k <= last
        invariant
            last + width == hay@.len(),
            needle@.len() <= width,
            forall|q: int|
                0 <= q < k ==> #[trigger] hay@.subrange(q, q + needle@.len()) != needle@,
        decreases last + 1 - k,
    {
        if matches_at(hay, k, needle) {
            return true;
        }
        if k == last {
            return false;
        }
        k = k + 1;
    }
    false
}

/// A candidate is accepted when it occurs in every sample blob and nowhere in
/// the reference blob.
pub open spec fn is_accepted(blobs: Seq<Seq<u8>>, reference: Seq<u8>, cand: Seq<u8>) -> bool {
    (forall|j: int| 0 <= j < blobs.len() ==> occurs_in(#[trigger] blobs[j], cand))
        && !occurs_in(reference, cand)
}

/// The scan of the first blob from start position `i`, with `found` accepted
/// so far. Candidates start strictly before `len(blobs[0]) - len`; a skipped,
/// already accepted or rejected candidate moves the scan by one byte, an
/// accepted one by its whole length.
pub open spec fn mine_from(
    blobs: Seq<Seq<u8>>,
    len: nat,
    reference: Seq<u8>,
    i: nat,
    found: Seq<Seq<u8>>,
) -> Seq<Seq<u8>>
    decreases blobs[0].len() - i,
{
    if blobs.len() == 0 || len == 0 || i + len >= blobs[0].len() {
        found
    } else {
        let cand = blobs[0].subrange(i as int, (i + len) as int);
        if is_degenerate(cand) || found.contains(cand) {
            mine_from(blobs, len, reference, i + 1, found)
        } else if is_accepted(blobs, reference, cand) {
            mine_from(blobs, len, reference, i + len, found.push(cand))
        } else {
            mine_from(blobs, len, reference, i + 1, found)
        }
    }
}

/// The patterns of length `len` that mining `blobs` against `reference`
/// accepts, in the order they are found.
pub open spec fn mined_patterns(blobs: Seq<Seq<u8>>, len: nat, reference: Seq<u8>) -> Seq<Seq<u8>> {
    mine_from(blobs, len, reference, 0, Seq::empty())
}

/// The byte contents of a sequence of vectors.
pub open spec fn contents(v: Seq<Vec<u8>>) -> Seq<Seq<u8>> {
    v.map_values(|b: Vec<u8>| b@)
}

/// Whether `a` and `b` hold the same bytes.
fn same_bytes(a: &[u8], b: &[u8]) -> (r: bool)
    ensures
        r == (a@ == b@),
{
    if a.len() != b.len() {
        return false;
    }
    assert(a@.subrange(0, b@.len() as int) =~= a@);
    matches_at(a, 0, b)
}

/// Whether one of `found` holds the same bytes as `cand`.
fn already_found(found: &Vec<Vec<u8>>, cand: &[u8]) -> (r: bool)
    ensures
        r == contents(found@).contains(cand@),
{
    let mut k: usize = 0;
    while k < found.len()
        invariant
            k <= found@.len(),
            forall|q: int| 0 <= q < k ==> found@[q]@ != cand@,
        decreases found@.len() - k,
    {
        if same_bytes(found[k].as_slice(), cand) {
            assert(contents(found@)[k as int] == cand@);
            return true;
        }
        k = k + 1;
    }
    assert(!contents(found@).contains(cand@)) by {
        if contents(found@).contains(cand@) {
            let q = choose|q: int| 0 <= q < contents(found@).len() && contents(found@)[q] == cand@;
            assert(found@[q]@ == cand@);
        }
    }
    false
}

/// A run of zero bytes is never worth checking, whatever the blobs hold, so
/// it is never among the mined patterns.
pub proof fn lemma_zero_run_skipped(
    p: Seq<u8>,
    blobs: Seq<Seq<u8>>,
    len: nat,
    reference: Seq<u8>,
)
    requires
        all_bytes(p, 0x00),
    ensures
        is_degenerate(p),
        !mined_patterns(blobs, len, reference).contains(p),
{
    lemma_mined_not_degenerate(blobs, len, reference, 0, Seq::empty());
}

/// No degenerate candidate is ever accepted by the scan.
proof fn lemma_mined_not_degenerate(
    blobs: Seq<Seq<u8>>,
    len: nat,
    reference: Seq<u8>,
    i: nat,
    found: Seq<Seq<u8>>,
)
    requires
        forall|k: int| 0 <= k < found.len() ==> !is_degenerate(#[trigger] found[k]),
    ensures
        forall|k: int|
            0 <= k < mine_from(blobs, len, reference, i, found).len() ==> !is_degenerate(
                #[trigger] mine_from(blobs, len, reference, i, found)[k],
            ),
    decreases blobs[0].len() - i,
{
    let r = mine_from(blobs, len, reference, i, found);
    if blobs.len() == 0 || len == 0 || i + len >= blobs[0].len() {
        assert(r == found);
    } else {
        let cand = blobs[0].subrange(i as int, (i + len) as int);
        if is_degenerate(cand) || found.contains(cand) {
            assert(r == mine_from(blobs, len, reference, i + 1, found));
            lemma_mined_not_degenerate(blobs, len, reference, i + 1, found);
        } else if is_accepted(blobs, reference, cand) {
            let f2 = found.push(cand);
            assert(r == mine_from(blobs, len, reference, i + len, f2));
            assert forall|k: int| 0 <= k < f2.len() implies !is_degenerate(#[trigger] f2[k]) by {
                if k < found.len() {
                    assert(f2[k] == found[k]);
                }
            }
            lemma_mined_not_degenerate(blobs, len, reference, i + len, f2);
        } else {
            assert(r == mine_from(blobs, len, reference, i + 1, found));
            lemma_mined_not_degenerate(blobs, len, reference, i + 1, found);
        }
    }
}

pub struct BinPattern {
    blobs: Vec<Vec<u8>>,
}

impl BinPattern {
    /// The code blobs held, in the order they were added.
    pub closed spec fn spec_blobs(&self) -> Seq<Seq<u8>> {
        self.blobs@.map_values(|b: Vec<u8>| b@)
    }

    /// A miner with no code blobs yet.
    pub fn new() -> (r: Self)
        ensures
            r.spec_blobs() == Seq::<Seq<u8>>::empty(),
    {
        let r = BinPattern { blobs: Vec::new() };
        assert(r.spec_blobs() =~= Seq::<Seq<u8>>::empty());
        r
    }

    /// Adds the code blob of one more sample.
    pub fn add_blob(&mut self, code: Vec<u8>)
        ensures
            final(self).spec_blobs() == old(self).spec_blobs().push(code@),
    {
        self.blobs.push(code);
        assert(self.spec_blobs() =~= old(self).spec_blobs().push(code@));
    }

    /// How many code blobs are held.
    pub fn blob_count(&self) -> (r: usize)
        ensures
            r == self.spec_blobs().len(),
    {
        self.blobs.len()
    }

    /// Whether every blob contains `cand`.
    fn in_every_blob(&self, cand: &[u8]) -> (r: bool)
        ensures
            r == (forall|j: int|
                0 <= j < self.spec_blobs().len() ==> occurs_in(#[trigger] self.spec_blobs()[j], cand@)),
    {
        let mut j: usize = 0;
        while j < self.blobs.len()
            invariant
                j <= self.spec_blobs().len(),
                self.spec_blobs().len() == self.blobs@.len(),
                forall|q: int| 0 <= q < j ==> occurs_in(#[trigger] self.spec_blobs()[q], cand@),
            decreases self.blobs@.len() - j,
        {
            if !Self::contains_pattern(self.blobs[j].as_slice(), cand) {
                assert(!occurs_in(self.spec_blobs()[j as int], cand@));
                return false;
            }
            j = j + 1;
        }
        true
    }

    /// Mines the signatures of length `pattern_len`: byte runs taken from the
    /// first blob that every blob contains and `runtime` does not.
    pub fn find_patterns(&self, pattern_len: usize, runtime: &[u8]) -> (r: Vec<Vec<u8>>)
        ensures
            contents(r@) == mined_patterns(self.spec_blobs(), pattern_len as nat, runtime@),
            forall|k: int| 0 <= k < r@.len() ==> (#[trigger] r@[k])@.len() == pattern_len,
            forall|k: int|
                0 <= k < r@.len() ==> is_accepted(self.spec_blobs(), runtime@, (#[trigger] r@[k])@),
            forall|a: int, b: int| 0 <= a < b < r@.len() ==> (#[trigger] r@[a])@ != (#[trigger] r@[b])@,
            forall|k: int| 0 <= k < r@.len() ==> !is_degenerate((#[trigger] r@[k])@),
    {
        let ghost blobs = self.spec_blobs();
        let ghost reference = runtime@;
        let mut found: Vec<Vec<u8>> = Vec::new();
        if self.blobs.len() == 0 || pattern_len == 0 {
            assert(contents(found@) =~= Seq::<Seq<u8>>::empty());
            return found;
        }
        let first = &self.blobs[0];
        assert(first@ == blobs[0]);
        let total = first.len();
        let mut i: usize = 0;
        assert(contents(found@) =~= Seq::<Seq<u8>>::empty());
        while i < total && pattern_len < total - i
            invariant
                blobs == self.spec_blobs(),
                reference == runtime@,
                blobs.len() > 0,
                pattern_len > 0,
                first@ == blobs[0],
                total == first@.len(),
                mine_from(blobs, pattern_len as nat, reference, i as nat, contents(found@))
                    == mined_patterns(blobs, pattern_len as nat, reference),
                forall|k: int| 0 <= k < found@.len() ==> (#[trigger] found@[k])@.len() == pattern_len,
                forall|k: int| 0 <= k < found@.len() ==> is_accepted(blobs, reference, (#[trigger] found@[k])@),
                forall|k: int| 0 <= k < found@.len() ==> !is_degenerate((#[trigger] found@[k])@),
                forall|a: int, b: int|
                    0 <= a < b < found@.len() ==> (#[trigger] found@[a])@ != (#[trigger] found@[b])@,
            decreases total - i,
        {
            let mut cand: Vec<u8> = Vec::new();
            let mut t: usize = 0;
            while t < pattern_len
                invariant
                    i + pattern_len < total,
                    total == first@.len(),
                    t <= pattern_len,
                    cand@ == first@.subrange(i as int, i + t),
                decreases pattern_len - t,
            {
                cand.push(first[i + t]);
                t = t + 1;
                assert(cand@ =~= first@.subrange(i as int, i + t));
            }
            let ghost c = cand@;
            assert(c == blobs[0].subrange(i as int, i + pattern_len));
            if Self::should_skip_pattern(cand.as_slice()) || already_found(&found, cand.as_slice()) {
                i = i + 1;
            } else if self.in_every_blob(cand.as_slice()) && !Self::contains_pattern(runtime, cand.as_slice()) {
                let ghost old_found = found@;
                found.push(cand);
                assert(contents(found@) =~= contents(old_found).push(c));
                assert forall|a: int, b: int|
                    0 <= a < b < found@.len() implies (#[trigger] found@[a])@ != (#[trigger] found@[b])@ by {
                    if b == found@.len() - 1 {
                        assert(contents(old_found)[a] == found@[a]@);
                    }
                }
                i = i + pattern_len;
            } else {
                i = i + 1;
            }
        }
        found
    }

    /// The skip predicate: whether a candidate is too degenerate to be worth
    /// checking against the blobs.
    pub fn should_skip_pattern(pattern: &[u8]) -> (r: bool)
        ensures
            r == is_degenerate(pattern@),
    {
        let n = pattern.len();
        let mut zeros: usize = 0;
        let mut ccs: usize = 0;
        let mut nops: usize = 0;
        let mut all_zero = true;
        let mut all_ff = true;
        let mut all_cc = true;
        let mut i: usize = 0;
        while i < n
            invariant
                n == pattern@.len(),
                i <= n,
                zeros == count_byte(pattern@.subrange(0, i as int), 0x00),
                ccs == count_byte(pattern@.subrange(0, i as int), 0xCC),
                nops == count_byte(pattern@.subrange(0, i as int), 0x90),
                zeros <= i && ccs <= i && nops <= i,
                all_zero == all_bytes(pattern@.subrange(0, i as int), 0x00),
                all_ff == all_bytes(pattern@.subrange(0, i as int), 0xFF),
                all_cc == all_bytes(pattern@.subrange(0, i as int), 0xCC),
            decreases n - i,
        {
            let b = pattern[i];
            assert(pattern@.subrange(0, i + 1).drop_last() =~= pattern@.subrange(0, i as int));
            if b == 0x00 {
                zeros = zeros + 1;
            }
            if b == 0xCC {
                ccs = ccs + 1;
            }
            if b == 0x90 {
                nops = nops + 1;
            }
            all_zero = all_zero && b == 0x00;
            all_ff = all_ff && b == 0xFF;
            all_cc = all_cc && b == 0xCC;
            i = i + 1;
        }
        assert(pattern@.subrange(0, n as int) =~= pattern@);
        n == 0 || all_zero || all_ff || all_cc || zeros > 4 || ccs > 4 || nops > 4
    }

    /// Whether `pattern` is non-empty and occurs as a contiguous run of bytes
    /// of `blob`.
    pub fn contains_pattern(blob: &[u8], pattern: &[u8]) -> (r: bool)
        ensures
            r == occurs_in(blob@, pattern@),
    {
        if pattern.len() == 0 {
            return false;
        }
        find_in_windows(blob, pattern, pattern.len())
    }
}

} // verus!
