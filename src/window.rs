use vstd::prelude::*;
use vstd::arithmetic::div_mod::{
    lemma_fundamental_div_mod,
    lemma_mod_add_multiples_vanish,
    lemma_mod_multiples_vanish,
    lemma_small_mod,
};

verus! {

/// End of the sub-block of size `k` that starts at `p` in a window of `len` bytes.
pub open spec fn block_limit(len: int, k: int, p: int) -> int {
    if p + k < len {
        p + k
    } else {
        len
    }
}

/// The sub-block starting at `p` holds different bytes in `s` and `d`.
pub open spec fn block_differs(s: Seq<u8>, d: Seq<u8>, k: int, p: int) -> bool {
    s.subrange(p, block_limit(s.len() as int, k, p)) != d.subrange(p, block_limit(s.len() as int, k, p))
}

/// Start of the sub-block that holds byte `p`.
pub open spec fn block_of(k: int, p: int) -> int {
    p - p % k
}

pub open spec fn covers(r: (usize, usize), p: int) -> bool {
    r.0 <= p < r.1
}

/// Some run of `runs` covers byte `p`.
pub open spec fn covered(runs: Seq<(usize, usize)>, p: int) -> bool {
    exists|i: int| 0 <= i < runs.len() && covers(#[trigger] runs[i], p)
}

/// `runs` are the write ranges of the window pair `(s, d)` under sub-blocks of
/// size `k`: sorted, separated, aligned on sub-blocks, made only of differing
/// sub-blocks, each ended by an equal sub-block or by the window's end, and
/// covering every differing byte.
pub open spec fn valid_runs(s: Seq<u8>, d: Seq<u8>, k: int, runs: Seq<(usize, usize)>) -> bool {
    &&& forall|i: int| 0 <= i < runs.len() ==> {
        &&& (#[trigger] runs[i]).0 < runs[i].1 <= s.len()
        &&& (runs[i].0 as int) % k == 0
        &&& ((runs[i].1 as int) % k == 0 || runs[i].1 == s.len())
        &&& (runs[i].1 < s.len() ==> !block_differs(s, d, k, runs[i].1 as int))
    }
    &&& forall|i: int| 0 <= i < runs.len() - 1 ==> (#[trigger] runs[i]).1 < runs[i + 1].0
    &&& forall|i: int, p: int|
        0 <= i < runs.len() && #[trigger] covers(runs[i], p) ==> block_differs(s, d, k, block_of(k, p))
    &&& forall|p: int| 0 <= p < s.len() && s[p] != d[p] ==> #[trigger] covered(runs, p)
}

/// Total number of bytes that `runs` write.
pub open spec fn runs_total(runs: Seq<(usize, usize)>) -> int
    decreases runs.len(),
{
    if runs.len() == 0 {
        0
    } else {
        runs_total(runs.drop_last()) + (runs.last().1 - runs.last().0)
    }
}

/// The window `d` after each run of `runs` is overwritten with the bytes of `s`.
pub open spec fn patched(s: Seq<u8>, d: Seq<u8>, runs: Seq<(usize, usize)>) -> Seq<u8> {
    Seq::new(d.len(), |p: int| if covered(runs, p) { s[p] } else { d[p] })
}

proof fn lemma_block_of(k: int, b: int, p: int)
    requires
        k > 0,
        b >= 0,
        b % k == 0,
        b <= p < b + k,
    ensures
        block_of(k, p) == b,
{
    lemma_fundamental_div_mod(b, k);
    lemma_mod_multiples_vanish(b / k, p - b, k);
    lemma_small_mod((p - b) as nat, k as nat);
}

proof fn lemma_covered_push(runs: Seq<(usize, usize)>, r: (usize, usize), p: int)
    requires
        covered(runs, p) || covers(r, p),
    ensures
        covered(runs.push(r), p),
{
    if covers(r, p) {
        assert(runs.push(r)[runs.len() as int] == r);
    } else {
        let i = choose|i: int| 0 <= i < runs.len() && covers(#[trigger] runs[i], p);
        assert(runs.push(r)[i] == runs[i]);
    }
}

/// Whether `a` and `b` agree on the bytes `[lo, hi)`.
pub fn range_equal(a: &[u8], b: &[u8], lo: usize, hi: usize) -> (r: bool)
    requires
        lo <= hi <= a@.len(),
        hi <= b@.len(),
    ensures
        r == (a@.subrange(lo as int, hi as int) == b@.subrange(lo as int, hi as int)),
{
    let mut i: usize = lo;
    while i < hi
        invariant
            lo <= i <= hi,
            hi <= a@.len(),
            hi <= b@.len(),
            forall|j: int| lo <= j < i ==> a@[j] == b@[j],
        decreases hi - i,
    {
        if a[i] != b[i] {
            assert(a@.subrange(lo as int, hi as int)[i - lo] != b@.subrange(lo as int, hi as int)[i - lo]);
            return false;
        }
        i = i + 1;
    }
    assert(a@.subrange(lo as int, hi as int) =~= b@.subrange(lo as int, hi as int));
    true
}

/// Whether the two windows agree on every byte.
pub fn windows_equal(a: &[u8], b: &[u8]) -> (r: bool)
    requires
        a@.len() == b@.len(),
    ensures
        r == (a@ == b@),
{
    let r = range_equal(a, b, 0, a.len());
    assert(a@.subrange(0, a@.len() as int) =~= a@);
    assert(b@.subrange(0, b@.len() as int) =~= b@);
    r
}


/// Write ranges of one window: one per maximal run of differing sub-blocks of
/// `block` bytes, the last sub-block cut to the window's end.
pub fn diff_runs(src: &[u8], dst: &[u8], block: usize) -> (runs: Vec<(usize, usize)>)
    requires
        src@.len() == dst@.len(),
        block > 0,
    ensures
        valid_runs(src@, dst@, block as int, runs@),
        runs_total(runs@) <= src@.len(),
{
    let len = src.len();
    let ghost k = block as int;
    let ghost s = src@;
    let ghost d = dst@;
    let mut runs: Vec<(usize, usize)> = Vec::new();
    let mut pos: usize = 0;
    let mut open = false;
    let mut run_start: usize = 0;
    while pos < len
        invariant
            len == s.len(),
            s == src@,
            d == dst@,
            d.len() == len,
            k == block as int,
            block > 0,
            pos <= len,
            pos < len ==> pos % block == 0,
            open ==> run_start < pos && run_start % block == 0,
            open ==> forall|p: int| run_start <= p < pos ==> block_differs(s, d, k, block_of(k, p)),
            open && runs@.len() > 0 ==> runs@.last().1 < run_start,
            !open && runs@.len() > 0 ==> runs@.last().1 < pos,
            runs_total(runs@) <= (if runs@.len() > 0 { runs@.last().1 as int } else { 0 }),
            forall|i: int| 0 <= i < runs@.len() ==> {
                &&& (#[trigger] runs@[i]).0 < runs@[i].1 <= len
                &&& (runs@[i].0 as int) % k == 0
                &&& ((runs@[i].1 as int) % k == 0 || runs@[i].1 == len)
                &&& (runs@[i].1 < len ==> !block_differs(s, d, k, runs@[i].1 as int))
            },
            forall|i: int| 0 <= i < runs@.len() - 1 ==> (#[trigger] runs@[i]).1 < runs@[i + 1].0,
            forall|i: int, p: int|
                0 <= i < runs@.len() && #[trigger] covers(runs@[i], p) ==> block_differs(s, d, k, block_of(k, p)),
            forall|p: int|
                0 <= p < pos && s[p] != d[p] ==> #[trigger] covered(runs@, p) || (open && run_start <= p),
        decreases len - pos,
    {
        let next: usize = if len - pos <= block { len } else { pos + block };
        let same = range_equal(src, dst, pos, next);
        assert(next == block_limit(len as int, k, pos as int));
        assert forall|p: int| pos <= p < next implies block_of(k, p) == pos by {
            lemma_block_of(k, pos as int, p);
        }
        if !same {
            if !open {
                run_start = pos;
                open = true;
            }
        } else {
            assert forall|p: int| pos <= p < next implies s[p] == d[p] by {
                assert(s.subrange(pos as int, next as int)[p - pos] == d.subrange(pos as int, next as int)[p - pos]);
            }
            if open {
                let ghost old_runs = runs@;
                runs.push((run_start, pos));
                proof {
                    assert(runs@.drop_last() =~= old_runs);
                    assert forall|p: int| 0 <= p < pos && s[p] != d[p] implies #[trigger] covered(runs@, p) by {
                        lemma_covered_push(old_runs, (run_start, pos), p);
                    }
                    assert forall|i: int, p: int|
                        0 <= i < runs@.len() && #[trigger] covers(runs@[i], p)
                        implies block_differs(s, d, k, block_of(k, p)) by {
                        if i < old_runs.len() {
                            assert(runs@[i] == old_runs[i]);
                        }
                    }
                }
                open = false;
            }
        }
        proof {
            if next < len {
                lemma_mod_add_multiples_vanish(pos as int, k);
            }
        }
        pos = next;
    }
    if open {
        let ghost old_runs = runs@;
        runs.push((run_start, len));
        proof {
            assert(runs@.drop_last() =~= old_runs);
            assert forall|p: int| 0 <= p < len && s[p] != d[p] implies #[trigger] covered(runs@, p) by {
                lemma_covered_push(old_runs, (run_start, len), p);
            }
            assert forall|i: int, p: int|
                0 <= i < runs@.len() && #[trigger] covers(runs@[i], p)
                implies block_differs(s, d, k, block_of(k, p)) by {
                if i < old_runs.len() {
                    assert(runs@[i] == old_runs[i]);
                }
            }
        }
    }
    runs
}


proof fn lemma_prefix_total(runs: Seq<(usize, usize)>, i: int)
    requires
        0 <= i <= runs.len(),
        forall|j: int| 0 <= j < runs.len() ==> (#[trigger] runs[j]).0 <= runs[j].1,
    ensures
        0 <= runs_total(runs.subrange(0, i)) <= runs_total(runs),
    decreases runs.len(),
{
    if i < runs.len() {
        assert(runs.drop_last().subrange(0, i) =~= runs.subrange(0, i));
        lemma_prefix_total(runs.drop_last(), i);
    } else {
        assert(runs.subrange(0, i) =~= runs);
        if runs.len() > 0 {
            lemma_prefix_total(runs.drop_last(), i - 1);
            assert(runs.drop_last().subrange(0, i - 1) =~= runs.drop_last());
        }
    }
}

/// Number of bytes that the runs write.
pub fn written_bytes(runs: &Vec<(usize, usize)>) -> (r: u64)
    requires
        forall|j: int| 0 <= j < runs@.len() ==> (#[trigger] runs@[j]).0 <= runs@[j].1,
        runs_total(runs@) <= u64::MAX,
    ensures
        r == runs_total(runs@),
{
    let mut acc: u64 = 0;
    let mut i: usize = 0;
    while i < runs.len()
        invariant
            i <= runs@.len(),
            forall|j: int| 0 <= j < runs@.len() ==> (#[trigger] runs@[j]).0 <= runs@[j].1,
            runs_total(runs@) <= u64::MAX,
            acc == runs_total(runs@.subrange(0, i as int)),
        decreases runs@.len() - i,
    {
        proof {
            assert(runs@.subrange(0, i + 1).drop_last() =~= runs@.subrange(0, i as int));
            lemma_prefix_total(runs@, i + 1);
        }
        let r = runs[i];
        acc = acc + (r.1 - r.0) as u64;
        i = i + 1;
    }
    assert(runs@.subrange(0, i as int) =~= runs@);
    acc
}

/// After the runs found for a window pair are written, the destination window
/// equals the source window.
pub proof fn lemma_patched_matches_source(s: Seq<u8>, d: Seq<u8>, k: int, runs: Seq<(usize, usize)>)
    requires
        s.len() == d.len(),
        k > 0,
        valid_runs(s, d, k, runs),
    ensures
        patched(s, d, runs) == s,
{
    assert(patched(s, d, runs) =~= s);
}

/// Identical windows give no write at all.
pub proof fn lemma_equal_windows_write_nothing(s: Seq<u8>, k: int, runs: Seq<(usize, usize)>)
    requires
        k > 0,
        valid_runs(s, s, k, runs),
    ensures
        runs.len() == 0,
{
    if runs.len() > 0 {
        assert(covers(runs[0], runs[0].0 as int));
    }
}

/// Comparing a window again after its runs were written finds nothing to write.
pub proof fn lemma_second_pass_writes_nothing(
    s: Seq<u8>,
    d: Seq<u8>,
    k: int,
    first: Seq<(usize, usize)>,
    second: Seq<(usize, usize)>,
)
    requires
        s.len() == d.len(),
        k > 0,
        valid_runs(s, d, k, first),
        valid_runs(s, patched(s, d, first), k, second),
    ensures
        second.len() == 0,
{
    lemma_patched_matches_source(s, d, k, first);
    lemma_equal_windows_write_nothing(s, k, second);
}

/// With one-byte sub-blocks every byte written differs between the windows,
/// so the runs write exactly the differing bytes.
pub proof fn lemma_unit_blocks_write_only_differing_bytes(
    s: Seq<u8>,
    d: Seq<u8>,
    runs: Seq<(usize, usize)>,
    i: int,
    p: int,
)
    requires
        s.len() == d.len(),
        valid_runs(s, d, 1, runs),
        0 <= i < runs.len(),
        covers(runs[i], p),
    ensures
        s[p] != d[p],
{
    lemma_small_mod(0, 1);
    lemma_mod_multiples_vanish(p, 0, 1);
    assert(block_of(1, p) == p);
    if s[p] == d[p] {
        assert(s.subrange(p, p + 1) =~= d.subrange(p, p + 1));
    }
}

} // verus!
