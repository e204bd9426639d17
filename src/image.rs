use vstd::prelude::*;
use vstd::slice::slice_subrange;
use crate::{prepare_destination, CopyError, Preparation, StorageKind};
use crate::session::{CopySession, Step};
use crate::window::{covered, covers, lemma_equal_windows_write_nothing, lemma_patched_matches_source, patched};

verus! {

/// Bytes `[lo, hi)` of `v`, copied.
fn copy_range(v: &Vec<u8>, lo: usize, hi: usize) -> (r: Vec<u8>)
    requires
        lo <= hi <= v@.len(),
    ensures
        r@ == v@.subrange(lo as int, hi as int),
{
    let mut r: Vec<u8> = Vec::new();
    let mut i: usize = lo;
    while i < hi
        invariant
            lo <= i <= hi <= v@.len(),
            r@ == v@.subrange(lo as int, i as int),
        decreases hi - i,
    {
        r.push(v[i]);
        i = i + 1;
        assert(r@ =~= v@.subrange(lo as int, i as int));
    }
    r
}

/// Overwrites `dst[offset + a .. offset + b]` with `win[a..b]` for each run.
fn apply_runs(dst: &mut Vec<u8>, win: &[u8], offset: usize, runs: &Vec<(usize, usize)>)
    requires
        offset + win@.len() <= old(dst)@.len() <= usize::MAX,
        forall|i: int| 0 <= i < runs@.len() ==> (#[trigger] runs@[i]).0 < runs@[i].1 <= win@.len(),
    ensures
        final(dst)@.len() == old(dst)@.len(),
        final(dst)@.subrange(offset as int, offset + win@.len()) == patched(
            win@,
            old(dst)@.subrange(offset as int, offset + win@.len()),
            runs@,
        ),
        forall|p: int| 0 <= p < old(dst)@.len() && !(offset <= p < offset + win@.len()) ==> final(dst)@[p] == old(dst)@[p],
{
    let ghost d0 = dst@;
    let ghost w = win@;
    let ghost dw = d0.subrange(offset as int, offset + w.len());
    let mut i: usize = 0;
    while i < runs.len()
        invariant
            0 <= i <= runs@.len(),
            w == win@,
            dst@.len() == d0.len(),
            offset + w.len() <= d0.len() <= usize::MAX,
            dw == d0.subrange(offset as int, offset + w.len()),
            forall|j: int| 0 <= j < runs@.len() ==> (#[trigger] runs@[j]).0 < runs@[j].1 <= w.len(),
            forall|p: int| 0 <= p < w.len() ==> dst@[offset + p] == (if covered(runs@.subrange(0, i as int), p) {
                w[p]
            } else {
                dw[p]
            }),
            forall|p: int| 0 <= p < d0.len() && !(offset <= p < offset + w.len()) ==> dst@[p] == d0[p],
        decreases runs@.len() - i,
    {
        let (a, b) = runs[i];
        let mut q: usize = a;
        while q < b
            invariant
                a <= q <= b <= w.len(),
                w == win@,
                (a, b) == runs@[i as int],
                i < runs@.len(),
                dst@.len() == d0.len(),
                offset + w.len() <= d0.len() <= usize::MAX,
                dw == d0.subrange(offset as int, offset + w.len()),
                forall|j: int| 0 <= j < runs@.len() ==> (#[trigger] runs@[j]).0 < runs@[j].1 <= w.len(),
                forall|p: int| 0 <= p < w.len() ==> dst@[offset + p] == (if covered(runs@.subrange(0, i as int), p)
                    || a <= p < q {
                    w[p]
                } else {
                    dw[p]
                }),
                forall|p: int| 0 <= p < d0.len() && !(offset <= p < offset + w.len()) ==> dst@[p] == d0[p],
            decreases b - q,
        {
            dst.set(offset + q, win[q]);
            q = q + 1;
        }
        proof {
            let pre = runs@.subrange(0, i as int);
            let next = runs@.subrange(0, i + 1);
            assert forall|p: int| 0 <= p < w.len() implies covered(next, p) == (covered(pre, p) || a <= p < b) by {
                if covered(pre, p) {
                    let j = choose|j: int| 0 <= j < pre.len() && covers(#[trigger] pre[j], p);
                    assert(next[j] == pre[j]);
                }
                if a <= p < b {
                    assert(covers(next[i as int], p));
                }
                if covered(next, p) {
                    let j = choose|j: int| 0 <= j < next.len() && covers(#[trigger] next[j], p);
                    if j < i {
                        assert(pre[j] == next[j]);
                    }
                }
            }
        }
        i = i + 1;
    }
    assert(runs@.subrange(0, i as int) =~= runs@);
    assert(dst@.subrange(offset as int, offset + w.len()) =~= patched(w, dw, runs@));
}

/// Makes an in-memory destination image bit-identical to `src`, reading both
/// in windows of `buffer_capacity` bytes and writing only the differing runs
/// of `block_size`-byte sub-blocks. The destination is sized to the source
/// first, as a regular file is. Returns the number of bytes written.
pub fn sync_image(src: &[u8], dst: &mut Vec<u8>, buffer_capacity: usize, block_size: usize, threaded: bool) -> (r:
    Result<u64, CopyError>)
    requires
        0 < block_size <= buffer_capacity,
    ensures
        src@.len() == 0 ==> r == Err::<u64, CopyError>(CopyError::EmptySource) && final(dst)@ == old(dst)@,
        src@.len() > 0 ==> r is Ok && final(dst)@ == src@ && r->Ok_0 <= src@.len(),
        src@.len() > 0 && old(dst)@ == src@ ==> r == Ok::<u64, CopyError>(0),
{
    let n = src.len();
    let prep = prepare_destination(n as u64, dst.len() as u64, StorageKind::RegularFile);
    match prep {
        Err(e) => {
            return Err(e);
        },
        Ok(Preparation::Resize(_)) => {
            while dst.len() > n
                decreases dst@.len(),
            {
                dst.pop();
            }
            while dst.len() < n
                invariant
                    dst@.len() <= n,
            decreases n - dst@.len(),
            {
                dst.push(0);
            }
        },
        Ok(Preparation::Keep) => {},
    }
    let ghost d0 = dst@;
    let mut session = CopySession::new(n as u64, buffer_capacity, block_size, threaded);
    let mut pos: usize = 0;
    while pos < n
        invariant
            n == src@.len(),
            n > 0,
            dst@.len() == n,
            d0.len() == n,
            old(dst)@ == src@ ==> d0 == src@,
            session.wf(),
            session.cursor == pos,
            session.src_size == n,
            session.block_size == block_size,
            session.buffer_capacity == buffer_capacity,
            0 < block_size <= buffer_capacity,
            pos <= n,
            forall|p: int| 0 <= p < pos ==> dst@[p] == src@[p],
            forall|p: int| pos <= p < n ==> dst@[p] == d0[p],
            d0 == src@ ==> session.bytes_written == 0,
        decreases n - pos,
    {
        let end: usize = if n - pos <= buffer_capacity { n } else { pos + buffer_capacity };
        let swin = slice_subrange(src, pos, end);
        let dwin = copy_range(dst, pos, end);
        assert(dwin@ =~= d0.subrange(pos as int, end as int));
        let ghost before = dst@;
        match session.step(swin, dwin.as_slice()) {
            Ok(Step::Write { offset, runs }) => {
                apply_runs(dst, swin, pos, &runs);
                proof {
                    lemma_patched_matches_source(swin@, dwin@, block_size as int, runs@);
                    assert forall|p: int| pos <= p < end implies dst@[p] == src@[p] by {
                        assert(dst@.subrange(pos as int, end as int)[p - pos] == swin@[p - pos]);
                    }
                    assert(before.subrange(pos as int, end as int) =~= dwin@);
                    if d0 == src@ {
                        assert(swin@ =~= dwin@);
                        lemma_equal_windows_write_nothing(swin@, block_size as int, runs@);
                        assert(runs@ =~= Seq::<(usize, usize)>::empty());
                    }
                }
            },
            _ => {
                assert(false);
            },
        }
        pos = end;
    }
    assert(dst@ =~= src@);
    Ok(session.bytes_written)
}

} // verus!
