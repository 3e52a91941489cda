//! The arithmetic of reading a remote file through a cache of fixed-size blocks:
//! which blocks a read still lacks, how far to read ahead, how a fetched buffer is cut
//! into blocks, when an open stream can serve a read, and how a read is put back
//! together from the cached blocks. Fetching and the cache itself belong to the caller.

use vstd::prelude::*;
use crate::bytes::{extend_bytes, slice_to_vec};
use crate::scan::{before_char, char_pos, parse_u64, parse_unsigned, strip_prefix, trim, trim_chars};

verus! {

/// Cache and fetch granularity in bytes.
pub const BLOCK: u64 = 16384;

/// First read-ahead window of a sequential run.
pub const WINDOW_BASE: u64 = 65536;

/// Largest read-ahead window.
pub const WINDOW_CAP: u64 = 4194304;

/// Largest forward gap after the last fetched byte that still counts as sequential.
pub const SEQ_GAP: u64 = 524288;

/// Read-ahead of the bounded range request used when no stream can serve a read.
pub const FALLBACK_WINDOW: u64 = 1048576;

/// How far one streaming request reaches.
pub const SEGMENT: u64 = 16777216;

// ----------------------------------------------------------------------------
// Sources
// ----------------------------------------------------------------------------

/// A file read over HTTP range requests through the block cache.
#[derive(Debug, Clone)]
pub struct FetchSource {
    pub url: String,
}

impl FetchSource {
    pub fn new(url: String) -> (r: FetchSource)
        ensures
            r.url == url,
    {
        FetchSource { url }
    }
}

/// A file read over one forward HTTP stream at a time, backed by the block cache.
#[derive(Debug, Clone)]
pub struct StreamSource {
    pub url: String,
}

impl StreamSource {
    pub fn new(url: String) -> (r: StreamSource)
        ensures
            r.url == url,
    {
        StreamSource { url }
    }
}

/// A local file.
#[derive(Debug, Clone)]
pub struct FsSource {
    pub file_path: String,
}

impl FsSource {
    pub fn new(file_path: &str) -> (r: FsSource)
        ensures
            r.file_path@ == file_path@,
    {
        FsSource { file_path: String::from_str(file_path) }
    }
}

// ----------------------------------------------------------------------------
// Content-Range
// ----------------------------------------------------------------------------

pub open spec fn bytes_unit() -> Seq<char> {
    seq!['b', 'y', 't', 'e', 's', ' ']
}

/// The start offset of a `Content-Range: bytes START-END/TOTAL` header value: the text
/// is trimmed, must begin with `bytes `, and START is what comes before the first `-`
/// of the part before the first `/`, trimmed and read as a decimal `u64`.
pub open spec fn spec_content_range_start(h: Seq<char>) -> Option<u64> {
    let t = trim_chars(h);
    let u = bytes_unit();
    if t.len() >= u.len() && t.take(u.len() as int) == u {
        let after = t.skip(u.len() as int);
        let range = after.take(char_pos(after, '/') as int);
        let first = range.take(char_pos(range, '-') as int);
        parse_unsigned(trim_chars(first), 10)
    } else {
        None
    }
}

/// Extract the start offset from a `Content-Range: bytes START-END/TOTAL` header.
pub fn parse_content_range_start(header: &str) -> (r: Option<u64>)
    ensures
        r == spec_content_range_start(header@),
{
    let t = trim(header);
    proof {
        reveal_strlit("bytes ");
        assert("bytes "@ =~= bytes_unit());
    }
    let after = match strip_prefix(t, "bytes ") {
        Some(a) => a,
        None => return None,
    };
    let range = before_char(after, '/');
    let first = before_char(range, '-');
    parse_u64(trim(first))
}

// ----------------------------------------------------------------------------
// Read-ahead over the block cache
// ----------------------------------------------------------------------------

/// Where the last fetch of a file ended and how large the next sequential one may be.
#[derive(Debug, Clone, Copy, PartialEq, Eq, Structural)]
pub struct ReadAhead {
    /// Offset just past the last fetched byte.
    pub last_end: u64,
    /// Window for the next sequential fetch.
    pub window: u64,
}

impl ReadAhead {
    /// The state of a file nothing was fetched from yet.
    pub fn new() -> (r: ReadAhead)
        ensures
            r == (ReadAhead { last_end: 0, window: WINDOW_BASE }),
    {
        ReadAhead { last_end: 0, window: WINDOW_BASE }
    }
}

/// The first and last block of a read that the cache lacks, by block number;
/// `present[k]` tells whether block `first_q + k` is cached.
pub fn missing_span(first_q: u64, present: &[bool]) -> (r: Option<(u64, u64)>)
    requires
        first_q + present@.len() <= u64::MAX,
    ensures
        match r {
            None => forall|k: int| 0 <= k < present@.len() ==> #[trigger] present@[k],
            Some((lo, hi)) => {
                &&& first_q <= lo <= hi < first_q + present@.len()
                &&& !present@[lo - first_q]
                &&& !present@[hi - first_q]
                &&& forall|k: int| 0 <= k < lo - first_q ==> #[trigger] present@[k]
                &&& forall|k: int| hi - first_q < k < present@.len() ==> #[trigger] present@[k]
            },
        },
{
    let mut lo: Option<u64> = None;
    let mut hi: u64 = 0;
    let mut i: usize = 0;
    while i < present.len()
        invariant
            i <= present@.len(),
            first_q + present@.len() <= u64::MAX,
            match lo {
                None => forall|k: int| 0 <= k < i ==> #[trigger] present@[k],
                Some(l) => {
                    &&& first_q <= l <= hi < first_q + i
                    &&& !present@[l - first_q]
                    &&& !present@[hi - first_q]
                    &&& forall|k: int| 0 <= k < l - first_q ==> #[trigger] present@[k]
                    &&& forall|k: int| hi - first_q < k < i ==> #[trigger] present@[k]
                },
            },
        decreases present@.len() - i,
    {
        if !present[i] {
            if lo.is_none() {
                lo = Some(first_q + i as u64);
            }
            hi = first_q + i as u64;
        }
        i += 1;
    }
    match lo {
        Some(l) => Some((l, hi)),
        None => None,
    }
}

/// A read-ahead fetch: the first byte, the last byte (inclusive) and the window it used.
pub open spec fn spec_window_fetch(state: ReadAhead, lo: u64, hi: u64) -> (u64, u64, u64) {
    let needed_start = lo * BLOCK;
    let needed_end = (hi + 1) * BLOCK - 1;
    let sequential = needed_start + BLOCK >= state.last_end && needed_start <= state.last_end
        + SEQ_GAP;
    let window = if sequential {
        state.window
    } else {
        WINDOW_BASE
    };
    let reach = if needed_end >= needed_start + window - 1 {
        needed_end
    } else {
        needed_start + window - 1
    };
    (needed_start as u64, ((reach / BLOCK as int + 1) * BLOCK - 1) as u64, window)
}

/// Plan the fetch for the missing blocks `lo..=hi`: from the first missing block, a
/// read-ahead window when the read continues where the last fetch ended (at most one
/// block behind, at most `SEQ_GAP` ahead) and the base window otherwise, but always
/// the blocks needed; the end is aligned to the block grid.
pub fn plan_window_fetch(state: ReadAhead, lo: u64, hi: u64) -> (r: (u64, u64, u64))
    requires
        lo <= hi,
        state.window >= 1,
        (hi + 2) * BLOCK + state.window + WINDOW_BASE <= u64::MAX,
        state.last_end + SEQ_GAP <= u64::MAX,
    ensures
        r == spec_window_fetch(state, lo, hi),
{
    proof {
        assert(lo * BLOCK <= hi * BLOCK) by (nonlinear_arith)
            requires
                lo <= hi,
        ;
    }
    let needed_start = lo * BLOCK;
    let needed_end = (hi + 1) * BLOCK - 1;
    let sequential = needed_start + BLOCK >= state.last_end && needed_start <= state.last_end
        + SEQ_GAP;
    let window = if sequential {
        state.window
    } else {
        WINDOW_BASE
    };
    let reach = if needed_end >= needed_start + window - 1 {
        needed_end
    } else {
        needed_start + window - 1
    };
    let fetch_end = (reach / BLOCK + 1) * BLOCK - 1;
    (needed_start, fetch_end, window)
}

/// The state after a read-ahead fetch that started at `needed_start` with `window` and
/// brought `data_len` bytes: the head moves forward (never back) and the window doubles
/// up to `WINDOW_CAP`.
pub fn after_window_fetch(state: ReadAhead, window: u64, needed_start: u64, data_len: u64) -> (r: ReadAhead)
    requires
        needed_start + data_len <= u64::MAX,
    ensures
        r.last_end == (if needed_start + data_len >= state.last_end {
            needed_start + data_len
        } else {
            state.last_end as int
        }),
        r.window == (if window * 2 < WINDOW_CAP {
            window * 2
        } else {
            WINDOW_CAP as int
        }),
{
    let covered_end = needed_start + data_len;
    let doubled = if window > u64::MAX / 2 {
        u64::MAX
    } else {
        window * 2
    };
    ReadAhead {
        last_end: if covered_end >= state.last_end {
            covered_end
        } else {
            state.last_end
        },
        window: if doubled < WINDOW_CAP {
            doubled
        } else {
            WINDOW_CAP
        },
    }
}

/// The state after a whole-cluster read that ended before `end_exclusive`: the window
/// drops to one block and the head moves forward to it (never back).
pub fn note_fetched(state: ReadAhead, end_exclusive: u64) -> (r: ReadAhead)
    ensures
        r.window == BLOCK,
        r.last_end == (if end_exclusive > state.last_end {
            end_exclusive
        } else {
            state.last_end
        }),
{
    ReadAhead {
        last_end: if end_exclusive > state.last_end {
            end_exclusive
        } else {
            state.last_end
        },
        window: BLOCK,
    }
}

/// A read larger than one block bypasses the block cache.
pub fn is_large_read(start: u64, end: u64) -> (r: bool)
    requires
        start <= end,
    ensures
        r == (end - start > BLOCK),
{
    end - start > BLOCK
}

// ----------------------------------------------------------------------------
// Cutting fetched data into blocks
// ----------------------------------------------------------------------------

/// The blocks at `off`, `off + BLOCK`, ... below `end`: each as its offset, its start
/// within data that begins at `abs_start`, and its length (a full block, or what is
/// left of the data).
pub open spec fn blocks_from(off: nat, abs_start: nat, end: nat) -> Seq<(u64, u64, u64)>
    decreases end + BLOCK - off,
{
    if off < end {
        seq![
            (
                off as u64,
                (off - abs_start) as u64,
                (if end - off < BLOCK {
                    end - off
                } else {
                    BLOCK as int
                }) as u64,
            ),
        ] + blocks_from((off + BLOCK) as nat, abs_start, end)
    } else {
        Seq::empty()
    }
}

/// The first offset on the block grid at or after `x`.
pub open spec fn align_up(x: nat) -> nat {
    ((x + BLOCK - 1) / BLOCK as int * BLOCK) as nat
}

/// How `len` bytes fetched from `abs_start` are stored: only blocks that start on the
/// block grid, as (block offset, start in the data, length); a leading partial block is
/// left out.
pub fn seed_blocks(abs_start: u64, len: u64) -> (r: Vec<(u64, u64, u64)>)
    requires
        abs_start + len + 2 * BLOCK <= u64::MAX,
    ensures
        r@ == blocks_from(align_up(abs_start as nat), abs_start as nat, (abs_start + len) as nat),
{
    let end = abs_start + len;
    let first = (abs_start + BLOCK - 1) / BLOCK * BLOCK;
    proof {
        assert((abs_start + BLOCK - 1) / (BLOCK as int) * BLOCK >= abs_start) by (nonlinear_arith)
            requires
                abs_start >= 0,
        ;
        assert((abs_start + BLOCK - 1) / (BLOCK as int) * BLOCK <= abs_start + BLOCK - 1) by (nonlinear_arith)
            requires
                abs_start >= 0,
        ;
    }
    let mut out: Vec<(u64, u64, u64)> = Vec::new();
    let mut off = first;
    while off < end
        invariant
            abs_start <= first <= off,
            end == abs_start + len,
            end + 2 * BLOCK <= u64::MAX,
            off <= end + BLOCK,
            out@ + blocks_from(off as nat, abs_start as nat, end as nat) == blocks_from(
                first as nat,
                abs_start as nat,
                end as nat,
            ),
        decreases end + BLOCK - off,
    {
        let take = if end - off < BLOCK {
            end - off
        } else {
            BLOCK
        };
        let ghost before = out@;
        out.push((off, off - abs_start, take));
        proof {
            let tail = blocks_from((off + BLOCK) as nat, abs_start as nat, end as nat);
            assert(blocks_from(off as nat, abs_start as nat, end as nat) == seq![
                (off, (off - abs_start) as u64, take),
            ] + tail);
            assert(out@ + tail =~= before + (seq![(off, (off - abs_start) as u64, take)] + tail));
        }
        off = off + BLOCK;
    }
    proof {
        assert(out@ + blocks_from(off as nat, abs_start as nat, end as nat) =~= out@);
    }
    out
}

/// The length of the part of a stream buffer made of whole blocks.
pub fn complete_len(buf_len: usize) -> (r: usize)
    ensures
        r == buf_len as int / (BLOCK as int) * BLOCK,
{
    proof {
        assert(buf_len as int / (BLOCK as int) * BLOCK <= buf_len) by (nonlinear_arith)
            requires
                buf_len >= 0,
        ;
    }
    buf_len / (BLOCK as usize) * (BLOCK as usize)
}

// ----------------------------------------------------------------------------
// Streaming
// ----------------------------------------------------------------------------

/// An open stream can serve a read whose first missing block starts at `gap_start`
/// when it has not ended, `gap_start` is not before where it was opened and not more
/// than `SEQ_GAP` past the next byte it will deliver.
pub fn stream_usable(eof: bool, origin: u64, next: u64, gap_start: u64) -> (r: bool)
    requires
        next + SEQ_GAP <= u64::MAX,
    ensures
        r == (!eof && gap_start >= origin && gap_start <= next + SEQ_GAP),
{
    !eof && gap_start >= origin && gap_start <= next + SEQ_GAP
}

/// The last byte a stream opened at `start` asks for: one `SEGMENT` ahead, or up to
/// `min_end` when that is further, rounded up to the end of its block.
pub fn stream_range_end(start: u64, min_end: u64) -> (r: u64)
    requires
        start + SEGMENT + BLOCK <= u64::MAX,
        min_end + BLOCK <= u64::MAX,
    ensures
        r == (if start + SEGMENT - 1 >= min_end {
            start + SEGMENT - 1
        } else {
            min_end as int
        }) / BLOCK as int * BLOCK + BLOCK - 1,
{
    let reach = if start + SEGMENT - 1 >= min_end {
        start + SEGMENT - 1
    } else {
        min_end
    };
    proof {
        assert(reach / BLOCK * BLOCK <= reach) by (nonlinear_arith)
            requires
                reach >= 0,
        ;
        assert((reach / BLOCK + 1) * BLOCK == reach / BLOCK * BLOCK + BLOCK) by (nonlinear_arith);
    }
    (reach / BLOCK + 1) * BLOCK - 1
}

/// The offset just past the block holding `end`: how far a stream must get for a read
/// ending at `end`.
pub fn fill_target(end: u64) -> (r: u64)
    requires
        end + BLOCK <= u64::MAX,
    ensures
        r == (end as int / BLOCK as int + 1) * BLOCK,
{
    proof {
        assert(end / BLOCK * BLOCK <= end) by (nonlinear_arith)
            requires
                end >= 0,
        ;
        assert((end / BLOCK + 1) * BLOCK == end / BLOCK * BLOCK + BLOCK) by (nonlinear_arith);
    }
    (end / BLOCK + 1) * BLOCK
}

/// The last byte of the bounded range request that fills what a read still lacks from
/// block offset `lo` on: past the block holding `end`, and at least `FALLBACK_WINDOW`
/// bytes, rounded up to the end of a block.
pub fn fallback_fetch_end(lo: u64, end: u64) -> (r: u64)
    requires
        end + 2 * BLOCK <= u64::MAX,
        lo + FALLBACK_WINDOW + BLOCK <= u64::MAX,
    ensures
        ({
            let needed_end = (end as int / BLOCK as int + 1) * BLOCK - 1;
            let reach = if needed_end >= lo + FALLBACK_WINDOW - 1 {
                needed_end
            } else {
                lo + FALLBACK_WINDOW - 1
            };
            r == (reach / BLOCK as int + 1) * BLOCK - 1
        }),
{
    proof {
        assert(end / BLOCK * BLOCK <= end) by (nonlinear_arith)
            requires
                end >= 0,
        ;
        assert((end / BLOCK + 1) * BLOCK == end / BLOCK * BLOCK + BLOCK) by (nonlinear_arith);
    }
    let needed_end = (end / BLOCK + 1) * BLOCK - 1;
    let reach = if needed_end >= lo + FALLBACK_WINDOW - 1 {
        needed_end
    } else {
        lo + FALLBACK_WINDOW - 1
    };
    proof {
        assert(reach / BLOCK * BLOCK <= reach) by (nonlinear_arith)
            requires
                reach >= 0,
        ;
        assert((reach / BLOCK + 1) * BLOCK == reach / BLOCK * BLOCK + BLOCK) by (nonlinear_arith);
    }
    (reach / BLOCK + 1) * BLOCK - 1
}

// ----------------------------------------------------------------------------
// Reading from the cached blocks
// ----------------------------------------------------------------------------

/// The bytes that consecutive cached blocks hold: block after block, ending with the
/// first short block (the file's last).
pub open spec fn cached_run(bs: Seq<Seq<u8>>) -> Seq<u8>
    decreases bs.len(),
{
    if bs.len() == 0 {
        Seq::empty()
    } else if bs[0].len() < BLOCK {
        bs[0]
    } else {
        bs[0] + cached_run(bs.drop_first())
    }
}

/// The bytes `start..=end` of a file, from `blocks`, the consecutive cached blocks
/// beginning with the one holding `start`: clamped where the cached data ends.
pub open spec fn spec_assemble(start: u64, end: u64, blocks: Seq<Seq<u8>>) -> Seq<u8> {
    let key0 = start / BLOCK * BLOCK;
    let run = cached_run(blocks);
    let s0 = start - key0;
    let e0 = end + 1 - key0;
    if start <= end && s0 < run.len() {
        run.subrange(s0, if e0 < run.len() {
            e0
        } else {
            run.len() as int
        })
    } else {
        Seq::empty()
    }
}

/// Put the bytes `start..=end` together from the cached blocks that follow one another
/// from the block holding `start` on.
pub fn assemble(start: u64, end: u64, blocks: &Vec<Vec<u8>>) -> (r: Vec<u8>)
    requires
        end < u64::MAX,
        forall|i: int| 0 <= i < blocks@.len() ==> #[trigger] blocks@[i]@.len() <= BLOCK,
    ensures
        r@ == spec_assemble(start, end, blocks.deep_view()),
{
    let ghost bs = blocks.deep_view();
    let mut run: Vec<u8> = Vec::new();
    let mut i: usize = 0;
    proof {
        assert(bs.skip(0) =~= bs);
        assert(run@ + cached_run(bs) =~= cached_run(bs));
    }
    while i < blocks.len()
        invariant_except_break
            run@ + cached_run(bs.skip(i as int)) == cached_run(bs),
        invariant
            i <= blocks@.len(),
            bs == blocks.deep_view(),
            bs.len() == blocks@.len(),
        ensures
            run@ == cached_run(bs),
        decreases blocks@.len() - i,
    {
        let b = &blocks[i];
        let ghost before = run@;
        extend_bytes(&mut run, b.as_slice());
        proof {
            assert(bs[i as int] == b@);
            let rest = bs.skip(i as int);
            assert(rest[0] == b@);
            assert(rest.drop_first() =~= bs.skip(i + 1));
        }
        if (b.len() as u64) < BLOCK {
            proof {
                assert(run@ =~= before + b@);
            }
            break;
        }
        i += 1;
        proof {
            assert(run@ + cached_run(bs.skip(i as int)) =~= before + (b@ + cached_run(
                bs.skip(i as int),
            )));
        }
    }
    proof {
        if i == blocks.len() {
            assert(bs.skip(i as int) =~= Seq::<Seq<u8>>::empty());
            assert(run@ + Seq::<u8>::empty() =~= run@);
        }
    }
    let key0 = start / BLOCK * BLOCK;
    let s0 = start - key0;
    if start > end || s0 >= run.len() as u64 {
        return Vec::new();
    }
    let e0 = end + 1 - key0;
    let stop: usize = if e0 < run.len() as u64 {
        e0 as usize
    } else {
        run.len()
    };
    slice_to_vec(run.as_slice(), s0 as usize, stop)
}

/// The lookups of consecutive blocks, each block by its bytes (`None` when not cached).
pub open spec fn opt_blocks(v: Seq<Option<Vec<u8>>>) -> Seq<Option<Seq<u8>>> {
    v.map_values(
        |o: Option<Vec<u8>>|
            match o {
                Some(b) => Some(b@),
                None => None,
            },
    )
}

/// The cached blocks a read can use, from the lookups of consecutive blocks starting
/// with the one that holds its first byte: up to the first block that is not cached,
/// and up to and including the first short block (the file's last).
pub open spec fn run_of(bs: Seq<Option<Seq<u8>>>) -> Seq<Seq<u8>>
    decreases bs.len(),
{
    if bs.len() == 0 {
        Seq::empty()
    } else {
        match bs[0] {
            None => Seq::empty(),
            Some(b) => if b.len() < BLOCK {
                seq![b]
            } else {
                seq![b] + run_of(bs.drop_first())
            },
        }
    }
}

/// The blocks that `assemble` is given: the cached ones that follow one another from
/// the first lookup on, stopping at a miss and after a short block.
pub fn cached_run_of(blocks: &Vec<Option<Vec<u8>>>) -> (r: Vec<Vec<u8>>)
    ensures
        r.deep_view() == run_of(opt_blocks(blocks@)),
{
    let ghost bs = opt_blocks(blocks@);
    let mut out: Vec<Vec<u8>> = Vec::new();
    let mut i: usize = 0;
    proof {
        assert(bs.skip(0) =~= bs);
        assert(out.deep_view() + run_of(bs) =~= run_of(bs));
    }
    while i < blocks.len()
        invariant_except_break
            out.deep_view() + run_of(bs.skip(i as int)) == run_of(bs),
        invariant
            i <= blocks@.len(),
            bs == opt_blocks(blocks@),
            bs.len() == blocks@.len(),
        ensures
            out.deep_view() == run_of(bs),
        decreases blocks@.len() - i,
    {
        let ghost rest = bs.skip(i as int);
        proof {
            assert(rest[0] == bs[i as int]);
            assert(rest.drop_first() =~= bs.skip(i + 1));
        }
        match &blocks[i] {
            None => {
                proof {
                    assert(out.deep_view() + Seq::<Seq<u8>>::empty() =~= out.deep_view());
                }
                break;
            },
            Some(b) => {
                let ghost before = out.deep_view();
                let ghost old_out = out@;
                let copy = slice_to_vec(b.as_slice(), 0, b.len());
                out.push(copy);
                proof {
                    assert(b@.subrange(0, b@.len() as int) =~= b@);
                    assert(copy.deep_view() =~= b@);
                    assert forall|j: int| 0 <= j < out@.len() implies out.deep_view()[j] == before.push(
                        b@,
                    )[j] by {
                        if j < before.len() {
                            assert(out@[j] == old_out[j]);
                        }
                    }
                    assert(out.deep_view() =~= before.push(b@));
                }
                if (b.len() as u64) < BLOCK {
                    proof {
                        assert(out.deep_view() =~= before + seq![b@]);
                    }
                    break;
                }
                proof {
                    assert(out.deep_view() + run_of(bs.skip(i + 1)) =~= before + (seq![b@] + run_of(
                        bs.skip(i + 1),
                    )));
                }
            },
        }
        i += 1;
    }
    proof {
        if i == blocks.len() {
            assert(bs.skip(i as int) =~= Seq::<Option<Seq<u8>>>::empty());
            assert(out.deep_view() + Seq::<Seq<u8>>::empty() =~= out.deep_view());
        }
    }
    out
}

pub open spec fn min_int(a: int, b: int) -> int {
    if a <= b {
        a
    } else {
        b
    }
}

/// Block `q` of a file as the cache holds it, `None` past the file's end.
pub open spec fn file_block(file: Seq<u8>, q: int) -> Option<Seq<u8>> {
    if q * BLOCK < file.len() {
        Some(file.subrange(q * BLOCK, min_int(q * BLOCK + BLOCK, file.len() as int)))
    } else {
        None
    }
}

/// The lookups of blocks `first .. first + n` of a file.
pub open spec fn file_blocks(file: Seq<u8>, first: int, n: nat) -> Seq<Option<Seq<u8>>> {
    Seq::new(n, |i: int| file_block(file, first + i))
}

/// The usable run over `n` blocks of a file from block `q` holds the file's bytes
/// from that block to the end of the last one, or to the end of the file.
proof fn lemma_file_run(file: Seq<u8>, q: int, n: nat)
    requires
        q >= 0,
    ensures
        cached_run(run_of(file_blocks(file, q, n))) == if q * BLOCK < file.len() && n > 0 {
            file.subrange(q * BLOCK, min_int((q + n) * BLOCK, file.len() as int))
        } else {
            Seq::empty()
        },
    decreases n,
{
    let bs = file_blocks(file, q, n);
    if n == 0 {
        assert(bs.len() == 0);
    } else if q * BLOCK >= file.len() {
        assert(bs[0] is None);
    } else {
        let b = file.subrange(q * BLOCK, min_int(q * BLOCK + BLOCK, file.len() as int));
        assert(bs[0] == Some(b));
        if b.len() < BLOCK {
            assert(run_of(bs) == seq![b]);
            assert(cached_run(seq![b]) == b);
            assert((q + n) * BLOCK >= q * BLOCK + BLOCK) by (nonlinear_arith)
                requires
                    n >= 1,
            ;
        } else {
            assert(bs.drop_first() =~= file_blocks(file, q + 1, (n - 1) as nat));
            let rest = run_of(bs.drop_first());
            assert(run_of(bs) == seq![b] + rest);
            assert((seq![b] + rest)[0] == b);
            assert((seq![b] + rest).drop_first() =~= rest);
            assert(cached_run(seq![b] + rest) == b + cached_run(rest));
            lemma_file_run(file, q + 1, (n - 1) as nat);
            assert((q + 1) * BLOCK == q * BLOCK + BLOCK) by (nonlinear_arith);
            assert((q + n) * BLOCK == (q + 1 + (n - 1)) * BLOCK);
            assert((q + n) * BLOCK >= q * BLOCK + BLOCK) by (nonlinear_arith)
                requires
                    n >= 1,
            ;
            if (q + 1) * BLOCK < file.len() && n - 1 > 0 {
                assert(b + file.subrange((q + 1) * BLOCK, min_int((q + n) * BLOCK, file.len() as int))
                    =~= file.subrange(q * BLOCK, min_int((q + n) * BLOCK, file.len() as int)));
            } else {
                assert(b + Seq::<u8>::empty() =~= b);
                if n - 1 == 0 {
                    assert(min_int((q + n) * BLOCK, file.len() as int) == q * BLOCK + BLOCK);
                }
            }
        }
    }
}

/// A read of `start..=end` from a file whose blocks the cache holds as they are in the
/// file: `assemble` over `cached_run_of` the lookups of the blocks from the one holding
/// `start` to the one holding `end` gives the file's bytes `start..=end`, clamped at
/// its end (nothing when `start` is past it).
pub proof fn lemma_cached_read(file: Seq<u8>, start: u64, end: u64)
    requires
        start <= end,
    ensures
        ({
            let q0 = start / BLOCK;
            let n = (end / BLOCK - q0 + 1) as nat;
            spec_assemble(start, end, run_of(file_blocks(file, q0 as int, n))) == if start
                < file.len() {
                file.subrange(start as int, min_int(end + 1, file.len() as int))
            } else {
                Seq::empty()
            }
        }),
{
    let q0 = start / BLOCK;
    let q1 = end / BLOCK;
    assert(q0 * BLOCK <= start < q0 * BLOCK + BLOCK) by (nonlinear_arith)
        requires
            q0 == start / BLOCK,
    ;
    assert(q1 * BLOCK <= end < q1 * BLOCK + BLOCK) by (nonlinear_arith)
        requires
            q1 == end / BLOCK,
    ;
    assert(q0 <= q1) by (nonlinear_arith)
        requires
            q0 == start / BLOCK,
            q1 == end / BLOCK,
            start <= end,
    ;
    let n = (q1 - q0 + 1) as nat;
    lemma_file_run(file, q0 as int, n);
    assert((q0 + n) * BLOCK == q1 * BLOCK + BLOCK) by (nonlinear_arith)
        requires
            n == q1 - q0 + 1,
    ;
    assert(start / BLOCK * BLOCK == q0 * BLOCK);
    let run = cached_run(run_of(file_blocks(file, q0 as int, n)));
    let key0 = q0 * BLOCK;
    if key0 < file.len() {
        let top = min_int(q1 * BLOCK + BLOCK, file.len() as int);
        assert(run == file.subrange(key0 as int, top));
        assert(run.len() == top - key0);
        if start < file.len() {
            assert(start - key0 < run.len());
            let e0 = end + 1 - key0;
            let stop = if e0 < run.len() {
                e0
            } else {
                run.len() as int
            };
            assert(key0 + stop == min_int(end + 1, file.len() as int));
            assert(run.subrange(start - key0, stop) =~= file.subrange(
                start as int,
                min_int(end + 1, file.len() as int),
            ));
        }
    }
}

// ----------------------------------------------------------------------------
// Reading back what was stored
// ----------------------------------------------------------------------------

/// The bytes of `data` that each planned block holds.
pub open spec fn block_data(data: Seq<u8>, plan: Seq<(u64, u64, u64)>) -> Seq<Seq<u8>> {
    plan.map_values(|t: (u64, u64, u64)| data.subrange(t.1 as int, t.1 + t.2))
}

proof fn lemma_block_data_cons(data: Seq<u8>, x: (u64, u64, u64), rest: Seq<(u64, u64, u64)>)
    ensures
        block_data(data, seq![x] + rest) == seq![data.subrange(x.1 as int, x.1 + x.2)] + block_data(
            data,
            rest,
        ),
{
    assert(block_data(data, seq![x] + rest) =~= seq![data.subrange(x.1 as int, x.1 + x.2)]
        + block_data(data, rest));
}

/// The blocks stored from `off` (on the grid of `abs_start`) on hold the data from
/// there to its end.
proof fn lemma_run_of_stored(data: Seq<u8>, abs_start: nat, off: nat)
    requires
        abs_start <= off < abs_start + data.len(),
        abs_start + data.len() <= u64::MAX,
        (off - abs_start) % (BLOCK as int) == 0,
    ensures
        cached_run(block_data(data, blocks_from(off, abs_start, abs_start + data.len())))
            == data.subrange(off - abs_start, data.len() as int),
    decreases abs_start + data.len() - off,
{
    let end = abs_start + data.len();
    let take: int = if end - off < BLOCK {
        end - off
    } else {
        BLOCK as int
    };
    let x = (off as u64, (off - abs_start) as u64, take as u64);
    let rest = blocks_from((off + BLOCK) as nat, abs_start, end);
    assert(blocks_from(off, abs_start, end) == seq![x] + rest);
    lemma_block_data_cons(data, x, rest);
    let bs = block_data(data, blocks_from(off, abs_start, end));
    let p0 = data.subrange(off - abs_start, off - abs_start + take);
    assert(bs[0] == p0);
    assert(bs.drop_first() =~= block_data(data, rest));
    assert(p0.len() == take);
    assert(bs.len() > 0);
    if take < BLOCK {
        assert(cached_run(bs) == bs[0]);
        assert(p0 =~= data.subrange(off - abs_start, data.len() as int));
    } else if off + BLOCK < end {
        assert(cached_run(bs) == bs[0] + cached_run(bs.drop_first()));
        lemma_run_of_stored(data, abs_start, (off + BLOCK) as nat);
        assert(p0 + data.subrange(off + BLOCK - abs_start, data.len() as int) =~= data.subrange(
            off - abs_start,
            data.len() as int,
        ));
    } else {
        assert(cached_run(bs) == bs[0] + cached_run(bs.drop_first()));
        assert(rest == Seq::<(u64, u64, u64)>::empty());
        assert(block_data(data, rest) =~= Seq::<Seq<u8>>::empty());
        assert(p0 + Seq::<u8>::empty() =~= data.subrange(off - abs_start, data.len() as int));
    }
}

/// A read of `start..=end` within bytes fetched from `abs_start` (on the block grid)
/// and stored as `seed_blocks` cuts them gives those bytes back: `assemble` over the
/// stored blocks from the one holding `start` on returns `data[start - abs_start ..=
/// end - abs_start]`.
pub proof fn lemma_read_back(abs_start: u64, data: Seq<u8>, start: u64, end: u64)
    requires
        abs_start % BLOCK == 0,
        abs_start <= start <= end,
        end < abs_start + data.len(),
        abs_start + data.len() <= u64::MAX,
    ensures
        ({
            let key = start / BLOCK * BLOCK;
            spec_assemble(
                start,
                end,
                block_data(data, blocks_from(key as nat, abs_start as nat, (abs_start + data.len()) as nat)),
            ) == data.subrange(start - abs_start, end - abs_start + 1)
        }),
{
    let key = start / BLOCK * BLOCK;
    assert(key <= start && start < key + BLOCK) by (nonlinear_arith)
        requires
            key == start / BLOCK * BLOCK,
    ;
    assert(abs_start <= key && (key - abs_start) % (BLOCK as int) == 0) by (nonlinear_arith)
        requires
            key == start / BLOCK * BLOCK,
            abs_start % BLOCK == 0,
            abs_start <= start,
    ;
    lemma_run_of_stored(data, abs_start as nat, key as nat);
    let run = data.subrange(key - abs_start, data.len() as int);
    assert(run.subrange(start - key, end + 1 - key) =~= data.subrange(
        start - abs_start,
        end - abs_start + 1,
    ));
}

} // verus!
