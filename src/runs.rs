//! Data-run lists of non-resident attributes: a compact encoding of the
//! cluster spans that hold an attribute's value.
use vstd::prelude::*;

verus! {

/// 256 to the power `n`.
pub open spec fn pow256(n: nat) -> int
    decreases n,
{
    if n == 0 {
        1
    } else {
        256 * pow256((n - 1) as nat)
    }
}

/// The unsigned value of the `n` bytes at `off`, least significant first.
pub open spec fn le_unsigned(s: Seq<u8>, off: int, n: nat) -> int
    decreases n,
{
    if n == 0 {
        0
    } else {
        s[off] as int + 256 * le_unsigned(s, off + 1, (n - 1) as nat)
    }
}

/// The two's-complement value of the `n` bytes at `off`.
pub open spec fn le_signed(s: Seq<u8>, off: int, n: nat) -> int {
    if n > 0 && s[off + n - 1] >= 128 {
        le_unsigned(s, off, n) - pow256(n)
    } else {
        le_unsigned(s, off, n)
    }
}

/// One span of clusters. A sparse run has no clusters on disk.
#[derive(Clone, Copy, Debug, PartialEq, Eq, Structural)]
pub struct DataRun {
    /// Number of clusters in the span.
    pub lcn_length: u64,
    /// First cluster of the span on the volume; none for a sparse run.
    pub lcn_offset: Option<i64>,
}

/// Why a run list could not be decoded.
#[derive(Clone, Copy, Debug, PartialEq, Eq, Structural)]
pub enum RunError {
    /// The list ends before its terminating zero byte.
    Truncated,
    /// A run header gives no length field, or a field wider than eight bytes.
    InvalidHeader,
    /// A run starts outside the signed 64-bit cluster range.
    ClusterOutOfRange,
}

/// The runs that the list at `pos` of `s` encodes, each offset taken
/// relative to the cluster `lcn` where the previous non-sparse run started.
pub open spec fn runs_from(s: Seq<u8>, pos: int, lcn: int) -> Result<Seq<DataRun>, RunError>
    decreases s.len() - pos,
{
    if pos < 0 || pos >= s.len() {
        Err(RunError::Truncated)
    } else if s[pos] == 0 {
        Ok(Seq::empty())
    } else {
        let len_size = (s[pos] % 16) as nat;
        let off_size = (s[pos] / 16) as nat;
        if len_size == 0 || len_size > 8 || off_size > 8 {
            Err(RunError::InvalidHeader)
        } else if pos + 1 + len_size + off_size > s.len() {
            Err(RunError::Truncated)
        } else {
            let length = le_unsigned(s, pos + 1, len_size);
            let next_lcn = if off_size == 0 {
                lcn
            } else {
                lcn + le_signed(s, pos + 1 + len_size, off_size)
            };
            if !(i64::MIN <= next_lcn <= i64::MAX) {
                Err(RunError::ClusterOutOfRange)
            } else {
                let run = DataRun {
                    lcn_length: length as u64,
                    lcn_offset: if off_size == 0 {
                        None
                    } else {
                        Some(next_lcn as i64)
                    },
                };
                match runs_from(s, pos + 1 + len_size + off_size, next_lcn) {
                    Ok(rest) => Ok(seq![run] + rest),
                    Err(e) => Err(e),
                }
            }
        }
    }
}

/// The runs that a whole list encodes; the first offset counts from cluster
/// zero.
pub open spec fn decode_runs_spec(s: Seq<u8>) -> Result<Seq<DataRun>, RunError> {
    runs_from(s, 0, 0)
}

/// The number of clusters that the runs cover, sparse runs included.
pub open spec fn total_clusters(runs: Seq<DataRun>) -> int
    decreases runs.len(),
{
    if runs.len() == 0 {
        0
    } else {
        total_clusters(runs.drop_last()) + runs.last().lcn_length
    }
}

proof fn lemma_pow256_8()
    ensures
        pow256(8) == 0x1_0000_0000_0000_0000,
{
    reveal_with_fuel(pow256, 9);
}

proof fn lemma_pow256_mono(a: nat, b: nat)
    requires
        a <= b,
    ensures
        pow256(a) <= pow256(b),
        pow256(a) >= 1,
    decreases b,
{
    if a < b {
        lemma_pow256_mono(a, (b - 1) as nat);
    } else if a > 0 {
        lemma_pow256_mono((a - 1) as nat, (a - 1) as nat);
    }
}

proof fn lemma_le_unsigned_bound(s: Seq<u8>, off: int, n: nat)
    ensures
        0 <= le_unsigned(s, off, n) < pow256(n),
    decreases n,
{
    if n > 0 {
        lemma_le_unsigned_bound(s, off + 1, (n - 1) as nat);
    }
}

/// The unsigned value of `n` bytes at `off`.
fn read_unsigned(b: &[u8], off: usize, n: usize) -> (r: u64)
    requires
        n <= 8,
        off + n <= b@.len(),
    ensures
        r as int == le_unsigned(b@, off as int, n as nat),
{
    let _len = b.len();
    let mut acc: u64 = 0;
    let mut j: usize = n;
    proof {
        lemma_pow256_8();
    }
    while j > 0
        invariant
            j <= n <= 8,
            off + n <= b@.len(),
            off + n <= usize::MAX,
            acc as int == le_unsigned(b@, off + j, (n - j) as nat),
            pow256(8) == 0x1_0000_0000_0000_0000,
        decreases j,
    {
        proof {
            lemma_le_unsigned_bound(b@, off + j, (n - j) as nat);
            lemma_pow256_mono((n - j + 1) as nat, 8);
            assert(pow256((n - j + 1) as nat) == 256 * pow256((n - j) as nat));
        }
        j = j - 1;
        assert(le_unsigned(b@, off + j, (n - j) as nat) == b@[off + j] as int + 256
            * le_unsigned(b@, off + j + 1, (n - j - 1) as nat));
        assert(acc < pow256((n - j - 1) as nat));
        assert(pow256((n - j) as nat) == 256 * pow256((n - j - 1) as nat));
        assert(pow256((n - j) as nat) <= 0x1_0000_0000_0000_0000);
        acc = acc * 256 + b[off + j] as u64;
    }
    acc
}

/// The two's-complement value of `n` bytes at `off`.
fn read_signed(b: &[u8], off: usize, n: usize) -> (r: i128)
    requires
        n <= 8,
        off + n <= b@.len(),
    ensures
        r as int == le_signed(b@, off as int, n as nat),
        -0x1_0000_0000_0000_0000 <= r < 0x1_0000_0000_0000_0000,
{
    let _len = b.len();
    let u = read_unsigned(b, off, n);
    proof {
        lemma_le_unsigned_bound(b@, off as int, n as nat);
        lemma_pow256_8();
        lemma_pow256_mono(n as nat, 8);
    }
    if n > 0 && b[off + n - 1] >= 128 {
        let mut p: i128 = 1;
        let mut k: usize = 0;
        while k < n
            invariant
                k <= n <= 8,
                p as int == pow256(k as nat),
                pow256(8) == 0x1_0000_0000_0000_0000,
                u as int == le_unsigned(b@, off as int, n as nat),
                0 <= u < pow256(n as nat),
                pow256(n as nat) <= pow256(8),
            decreases n - k,
        {
            proof {
                lemma_pow256_mono((k + 1) as nat, 8);
            }
            p = p * 256;
            k = k + 1;
        }
        u as i128 - p
    } else {
        u as i128
    }
}

/// Decodes the run list in `s` up to its terminating zero byte.
pub fn decode_runs(s: &[u8]) -> (r: Result<Vec<DataRun>, RunError>)
    ensures
        r is Ok <==> decode_runs_spec(s@) is Ok,
        r is Ok ==> r->Ok_0@ == decode_runs_spec(s@)->Ok_0,
        r is Err ==> decode_runs_spec(s@) == Err::<Seq<DataRun>, RunError>(r->Err_0),
{
    let n = s.len();
    let mut out: Vec<DataRun> = Vec::new();
    let mut pos: usize = 0;
    let mut lcn: i64 = 0;
    loop
        invariant
            n == s@.len(),
            pos <= n,
            match runs_from(s@, pos as int, lcn as int) {
                Ok(rest) => decode_runs_spec(s@) == Ok::<Seq<DataRun>, RunError>(out@ + rest),
                Err(e) => decode_runs_spec(s@) == Err::<Seq<DataRun>, RunError>(e),
            },
        decreases n - pos,
    {
        if pos >= n {
            return Err(RunError::Truncated);
        }
        let h = s[pos];
        if h == 0 {
            assert(out@ + Seq::<DataRun>::empty() =~= out@);
            return Ok(out);
        }
        let len_size = (h % 16) as usize;
        let off_size = (h / 16) as usize;
        if len_size == 0 || len_size > 8 || off_size > 8 {
            return Err(RunError::InvalidHeader);
        }
        if n - pos - 1 < len_size + off_size {
            return Err(RunError::Truncated);
        }
        let length = read_unsigned(s, pos + 1, len_size);
        let next_lcn: i128 = if off_size == 0 {
            lcn as i128
        } else {
            lcn as i128 + read_signed(s, pos + 1 + len_size, off_size)
        };
        if next_lcn < i64::MIN as i128 || next_lcn > i64::MAX as i128 {
            return Err(RunError::ClusterOutOfRange);
        }
        let run = DataRun {
            lcn_length: length,
            lcn_offset: if off_size == 0 {
                None
            } else {
                Some(next_lcn as i64)
            },
        };
        let ghost before = out@;
        out.push(run);
        proof {
            let rest = runs_from(s@, pos + 1 + len_size + off_size, next_lcn as int);
            if rest is Ok {
                assert(before + (seq![run] + rest->Ok_0) =~= out@ + rest->Ok_0);
            }
        }
        pos = pos + 1 + len_size + off_size;
        lcn = next_lcn as i64;
    }
}

/// The number of clusters that the runs cover, sparse runs included; none
/// where the count does not fit in 64 bits.
pub fn run_clusters(runs: &Vec<DataRun>) -> (r: Option<u64>)
    ensures
        r is Some <==> total_clusters(runs@) <= u64::MAX,
        r is Some ==> r->0 as int == total_clusters(runs@),
{
    let mut total: u64 = 0;
    let mut i: usize = 0;
    while i < runs.len()
        invariant
            i <= runs@.len(),
            total as int == total_clusters(runs@.take(i as int)),
        decreases runs@.len() - i,
    {
        assert(runs@.take(i + 1).drop_last() =~= runs@.take(i as int));
        if total > u64::MAX - runs[i].lcn_length {
            proof {
                lemma_total_prefix(runs@, i + 1);
            }
            return None;
        }
        total = total + runs[i].lcn_length;
        i = i + 1;
    }
    assert(runs@.take(i as int) =~= runs@);
    Some(total)
}

proof fn lemma_total_prefix(runs: Seq<DataRun>, k: int)
    requires
        0 <= k <= runs.len(),
    ensures
        total_clusters(runs.take(k)) <= total_clusters(runs),
    decreases runs.len(),
{
    if k < runs.len() {
        assert(runs.drop_last().take(k) =~= runs.take(k));
        lemma_total_prefix(runs.drop_last(), k);
    } else {
        assert(runs.take(k) =~= runs);
    }
}

} // verus!
