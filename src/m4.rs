//! M4 downsampling: a regular series is cut into one bucket per pixel
//! column, and each bucket is reduced to its first, last, smallest and
//! largest value.
use vstd::prelude::*;

verus! {

/// The four values that M4 keeps of one bucket.
#[derive(Clone, Copy, PartialEq, Eq, Structural, Debug)]
pub struct Bucket {
    pub first: i64,
    pub last: i64,
    pub min: i64,
    pub max: i64,
}

/// The smallest value of a non-empty sequence.
pub open spec fn seq_min(s: Seq<i64>) -> i64
    decreases s.len(),
{
    if s.len() <= 1 {
        s[0]
    } else {
        let m = seq_min(s.drop_last());
        if s.last() < m {
            s.last()
        } else {
            m
        }
    }
}

/// The largest value of a non-empty sequence.
pub open spec fn seq_max(s: Seq<i64>) -> i64
    decreases s.len(),
{
    if s.len() <= 1 {
        s[0]
    } else {
        let m = seq_max(s.drop_last());
        if s.last() > m {
            s.last()
        } else {
            m
        }
    }
}

/// The number of raw values in each bucket when `len` values are cut into `width` buckets.
pub open spec fn bucket_len(len: nat, width: nat) -> nat {
    len / width
}

/// The values of bucket `i` of `s`, buckets being `b` values long.
pub open spec fn bucket_values(s: Seq<i64>, b: nat, i: int) -> Seq<i64> {
    s.subrange(i * b, i * b + b)
}

/// Bucket `i` of `s`, buckets being `b` values long.
pub open spec fn bucket_of(s: Seq<i64>, b: nat, i: int) -> Bucket {
    Bucket {
        first: s[i * b],
        last: s[i * b + b - 1],
        min: seq_min(bucket_values(s, b, i)),
        max: seq_max(bucket_values(s, b, i)),
    }
}

/// The smallest value is at most every value and is one of them; so for the largest.
pub proof fn lemma_min_max(s: Seq<i64>)
    requires
        s.len() >= 1,
    ensures
        forall|k: int| 0 <= k < s.len() ==> seq_min(s) <= #[trigger] s[k] <= seq_max(s),
        exists|k: int| 0 <= k < s.len() && s[k] == seq_min(s),
        exists|k: int| 0 <= k < s.len() && s[k] == seq_max(s),
    decreases s.len(),
{
    if s.len() > 1 {
        let t = s.drop_last();
        lemma_min_max(t);
        assert forall|k: int| 0 <= k < s.len() implies seq_min(s) <= #[trigger] s[k] <= seq_max(s) by {
            if k < s.len() - 1 {
                assert(s[k] == t[k]);
            }
        }
        let k1 = choose|k: int| 0 <= k < t.len() && t[k] == seq_min(t);
        let k2 = choose|k: int| 0 <= k < t.len() && t[k] == seq_max(t);
        if s.last() < seq_min(t) {
            assert(s[s.len() - 1] == seq_min(s));
        } else {
            assert(s[k1] == seq_min(s));
        }
        if s.last() > seq_max(t) {
            assert(s[s.len() - 1] == seq_max(s));
        } else {
            assert(s[k2] == seq_max(s));
        }
    } else {
        assert(s[0] == seq_min(s));
        assert(s[0] == seq_max(s));
    }
}

/// Every raw value of an M4 bucket, its first and last included, lies
/// between the bucket's smallest and largest value, and both of these occur
/// in the bucket.
pub proof fn lemma_bucket_bounds(s: Seq<i64>, width: nat, i: int)
    requires
        0 < width <= s.len(),
        0 <= i < width,
    ensures
        ({
            let b = bucket_len(s.len(), width);
            let m = bucket_of(s, b, i);
            &&& forall|j: int|
                i * b <= j < i * b + b ==> m.min <= #[trigger] s[j] <= m.max
            &&& m.min <= m.first <= m.max
            &&& m.min <= m.last <= m.max
            &&& exists|j: int| i * b <= j < i * b + b && s[j] == m.min
            &&& exists|j: int| i * b <= j < i * b + b && s[j] == m.max
        }),
{
    let b = bucket_len(s.len(), width);
    lemma_bucket_range(s.len(), width, i);
    let v = bucket_values(s, b, i);
    lemma_min_max(v);
    assert forall|j: int| i * b <= j < i * b + b implies bucket_of(s, b, i).min <= #[trigger] s[j]
        <= bucket_of(s, b, i).max by {
        assert(s[j] == v[j - i * b]);
    }
    let k1 = choose|k: int| 0 <= k < v.len() && v[k] == seq_min(v);
    let k2 = choose|k: int| 0 <= k < v.len() && v[k] == seq_max(v);
    assert(s[i * b + k1] == v[k1]);
    assert(s[i * b + k2] == v[k2]);
    assert(s[i * b] == v[0]);
    assert(s[i * b + b - 1] == v[b - 1]);
}

proof fn lemma_bucket_range(len: nat, width: nat, i: int)
    requires
        0 < width <= len,
        0 <= i < width,
    ensures
        bucket_len(len, width) >= 1,
        0 <= i * bucket_len(len, width),
        i * bucket_len(len, width) + bucket_len(len, width) <= len,
{
    let b = len / width;
    assert(b >= 1) by (nonlinear_arith)
        requires
            0 < width <= len,
            b == len / width,
    ;
    assert(0 <= i * b && i * b + b <= len) by (nonlinear_arith)
        requires
            0 <= i < width,
            b == len / width,
            0 < width,
            b >= 0,
    ;
}

/// Reduces `series` to `width` buckets of `len / width` consecutive values
/// each (the remainder at the end is dropped); a bucket keeps its first,
/// last, smallest and largest value.
pub fn m4_buckets(series: &Vec<i64>, width: u32) -> (r: Vec<Bucket>)
    requires
        0 < width <= series.len(),
    ensures
        r.len() == width,
        forall|i: int|
            0 <= i < width ==> #[trigger] r[i] == bucket_of(
                series@,
                bucket_len(series.len() as nat, width as nat),
                i,
            ),
{
    let b: usize = series.len() / (width as usize);
    let ghost s = series@;
    let ghost bl = bucket_len(series.len() as nat, width as nat);
    let mut r: Vec<Bucket> = Vec::new();
    let mut i: u32 = 0;
    while i < width
        invariant
            0 < width <= series.len(),
            s == series@,
            b == bl,
            bl == bucket_len(series.len() as nat, width as nat),
            i <= width,
            r.len() == i,
            forall|k: int| 0 <= k < i ==> #[trigger] r[k] == bucket_of(s, bl, k),
        decreases width - i,
    {
        proof {
            lemma_bucket_range(series.len() as nat, width as nat, i as int);
        }
        let start: usize = (i as usize) * b;
        let end: usize = start + b;
        let first = series[start];
        let last = series[end - 1];
        let mut mn = first;
        let mut mx = first;
        let mut j: usize = start + 1;
        proof {
            assert(s.subrange(start as int, j as int) =~= seq![first]);
        }
        while j < end
            invariant
                s == series@,
                start < j <= end,
                end <= series.len(),
                mn == seq_min(s.subrange(start as int, j as int)),
                mx == seq_max(s.subrange(start as int, j as int)),
            decreases end - j,
        {
            let v = series[j];
            proof {
                let t = s.subrange(start as int, j as int + 1);
                assert(t.drop_last() =~= s.subrange(start as int, j as int));
                assert(t.last() == v);
            }
            if v < mn {
                mn = v;
            }
            if v > mx {
                mx = v;
            }
            j = j + 1;
        }
        let bucket = Bucket { first, last, min: mn, max: mx };
        proof {
            assert(bucket_values(s, bl, i as int) =~= s.subrange(start as int, end as int));
        }
        r.push(bucket);
        i = i + 1;
    }
    r
}

/// The M4 series of `series`: four values per bucket, in the order first,
/// last, smallest, largest.
pub open spec fn m4_value(s: Seq<i64>, width: nat, j: int) -> i64 {
    let m = bucket_of(s, bucket_len(s.len(), width), j / 4);
    if j % 4 == 0 {
        m.first
    } else if j % 4 == 1 {
        m.last
    } else if j % 4 == 2 {
        m.min
    } else {
        m.max
    }
}

/// Downsamples `series` to `4 * width` values: for each bucket its first,
/// last, smallest and largest value, in that order.
pub fn m4_series(series: &Vec<i64>, width: u32) -> (r: Vec<i64>)
    requires
        0 < width <= series.len(),
        4 * width <= usize::MAX,
    ensures
        r.len() == 4 * width,
        forall|j: int| 0 <= j < 4 * width ==> #[trigger] r[j] == m4_value(series@, width as nat, j),
{
    let buckets = m4_buckets(series, width);
    let mut r: Vec<i64> = Vec::new();
    let mut i: usize = 0;
    while i < buckets.len()
        invariant
            buckets.len() == width,
            4 * width <= usize::MAX,
            i <= width,
            r.len() == 4 * i,
            forall|k: int|
                0 <= k < width ==> #[trigger] buckets[k] == bucket_of(
                    series@,
                    bucket_len(series.len() as nat, width as nat),
                    k,
                ),
            forall|j: int| 0 <= j < 4 * i ==> #[trigger] r[j] == m4_value(series@, width as nat, j),
        decreases width - i,
    {
        let m = buckets[i];
        r.push(m.first);
        r.push(m.last);
        r.push(m.min);
        r.push(m.max);
        proof {
            assert forall|j: int| 0 <= j < 4 * (i + 1) implies #[trigger] r[j] == m4_value(
                series@,
                width as nat,
                j,
            ) by {
                if j >= 4 * i {
                    assert(j / 4 == i as int);
                }
            }
        }
        i = i + 1;
    }
    r
}

} // verus!
