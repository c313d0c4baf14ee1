//! The render benchmark plugin's policy: how its buttons look, which render samples it
//! keeps, and the statistics line it shows about them.

use vstd::prelude::*;
use vstd::relations::{sorted_by, total_ordering};
use crate::chars::{decimal, extend_str, push_decimal, string_of};
use crate::ButtonPresentation;

verus! {

/// The sample at the `rank`-th percentile of sorted samples: the one at index
/// `(len - 1) * rank / 100`; zero without samples.
pub open spec fn percentile_spec(values: Seq<u128>, rank: usize) -> u128 {
    if values.len() == 0 {
        0
    } else {
        values[((values.len() - 1) * rank) / 100]
    }
}

/// The sample at a percentile of sorted samples.
pub fn percentile(values: &[u128], rank: usize) -> (r: u128)
    requires
        values@.len() > 0 ==> (values@.len() - 1) * rank <= usize::MAX,
        values@.len() > 0 ==> ((values@.len() - 1) * rank) / 100 < values@.len(),
    ensures
        r == percentile_spec(values@, rank),
{
    if values.len() == 0 {
        return 0;
    }
    let index = ((values.len() - 1) * rank) / 100;
    values[index]
}

/// A benchmark button: the focused one in brackets, the others padded with spaces.
pub open spec fn bench_label_spec(label: Seq<char>, focused: bool) -> Seq<char> {
    if focused { seq!['['] + label + seq![']'] } else { seq![' '] + label + seq![' '] }
}

/// Presents a benchmark button; buttons are unfocused unless the template says otherwise.
pub fn bench_presentation(label: &str, focused: Option<bool>) -> (r: ButtonPresentation)
    ensures
        r.focused == match focused { Some(f) => f, None => false },
        r.label@ == bench_label_spec(label@, r.focused),
{
    let f = match focused { Some(f) => f, None => false };
    let mut v: Vec<char> = if f { vec!['['] } else { vec![' '] };
    extend_str(&mut v, label);
    v.push(if f { ']' } else { ' ' });
    proof {
        assert(v@ =~= bench_label_spec(label@, f));
    }
    ButtonPresentation { label: string_of(v.as_slice()), focused: f }
}

/// The order render samples are sorted by: ascending.
pub open spec fn sample_order() -> spec_fn(u128, u128) -> bool {
    |a: u128, b: u128| a <= b
}

/// The samples in ascending order.
pub open spec fn sorted_samples(samples: Seq<u128>) -> Seq<u128> {
    samples.sort_by(sample_order())
}

/// The statistics line for the render samples (in microseconds): a waiting notice
/// without samples, else their count, median, 95th percentile and maximum, and the mode.
pub open spec fn stats_text(samples: Seq<u128>, animated: bool) -> Seq<char> {
    if samples.len() == 0 {
        "render: waiting"@
    } else {
        let s = sorted_samples(samples);
        "render samples="@ + decimal(samples.len()) + " p50="@ + decimal(percentile_spec(s, 50) as nat)
            + "us p95="@ + decimal(percentile_spec(s, 95) as nat) + "us max="@ + decimal(s.last() as nat)
            + "us mode="@ + (if animated { "animated"@ } else { "static"@ })
    }
}

proof fn lemma_sample_order_total()
    ensures
        total_ordering(sample_order()),
{
}

/// Sorts samples ascending; the result is `sorted_samples` of the input.
fn sort_samples(samples: &Vec<u128>) -> (r: Vec<u128>)
    ensures
        r@ == sorted_samples(samples@),
{
    broadcast use vstd::seq_lib::group_to_multiset_ensures;
    let mut out: Vec<u128> = Vec::new();
    let mut i: usize = 0;
    while i < samples.len()
        invariant
            i <= samples.len(),
            out@.len() == i,
            sorted_by(out@, sample_order()),
            out@.to_multiset() == samples@.subrange(0, i as int).to_multiset(),
        decreases samples.len() - i,
    {
        let x = samples[i];
        let mut p: usize = 0;
        while p < out.len() && out[p] <= x
            invariant
                p <= out.len(),
                forall|k: int| 0 <= k < p ==> out@[k] <= x,
            decreases out.len() - p,
        {
            p = p + 1;
        }
        proof {
            assert forall|k: int| p <= k < out@.len() implies x < out@[k] by {
                assert(sample_order()(out@[p as int], out@[k]) || k == p);
            }
        }
        let ghost before = out@;
        out.insert(p, x);
        proof {
            assert(samples@.subrange(0, i as int + 1) =~= samples@.subrange(0, i as int).push(x));
            assert(out@ == before.insert(p as int, x));
            vstd::seq_lib::to_multiset_insert(before, p as int, x);
            vstd::seq_lib::to_multiset_build(samples@.subrange(0, i as int), x);
            assert forall|a: int, b: int| 0 <= a < b < out@.len() implies #[trigger] sample_order()(out@[a], out@[b]) by {
                if b < p {
                    assert(sample_order()(before[a], before[b]));
                } else if b == p {
                } else if a < p {
                    assert(out@[b] == before[b - 1]);
                } else if a == p {
                    assert(out@[b] == before[b - 1]);
                } else {
                    assert(sample_order()(before[a - 1], before[b - 1]));
                }
            }
        }
        i = i + 1;
    }
    proof {
        assert(samples@.subrange(0, samples@.len() as int) =~= samples@);
        lemma_sample_order_total();
        samples@.lemma_sort_by_ensures(sample_order());
        vstd::seq_lib::lemma_sorted_unique(out@, sorted_samples(samples@), sample_order());
    }
    out
}

/// The statistics line for render samples in microseconds, as the benchmark shows it.
pub fn bench_stats(samples: &Vec<u128>, animated: bool) -> (r: String)
    requires
        samples@.len() > 0 ==> (samples@.len() - 1) * 95 <= usize::MAX,
    ensures
        r@ == stats_text(samples@, animated),
{
    let mut v: Vec<char> = Vec::new();
    if samples.len() == 0 {
        extend_str(&mut v, "render: waiting");
        return string_of(v.as_slice());
    }
    let values = sort_samples(samples);
    proof {
        broadcast use vstd::seq_lib::group_to_multiset_ensures;
        lemma_sample_order_total();
        samples@.lemma_sort_by_ensures(sample_order());
        vstd::seq_lib::to_multiset_len(samples@);
        vstd::seq_lib::to_multiset_len(values@);
        assert(values@.len() == samples@.len());
        let n = values@.len() - 1;
        assert((n * 95) / 100 <= n) by (nonlinear_arith) requires n >= 0;
        assert((n * 50) / 100 <= n) by (nonlinear_arith) requires n >= 0;
        assert(n * 50 <= n * 95) by (nonlinear_arith) requires n >= 0;
    }
    let p50 = percentile(values.as_slice(), 50);
    let p95 = percentile(values.as_slice(), 95);
    let max = values[values.len() - 1];
    extend_str(&mut v, "render samples=");
    push_decimal(&mut v, values.len() as u128);
    extend_str(&mut v, " p50=");
    push_decimal(&mut v, p50);
    extend_str(&mut v, "us p95=");
    push_decimal(&mut v, p95);
    extend_str(&mut v, "us max=");
    push_decimal(&mut v, max);
    extend_str(&mut v, "us mode=");
    if animated {
        extend_str(&mut v, "animated");
    } else {
        extend_str(&mut v, "static");
    }
    proof {
        assert(v@ =~= stats_text(samples@, animated));
    }
    string_of(v.as_slice())
}

/// Law: the statistics line reports an ordered summary: the median is at most the 95th
/// percentile, which is at most the maximum, and every sample is at most the maximum.
pub proof fn lemma_stats_ordered(samples: Seq<u128>)
    requires
        samples.len() > 0,
    ensures
        ({
            let s = sorted_samples(samples);
            &&& s.len() == samples.len()
            &&& percentile_spec(s, 50) <= percentile_spec(s, 95) <= s.last()
            &&& forall|i: int| 0 <= i < samples.len() ==> samples[i] <= s.last()
        }),
{
    broadcast use vstd::seq_lib::group_to_multiset_ensures;
    lemma_sample_order_total();
    samples.lemma_sort_by_ensures(sample_order());
    let s = sorted_samples(samples);
    vstd::seq_lib::to_multiset_len(samples);
    vstd::seq_lib::to_multiset_len(s);
    let n = s.len() - 1;
    assert((n * 95) / 100 <= n) by (nonlinear_arith) requires n >= 0;
    assert((n * 50) / 100 <= (n * 95) / 100) by (nonlinear_arith) requires n >= 0;
    assert(sample_order()(s[(n * 50) / 100], s[(n * 95) / 100]) || (n * 50) / 100 == (n * 95) / 100);
    assert(sample_order()(s[(n * 95) / 100], s[n]) || (n * 95) / 100 == n);
    assert forall|i: int| 0 <= i < samples.len() implies samples[i] <= s.last() by {
        assert(samples.to_multiset().count(samples[i]) > 0);
        assert(s.contains(samples[i]));
        let j = choose|j: int| 0 <= j < s.len() && s[j] == samples[i];
        assert(sample_order()(s[j], s[n]) || j == n);
    }
}

/// How many render samples the benchmark keeps.
pub const SAMPLE_WINDOW: usize = 240;

/// The last `SAMPLE_WINDOW` samples of `samples`.
pub open spec fn sample_window(samples: Seq<u128>) -> Seq<u128> {
    if samples.len() > SAMPLE_WINDOW {
        samples.subrange(samples.len() - SAMPLE_WINDOW, samples.len() as int)
    } else {
        samples
    }
}

/// Records a render sample: the newest comes last and only the last `SAMPLE_WINDOW`
/// samples are kept.
pub fn record_sample(samples: &mut Vec<u128>, micros: u128)
    ensures
        final(samples)@ == sample_window(old(samples)@.push(micros)),
        final(samples)@.len() <= SAMPLE_WINDOW,
{
    samples.push(micros);
    let ghost all = samples@;
    while samples.len() > SAMPLE_WINDOW
        invariant
            all.len() >= samples@.len(),
            samples@ == all.subrange(all.len() - samples@.len(), all.len() as int),
            samples@.len() >= SAMPLE_WINDOW || samples@.len() == all.len(),
        decreases samples.len(),
    {
        samples.remove(0);
    }
    proof {
        if all.len() <= SAMPLE_WINDOW {
            assert(samples@ =~= all);
        }
    }
}

} // verus!
