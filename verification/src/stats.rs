//! The statistics engine: exact descriptive statistics over a projected
//! channel.
//!
//! Ordering of doubles uses the sign-magnitude key of `fbits`: a consistent
//! total order that agrees with IEEE order on non-NaN values and places
//! every NaN at the far end of its sign.  Count, minimum, maximum and the
//! sorted-middle median values are exact; averaging the two middle values,
//! the mean and the standard deviation are floating-point arithmetic and
//! are left to the caller, who receives the exact ingredients.

use vstd::prelude::*;
use vstd::multiset::Multiset;
use crate::fbits::{f64_key, f64_key_le};
use crate::analysis::{fold_max, fold_min, spec_fold_max, spec_fold_min, F64_INFINITY_BITS,
    F64_NEG_INFINITY_BITS};
use crate::model::{Statistics, XDRData};
use crate::project::{spec_project_vals, spec_stride};
use crate::text::{indexed_name, spec_indexed_name};

verus! {

/// Ascending by the total-order key.
pub open spec fn spec_sorted_by_key(s: Seq<u64>) -> bool {
    forall|i: int, j: int| 0 <= i < j < s.len() ==> f64_key(s[i]) <= f64_key(s[j])
}

/// The first position holding a minimal key.
pub open spec fn spec_min_index(s: Seq<u64>) -> int
    decreases s.len(),
{
    if s.len() <= 1 {
        0
    } else {
        let rest = 1 + spec_min_index(s.drop_first());
        if f64_key(s[0]) <= f64_key(s[rest]) {
            0
        } else {
            rest
        }
    }
}

proof fn lemma_min_index_props(s: Seq<u64>)
    requires
        s.len() >= 1,
    ensures
        0 <= spec_min_index(s) < s.len(),
        forall|t: int| 0 <= t < s.len() ==> f64_key(s[spec_min_index(s)]) <= f64_key(#[trigger] s[t]),
        forall|t: int| 0 <= t < spec_min_index(s) ==> f64_key(#[trigger] s[t]) > f64_key(
            s[spec_min_index(s)],
        ),
    decreases s.len(),
{
    if s.len() > 1 {
        lemma_min_index_props(s.drop_first());
        let sub = s.drop_first();
        let rest = 1 + spec_min_index(sub);
        assert(forall|t: int| 0 <= t < sub.len() ==> sub[t] == s[t + 1]);
        if f64_key(s[0]) <= f64_key(s[rest]) {
            assert forall|t: int| 0 <= t < s.len() implies f64_key(s[spec_min_index(s)]) <= f64_key(
                #[trigger] s[t],
            ) by {
                if t >= 1 {
                    assert(f64_key(sub[spec_min_index(sub)]) <= f64_key(sub[t - 1]));
                }
            }
        } else {
            assert forall|t: int| 0 <= t < s.len() implies f64_key(s[spec_min_index(s)]) <= f64_key(
                #[trigger] s[t],
            ) by {
                if t >= 1 {
                    assert(f64_key(sub[spec_min_index(sub)]) <= f64_key(sub[t - 1]));
                }
            }
            assert forall|t: int| 0 <= t < spec_min_index(s) implies f64_key(#[trigger] s[t])
                > f64_key(s[spec_min_index(s)]) by {
                if t >= 1 {
                    assert(f64_key(sub[t - 1]) > f64_key(sub[spec_min_index(sub)]));
                }
            }
        }
    }
}

/// The first minimal position is pinned by its characterisation.
proof fn lemma_min_index_unique(s: Seq<u64>, j: int)
    requires
        0 <= j < s.len(),
        forall|t: int| 0 <= t < s.len() ==> f64_key(s[j]) <= f64_key(#[trigger] s[t]),
        forall|t: int| 0 <= t < j ==> f64_key(#[trigger] s[t]) > f64_key(s[j]),
    ensures
        j == spec_min_index(s),
{
    lemma_min_index_props(s);
    let m = spec_min_index(s);
    assert(f64_key(s[m]) <= f64_key(s[j]));
    assert(f64_key(s[j]) <= f64_key(s[m]));
    if m < j {
        assert(f64_key(s[m]) > f64_key(s[j]));
        assert(false);
    }
    if j < m {
        assert(f64_key(s[j]) > f64_key(s[m]));
        assert(false);
    }
}

/// Selection sort at the spec level: repeatedly extract the first minimal
/// element.  Deterministic, so contracts can name "the sorted copy".
pub open spec fn spec_sort(s: Seq<u64>) -> Seq<u64>
    decreases s.len(),
{
    if s.len() == 0 {
        Seq::empty()
    } else {
        let mi = if 0 <= spec_min_index(s) < s.len() {
            spec_min_index(s)
        } else {
            0
        };
        seq![s[mi]] + spec_sort(s.remove(mi))
    }
}

/// The sorted copy keeps exactly the original elements.
pub proof fn lemma_sort_multiset(s: Seq<u64>)
    ensures
        spec_sort(s).to_multiset() == s.to_multiset(),
        spec_sort(s).len() == s.len(),
    decreases s.len(),
{
    broadcast use vstd::seq_lib::group_to_multiset_ensures;

    if s.len() > 0 {
        lemma_min_index_props(s);
        let mi = spec_min_index(s);
        lemma_sort_multiset(s.remove(mi));
        assert(s.remove(mi).to_multiset() =~= s.to_multiset().remove(s[mi]));
        assert(spec_sort(s) == seq![s[mi]] + spec_sort(s.remove(mi)));
        vstd::seq_lib::lemma_multiset_commutative(seq![s[mi]], spec_sort(s.remove(mi)));
        assert(seq![s[mi]] =~= Seq::<u64>::empty().push(s[mi]));
        assert(seq![s[mi]].to_multiset() =~= Multiset::<u64>::empty().insert(s[mi]));
        assert(s.to_multiset().contains(s[mi]));
        assert(spec_sort(s).to_multiset() =~= s.to_multiset());
    }
}

/// The sorted copy is ascending by the total-order key.
pub proof fn lemma_sort_sorted(s: Seq<u64>)
    ensures
        spec_sorted_by_key(spec_sort(s)),
    decreases s.len(),
{
    if s.len() > 0 {
        lemma_min_index_props(s);
        let mi = spec_min_index(s);
        let rest = s.remove(mi);
        lemma_sort_sorted(rest);
        lemma_sort_multiset(rest);
        let sorted = spec_sort(s);
        assert(sorted == seq![s[mi]] + spec_sort(rest));
        assert forall|i: int, j: int| 0 <= i < j < sorted.len() implies f64_key(sorted[i])
            <= f64_key(sorted[j]) by {
            if i == 0 {
                // sorted[j] is an element of rest, all of which have keys
                // at least the minimum.
                lemma_sort_element_of(rest, j - 1);
                let t = choose|t: int| 0 <= t < rest.len() && rest[t] == spec_sort(rest)[j - 1];
                assert(rest[t] == if t < mi {
                    s[t]
                } else {
                    s[t + 1]
                });
            } else {
                assert(f64_key(spec_sort(rest)[i - 1]) <= f64_key(spec_sort(rest)[j - 1]));
            }
        }
    }
}

/// Every element of the sorted copy comes from the original sequence.
proof fn lemma_sort_element_of(s: Seq<u64>, i: int)
    requires
        0 <= i < spec_sort(s).len(),
    ensures
        exists|t: int| 0 <= t < s.len() && s[t] == spec_sort(s)[i],
    decreases s.len(),
{
    lemma_sort_multiset(s);
    if s.len() > 0 {
        lemma_min_index_props(s);
        let mi = spec_min_index(s);
        if i == 0 {
            assert(spec_sort(s)[0] == s[mi]);
        } else {
            lemma_sort_element_of(s.remove(mi), i - 1);
            let t = choose|t: int|
                0 <= t < s.remove(mi).len() && s.remove(mi)[t] == spec_sort(s.remove(mi))[i - 1];
            assert(s.remove(mi)[t] == if t < mi {
                s[t]
            } else {
                s[t + 1]
            });
            assert(spec_sort(s)[i] == spec_sort(s.remove(mi))[i - 1]);
        }
    }
}

/// Sorts a copy of the doubles ascending by the total-order key.
pub fn sort_doubles(v: &Vec<u64>) -> (r: Vec<u64>)
    ensures
        r@ == spec_sort(v@),
{
    let mut rem: Vec<u64> = Vec::new();
    let mut i: usize = 0;
    while i < v.len()
        invariant
            i <= v@.len(),
            rem@ =~= v@.take(i as int),
        decreases v@.len() - i,
    {
        rem.push(v[i]);
        i = i + 1;
    }
    proof {
        assert(v@.take(v@.len() as int) =~= v@);
    }
    let mut out: Vec<u64> = Vec::new();
    while rem.len() > 0
        invariant
            spec_sort(v@) == out@ + spec_sort(rem@),
        decreases rem@.len(),
    {
        let ghost rem0 = rem@;
        let mut mi: usize = 0;
        let mut k: usize = 1;
        while k < rem.len()
            invariant
                rem@.len() >= 1,
                mi < k,
                k <= rem@.len(),
                forall|t: int| 0 <= t < k ==> f64_key(rem@[mi as int]) <= f64_key(
                    #[trigger] rem@[t],
                ),
                forall|t: int| 0 <= t < mi ==> f64_key(#[trigger] rem@[t]) > f64_key(
                    rem@[mi as int],
                ),
            decreases rem@.len() - k,
        {
            let a = rem[k];
            let b = rem[mi];
            if !f64_key_le(b, a) {
                mi = k;
            }
            k = k + 1;
        }
        proof {
            lemma_min_index_unique(rem@, mi as int);
        }
        let x = rem.remove(mi);
        let ghost out0 = out@;
        out.push(x);
        proof {
            assert(spec_sort(rem0) == seq![x] + spec_sort(rem@));
            assert(out0 + (seq![x] + spec_sort(rem@)) =~= out@ + spec_sort(rem@));
        }
    }
    proof {
        assert(spec_sort(rem@) =~= Seq::<u64>::empty());
        assert(out@ + Seq::<u64>::empty() =~= out@);
    }
    out
}

impl XDRData {
    /// Exact descriptive statistics over the channel `dataref_index`
    /// (element `array_index`), projected with stride 1 and no time range:
    /// `None` when the channel is out of range or projects no values,
    /// otherwise the count, the NaN-ignoring minimum and maximum, and the
    /// two middle values of the sorted copy (equal for an odd count); the
    /// display name carries `[array_index]` only for a positive sub-index.
    pub fn get_parameter_statistics(&self, dataref_index: usize, array_index: usize) -> (r:
        Option<Statistics>)
        ensures
            ({
                let vals = spec_project_vals(
                    self.frames_view(),
                    0,
                    1,
                    None,
                    dataref_index as int,
                    array_index as int,
                );
                let sorted = spec_sort(vals);
                if dataref_index >= self.datarefs@.len() || vals.len() == 0 {
                    r is None
                } else {
                    r matches Some(st) && {
                        &&& st.count == vals.len()
                        &&& st.min == spec_fold_min(vals, F64_INFINITY_BITS)
                        &&& st.max == spec_fold_max(vals, F64_NEG_INFINITY_BITS)
                        &&& st.median_low == sorted[(vals.len() - 1) as int / 2]
                        &&& st.median_high == sorted[vals.len() as int / 2]
                        &&& st.name@ == if array_index > 0 {
                            spec_indexed_name(
                                self.datarefs@[dataref_index as int].name@,
                                array_index as nat,
                            )
                        } else {
                            self.datarefs@[dataref_index as int].name@
                        }
                    }
                }
            }),
    {
        if dataref_index >= self.datarefs.len() {
            return None;
        }
        let (_times, values) = self.get_parameter_data(dataref_index, array_index, None, 1);
        proof {
            assert(spec_stride(1) == 1);
        }
        if values.len() == 0 {
            return None;
        }
        let count = values.len();
        let min = fold_min(&values);
        let max = fold_max(&values);
        let sorted = sort_doubles(&values);
        proof {
            lemma_sort_multiset(values@);
        }
        let median_low = sorted[(count - 1) / 2];
        let median_high = sorted[count / 2];
        let name = if array_index > 0 {
            indexed_name(&self.datarefs[dataref_index].name, array_index as u64)
        } else {
            self.datarefs[dataref_index].name.clone()
        };
        Some(Statistics { name, count, min, max, median_low, median_high })
    }
}

} // verus!
