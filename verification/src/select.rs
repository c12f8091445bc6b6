use vstd::prelude::*;

use crate::errors::StoreError;
use crate::reading_list::{ReadingList, RecView, views};

verus! {

/// The contribution of one record to the sampling total: its weight when
/// positive, nothing otherwise. A record whose weight is zero or negative is
/// ineligible for selection.
pub open spec fn weight_of(r: RecView) -> int {
    if r.weight > 0 {
        r.weight
    } else {
        0
    }
}

/// Sum of the eligible weights of the first `n` records.
pub open spec fn prefix_weight(s: Seq<RecView>, n: int) -> int
    decreases n,
{
    if n <= 0 {
        0
    } else {
        prefix_weight(s, n - 1) + weight_of(s[n - 1])
    }
}

/// Sum of the eligible weights of the whole record set.
pub open spec fn total_weight(s: Seq<RecView>) -> int {
    prefix_weight(s, s.len() as int)
}

/// Record `i` owns the slot `t` of the weight line: drawing `t` selects it.
/// Each eligible record owns exactly as many slots as its weight, so the
/// probability of record `i` under a uniform draw is `weight / total`.
pub open spec fn picked_at(s: Seq<RecView>, t: int, i: int) -> bool {
    &&& 0 <= i < s.len()
    &&& s[i].weight > 0
    &&& prefix_weight(s, i) <= t < prefix_weight(s, i + 1)
}

/// The index selected by the draw `t`: by `lemma_picked_unique` there is at
/// most one index with `picked_at`, so this pins the selection exactly.
pub open spec fn chosen_index(s: Seq<RecView>, t: int) -> int {
    choose|i: int| picked_at(s, t, i)
}

/// The record set after the selector's post-selection decay: record `i`
/// loses exactly one unit of weight, every other record is untouched.
pub open spec fn decay_at(s: Seq<RecView>, i: int) -> Seq<RecView> {
    s.update(i, RecView { weight: s[i].weight - 1, ..s[i] })
}

proof fn lemma_prefix_weight_mono(s: Seq<RecView>, m: int, n: int)
    requires
        m <= n,
    ensures
        prefix_weight(s, m) <= prefix_weight(s, n),
    decreases n - m,
{
    if m < n {
        lemma_prefix_weight_mono(s, m, n - 1);
    }
}

proof fn lemma_prefix_weight_bound(s: Seq<RecView>, n: int)
    requires
        0 <= n,
        forall|k: int| 0 <= k < n ==> weight_of(#[trigger] s[k]) <= 0x7fff_ffff,
    ensures
        0 <= prefix_weight(s, n) <= n * 0x7fff_ffff,
    decreases n,
{
    if n > 0 {
        lemma_prefix_weight_bound(s, n - 1);
    }
}

/// No record contributes negatively: the total eligible weight is never
/// below zero.
pub proof fn lemma_total_weight_nonneg(s: Seq<RecView>)
    ensures
        total_weight(s) >= 0,
{
    lemma_prefix_weight_mono(s, 0, s.len() as int);
}

/// Law (selection exclusion): whatever is drawn, a selected record always
/// had positive weight; a record with weight <= 0 is never selected.
pub proof fn lemma_selection_exclusion(s: Seq<RecView>, t: int, i: int)
    requires
        picked_at(s, t, i),
    ensures
        s[i].weight > 0,
{
}

/// At most one record owns any given slot of the weight line.
pub proof fn lemma_picked_unique(s: Seq<RecView>, t: int, i: int, j: int)
    requires
        picked_at(s, t, i),
        picked_at(s, t, j),
    ensures
        i == j,
{
    if i < j {
        lemma_prefix_weight_mono(s, i + 1, j);
    }
    if j < i {
        lemma_prefix_weight_mono(s, j + 1, i);
    }
}

/// Law (decay exactness): decaying the chosen record decreases its weight by
/// exactly 1 and leaves every other record, and the record's own identity,
/// unchanged.
pub proof fn lemma_decay_exact(s: Seq<RecView>, i: int)
    requires
        0 <= i < s.len(),
    ensures
        decay_at(s, i).len() == s.len(),
        decay_at(s, i)[i].weight == s[i].weight - 1,
        decay_at(s, i)[i].id == s[i].id,
        decay_at(s, i)[i].url == s[i].url,
        decay_at(s, i)[i].read == s[i].read,
        forall|j: int| 0 <= j < s.len() && j != i ==> decay_at(s, i)[j] == s[j],
{
}

/// The total eligible weight of the current record set, exactly.
pub fn compute_total_weight(records: &Vec<ReadingList>) -> (t: u128)
    ensures
        t as int == total_weight(views(records@)),
{
    let ghost s: Seq<RecView> = views(records@);
    let n = records.len();
    let mut acc: u128 = 0;
    let mut i: usize = 0;
    while i < n
        invariant
            i <= n,
            n == records@.len(),
            s == views(records@),
            acc as int == prefix_weight(s, i as int),
            acc as int <= (i as int) * 0x7fff_ffff,
        decreases n - i,
    {
        let p = records[i].priority;
        let w: u128 = if p > 0 {
            p as u128
        } else {
            0
        };
        assert(w as int == weight_of(s[i as int]));
        acc = acc + w;
        i = i + 1;
    }
    acc
}

/// The record whose slot of the weight line holds `t`.
fn pick_index(records: &Vec<ReadingList>, t: u128) -> (i: usize)
    requires
        (t as int) < total_weight(views(records@)),
    ensures
        picked_at(views(records@), t as int, i as int),
{
    let ghost s: Seq<RecView> = views(records@);
    let n = records.len();
    let mut acc: u128 = 0;
    let mut i: usize = 0;
    while i < n
        invariant
            i <= n,
            n == records@.len(),
            s == views(records@),
            (t as int) < total_weight(s),
            acc as int == prefix_weight(s, i as int),
            acc as int <= (i as int) * 0x7fff_ffff,
            acc <= t,
        decreases n - i,
    {
        let p = records[i].priority;
        let w: u128 = if p > 0 {
            p as u128
        } else {
            0
        };
        assert(w as int == weight_of(s[i as int]));
        if t < acc + w {
            return i;
        }
        acc = acc + w;
        i = i + 1;
    }
    proof {
        assert(acc as int == total_weight(s));
        assert(false);
    }
    0
}

/// Select the record owning slot `t`, decay its weight by exactly one and
/// hand back its url. Deterministic: the draw is an argument, so the whole
/// step is pinned for every value a generator could produce.
pub fn choose_article_at(records: &mut Vec<ReadingList>, t: u128) -> (url: String)
    requires
        (t as int) < total_weight(views(old(records)@)),
    ensures
        ({
            let s = views(old(records)@);
            let i = chosen_index(s, t as int);
            &&& picked_at(s, t as int, i)
            &&& views(final(records)@) == decay_at(s, i)
            &&& url@ == s[i].url
        }),
{
    let ghost s: Seq<RecView> = views(old(records)@);
    let i = pick_index(records, t);
    proof {
        lemma_picked_unique(s, t as int, i as int, chosen_index(s, t as int));
    }
    let url = records[i].url.clone();
    let p = records[i].priority;
    records[i].priority = p - 1;
    assert(views(records@) =~= decay_at(s, i as int));
    url
}

/// Relies on rand::Rng::gen_range over rand::thread_rng: returns a value of
/// the half-open range below `n`, uniformly distributed; it panics only on
/// an empty range, which `requires` excludes.
#[verifier::external_body]
fn random_below(n: u128) -> (r: u128)
    requires
        1 <= n,
    ensures
        r < n,
{
    rand::Rng::gen_range(&mut rand::thread_rng(), 0..n)
}

/// Pick one article at random, weighted by record weight, decay the chosen
/// record's weight by exactly 1, and return the chosen article's url.
///
/// Fails with `NoSelectableRecord`, changing nothing, exactly when the store
/// is empty or no record has positive weight.
pub fn randomly_choose_article(records: &mut Vec<ReadingList>) -> (r: Result<String, StoreError>)
    ensures
        r is Ok <==> total_weight(views(old(records)@)) > 0,
        r is Err ==> r->Err_0 == StoreError::NoSelectableRecord && final(records)@ == old(
            records,
        )@,
        r is Ok ==> exists|i: int|
            {
                &&& 0 <= i < views(old(records)@).len()
                &&& views(old(records)@)[i].weight > 0
                &&& views(final(records)@) == decay_at(views(old(records)@), i)
                &&& r->Ok_0@ == views(old(records)@)[i].url
            },
{
    let ghost s: Seq<RecView> = views(old(records)@);
    let total = compute_total_weight(records);
    if total == 0 {
        return Err(StoreError::NoSelectableRecord);
    }
    let t = random_below(total);
    let url = choose_article_at(records, t);
    proof {
        let i = chosen_index(s, t as int);
        assert({
            &&& 0 <= i < s.len()
            &&& s[i].weight > 0
            &&& views(records@) == decay_at(s, i)
            &&& url@ == s[i].url
        });
    }
    Ok(url)
}

} // verus!
