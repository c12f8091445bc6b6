use vstd::prelude::*;

verus! {

/// One page of fetched remote data: the batch that the merger consumes.
pub struct APIResponse {
    pub results: Vec<Article>,
}

/// One article as fetched from the remote workspace.
pub struct Article {
    pub id: String,
    pub url: String,
    pub properties: Properties,
}

pub struct Properties {
    pub reading_info: ReadingInfo,
}

/// Whether the user has marked the article read in the remote system.
pub struct ReadingInfo {
    pub read_it: bool,
}

/// One tracked article of the persistent store.
///
/// `id` is the stable external identifier and is unique across the store;
/// `priority` is the selection weight: assigned once at insertion, afterwards
/// only ever decremented by the selector.
pub struct ReadingList {
    pub id: String,
    pub url: String,
    pub did_i_read_it: bool,
    pub priority: i32,
}

/// The mathematical model of a stored record.
pub ghost struct RecView {
    pub id: Seq<char>,
    pub url: Seq<char>,
    pub read: bool,
    pub weight: int,
}

impl View for ReadingList {
    type V = RecView;

    open spec fn view(&self) -> RecView {
        RecView {
            id: self.id@,
            url: self.url@,
            read: self.did_i_read_it,
            weight: self.priority as int,
        }
    }
}

/// The mathematical model of a fetched article.
pub ghost struct ArtView {
    pub id: Seq<char>,
    pub url: Seq<char>,
    pub read: bool,
}

impl View for Article {
    type V = ArtView;

    open spec fn view(&self) -> ArtView {
        ArtView { id: self.id@, url: self.url@, read: self.properties.reading_info.read_it }
    }
}

pub open spec fn views(s: Seq<ReadingList>) -> Seq<RecView> {
    s.map_values(|r: ReadingList| r@)
}

pub open spec fn art_views(s: Seq<Article>) -> Seq<ArtView> {
    s.map_values(|a: Article| a@)
}

/// No two records of the store share an `id`.
pub open spec fn unique_ids(s: Seq<RecView>) -> bool {
    forall|i: int, j: int| 0 <= i < j < s.len() ==> s[i].id != s[j].id
}

pub open spec fn has_id(s: Seq<RecView>, id: Seq<char>) -> bool {
    exists|i: int| 0 <= i < s.len() && s[i].id == id
}

/// Index of the first record with the given `id` (meaningful when `has_id`).
pub open spec fn first_idx(s: Seq<RecView>, id: Seq<char>) -> int
    decreases s.len(),
{
    if s.len() == 0 {
        0
    } else if s[0].id == id {
        0
    } else {
        1 + first_idx(s.drop_first(), id)
    }
}

/// How the merger reconciles the `read` flag of an already-known record.
///
/// Whether `read` may revert from true to false when a later fetch reports
/// the article unread is a reasonable choice either way, so it is an
/// explicit policy rather than hard-coded.
#[derive(Debug, Clone, Copy, PartialEq, Eq, Structural)]
pub enum MergePolicy {
    /// The freshly fetched flag always replaces the stored one.
    Overwrite,
    /// The flag is only ever promoted from false to true, never reverted.
    Promote,
}

/// The weight a record receives the moment it is inserted: unread articles
/// start twice as likely to be chosen as read ones.
pub open spec fn spec_initial_priority(read: bool) -> int {
    if read {
        50
    } else {
        100
    }
}

pub fn initial_priority(read: bool) -> (p: i32)
    ensures
        p as int == spec_initial_priority(read),
{
    if read {
        50
    } else {
        100
    }
}

/// A known record after one reconciliation step: only `read` may move,
/// `id`, `url` and `weight` stay exactly as they were.
pub open spec fn merged_rec(old_rec: RecView, fetched_read: bool, policy: MergePolicy) -> RecView {
    RecView {
        read: match policy {
            MergePolicy::Overwrite => fetched_read,
            MergePolicy::Promote => old_rec.read || fetched_read,
        },
        ..old_rec
    }
}

/// A record inserted for an id seen for the first time.
pub open spec fn fresh_rec(a: ArtView) -> RecView {
    RecView { id: a.id, url: a.url, read: a.read, weight: spec_initial_priority(a.read) }
}

/// One fetched article reconciled into the store.
pub open spec fn spec_merge_one(s: Seq<RecView>, a: ArtView, policy: MergePolicy) -> Seq<RecView> {
    if has_id(s, a.id) {
        let i = first_idx(s, a.id);
        s.update(i, merged_rec(s[i], a.read, policy))
    } else {
        s.push(fresh_rec(a))
    }
}

/// A whole fetched batch reconciled into the store, in batch order.
pub open spec fn spec_merge(s: Seq<RecView>, batch: Seq<ArtView>, policy: MergePolicy) -> Seq<
    RecView,
>
    decreases batch.len(),
{
    if batch.len() == 0 {
        s
    } else {
        spec_merge(spec_merge_one(s, batch[0], policy), batch.drop_first(), policy)
    }
}

proof fn lemma_first_idx(s: Seq<RecView>, id: Seq<char>)
    requires
        has_id(s, id),
    ensures
        0 <= first_idx(s, id) < s.len(),
        s[first_idx(s, id)].id == id,
        forall|k: int| 0 <= k < first_idx(s, id) ==> s[k].id != id,
    decreases s.len(),
{
    if s.len() == 0 {
    } else if s[0].id == id {
    } else {
        let t = s.drop_first();
        assert(has_id(t, id)) by {
            let w = choose|i: int| 0 <= i < s.len() && s[i].id == id;
            assert(t[w - 1] == s[w]);
        }
        lemma_first_idx(t, id);
        assert forall|k: int| 0 <= k < first_idx(s, id) implies s[k].id != id by {
            if k > 0 {
                assert(t[k - 1] == s[k]);
            }
        }
    }
}

proof fn lemma_first_idx_at(s: Seq<RecView>, id: Seq<char>, j: int)
    requires
        0 <= j < s.len(),
        s[j].id == id,
        forall|k: int| 0 <= k < j ==> s[k].id != id,
    ensures
        first_idx(s, id) == j,
    decreases s.len(),
{
    if j == 0 {
    } else {
        let t = s.drop_first();
        assert forall|k: int| 0 <= k < j - 1 implies t[k].id != id by {
            assert(t[k] == s[k + 1]);
        }
        assert(t[j - 1] == s[j]);
        lemma_first_idx_at(t, id, j - 1);
    }
}

/// Index of the first stored record carrying `id`, if any.
fn find_by_id(records: &Vec<ReadingList>, id: &String) -> (r: Option<usize>)
    ensures
        match r {
            Some(i) => i < records@.len() && views(records@)[i as int].id == id@ && forall|q: int|
                0 <= q < i ==> views(records@)[q].id != id@,
            None => !has_id(views(records@), id@),
        },
{
    let n = records.len();
    let mut i: usize = 0;
    while i < n
        invariant
            i <= n,
            n == records@.len(),
            forall|q: int| 0 <= q < i ==> views(records@)[q].id != id@,
        decreases n - i,
    {
        if records[i].id == *id {
            return Some(i);
        }
        i = i + 1;
    }
    proof {
        if has_id(views(records@), id@) {
            let w = choose|j: int| 0 <= j < n && views(records@)[j].id == id@;
            assert(views(records@)[w].id != id@);
        }
    }
    None
}

/// Reconcile one batch of freshly fetched articles into the current record
/// set, producing the next record set.
///
/// For a fetched id not yet present, a new record is inserted with the
/// initial weight; for a known id, only the `read` flag is reconciled under
/// `policy`. Records absent from the batch are retained unchanged.
pub fn update_reading_list(
    existing: Vec<ReadingList>,
    list_of_articles: &Vec<Article>,
    policy: MergePolicy,
) -> (merged: Vec<ReadingList>)
    ensures
        views(merged@) == spec_merge(views(existing@), art_views(list_of_articles@), policy),
{
    let ghost orig: Seq<RecView> = views(existing@);
    let ghost batch: Seq<ArtView> = art_views(list_of_articles@);
    let mut merged = existing;
    let n = list_of_articles.len();
    let mut k: usize = 0;
    while k < n
        invariant
            k <= n,
            n == list_of_articles.len(),
            batch == art_views(list_of_articles@),
            views(merged@) == spec_merge(orig, batch.take(k as int), policy),
        decreases n - k,
    {
        let article = &list_of_articles[k];
        let ghost before: Seq<RecView> = views(merged@);

        if let Some(i) = find_by_id(&merged, &article.id) {
            proof {
                lemma_first_idx_at(before, article.id@, i as int);
            }
            let new_read = match policy {
                MergePolicy::Overwrite => article.properties.reading_info.read_it,
                MergePolicy::Promote => merged[i].did_i_read_it
                    || article.properties.reading_info.read_it,
            };
            merged[i].did_i_read_it = new_read;
            assert(views(merged@) =~= spec_merge_one(before, batch[k as int], policy));
        } else {
            let read = article.properties.reading_info.read_it;
            merged.push(
                ReadingList {
                    id: article.id.clone(),
                    url: article.url.clone(),
                    did_i_read_it: read,
                    priority: initial_priority(read),
                },
            );
            assert(views(merged@) =~= spec_merge_one(before, batch[k as int], policy));
        }
        k = k + 1;
        proof {
            lemma_merge_take_step(orig, batch, policy, k as int);
        }
    }
    proof {
        assert(batch.take(n as int) =~= batch);
    }
    merged
}

proof fn lemma_merge_one_preserves_existing(s: Seq<RecView>, a: ArtView, policy: MergePolicy)
    ensures
        spec_merge_one(s, a, policy).len() >= s.len(),
        forall|i: int| 0 <= i < s.len() ==> {
            let m = #[trigger] spec_merge_one(s, a, policy)[i];
            m.id == s[i].id && m.url == s[i].url && m.weight == s[i].weight
        },
{
    if has_id(s, a.id) {
        lemma_first_idx(s, a.id);
    }
}

/// Law: a merge never changes the weight, id or url of any record that was
/// already in the store, and never removes a record. Only the `read` flag of
/// a known record may move.
pub proof fn lemma_merge_preserves_existing(s: Seq<RecView>, batch: Seq<ArtView>, policy: MergePolicy)
    ensures
        spec_merge(s, batch, policy).len() >= s.len(),
        forall|i: int| 0 <= i < s.len() ==> {
            let m = #[trigger] spec_merge(s, batch, policy)[i];
            m.id == s[i].id && m.url == s[i].url && m.weight == s[i].weight
        },
    decreases batch.len(),
{
    if batch.len() == 0 {
    } else {
        let s1 = spec_merge_one(s, batch[0], policy);
        lemma_merge_one_preserves_existing(s, batch[0], policy);
        lemma_merge_preserves_existing(s1, batch.drop_first(), policy);
    }
}

proof fn lemma_merge_one_unique(s: Seq<RecView>, a: ArtView, policy: MergePolicy)
    requires
        unique_ids(s),
    ensures
        unique_ids(spec_merge_one(s, a, policy)),
{
    let m = spec_merge_one(s, a, policy);
    if has_id(s, a.id) {
        lemma_first_idx(s, a.id);
        assert forall|i: int, j: int| 0 <= i < j < m.len() implies m[i].id != m[j].id by {
            assert(m[i].id == s[i].id);
            assert(m[j].id == s[j].id);
        }
    } else {
        assert forall|i: int, j: int| 0 <= i < j < m.len() implies m[i].id != m[j].id by {
            if j == s.len() {
                assert(m[i].id == s[i].id);
                if s[i].id == a.id {
                    assert(has_id(s, a.id));
                }
            }
        }
    }
}

/// Law (uniqueness): merging one batch into a store with pairwise distinct
/// ids leaves the ids pairwise distinct.
pub proof fn lemma_merge_unique(s: Seq<RecView>, batch: Seq<ArtView>, policy: MergePolicy)
    requires
        unique_ids(s),
    ensures
        unique_ids(spec_merge(s, batch, policy)),
    decreases batch.len(),
{
    if batch.len() == 0 {
    } else {
        lemma_merge_one_unique(s, batch[0], policy);
        lemma_merge_unique(spec_merge_one(s, batch[0], policy), batch.drop_first(), policy);
    }
}

/// The store after a whole sequence of merges, batch by batch.
pub open spec fn spec_merge_all(
    s: Seq<RecView>,
    batches: Seq<Seq<ArtView>>,
    policy: MergePolicy,
) -> Seq<RecView>
    decreases batches.len(),
{
    if batches.len() == 0 {
        s
    } else {
        spec_merge_all(spec_merge(s, batches[0], policy), batches.drop_first(), policy)
    }
}

/// Law (uniqueness): after any sequence of merges into a store whose ids
/// were pairwise distinct — the empty store among them — no two records
/// share an id.
pub proof fn lemma_merge_sequence_unique(
    s: Seq<RecView>,
    batches: Seq<Seq<ArtView>>,
    policy: MergePolicy,
)
    requires
        unique_ids(s),
    ensures
        unique_ids(spec_merge_all(s, batches, policy)),
    decreases batches.len(),
{
    if batches.len() == 0 {
    } else {
        lemma_merge_unique(s, batches[0], policy);
        lemma_merge_sequence_unique(spec_merge(s, batches[0], policy), batches.drop_first(), policy);
    }
}

/// Law (insert weight rule): an article whose id is not yet in the store is
/// appended as a fresh record whose weight is 100 when unread and 50 when
/// read, with the fetched `read` flag, whatever the merge policy.
pub proof fn lemma_insert_weight(s: Seq<RecView>, a: ArtView, policy: MergePolicy)
    requires
        !has_id(s, a.id),
    ensures
        spec_merge_one(s, a, policy) == s.push(fresh_rec(a)),
        spec_merge_one(s, a, policy).last().weight == if a.read {
            50int
        } else {
            100int
        },
        spec_merge_one(s, a, policy).last().read == a.read,
        spec_merge_one(s, a, policy).last().id == a.id,
        spec_merge_one(s, a, policy).last().url == a.url,
{
}

/// Law (update stability): merging a batch never changes the weight of a
/// record whose id was already known; the record keeps its place as the
/// first carrier of its id.
pub proof fn lemma_update_stability(
    s: Seq<RecView>,
    batch: Seq<ArtView>,
    policy: MergePolicy,
    id: Seq<char>,
)
    requires
        has_id(s, id),
    ensures
        ({
            let m = spec_merge(s, batch, policy);
            &&& has_id(m, id)
            &&& first_idx(m, id) == first_idx(s, id)
            &&& m[first_idx(s, id)].weight == s[first_idx(s, id)].weight
        }),
{
    let m = spec_merge(s, batch, policy);
    let i = first_idx(s, id);
    lemma_first_idx(s, id);
    lemma_merge_preserves_existing(s, batch, policy);
    assert(m[i].id == id);
    assert forall|k: int| 0 <= k < i implies m[k].id != id by {
        assert(m[k].id == s[k].id);
    }
    lemma_first_idx_at(m, id, i);
}

/// Law (retention): a record whose id does not occur in the fetched batch is
/// retained entirely unchanged by the merge.
pub proof fn lemma_absent_retained(
    s: Seq<RecView>,
    batch: Seq<ArtView>,
    policy: MergePolicy,
    i: int,
)
    requires
        0 <= i < s.len(),
        forall|k: int| 0 <= k < batch.len() ==> batch[k].id != s[i].id,
    ensures
        spec_merge(s, batch, policy)[i] == s[i],
    decreases batch.len(),
{
    if batch.len() == 0 {
    } else {
        let a = batch[0];
        let s1 = spec_merge_one(s, a, policy);
        lemma_merge_one_preserves_existing(s, a, policy);
        assert(s1[i] == s[i]) by {
            if has_id(s, a.id) {
                lemma_first_idx(s, a.id);
                assert(s[first_idx(s, a.id)].id == a.id);
            }
        }
        assert forall|k: int| 0 <= k < batch.drop_first().len() implies batch.drop_first()[k].id
            != s1[i].id by {
            assert(batch.drop_first()[k] == batch[k + 1]);
        }
        lemma_absent_retained(s1, batch.drop_first(), policy, i);
    }
}

proof fn lemma_merge_take_step(
    s: Seq<RecView>,
    batch: Seq<ArtView>,
    policy: MergePolicy,
    k: int,
)
    requires
        0 < k <= batch.len(),
    ensures
        spec_merge(s, batch.take(k), policy) == spec_merge_one(
            spec_merge(s, batch.take(k - 1), policy),
            batch[k - 1],
            policy,
        ),
    decreases k,
{
    if k == 1 {
        assert(batch.take(1)[0] == batch[0]);
        assert(batch.take(1).drop_first() =~= batch.take(0));
        assert(batch.take(0).len() == 0);
        assert(spec_merge(spec_merge_one(s, batch[0], policy), batch.take(1).drop_first(), policy)
            == spec_merge_one(s, batch[0], policy));
        assert(spec_merge(s, batch.take(1), policy) == spec_merge_one(s, batch[0], policy));
    } else {
        let t = batch.drop_first();
        assert(batch.take(k).drop_first() =~= t.take(k - 1));
        assert(batch.take(k - 1).drop_first() =~= t.take(k - 2));
        lemma_merge_take_step(spec_merge_one(s, batch[0], policy), t, policy, k - 1);
        assert(t[k - 2] == batch[k - 1]);
    }
}

} // verus!
