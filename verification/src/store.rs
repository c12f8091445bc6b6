use vstd::prelude::*;

use crate::codec::{enc_file, load_from_string, parse_file, save_to_string};
use crate::errors::StoreError;
use crate::reading_list::{
    art_views, spec_merge, update_reading_list, Article, MergePolicy, ReadingList, RecView, views,
};
use crate::select::{decay_at, randomly_choose_article, total_weight};
use vstd::string::StrSliceExecFns;
use vstd::string::StringExecFns;

verus! {

/// An in-memory model of the two paths a save touches: the target file and
/// its temporary sibling. `None` stands for an absent file.
///
/// The real filesystem lives outside the library; the replace-on-write
/// protocol is verified against this model, and the caller mirrors the same
/// two steps on real files. Each step takes the outcome of the underlying
/// operation as an argument, so every failure a disk could produce is
/// covered by the contracts.
pub struct DiskModel {
    pub target: Option<String>,
    pub temp: Option<String>,
}

impl DiskModel {
    /// Write the whole temporary file. A failed write may leave truncated
    /// temporary content behind, but never touches the target.
    pub fn write_temp(&mut self, content: &str, io_ok: bool) -> (ok: bool)
        ensures
            ok == io_ok,
            final(self).target == old(self).target,
            io_ok ==> (final(self).temp matches Some(t) && t@ == content@),
    {
        if io_ok {
            self.temp = Some(content.to_owned());
            true
        } else {
            let n = content.unicode_len();
            self.temp = Some(content.substring_char(0, n / 2).to_owned());
            false
        }
    }

    /// Rename the temporary file over the target, as one atomic step: on
    /// success the target carries exactly the temporary content; on failure
    /// nothing has moved. Renaming a missing temporary fails.
    pub fn rename_temp_over_target(&mut self, io_ok: bool) -> (ok: bool)
        ensures
            ok == (io_ok && old(self).temp is Some),
            ok ==> final(self).target == old(self).temp && final(self).temp is None,
            !ok ==> *final(self) == *old(self),
    {
        if io_ok {
            let t = self.temp.take();
            match t {
                Option::Some(content) => {
                    self.target = Some(content);
                    true
                },
                Option::None => false,
            }
        } else {
            false
        }
    }
}

/// The temporary path used by the atomic replace: a sibling of the target
/// (its name with a suffix), so the final rename stays within one directory
/// and is a single filesystem operation.
pub fn temp_path_for(target_path: &str) -> (p: String)
    ensures
        p@ == target_path@ + ".tmp"@,
{
    let mut p = target_path.to_owned();
    p.append(".tmp");
    p
}

/// Persist the whole record set through the replace-on-write protocol:
/// write the full new content to the temporary file, then rename it over
/// the target. The original file is never deleted first.
///
/// Law (atomicity under failure): on any failure the target still carries
/// exactly its previous content, and the error is `PersistenceFailure`.
pub fn save_records(
    disk: &mut DiskModel,
    records: &Vec<ReadingList>,
    write_ok: bool,
    rename_ok: bool,
) -> (r: Result<(), StoreError>)
    ensures
        r is Ok <==> (write_ok && rename_ok),
        r is Ok ==> (final(disk).target matches Some(t) && t@ == enc_file(views(records@)))
            && final(disk).temp is None,
        r is Err ==> final(disk).target == old(disk).target && r->Err_0
            == StoreError::PersistenceFailure,
{
    let content = save_to_string(records);
    if !disk.write_temp(content.as_str(), write_ok) {
        return Err(StoreError::PersistenceFailure);
    }
    if !disk.rename_temp_over_target(rename_ok) {
        return Err(StoreError::PersistenceFailure);
    }
    Ok(())
}

/// Load the whole record set. Fails with `StoreUnavailable` when the target
/// file is absent, and with `MalformedRecord` when a row does not parse.
pub fn load_records(disk: &DiskModel) -> (r: Result<Vec<ReadingList>, StoreError>)
    ensures
        disk.target is None ==> r is Err && r->Err_0 == StoreError::StoreUnavailable,
        disk.target matches Some(c) ==> ({
            let pf = parse_file(c@);
            match r {
                Result::Ok(v) => pf is Ok && views(v@) == pf->Ok_0,
                Result::Err(e) => pf is Err && (e matches StoreError::MalformedRecord { row }
                    && row as int == pf->Err_0),
            }
        }),
{
    match &disk.target {
        Option::None => Err(StoreError::StoreUnavailable),
        Option::Some(content) => load_from_string(content.as_str()),
    }
}

/// Load the store, reconcile one fetched batch into it, and persist the
/// merged record set through the atomic replace. On any failure the target
/// file still carries exactly its previous content.
pub fn ingest_and_refresh(
    disk: &mut DiskModel,
    batch: &Vec<Article>,
    policy: MergePolicy,
    write_ok: bool,
    rename_ok: bool,
) -> (r: Result<(), StoreError>)
    ensures
        ({
            match old(disk).target {
                Option::None => r is Err && r->Err_0 == StoreError::StoreUnavailable && *final(disk) == *old(disk),
                Option::Some(c) => match parse_file(c@) {
                    Result::Err(k) => r is Err && (r->Err_0
                        matches StoreError::MalformedRecord { row } && row as int == k) && *final(disk) == *old(disk),
                    Result::Ok(loaded) => {
                        let merged = spec_merge(loaded, art_views(batch@), policy);
                        &&& (r is Ok <==> (write_ok && rename_ok))
                        &&& r is Ok ==> (final(disk).target matches Some(t) && t@ == enc_file(
                            merged,
                        ))
                        &&& r is Err ==> final(disk).target == old(disk).target && r->Err_0
                            == StoreError::PersistenceFailure
                    },
                },
            }
        }),
{
    let loaded = match load_records(disk) {
        Result::Ok(v) => v,
        Result::Err(e) => {
            return Err(e);
        },
    };
    let merged = update_reading_list(loaded, batch, policy);
    save_records(disk, &merged, write_ok, rename_ok)
}

/// Load the store, pick one article at random weighted by record weight,
/// decay the chosen record's weight by exactly 1, persist the decayed set,
/// and hand back the chosen url.
///
/// Fails with `NoSelectableRecord`, touching nothing, when the store is
/// empty or holds no positive weight; a persistence failure surfaces as
/// `PersistenceFailure` with the target file unchanged — a selection that
/// could not be saved never counts as success.
pub fn choose_next(disk: &mut DiskModel, write_ok: bool, rename_ok: bool) -> (r: Result<
    String,
    StoreError,
>)
    ensures
        ({
            match old(disk).target {
                Option::None => r is Err && r->Err_0 == StoreError::StoreUnavailable && *final(disk) == *old(disk),
                Option::Some(c) => match parse_file(c@) {
                    Result::Err(k) => r is Err && (r->Err_0
                        matches StoreError::MalformedRecord { row } && row as int == k) && *final(disk) == *old(disk),
                    Result::Ok(loaded) => {
                        if total_weight(loaded) == 0 {
                            r is Err && r->Err_0 == StoreError::NoSelectableRecord && *final(disk)
                                == *old(disk)
                        } else {
                            &&& (r is Ok <==> (write_ok && rename_ok))
                            &&& r is Ok ==> exists|i: int|
                                {
                                    &&& 0 <= i < loaded.len()
                                    &&& loaded[i].weight > 0
                                    &&& (final(disk).target matches Some(t) && t@ == enc_file(
                                        decay_at(loaded, i),
                                    ))
                                    &&& r->Ok_0@ == loaded[i].url
                                }
                            &&& r is Err ==> final(disk).target == old(disk).target && r->Err_0
                                == StoreError::PersistenceFailure
                        }
                    },
                },
            }
        }),
{
    let mut records = match load_records(disk) {
        Result::Ok(v) => v,
        Result::Err(e) => {
            return Err(e);
        },
    };
    let ghost loaded: Seq<RecView> = views(records@);
    proof {
        crate::select::lemma_total_weight_nonneg(loaded);
    }
    let url = match randomly_choose_article(&mut records) {
        Result::Ok(u) => u,
        Result::Err(e) => {
            return Err(e);
        },
    };
    let ghost chosen: int = choose|i: int|
        {
            &&& 0 <= i < loaded.len()
            &&& loaded[i].weight > 0
            &&& views(records@) == decay_at(loaded, i)
            &&& url@ == loaded[i].url
        };
    match save_records(disk, &records, write_ok, rename_ok) {
        Result::Ok(()) => {
            proof {
                assert({
                    &&& 0 <= chosen < loaded.len()
                    &&& loaded[chosen].weight > 0
                    &&& views(records@) == decay_at(loaded, chosen)
                    &&& url@ == loaded[chosen].url
                });
            }
            Ok(url)
        },
        Result::Err(e) => Err(e),
    }
}

} // verus!
