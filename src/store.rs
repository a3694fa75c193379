//! Reading and writing records of a document that was loaded from storage.
//!
//! Each operation takes the outcome of loading: the document, or why it
//! could not be loaded. Reads treat a failed load as an absent record.
//! Writes start from an empty document when loading failed, refuse to
//! replace a record unless told to, and hand back the document to store.
use vstd::prelude::*;

use crate::document::{TopLevel, TopLevelView, names};
use crate::order::sorted_of;
use crate::records::{BenchmarkSet, BenchmarkSetView, ProcedureError, ProcedureOverwrite};

verus! {

/// The document a write starts from: the loaded one, or an empty one.
pub open spec fn base_of(loaded: Result<TopLevelView, ProcedureError>) -> TopLevelView {
    match loaded {
        Ok(d) => d,
        Err(_) => TopLevelView { benchmark_sets: Map::empty(), meta_sets: Map::empty() },
    }
}

/// The view of a load outcome.
pub open spec fn loaded_view(loaded: Result<TopLevel, ProcedureError>) -> Result<TopLevelView, ProcedureError> {
    match loaded {
        Ok(d) => Ok(d@),
        Err(e) => Err(e),
    }
}

/// A load outcome whose document, if any, is well formed.
pub open spec fn loaded_ok(loaded: Result<TopLevel, ProcedureError>) -> bool {
    loaded matches Ok(d) ==> d.wf()
}

/// The benchmark set that a read finds under `name`.
pub open spec fn read_set(name: Seq<char>, loaded: Result<TopLevelView, ProcedureError>) -> Option<BenchmarkSetView> {
    match loaded {
        Ok(d) => if d.benchmark_sets.contains_key(name) {
            Some(d.benchmark_sets[name])
        } else {
            None
        },
        Err(_) => None,
    }
}

/// The member names that a read finds under `name`.
pub open spec fn read_meta(name: Seq<char>, loaded: Result<TopLevelView, ProcedureError>) -> Option<Seq<Seq<char>>> {
    match loaded {
        Ok(d) => if d.meta_sets.contains_key(name) {
            Some(d.meta_sets[name])
        } else {
            None
        },
        Err(_) => None,
    }
}

/// The document to store after writing `set` under `name`, or the refusal.
pub open spec fn write_set(
    name: Seq<char>,
    set: BenchmarkSetView,
    overwrite: ProcedureOverwrite,
    loaded: Result<TopLevelView, ProcedureError>,
) -> Result<TopLevelView, ProcedureError> {
    let base = base_of(loaded);
    if base.benchmark_sets.contains_key(name) && overwrite == ProcedureOverwrite::False {
        Err(ProcedureError::ProcedureAlreadyExists)
    } else {
        Ok(TopLevelView { benchmark_sets: base.benchmark_sets.insert(name, set), meta_sets: base.meta_sets })
    }
}

/// The document to store after writing the meta set `members` under `name`,
/// or the refusal.
pub open spec fn write_meta(
    name: Seq<char>,
    members: Seq<Seq<char>>,
    overwrite: ProcedureOverwrite,
    loaded: Result<TopLevelView, ProcedureError>,
) -> Result<TopLevelView, ProcedureError> {
    let base = base_of(loaded);
    if base.meta_sets.contains_key(name) && overwrite == ProcedureOverwrite::False {
        Err(ProcedureError::ProcedureAlreadyExists)
    } else {
        Ok(TopLevelView {
            benchmark_sets: base.benchmark_sets,
            meta_sets: base.meta_sets.insert(name, sorted_of(members.to_set())),
        })
    }
}

/// Reads the benchmark set stored under `name`; nothing where loading
/// failed or no such set is stored.
pub fn read_benchmark_set_from_file(name: &str, loaded: &Result<TopLevel, ProcedureError>) -> (r: Option<
    BenchmarkSet,
>)
    requires
        loaded_ok(*loaded),
    ensures
        r is Some <==> read_set(name@, loaded_view(*loaded)) is Some,
        r matches Some(s) ==> read_set(name@, loaded_view(*loaded)) == Some(s@),
{
    match loaded {
        Ok(m) => m.benchmark_set(name),
        Err(_) => None,
    }
}

/// Reads the members of the meta set stored under `name`; nothing where
/// loading failed or no such meta set is stored.
pub fn read_meta_from_file(name: &str, loaded: &Result<TopLevel, ProcedureError>) -> (r: Option<
    Vec<String>,
>)
    requires
        loaded_ok(*loaded),
    ensures
        r is Some <==> read_meta(name@, loaded_view(*loaded)) is Some,
        r matches Some(m) ==> read_meta(name@, loaded_view(*loaded)) == Some(names(m@)),
{
    match loaded {
        Ok(m) => m.meta_set(name),
        Err(_) => None,
    }
}

/// Writes `set` under `set_name`, into the loaded document or, where loading
/// failed, into an empty one. Fails with `ProcedureAlreadyExists` where the
/// name is taken and `overwrite` is `False`; otherwise gives the document
/// to store.
pub fn write_benchmark_set_to_file(
    set_name: &str,
    set: BenchmarkSet,
    overwrite: ProcedureOverwrite,
    loaded: Result<TopLevel, ProcedureError>,
) -> (r: Result<TopLevel, ProcedureError>)
    requires
        loaded_ok(loaded),
    ensures
        loaded_ok(r),
        loaded_view(r) == write_set(set_name@, set@, overwrite, loaded_view(loaded)),
{
    let mut top_level = match loaded {
        Ok(m) => m,
        Err(_) => TopLevel::new(),
    };
    proof {
        if loaded is Err {
            assert(top_level@.benchmark_sets =~= Map::empty());
            assert(top_level@.meta_sets =~= Map::empty());
        }
    }
    assert(top_level@ == base_of(loaded_view(loaded)));
    if top_level.contains_benchmark_set(set_name) && overwrite == ProcedureOverwrite::False {
        return Err(ProcedureError::ProcedureAlreadyExists);
    }
    top_level.insert_benchmark_set(set_name.to_owned(), set);
    Ok(top_level)
}

/// Writes the meta set `members` under `name`, into the loaded document or,
/// where loading failed, into an empty one. Fails with
/// `ProcedureAlreadyExists` where the name is taken and `force` is `False`;
/// otherwise gives the document to store.
pub fn write_meta_to_file(
    name: &str,
    members: Vec<String>,
    force: ProcedureOverwrite,
    loaded: Result<TopLevel, ProcedureError>,
) -> (r: Result<TopLevel, ProcedureError>)
    requires
        loaded_ok(loaded),
    ensures
        loaded_ok(r),
        loaded_view(r) == write_meta(name@, names(members@), force, loaded_view(loaded)),
{
    let mut top_level = match loaded {
        Ok(m) => m,
        Err(_) => TopLevel::new(),
    };
    proof {
        if loaded is Err {
            assert(top_level@.benchmark_sets =~= Map::empty());
            assert(top_level@.meta_sets =~= Map::empty());
        }
    }
    assert(top_level@ == base_of(loaded_view(loaded)));
    if top_level.contains_meta_set(name) && force == ProcedureOverwrite::False {
        return Err(ProcedureError::ProcedureAlreadyExists);
    }
    top_level.insert_meta_set(name.to_owned(), members);
    Ok(top_level)
}

/// Writing under a taken name without leave to overwrite is refused, and the
/// stored document, read again, still holds the old record.
pub proof fn lemma_write_refused_keeps_record(
    name: Seq<char>,
    set: BenchmarkSetView,
    stored: TopLevelView,
)
    requires
        stored.benchmark_sets.contains_key(name),
    ensures
        write_set(name, set, ProcedureOverwrite::False, Ok(stored)) == Err::<TopLevelView, ProcedureError>(
            ProcedureError::ProcedureAlreadyExists,
        ),
        read_set(name, Ok(stored)) == Some(stored.benchmark_sets[name]),
{
}

/// With leave to overwrite, a write always succeeds, and reading the written
/// document under that name gives the new record.
pub proof fn lemma_write_then_read(
    name: Seq<char>,
    set: BenchmarkSetView,
    loaded: Result<TopLevelView, ProcedureError>,
)
    ensures
        write_set(name, set, ProcedureOverwrite::True, loaded) matches Ok(d) && read_set(name, Ok(d))
            == Some(set),
{
}

/// The same two laws for meta sets: a write under a taken name without leave
/// is refused, and an allowed one is read back as the members in increasing
/// order.
pub proof fn lemma_meta_write_then_read(
    name: Seq<char>,
    members: Seq<Seq<char>>,
    loaded: Result<TopLevelView, ProcedureError>,
)
    ensures
        write_meta(name, members, ProcedureOverwrite::True, loaded) matches Ok(d) && read_meta(
            name,
            Ok(d),
        ) == Some(sorted_of(members.to_set())),
        base_of(loaded).meta_sets.contains_key(name) ==> write_meta(
            name,
            members,
            ProcedureOverwrite::False,
            loaded,
        ) == Err::<TopLevelView, ProcedureError>(ProcedureError::ProcedureAlreadyExists),
{
}

} // verus!
