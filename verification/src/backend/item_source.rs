//! Where the items to sort come from.

use vstd::prelude::*;
use std::path::PathBuf;
use crate::backend::fs_hierarchy::FileRef;

verus! {

/// Where the items to sort come from.
#[derive(Clone, Debug)]
pub enum ItemSource {
    Enumerated(Vec<FileRef>),
    /// All files in a directory, recursively
    EntireDir(FileRef),
}

/// Item source which is hard to compute and therefore requires caching to be used while maintaining performance
#[derive(Clone)]
pub enum ComplexItemSource {
    /// All files in a directory, recursively
    EntireDir(FileRef),
}

impl ComplexItemSource {
    /// The same source as an [`ItemSource`].
    pub fn to_item_source(self) -> (r: ItemSource)
        ensures
            match self {
                ComplexItemSource::EntireDir(dir) => r == ItemSource::EntireDir(dir),
            },
    {
        match self {
            ComplexItemSource::EntireDir(dir) => ItemSource::EntireDir(dir),
        }
    }
}

/// The items of a source: their paths, and the errors met while listing them.
pub struct ISResult {
    pub paths: Vec<FileRef>,
    pub errors: Vec<anyhow::Error>,
}

/// The paths of the successful entries, in order.
pub open spec fn ok_paths(entries: Seq<Result<PathBuf, anyhow::Error>>) -> Seq<PathBuf> {
    entries.filter_map(|e: Result<PathBuf, anyhow::Error>| e.ok())
}

/// The errors of the failed entries, in order.
pub open spec fn err_entries(entries: Seq<Result<PathBuf, anyhow::Error>>) -> Seq<anyhow::Error> {
    entries.filter_map(|e: Result<PathBuf, anyhow::Error>| match e {
        Ok(_) => None,
        Err(err) => Some(err),
    })
}

/// Splits listed entries into the paths of the successful ones and the errors of the others,
/// both in order.
pub fn partition_entries(entries: Vec<Result<PathBuf, anyhow::Error>>) -> (r: ISResult)
    ensures
        r.paths@.map_values(|f: FileRef| f.0) == ok_paths(entries@),
        r.errors@ == err_entries(entries@),
{
    let ghost all = entries@;
    let mut entries = entries;
    let mut rest: Vec<Result<PathBuf, anyhow::Error>> = Vec::new();
    while entries.len() > 0
        invariant
            all == entries@ + rest@.reverse(),
        decreases entries.len(),
    {
        let e = entries.pop().unwrap();
        rest.push(e);
        proof {
            assert(all =~= entries@ + rest@.reverse());
        }
    }
    proof {
        assert(all =~= rest@.reverse());
    }
    let mut paths: Vec<FileRef> = Vec::new();
    let mut errors: Vec<anyhow::Error> = Vec::new();
    let ghost mut done: int = 0;
    proof {
        assert(all.take(0) =~= Seq::<Result<PathBuf, anyhow::Error>>::empty());
        assert(paths@.map_values(|f: FileRef| f.0) =~= ok_paths(all.take(0)));
        assert(errors@ =~= err_entries(all.take(0)));
    }
    while rest.len() > 0
        invariant
            0 <= done <= all.len(),
            done + rest@.len() == all.len(),
            forall|i: int| 0 <= i < rest@.len() ==> all[done + i] == #[trigger] rest@.reverse()[i],
            paths@.map_values(|f: FileRef| f.0) == ok_paths(all.take(done)),
            errors@ == err_entries(all.take(done)),
        decreases rest.len(),
    {
        let ghost before = rest@;
        let e = rest.pop().unwrap();
        proof {
            assert(before.reverse()[0] == e);
            assert(all[done] == e);
            assert forall|i: int| 0 <= i < rest@.len() implies all[done + 1 + i] == #[trigger] rest@.reverse()[i] by {
                assert(rest@.reverse()[i] == before.reverse()[i + 1]);
            }
            assert(all.take(done + 1).drop_last() =~= all.take(done));
            assert(all.take(done + 1).last() == e);
        }
        match e {
            Ok(p) => {
                paths.push(FileRef(p));
                proof {
                    assert(paths@.map_values(|f: FileRef| f.0) =~= ok_paths(all.take(done)).push(p));
                }
            },
            Err(err) => {
                errors.push(err);
            },
        }
        proof {
            done = done + 1;
        }
    }
    proof {
        assert(all.take(done) =~= all);
    }
    ISResult { paths, errors }
}

/// `r` holds what the listed entries `entries` hold: the paths of the successful ones and the
/// errors of the others, both in order.
pub open spec fn lists(r: ISResult, entries: Seq<Result<PathBuf, anyhow::Error>>) -> bool {
    &&& r.paths@.map_values(|f: FileRef| f.0) == ok_paths(entries)
    &&& r.errors@ == err_entries(entries)
}

/// `r` is what listing a directory gives when the walk returned `walked`: [`None`] when the
/// walk was stopped, else what it listed.
pub open spec fn walk_result(walked: Option<Vec<Result<PathBuf, anyhow::Error>>>, r: Option<ISResult>) -> bool {
    match walked {
        None => r is None,
        Some(entries) => r matches Some(res) && lists(res, entries@),
    }
}

impl ItemSource {
    /// The items of the source. For a directory, `walk_dir` lists the entries of the directory
    /// and everything below it, or returns [`None`] when asked to stop; then so does this.
    pub fn into_concrete<F: FnOnce(&FileRef) -> Option<Vec<Result<PathBuf, anyhow::Error>>>>(&self, walk_dir: F) -> (r: Option<ISResult>)
        requires
            self matches ItemSource::EntireDir(dir) ==> walk_dir.requires((&dir,)),
        ensures
            match *self {
                ItemSource::Enumerated(files) => r matches Some(res) && {
                    &&& res.paths@.len() == files@.len()
                    &&& forall|i: int| 0 <= i < files@.len() ==> vstd::pervasive::cloned(files@[i], #[trigger] res.paths@[i])
                    &&& res.errors@.len() == 0
                },
                ItemSource::EntireDir(dir) => exists|walked: Option<Vec<Result<PathBuf, anyhow::Error>>>|
                    #[trigger] walk_dir.ensures((&dir,), walked) && walk_result(walked, r),
            },
    {
        match self {
            ItemSource::Enumerated(files) => {
                let mut paths: Vec<FileRef> = Vec::new();
                for i in 0..files.len()
                    invariant
                        paths@.len() == i,
                        forall|k: int| 0 <= k < i ==> vstd::pervasive::cloned(files@[k], #[trigger] paths@[k]),
                {
                    paths.push(files[i].clone());
                }
                Some(ISResult { paths, errors: Vec::new() })
            },
            ItemSource::EntireDir(dir) => {
                let walked = walk_dir(dir);
                match walked {
                    Some(entries) => Some(partition_entries(entries)),
                    None => None,
                }
            },
        }
    }
}

impl ComplexItemSource {
    /// Computes what the source holds; `walk_dir` lists a directory and everything below it, or
    /// returns [`None`] when asked to stop; then so does this.
    pub fn create_cache<F: FnOnce(&FileRef) -> Option<Vec<Result<PathBuf, anyhow::Error>>>>(&self, walk_dir: F) -> (r: Option<ISResult>)
        requires
            match *self {
                ComplexItemSource::EntireDir(dir) => walk_dir.requires((&dir,)),
            },
        ensures
            match *self {
                ComplexItemSource::EntireDir(dir) => exists|walked: Option<Vec<Result<PathBuf, anyhow::Error>>>|
                    #[trigger] walk_dir.ensures((&dir,), walked) && walk_result(walked, r),
            },
    {
        match self {
            ComplexItemSource::EntireDir(dir) => {
                let walked = walk_dir(dir);
                match walked {
                    Some(entries) => Some(partition_entries(entries)),
                    None => None,
                }
            },
        }
    }
}

/// An item source that keeps what an expensive source holds once it has been computed.
pub struct CachingItemSource(ItemSourceInner);

enum ItemSourceInner {
    /// Complex source, with what it holds once computed
    Complex { it: ComplexItemSource, cache: Option<ISResult> },
    /// Specific enumerated items
    Enumerated(Vec<FileRef>),
}

impl CachingItemSource {
    /// Whether what the source holds is known without computing it.
    pub closed spec fn spec_is_fast(&self) -> bool {
        match self.0 {
            ItemSourceInner::Enumerated(_) => true,
            ItemSourceInner::Complex { cache, .. } => cache is Some,
        }
    }

    /// The paths the source holds, once known.
    pub closed spec fn known_paths(&self) -> Seq<FileRef> {
        match self.0 {
            ItemSourceInner::Enumerated(paths) => paths@,
            ItemSourceInner::Complex { cache, .. } => match cache {
                Some(c) => c.paths@,
                None => Seq::empty(),
            },
        }
    }

    /// The errors met while listing what the source holds, once known.
    pub closed spec fn known_errors(&self) -> Seq<anyhow::Error> {
        match self.0 {
            ItemSourceInner::Enumerated(_) => Seq::empty(),
            ItemSourceInner::Complex { cache, .. } => match cache {
                Some(c) => c.errors@,
                None => Seq::empty(),
            },
        }
    }

    /// The complex source behind, if any.
    pub closed spec fn complex(&self) -> Option<ComplexItemSource> {
        match self.0 {
            ItemSourceInner::Enumerated(_) => None,
            ItemSourceInner::Complex { it, .. } => Some(it),
        }
    }

    /// A caching source with nothing computed yet.
    pub fn new(value: ItemSource) -> (r: Self)
        ensures
            match value {
                ItemSource::Enumerated(paths) => r.spec_is_fast() && r.known_paths() == paths@ && r.complex() is None,
                ItemSource::EntireDir(dir) => !r.spec_is_fast() && r.complex() == Some(
                    ComplexItemSource::EntireDir(dir),
                ),
            },
    {
        match value {
            ItemSource::Enumerated(paths) => Self(ItemSourceInner::Enumerated(paths)),
            ItemSource::EntireDir(dir) => Self(
                ItemSourceInner::Complex { it: ComplexItemSource::EntireDir(dir), cache: None },
            ),
        }
    }

    /// Whether or not [`Self::into_concrete`] is fast to execute.
    pub fn is_fast(&self) -> (r: bool)
        ensures
            r == self.spec_is_fast(),
    {
        match &self.0 {
            ItemSourceInner::Enumerated(_) => true,
            ItemSourceInner::Complex { cache, .. } => cache.is_some(),
        }
    }

    /// Prepares the cache if it didn't exist; if it did, this is fast. `walk_dir` lists a
    /// directory and everything below it, or returns [`None`] when asked to stop.
    ///
    /// Returns `true` if it was not stopped and finished; then [`Self::into_concrete`] is fast.
    pub fn prepare_cache<F: FnOnce(&FileRef) -> Option<Vec<Result<PathBuf, anyhow::Error>>>>(&mut self, walk_dir: F) -> (r: bool)
        requires
            old(self).complex() matches Some(ComplexItemSource::EntireDir(dir)) ==> walk_dir.requires((&dir,)),
        ensures
            r == final(self).spec_is_fast(),
            final(self).complex() == old(self).complex(),
            old(self).spec_is_fast() ==> {
                &&& r
                &&& final(self).known_paths() == old(self).known_paths()
                &&& final(self).known_errors() == old(self).known_errors()
            },
            match old(self).complex() {
                Some(ComplexItemSource::EntireDir(dir)) => !old(self).spec_is_fast() ==> exists|
                    walked: Option<Vec<Result<PathBuf, anyhow::Error>>>,
                | {
                    &&& #[trigger] walk_dir.ensures((&dir,), walked)
                    &&& match walked {
                        None => !r,
                        Some(entries) => {
                            &&& r
                            &&& final(self).known_paths().map_values(|f: FileRef| f.0) == ok_paths(entries@)
                            &&& final(self).known_errors() == err_entries(entries@)
                        },
                    }
                },
                None => true,
            },
    {
        match &mut self.0 {
            ItemSourceInner::Complex { it, cache } => {
                if cache.is_none() {
                    let new_cache = it.create_cache(walk_dir);
                    match new_cache {
                        Some(c) => {
                            *cache = Some(c);
                            true
                        },
                        None => false,
                    }
                } else {
                    true
                }
            },
            ItemSourceInner::Enumerated(_) => true,
        }
    }

    /// The paths the source holds; lists them first with `walk_dir`, which lists a directory
    /// and everything below it, if they are not known yet.
    pub fn into_concrete<F: FnOnce(&FileRef) -> Vec<Result<PathBuf, anyhow::Error>>>(&mut self, walk_dir: F) -> (r: &Vec<FileRef>)
        requires
            old(self).complex() matches Some(ComplexItemSource::EntireDir(dir)) ==> walk_dir.requires((&dir,)),
        ensures
            final(self).spec_is_fast(),
            final(self).complex() == old(self).complex(),
            r@ == final(self).known_paths(),
            old(self).spec_is_fast() ==> {
                &&& final(self).known_paths() == old(self).known_paths()
                &&& final(self).known_errors() == old(self).known_errors()
            },
            match old(self).complex() {
                Some(ComplexItemSource::EntireDir(dir)) => !old(self).spec_is_fast() ==> exists|
                    entries: Vec<Result<PathBuf, anyhow::Error>>,
                | {
                    &&& #[trigger] walk_dir.ensures((&dir,), entries)
                    &&& r@.map_values(|f: FileRef| f.0) == ok_paths(entries@)
                    &&& final(self).known_errors() == err_entries(entries@)
                },
                None => true,
            },
    {
        match &mut self.0 {
            ItemSourceInner::Complex { it, cache } => {
                if cache.is_none() {
                    match it {
                        ComplexItemSource::EntireDir(dir) => {
                            let entries = walk_dir(dir);
                            *cache = Some(partition_entries(entries));
                        },
                    }
                }
            },
            ItemSourceInner::Enumerated(_) => {},
        }
        match &self.0 {
            ItemSourceInner::Complex { cache, .. } => &cache.as_ref().unwrap().paths,
            ItemSourceInner::Enumerated(paths) => paths,
        }
    }

    /// Clears the cache, making it empty until initialized with eg. [`Self::prepare_cache`]
    pub fn clear_cache(&mut self)
        ensures
            final(self).complex() == old(self).complex(),
            final(self).complex() is Some ==> !final(self).spec_is_fast(),
            final(self).complex() is None ==> final(self).known_paths() == old(self).known_paths(),
    {
        match &mut self.0 {
            ItemSourceInner::Complex { cache, .. } => {
                *cache = None;
            },
            ItemSourceInner::Enumerated(_) => {},
        }
    }
}

} // verus!
