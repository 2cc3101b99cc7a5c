//! Rows built for one change, kept until the selection moves to another.
//! Session logs are append-only, so a given source is written once and never
//! changes: rows built for it stay valid across refreshes.

use vstd::prelude::*;
use crate::model::ChangeSource;

verus! {

/// Rows of type `T` built for the change at one source, if any.
pub struct RowCache<T> {
    pub entry: Option<(ChangeSource, Vec<T>)>,
}

/// Whether the cache holds rows for the change at `src`.
pub open spec fn fresh_for<T>(entry: Option<(ChangeSource, Vec<T>)>, src: Option<(Seq<char>, usize, usize)>) -> bool {
    match (entry, src) {
        (Some(e), Some(s)) => e.0@ == s,
        _ => false,
    }
}

impl<T> RowCache<T> {
    /// An empty cache.
    pub fn new() -> (res: RowCache<T>)
        ensures
            res.entry is None,
    {
        RowCache { entry: None }
    }

    /// Whether the cached rows were built for `src`; never when nothing is
    /// selected or nothing is cached.
    pub fn is_fresh_for(&self, src: Option<&ChangeSource>) -> (res: bool)
        ensures
            res == fresh_for(self.entry, match src { Some(s) => Some(s@), None => None }),
    {
        match (&self.entry, src) {
            (Some((cached, _)), Some(s)) => cached.same_as(s),
            _ => false,
        }
    }

    /// Keeps `rows` as the rows of the change at `src`.
    pub fn store(&mut self, src: ChangeSource, rows: Vec<T>)
        ensures
            final(self).entry == Some((src, rows)),
    {
        self.entry = Some((src, rows));
    }

    /// Forgets the cached rows.
    pub fn clear(&mut self)
        ensures
            final(self).entry is None,
    {
        self.entry = None;
    }

    /// The cached rows; none when nothing is cached.
    pub fn rows(&self) -> (res: &[T])
        ensures
            res@ == match self.entry {
                Some(e) => e.1@,
                None => Seq::<T>::empty(),
            },
    {
        match &self.entry {
            Some((_, rows)) => rows.as_slice(),
            None => {
                let empty: &[T] = &[];
                assert(empty@ =~= Seq::<T>::empty());
                empty
            },
        }
    }
}

/// What one stores is what one reads back, and the cache is then fresh for
/// that change and for no other.
pub proof fn law_store_then_read<T>(src: ChangeSource, rows: Vec<T>, other: (Seq<char>, usize, usize))
    ensures
        fresh_for(Some((src, rows)), Some(src@)),
        other != src@ ==> !fresh_for(Some((src, rows)), Some(other)),
        !fresh_for(Some((src, rows)), None),
        !fresh_for(None::<(ChangeSource, Vec<T>)>, Some(other)),
{
}

} // verus!
