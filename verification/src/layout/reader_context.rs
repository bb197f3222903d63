//! What the readers above publish for the readers below them.

use std::sync::Arc;
use vstd::prelude::*;

verus! {

/// A value that is published under an id.
#[derive(Debug)]
pub struct Published<D> {
    id: String,
    value: Arc<D>,
}

/// The values that the readers above a reader have published, each under an id, and the cache of
/// decoded segments that they share.
///
/// A context is never changed: publishing a value derives a new one. A reader finds the value of
/// the nearest reader above that published one under the id.
#[derive(Debug)]
pub struct LayoutReaderContext<D, C> {
    values: Arc<Vec<Published<D>>>,
    decoded_segment_cache: Option<Arc<C>>,
}

/// The ids of published values.
pub closed spec fn ids<D>(values: Seq<Published<D>>) -> Seq<Seq<char>> {
    Seq::new(values.len(), |i: int| values[i].id@)
}

impl<D, C> LayoutReaderContext<D, C> {
    /// The published values, by id.
    pub closed spec fn view(&self) -> Map<Seq<char>, Arc<D>> {
        Map::new(
            |id: Seq<char>| ids(self.values@).contains(id),
            |id: Seq<char>| self.values@[ids(self.values@).index_of(id)].value,
        )
    }

    /// The cache of decoded segments.
    pub closed spec fn cache(&self) -> Option<Arc<C>> {
        self.decoded_segment_cache
    }

    /// Whether no id is there twice.
    pub closed spec fn wf(&self) -> bool {
        ids(self.values@).no_duplicates()
    }

    /// Makes a context without a value.
    pub fn new() -> (r: Self)
        ensures
            r.wf(),
            r@ == Map::<Seq<char>, Arc<D>>::empty(),
            r.cache() is None,
    {
        let r = LayoutReaderContext { values: Arc::new(Vec::new()), decoded_segment_cache: None };
        assert(r@ =~= Map::<Seq<char>, Arc<D>>::empty());
        r
    }

    /// Returns a context with one more value, in place of one that was published under the same id.
    pub fn with(&self, id: &str, value: Arc<D>) -> (r: Self)
        requires
            self.wf(),
        ensures
            r.wf(),
            r@ == self@.insert(id@, value),
            r.cache() == self.cache(),
    {
        let ghost old_ids = ids(self.values@);
        let mut values: Vec<Published<D>> = Vec::new();
        let wanted: String = id.to_owned();
        let mut replaced: bool = false;
        let mut i: usize = 0;
        while i < self.values.len()
            invariant
                0 <= i <= self.values.len(),
                old_ids == ids(self.values@),
                wanted@ == id@,
                values@.len() == i,
                replaced == old_ids.take(i as int).contains(id@),
                forall|j: int|
                    0 <= j < i ==> (#[trigger] values@[j]).id@ == old_ids[j] && values@[j].value
                        == (if old_ids[j] == id@ {
                        value
                    } else {
                        self.values@[j].value
                    }),
            decreases self.values.len() - i,
        {
            let published = &self.values[i];
            let same: bool = published.id == wanted;
            proof {
                let (now, next) = (old_ids.take(i as int), old_ids.take(i + 1));
                assert(next =~= now.push(old_ids[i as int]));
                assert(next[i as int] == old_ids[i as int]);
                assert(next.contains(id@) == (now.contains(id@) || old_ids[i as int] == id@)) by {
                    if now.contains(id@) {
                        let j = choose|j: int| 0 <= j < now.len() && now[j] == id@;
                        assert(next[j] == id@);
                    }
                    if next.contains(id@) && old_ids[i as int] != id@ {
                        let j = choose|j: int| 0 <= j < next.len() && next[j] == id@;
                        assert(now[j] == id@);
                    }
                }
            }
            if same {
                replaced = true;
                values.push(Published { id: published.id.clone(), value: Arc::clone(&value) });
            } else {
                values.push(
                    Published { id: published.id.clone(), value: Arc::clone(&published.value) },
                );
            }
            i += 1;
        }
        assert(old_ids.take(i as int) =~= old_ids);
        let ghost others = values@;
        assert(ids(others) =~= old_ids);
        if !replaced {
            values.push(Published { id: wanted, value: Arc::clone(&value) });
        }
        let r = LayoutReaderContext {
            values: Arc::new(values),
            decoded_segment_cache: match &self.decoded_segment_cache {
                Some(cache) => Some(Arc::clone(cache)),
                None => None,
            },
        };
        proof {
            let new_ids = ids(r.values@);
            if replaced {
                assert(new_ids =~= old_ids);
            } else {
                assert(new_ids =~= old_ids.push(id@));
                assert(new_ids[old_ids.len() as int] == id@);
            }
            assert forall|x: Seq<char>| #[trigger]
                r@.dom().contains(x) == self@.insert(id@, value).dom().contains(x) by {
                if old_ids.contains(x) {
                    let j = old_ids.index_of(x);
                    assert(new_ids[j] == x);
                }
                if new_ids.contains(x) && x != id@ {
                    let j = new_ids.index_of(x);
                    assert(old_ids[j] == x);
                }
            }
            assert forall|x: Seq<char>| #[trigger] r@.dom().contains(x) implies r@[x]
                == self@.insert(id@, value)[x] by {
                let j = new_ids.index_of(x);
                assert(new_ids[j] == x);
                if x != id@ {
                    assert(old_ids[j] == x);
                    let k = old_ids.index_of(x);
                    assert(old_ids[k] == x);
                    assert(j == k);
                }
            }
            assert(r@ =~= self@.insert(id@, value));
        }
        r
    }

    /// Returns a context with another cache of decoded segments.
    pub fn with_decoded_segment_cache(&self, cache: Arc<C>) -> (r: Self)
        requires
            self.wf(),
        ensures
            r.wf(),
            r@ == self@,
            r.cache() == Some(cache),
    {
        LayoutReaderContext {
            values: Arc::clone(&self.values),
            decoded_segment_cache: Some(cache),
        }
    }

    /// Returns the cache of decoded segments.
    pub fn decoded_segment_cache(&self) -> (r: Option<Arc<C>>)
        ensures
            r == self.cache(),
    {
        match &self.decoded_segment_cache {
            Some(cache) => Some(Arc::clone(cache)),
            None => None,
        }
    }

    /// Returns what `downcast` makes of the value that is published under the id: nothing, if there
    /// is none or it is of another type.
    pub fn get<T, F: Fn(Arc<D>) -> Option<T>>(&self, id: &str, downcast: F) -> (r: Option<T>)
        requires
            self.wf(),
            forall|value: Arc<D>| #[trigger] downcast.requires((value,)),
        ensures
            !self@.dom().contains(id@) ==> r is None,
            self@.dom().contains(id@) ==> downcast.ensures((self@[id@],), r),
    {
        let ghost all = ids(self.values@);
        let wanted: String = id.to_owned();
        let mut i: usize = 0;
        while i < self.values.len()
            invariant
                0 <= i <= self.values.len(),
                self.wf(),
                all == ids(self.values@),
                wanted@ == id@,
                forall|value: Arc<D>| #[trigger] downcast.requires((value,)),
                forall|j: int| 0 <= j < i ==> #[trigger] all[j] != id@,
            decreases self.values.len() - i,
        {
            if self.values[i].id == wanted {
                proof {
                    assert(all[i as int] == id@);
                    let k = all.index_of(id@);
                    assert(all[k] == id@);
                    assert(k == i);
                }
                return downcast(Arc::clone(&self.values[i].value));
            }
            i += 1;
        }
        None
    }
}

/// The nearest reader above wins: what is published under an id is found under it, in place of what
/// was published there before, and all that is published under other ids is found as before.
pub proof fn law_the_nearest_wins<D>(
    above: Map<Seq<char>, Arc<D>>,
    id: Seq<char>,
    first: Arc<D>,
    second: Arc<D>,
    other: Seq<char>,
)
    requires
        other != id,
    ensures
        above.insert(id, first).insert(id, second)[id] == second,
        above.insert(id, first).insert(id, second) == above.insert(id, second),
        above.insert(id, second).dom().contains(other) == above.dom().contains(other),
        above.dom().contains(other) ==> above.insert(id, second)[other] == above[other],
{
    assert(above.insert(id, first).insert(id, second) =~= above.insert(id, second));
}

/// A reader finds what was published last under an id, and publishing under one id leaves what is
/// found under the others, and the cache, as they were.
pub proof fn law_the_nearest_value_is_found<D, C>(
    above: LayoutReaderContext<D, C>,
    id: &str,
    value: Arc<D>,
    below: LayoutReaderContext<D, C>,
    other: Seq<char>,
)
    requires
        call_ensures(LayoutReaderContext::<D, C>::with, (&above, id, value), below),
        other != id@,
    ensures
        below@.dom().contains(id@) && below@[id@] == value,
        below@.dom().contains(other) == above@.dom().contains(other),
        above@.dom().contains(other) ==> below@[other] == above@[other],
        below.cache() == above.cache(),
{
}

/// A cache is handed down in place of the one before, and changes no published value.
pub proof fn law_the_cache_is_handed_down<D, C>(
    above: LayoutReaderContext<D, C>,
    cache: Arc<C>,
    below: LayoutReaderContext<D, C>,
    found: Option<Arc<C>>,
)
    requires
        call_ensures(
            LayoutReaderContext::<D, C>::with_decoded_segment_cache,
            (&above, cache),
            below,
        ),
        call_ensures(LayoutReaderContext::<D, C>::decoded_segment_cache, (&below,), found),
    ensures
        found == Some(cache),
        below@ == above@,
{
}

} // verus!
