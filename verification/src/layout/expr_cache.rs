//! A bounded memory of what was computed for expressions.

use crate::expr::expression::{Expression, ExpressionView};
use std::sync::Arc;
use vstd::prelude::*;

verus! {

/// The most entries that a cache has.
pub const MAX_ENTRIES: usize = 32;

/// What was computed for an expression.
#[derive(Debug)]
pub struct Entry<V> {
    expr: Arc<Expression>,
    value: V,
}

/// A cache of values by expression, with a bound on the number of entries.
///
/// An insertion into a full cache first clears it. What is computed for an expression whose value
/// can change while it is in use is never kept, nor is an error.
#[derive(Debug)]
pub struct ExpressionCache<V> {
    entries: Vec<Entry<V>>,
}

/// The place of an expression among entries, if it is there.
pub open spec fn has_key<V>(entries: Seq<(ExpressionView, V)>, key: ExpressionView) -> bool {
    exists|i: int| 0 <= i < entries.len() && (#[trigger] entries[i]).0 == key
}

/// The value of an expression among entries.
pub open spec fn value_of<V>(entries: Seq<(ExpressionView, V)>, key: ExpressionView) -> V {
    entries[choose|i: int| 0 <= i < entries.len() && (#[trigger] entries[i]).0 == key].1
}

/// The entries of which a new one is added: all of them, or none if the cache is full.
pub open spec fn kept<V>(entries: Seq<(ExpressionView, V)>) -> Seq<(ExpressionView, V)> {
    if entries.len() >= MAX_ENTRIES {
        Seq::empty()
    } else {
        entries
    }
}

impl<V> Default for ExpressionCache<V> {
    fn default() -> (r: Self)
        ensures
            r.wf(),
            r@ == Seq::<(ExpressionView, V)>::empty(),
    {
        let r = ExpressionCache { entries: Vec::new() };
        assert(r@ =~= Seq::<(ExpressionView, V)>::empty());
        r
    }
}

impl<V> ExpressionCache<V> {
    /// The entries, in the order in which they were made.
    pub closed spec fn view(&self) -> Seq<(ExpressionView, V)> {
        Seq::new(self.entries@.len(), |i: int| (self.entries@[i].expr@, self.entries@[i].value))
    }

    /// Whether the cache is within its bound, has no expression twice and none whose value can
    /// change.
    pub open spec fn wf(&self) -> bool {
        &&& self@.len() <= MAX_ENTRIES
        &&& forall|i: int, j: int|
            #![trigger self@[i], self@[j]]
            0 <= i < j < self@.len() ==> self@[i].0 != self@[j].0
        &&& forall|i: int| 0 <= i < self@.len() ==> !(#[trigger] self@[i]).0.contains_dynamic()
    }

    /// Returns the number of entries.
    pub fn len(&self) -> (r: usize)
        ensures
            r == self@.len(),
    {
        self.entries.len()
    }

    /// Returns the place of the expression among the entries.
    fn position(&self, expr: &Expression) -> (r: Option<usize>)
        ensures
            r is Some <==> has_key(self@, expr@),
            r matches Some(i) ==> i < self@.len() && self@[i as int].0 == expr@,
    {
        let mut i: usize = 0;
        while i < self.entries.len()
            invariant
                0 <= i <= self.entries.len(),
                forall|j: int| 0 <= j < i ==> (#[trigger] self@[j]).0 != expr@,
            decreases self.entries.len() - i,
        {
            assert(self@[i as int].0 == self.entries@[i as int].expr@);
            if self.entries[i].expr.equals(expr) {
                return Some(i);
            }
            i += 1;
        }
        None
    }
}

impl<V: Clone> ExpressionCache<V> {
    /// Returns the value that is kept for an expression.
    pub fn lookup(&self, expr: &Expression) -> (r: Option<V>)
        requires
            self.wf(),
        ensures
            r is Some <==> has_key(self@, expr@),
            r matches Some(v) ==> cloned(value_of(self@, expr@), v),
    {
        match self.position(expr) {
            Some(i) => {
                let ghost k = choose|k: int| 0 <= k < self@.len() && (#[trigger] self@[k]).0 == expr@;
                assert(k == i) by {
                    assert(self@[k].0 == self@[i as int].0);
                }
                Some(self.entries[i].value.clone())
            },
            None => None,
        }
    }

    /// Keeps a value for an expression, unless one is kept already, and returns the one that is.
    pub fn store(&mut self, expr: &Arc<Expression>, value: V) -> (r: V)
        requires
            old(self).wf(),
            !expr@.contains_dynamic(),
        ensures
            final(self).wf(),
            has_key(old(self)@, expr@) ==> final(self)@ == old(self)@ && cloned(
                value_of(old(self)@, expr@),
                r,
            ),
            !has_key(old(self)@, expr@) ==> r == value && exists|copy: V| #[trigger]
                cloned(value, copy) && final(self)@ == kept(old(self)@).push((expr@, copy)),
    {
        match self.lookup(expr) {
            Some(existing) => existing,
            None => {
                let copy = value.clone();
                let ghost before = self@;
                if self.entries.len() >= MAX_ENTRIES {
                    self.entries = Vec::new();
                }
                assert(self@ =~= kept(before));
                let ghost k = copy;
                self.entries.push(Entry { expr: Arc::clone(expr), value: copy });
                proof {
                    assert(self@ =~= kept(before).push((expr@, k)));
                    assert(cloned(value, k));
                }
                value
            },
        }
    }

    /// Returns the value that is kept for an expression, or computes it. What is computed is kept,
    /// but for an error, and for an expression whose value can change.
    pub fn get_or_try_insert_with<E, F: FnOnce() -> Result<V, E>>(
        &mut self,
        expr: &Arc<Expression>,
        init: F,
    ) -> (r: Result<V, E>)
        requires
            old(self).wf(),
            init.requires(()),
        ensures
            final(self).wf(),
            expr@.contains_dynamic() ==> final(self)@ == old(self)@ && init.ensures((), r),
            !expr@.contains_dynamic() && has_key(old(self)@, expr@) ==> final(self)@ == old(self)@
                && (r matches Ok(v) && cloned(value_of(old(self)@, expr@), v)),
            !expr@.contains_dynamic() && !has_key(old(self)@, expr@) ==> init.ensures((), r),
            !expr@.contains_dynamic() && !has_key(old(self)@, expr@) && r is Err ==> final(self)@
                == old(self)@,
            !expr@.contains_dynamic() && !has_key(old(self)@, expr@) && r is Ok ==> exists|copy: V|
                #[trigger] cloned(r->Ok_0, copy) && final(self)@ == kept(old(self)@).push(
                    (expr@, copy),
                ),
    {
        if expr.contains_dynamic() {
            return init();
        }
        match self.lookup(expr) {
            Some(value) => Ok(value),
            None => match init() {
                Ok(value) => Ok(self.store(expr, value)),
                Err(e) => Err(e),
            },
        }
    }

    /// Returns the value that is kept for an expression, or computes it. What is computed is kept,
    /// but for an expression whose value can change.
    pub fn get_or_insert_with<F: FnOnce() -> V>(&mut self, expr: &Arc<Expression>, init: F) -> (r: V)
        requires
            old(self).wf(),
            init.requires(()),
        ensures
            final(self).wf(),
            expr@.contains_dynamic() ==> final(self)@ == old(self)@ && init.ensures((), r),
            !expr@.contains_dynamic() && has_key(old(self)@, expr@) ==> final(self)@ == old(self)@
                && cloned(value_of(old(self)@, expr@), r),
            !expr@.contains_dynamic() && !has_key(old(self)@, expr@) ==> init.ensures((), r)
                && exists|copy: V| #[trigger]
                cloned(r, copy) && final(self)@ == kept(old(self)@).push((expr@, copy)),
    {
        if expr.contains_dynamic() {
            return init();
        }
        match self.lookup(expr) {
            Some(value) => value,
            None => {
                let value = init();
                self.store(expr, value)
            },
        }
    }
}

/// What is kept under a new expression is found under it, and what was kept under others before is
/// found too, unless the cache was full and has been cleared.
pub proof fn law_what_is_kept_is_found<V>(
    entries: Seq<(ExpressionView, V)>,
    key: ExpressionView,
    value: V,
    other: ExpressionView,
)
    requires
        !has_key(entries, key),
        forall|i: int, j: int|
            #![trigger entries[i], entries[j]]
            0 <= i < j < entries.len() ==> entries[i].0 != entries[j].0,
    ensures
        has_key(kept(entries).push((key, value)), key),
        value_of(kept(entries).push((key, value)), key) == value,
        other != key ==> has_key(kept(entries).push((key, value)), other) == (entries.len()
            < MAX_ENTRIES && has_key(entries, other)),
        other != key && entries.len() < MAX_ENTRIES && has_key(entries, other) ==> value_of(
            kept(entries).push((key, value)),
            other,
        ) == value_of(entries, other),
{
    let before = kept(entries);
    let after = before.push((key, value));
    let n = before.len() as int;
    assert(after[n].0 == key);
    let k = choose|i: int| 0 <= i < after.len() && (#[trigger] after[i]).0 == key;
    if k < n {
        assert(entries[k].0 == key);
    }
    if other != key {
        if has_key(after, other) {
            let i = choose|i: int| 0 <= i < after.len() && (#[trigger] after[i]).0 == other;
            assert(before[i].0 == other);
            assert(entries[i].0 == other);
        }
        if entries.len() < MAX_ENTRIES && has_key(entries, other) {
            let i = choose|i: int| 0 <= i < entries.len() && (#[trigger] entries[i]).0 == other;
            assert(after[i].0 == other);
            let j = choose|j: int| 0 <= j < after.len() && (#[trigger] after[j]).0 == other;
            assert(before[j].0 == other);
            assert(entries[j].0 == other);
            if i < j {
                assert(entries[i].0 != entries[j].0);
            }
            if j < i {
                assert(entries[j].0 != entries[i].0);
            }
        }
    }
}

} // verus!
