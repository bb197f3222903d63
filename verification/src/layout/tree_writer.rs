//! Storing the tree of layouts of a file.

use crate::dtype::{bytes_copy, DType};
use crate::layout::tree::{
    copy_numbers, first_invalid, first_invalid_of, ids_view, loaded, loaded_all, Layout,
    LayoutError, LayoutView, StoredLayout, StoredLayoutView,
};
use std::sync::Arc;
use vstd::prelude::*;

verus! {

/// The most ids that numbers of 16 bits tell apart.
pub const MAX_IDS: usize = 65536;

/// The ids of the encodings that occur in a file, each with its place for a number.
#[derive(Debug)]
pub struct LayoutContext {
    ids: Vec<String>,
}

/// The ids after one more has been given a number, if it had none.
pub open spec fn interned(ids: Seq<Seq<char>>, id: Seq<char>) -> Seq<Seq<char>> {
    if ids.contains(id) {
        ids
    } else {
        ids.push(id)
    }
}

impl LayoutContext {
    /// The ids, in the order of their numbers.
    pub closed spec fn view(&self) -> Seq<Seq<char>> {
        ids_view(self.ids@)
    }

    /// Whether no id has two numbers, and there is a number for each.
    pub open spec fn wf(&self) -> bool {
        self@.no_duplicates() && self@.len() <= MAX_IDS
    }

    /// Makes a context without an id.
    pub fn new() -> (r: LayoutContext)
        ensures
            r.wf(),
            r@ == Seq::<Seq<char>>::empty(),
    {
        let r = LayoutContext { ids: Vec::new() };
        assert(r@ =~= Seq::<Seq<char>>::empty());
        r
    }

    /// Returns the ids, in the order of their numbers.
    pub fn into_ids(self) -> (r: Vec<String>)
        ensures
            ids_view(r@) == self@,
    {
        self.ids
    }

    /// Returns the number of an id, a new one if it has none; or nothing, if there is none left.
    pub fn intern(&mut self, id: &str) -> (r: Option<u16>)
        requires
            old(self).wf(),
        ensures
            final(self).wf(),
            r is Some <==> old(self)@.contains(id@) || old(self)@.len() < MAX_IDS,
            r is None ==> final(self)@ == old(self)@,
            r matches Some(n) ==> final(self)@ == interned(old(self)@, id@) && n < final(self)@.len()
                && final(self)@[n as int] == id@,
    {
        let ghost before = self@;
        let wanted: String = id.to_owned();
        let mut i: usize = 0;
        while i < self.ids.len()
            invariant
                0 <= i <= self.ids.len(),
                self@ == before,
                wanted@ == id@,
                before == ids_view(self.ids@),
                before.no_duplicates(),
                before.len() <= MAX_IDS,
                forall|j: int| 0 <= j < i ==> #[trigger] before[j] != id@,
            decreases self.ids.len() - i,
        {
            if self.ids[i] == wanted {
                assert(before[i as int] == id@);
                return Some(i as u16);
            }
            i += 1;
        }
        if self.ids.len() >= MAX_IDS {
            return None;
        }
        let n: u16 = self.ids.len() as u16;
        self.ids.push(wanted);
        assert(self@ =~= before.push(id@));
        Some(n)
    }
}

/// The ids after those of a tree have been given numbers, the ones below a node before its own.
pub open spec fn ids_after(t: LayoutView, ids: Seq<Seq<char>>) -> Seq<Seq<char>>
    decreases t,
{
    interned(ids_after_all(t.children, ids), t.encoding_id)
}

/// The ids after those of trees have been given numbers, from left to right.
pub open spec fn ids_after_all(ts: Seq<LayoutView>, ids: Seq<Seq<char>>) -> Seq<Seq<char>>
    decreases ts,
{
    if ts.len() == 0 {
        ids
    } else {
        ids_after(ts[ts.len() - 1], ids_after_all(ts.drop_last(), ids))
    }
}

/// A tree as it is stored, where the ids have these numbers.
pub open spec fn stored(t: LayoutView, ids: Seq<Seq<char>>) -> StoredLayoutView
    decreases t,
{
    StoredLayoutView {
        encoding: ids.index_of(t.encoding_id) as u16,
        row_count: t.row_count,
        metadata: t.metadata,
        segments: t.segment_ids,
        children: stored_all(t.children, ids),
    }
}

/// Trees as they are stored.
pub open spec fn stored_all(ts: Seq<LayoutView>, ids: Seq<Seq<char>>) -> Seq<StoredLayoutView>
    decreases ts,
{
    Seq::new(
        ts.len(),
        |i: int|
            if 0 <= i < ts.len() {
                stored(ts[i], ids)
            } else {
                arbitrary()
            },
    )
}

/// Whether all ids of a tree have numbers.
pub open spec fn has_ids(t: LayoutView, ids: Seq<Seq<char>>) -> bool
    decreases t,
{
    &&& ids.contains(t.encoding_id)
    &&& forall|i: int| 0 <= i < t.children.len() ==> has_ids(#[trigger] t.children[i], ids)
}

/// Whether numbers were only added.
pub open spec fn extends(ids: Seq<Seq<char>>, more: Seq<Seq<char>>) -> bool {
    ids.len() <= more.len() && more.take(ids.len() as int) == ids
}

proof fn lemma_index_stays(ids: Seq<Seq<char>>, more: Seq<Seq<char>>, id: Seq<char>)
    requires
        extends(ids, more),
        more.no_duplicates(),
        ids.contains(id),
    ensures
        more.contains(id),
        more.index_of(id) == ids.index_of(id),
        ids[ids.index_of(id)] == id,
        0 <= ids.index_of(id) < ids.len(),
{
    let k = ids.index_of(id);
    assert(ids[k] == id);
    assert(more.take(ids.len() as int)[k] == more[k]);
    let m = more.index_of(id);
    assert(more[m] == id);
}

proof fn lemma_stored_stays(t: LayoutView, ids: Seq<Seq<char>>, more: Seq<Seq<char>>)
    requires
        extends(ids, more),
        more.no_duplicates(),
        has_ids(t, ids),
    ensures
        stored(t, more) == stored(t, ids),
        has_ids(t, more),
    decreases t,
{
    lemma_index_stays(ids, more, t.encoding_id);
    assert forall|i: int| 0 <= i < t.children.len() implies stored(#[trigger] t.children[i], more)
        == stored(t.children[i], ids) && has_ids(t.children[i], more) by {
        lemma_stored_stays(t.children[i], ids, more);
    }
    assert(stored_all(t.children, more) =~= stored_all(t.children, ids));
}

proof fn lemma_extends_is_transitive(a: Seq<Seq<char>>, b: Seq<Seq<char>>, c: Seq<Seq<char>>)
    requires
        extends(a, b),
        extends(b, c),
    ensures
        extends(a, c),
{
    assert forall|i: int| 0 <= i < a.len() implies c[i] == a[i] by {
        assert(b.take(a.len() as int)[i] == b[i]);
        assert(c.take(b.len() as int)[i] == c[i]);
    }
    assert(c.take(a.len() as int) =~= a);
}

proof fn lemma_after_all_grows(ts: Seq<LayoutView>, ids: Seq<Seq<char>>, n: int)
    requires
        0 <= n <= ts.len(),
    ensures
        extends(ids_after_all(ts.take(n), ids), ids_after_all(ts, ids)),
    decreases ts.len() - n,
{
    let now = ids_after_all(ts.take(n), ids);
    if n < ts.len() {
        assert(ts.take(n + 1).drop_last() =~= ts.take(n));
        lemma_after_grows(ts[n], now);
        lemma_after_all_grows(ts, ids, n + 1);
        lemma_extends_is_transitive(
            now,
            ids_after_all(ts.take(n + 1), ids),
            ids_after_all(ts, ids),
        );
    } else {
        assert(ts.take(n) =~= ts);
        assert(now.take(now.len() as int) =~= now);
    }
}

proof fn lemma_after_grows(t: LayoutView, ids: Seq<Seq<char>>)
    ensures
        extends(ids, ids_after(t, ids)),
    decreases t,
{
    let below = ids_after_all(t.children, ids);
    lemma_after_all_grows_from(t.children, ids);
    lemma_interned_extends(below, t.encoding_id);
    lemma_extends_is_transitive(ids, below, ids_after(t, ids));
}

proof fn lemma_interned_extends(ids: Seq<Seq<char>>, id: Seq<char>)
    ensures
        extends(ids, interned(ids, id)),
{
    assert(interned(ids, id).take(ids.len() as int) =~= ids);
}

proof fn lemma_after_all_grows_from(ts: Seq<LayoutView>, ids: Seq<Seq<char>>)
    ensures
        extends(ids, ids_after_all(ts, ids)),
    decreases ts,
{
    if ts.len() > 0 {
        let before = ids_after_all(ts.drop_last(), ids);
        lemma_after_all_grows_from(ts.drop_last(), ids);
        lemma_after_grows(ts[ts.len() - 1], before);
        lemma_extends_is_transitive(ids, before, ids_after_all(ts, ids));
    } else {
        assert(ids.take(ids.len() as int) =~= ids);
    }
}

/// What is at a place in ids stays there in ids that extend them.
proof fn lemma_extends_keeps(a: Seq<Seq<char>>, b: Seq<Seq<char>>, n: int)
    requires
        extends(a, b),
        0 <= n < a.len(),
    ensures
        b.len() > n,
        b[n] == a[n],
        b.take(n) == a.take(n),
{
    assert forall|i: int| 0 <= i < a.len() implies b[i] == a[i] by {
        assert(b.take(a.len() as int)[i] == b[i]);
    }
    assert(b.take(n) =~= a.take(n));
}

/// Returns a tree as it is stored. The ids of its encodings are given numbers where they have none;
/// the first id for which no number is left is refused.
pub fn write_flatbuffer(t: &Layout, ctx: &mut LayoutContext) -> (r: Result<
    StoredLayout,
    LayoutError,
>)
    requires
        old(ctx).wf(),
    ensures
        final(ctx).wf(),
        extends(old(ctx)@, final(ctx)@),
        r is Ok <==> ids_after(t@, old(ctx)@).len() <= MAX_IDS,
        r matches Ok(s) ==> final(ctx)@ == ids_after(t@, old(ctx)@) && has_ids(t@, final(ctx)@) && s@
            == stored(t@, final(ctx)@),
        r matches Err(e) ==> (e matches LayoutError::NotInterned(id) && id@ == ids_after(
            t@,
            old(ctx)@,
        )[MAX_IDS as int] && final(ctx)@ == ids_after(t@, old(ctx)@).take(MAX_IDS as int)),
    decreases t,
{
    let ghost first = ctx@;
    let mut children: Vec<StoredLayout> = Vec::new();
    let mut i: usize = 0;
    assert(t@.children.take(0) =~= Seq::empty());
    assert(first.take(first.len() as int) =~= first);
    while i < t.children.len()
        invariant
            0 <= i <= t.children.len(),
            ctx.wf(),
            extends(first, ctx@),
            first == old(ctx)@,
            ctx@ == ids_after_all(t@.children.take(i as int), first),
            children@.len() == i,
            forall|j: int|
                0 <= j < i ==> (#[trigger] children@[j])@ == stored(t@.children[j], ctx@),
            forall|j: int| 0 <= j < i ==> has_ids(#[trigger] t@.children[j], ctx@),
        decreases t.children.len() - i,
    {
        let ghost before = ctx@;
        proof {
            assert(decreases_to!(*t => t.children));
            assert(decreases_to!(t.children@ => t.children@[i as int]));
            let next = t@.children.take(i + 1);
            assert(next.drop_last() =~= t@.children.take(i as int));
            assert(next[i as int] == t.children@[i as int]@);
            lemma_after_all_grows(t@.children, first, i + 1);
            lemma_interned_extends(ids_after_all(t@.children, first), t@.encoding_id);
            lemma_extends_is_transitive(
                ids_after_all(next, first),
                ids_after_all(t@.children, first),
                ids_after(t@, first),
            );
        }
        match write_flatbuffer(&t.children[i], ctx) {
            Ok(child) => {
                proof {
                    lemma_extends_is_transitive(first, before, ctx@);
                    assert forall|j: int| 0 <= j < i implies (#[trigger] children@[j])@ == stored(
                        t@.children[j],
                        ctx@,
                    ) && has_ids(t@.children[j], ctx@) by {
                        lemma_stored_stays(t@.children[j], before, ctx@);
                    }
                    assert forall|j: int| 0 <= j < i implies has_ids(
                        #[trigger] t@.children[j],
                        ctx@,
                    ) by {
                        lemma_stored_stays(t@.children[j], before, ctx@);
                    }
                }
                children.push(child);
            },
            Err(e) => {
                proof {
                    lemma_extends_is_transitive(first, before, ctx@);
                    lemma_extends_keeps(
                        ids_after_all(t@.children.take(i + 1), first),
                        ids_after(t@, first),
                        MAX_IDS as int,
                    );
                }
                return Err(e);
            },
        }
        i += 1;
    }
    assert(t@.children.take(i as int) =~= t@.children);
    let ghost below = ctx@;
    let metadata = bytes_copy(&t.metadata);
    let segments = copy_numbers(&t.segment_ids);
    let encoding: u16 = match ctx.intern(t.encoding_id.as_str()) {
        Some(encoding) => encoding,
        None => {
            assert(ids_after(t@, first).take(MAX_IDS as int) =~= below);
            return Err(LayoutError::NotInterned(t.encoding_id.clone()));
        },
    };
    let r = StoredLayout { encoding, row_count: t.row_count, metadata, segments, children };
    proof {
        assert(ctx@.take(below.len() as int) =~= below);
        lemma_extends_is_transitive(first, below, ctx@);
        assert(ctx@.contains(t@.encoding_id)) by {
            assert(ctx@[encoding as int] == t@.encoding_id);
        }
        assert(ctx@[ctx@.index_of(t@.encoding_id)] == t@.encoding_id);
        assert forall|j: int| 0 <= j < t@.children.len() implies (#[trigger] r@.children[j])
            == stored(t@.children[j], ctx@) by {
            assert(children@[j]@ == stored(t@.children[j], below));
            lemma_stored_stays(t@.children[j], below, ctx@);
        }
        assert forall|j: int| 0 <= j < t@.children.len() implies has_ids(
            #[trigger] t@.children[j],
            ctx@,
        ) by {
            lemma_stored_stays(t@.children[j], below, ctx@);
        }
        assert(r@.children =~= stored_all(t@.children, ctx@));
    }
    Ok(r)
}

/// Whether each node of a tree has the type.
pub open spec fn all_of_type(t: LayoutView, dtype: Arc<DType>) -> bool
    decreases t,
{
    &&& t.dtype == dtype
    &&& forall|i: int| 0 <= i < t.children.len() ==> all_of_type(#[trigger] t.children[i], dtype)
}

/// What is stored is read back: a tree of one type throughout, stored with its ids, is read as the
/// same tree.
pub proof fn law_a_tree_is_read_back(t: LayoutView, dtype: Arc<DType>, ids: Seq<Seq<char>>)
    requires
        ids.no_duplicates(),
        ids.len() <= MAX_IDS,
        has_ids(t, ids),
        all_of_type(t, dtype),
    ensures
        first_invalid(stored(t, ids), ids) is None,
        loaded(stored(t, ids), dtype, ids) == t,
    decreases t,
{
    let s = stored(t, ids);
    let k = ids.index_of(t.encoding_id);
    assert(ids[k] == t.encoding_id);
    assert(0 <= k < ids.len());
    assert(s.encoding == k);
    assert forall|i: int| 0 <= i < t.children.len() implies first_invalid(
        #[trigger] s.children[i],
        ids,
    ) is None && loaded(s.children[i], dtype, ids) == t.children[i] by {
        assert(has_ids(t.children[i], ids));
        assert(all_of_type(t.children[i], dtype));
        law_a_tree_is_read_back(t.children[i], dtype, ids);
    }
    lemma_none_invalid(s.children, ids);
    assert(loaded_all(s.children, dtype, ids) =~= t.children);
}

proof fn lemma_none_invalid(ts: Seq<StoredLayoutView>, ids: Seq<Seq<char>>)
    requires
        forall|i: int| 0 <= i < ts.len() ==> first_invalid(#[trigger] ts[i], ids) is None,
    ensures
        first_invalid_of(ts, ids) is None,
    decreases ts.len(),
{
    if ts.len() > 0 {
        let before = ts.drop_last();
        assert(forall|i: int| 0 <= i < before.len() ==> #[trigger] before[i] == ts[i]);
        lemma_none_invalid(before, ids);
    }
}

/// Whether some node of a tree has the id.
pub open spec fn occurs(t: LayoutView, id: Seq<char>) -> bool
    decreases t,
{
    ||| t.encoding_id == id
    ||| exists|i: int| 0 <= i < t.children.len() && occurs(#[trigger] t.children[i], id)
}

/// Whether some node of some of the trees has the id.
pub open spec fn occurs_in(ts: Seq<LayoutView>, id: Seq<char>) -> bool {
    exists|i: int| 0 <= i < ts.len() && occurs(#[trigger] ts[i], id)
}

proof fn lemma_interned(ids: Seq<Seq<char>>, id: Seq<char>, x: Seq<char>)
    requires
        ids.no_duplicates(),
    ensures
        interned(ids, id).no_duplicates(),
        interned(ids, id).contains(x) <==> ids.contains(x) || x == id,
{
    let all = interned(ids, id);
    if !ids.contains(id) {
        assert(all[ids.len() as int] == id);
        if ids.contains(x) {
            let k = choose|k: int| 0 <= k < ids.len() && ids[k] == x;
            assert(all[k] == x);
        }
        if all.contains(x) && x != id {
            let k = choose|k: int| 0 <= k < all.len() && all[k] == x;
            assert(ids[k] == x);
        }
        assert forall|i: int, j: int|
            0 <= i < all.len() && 0 <= j < all.len() && i != j implies all[i] != all[j] by {
            if i == ids.len() {
                assert(ids.contains(ids[j]));
            } else if j == ids.len() {
                assert(ids.contains(ids[i]));
            }
        }
    }
}

proof fn lemma_ids_after_all(ts: Seq<LayoutView>, ids: Seq<Seq<char>>, x: Seq<char>)
    requires
        ids.no_duplicates(),
    ensures
        ids_after_all(ts, ids).no_duplicates(),
        ids_after_all(ts, ids).contains(x) <==> ids.contains(x) || occurs_in(ts, x),
    decreases ts,
{
    if ts.len() > 0 {
        let rest = ts.drop_last();
        let before = ids_after_all(rest, ids);
        lemma_ids_after_all(rest, ids, x);
        law_each_id_of_a_tree_has_one_number(ts[ts.len() - 1], before, x);
        if occurs_in(rest, x) {
            let i = choose|i: int| 0 <= i < rest.len() && occurs(#[trigger] rest[i], x);
            assert(occurs(ts[i], x));
        }
        if occurs_in(ts, x) && !occurs(ts[ts.len() - 1], x) {
            let i = choose|i: int| 0 <= i < ts.len() && occurs(#[trigger] ts[i], x);
            assert(occurs(rest[i], x));
        }
    }
}

/// Storing a tree gives each id that occurs in it one number, gives a number to no other id, and
/// changes no number that was given before.
pub proof fn law_each_id_of_a_tree_has_one_number(
    t: LayoutView,
    ids: Seq<Seq<char>>,
    x: Seq<char>,
)
    requires
        ids.no_duplicates(),
    ensures
        ids_after(t, ids).no_duplicates(),
        ids_after(t, ids).contains(x) <==> ids.contains(x) || occurs(t, x),
        forall|n: int| 0 <= n < ids.len() ==> #[trigger] ids[n] == ids_after(t, ids)[n],
        ids.len() <= ids_after(t, ids).len(),
    decreases t,
{
    let below = ids_after_all(t.children, ids);
    lemma_ids_after_all(t.children, ids, x);
    lemma_interned(below, t.encoding_id, x);
    lemma_after_grows(t, ids);
    assert forall|n: int| 0 <= n < ids.len() implies #[trigger] ids[n] == ids_after(
        t,
        ids,
    )[n] by {
        lemma_extends_keeps(ids, ids_after(t, ids), n);
    }
    if occurs(t, x) && x != t.encoding_id {
        assert(occurs_in(t.children, x));
    }
    if occurs_in(t.children, x) {
        assert(occurs(t, x));
    }
}

/// The ids below a node are given numbers before its own.
pub proof fn law_the_root_is_numbered_last(t: LayoutView, ids: Seq<Seq<char>>)
    requires
        ids.no_duplicates(),
        !ids.contains(t.encoding_id),
        !occurs_in(t.children, t.encoding_id),
    ensures
        ids_after(t, ids).last() == t.encoding_id,
{
    lemma_ids_after_all(t.children, ids, t.encoding_id);
}

/// A tree is stored node by node, in place: each with the number of its id, and with its rows, its
/// metadata and its segments.
pub proof fn law_a_tree_is_stored_node_by_node(t: LayoutView, ids: Seq<Seq<char>>, i: int)
    requires
        has_ids(t, ids),
        ids.len() <= MAX_IDS,
        0 <= i < t.children.len(),
    ensures
        ({
            let s = stored(t, ids);
            &&& s.encoding < ids.len() && ids[s.encoding as int] == t.encoding_id
            &&& s.row_count == t.row_count && s.metadata == t.metadata && s.segments == t.segment_ids
            &&& s.children.len() == t.children.len()
            &&& s.children[i] == stored(t.children[i], ids)
        }),
{
    let k = ids.index_of(t.encoding_id);
    assert(ids[k] == t.encoding_id && 0 <= k < ids.len());
}

} // verus!
