use vstd::prelude::*;

use crate::memo::{Memo, MemoModel, MemoStatus};
use crate::text;

verus! {

/// A stored row: the memo value together with its tombstone tag.
pub struct Row {
    pub memo: Memo,
    pub status: MemoStatus,
}

/// Mathematical value of a stored row.
pub ghost struct RowModel {
    pub memo: MemoModel,
    pub deleted: bool,
}

impl View for Row {
    type V = RowModel;

    open spec fn view(&self) -> RowModel {
        RowModel { memo: self.memo@, deleted: self.status.is_deleted() }
    }
}

/// The row that `create` appends for the given content, timestamp and id.
pub open spec fn row_created(content: Seq<char>, created_at: int, id: int) -> RowModel {
    RowModel { memo: MemoModel { id, content, created_at }, deleted: false }
}

/// Effect of `create` on the store: append a fresh active row whose id is
/// one past the number of rows ever created.
pub open spec fn spec_create(s: Seq<RowModel>, content: Seq<char>, created_at: int) -> Seq<
    RowModel,
> {
    s.push(row_created(content, created_at, s.len() as int + 1))
}

/// Effect of `softDelete` on the store: the row carrying `id` (if any) gets
/// its tombstone set; everything else is untouched. Idempotent by shape.
pub open spec fn spec_soft_delete(s: Seq<RowModel>, id: int) -> Seq<RowModel> {
    s.map(
        |i: int, r: RowModel|
            if r.memo.id == id {
                RowModel { memo: r.memo, deleted: true }
            } else {
                r
            },
    )
}

/// Effect of `updateContent` on the store: the row carrying `id` (if any)
/// gets the new content; its id, creation time and tombstone are untouched,
/// deliberately even when the row is already deleted.
pub open spec fn spec_update_content(s: Seq<RowModel>, id: int, content: Seq<char>) -> Seq<
    RowModel,
> {
    s.map(
        |i: int, r: RowModel|
            if r.memo.id == id {
                RowModel {
                    memo: MemoModel { id: r.memo.id, content, created_at: r.memo.created_at },
                    deleted: r.deleted,
                }
            } else {
                r
            },
    )
}

/// Some row of the store carries `id` and is still active.
pub open spec fn has_active(s: Seq<RowModel>, id: int) -> bool {
    exists|i: int| 0 <= i < s.len() && #[trigger] s[i].memo.id == id && !s[i].deleted
}

/// What `getActiveById` returns: the memo of the active row carrying `id`,
/// or nothing when no such row exists (absent or tombstoned alike).
pub open spec fn spec_get_active(s: Seq<RowModel>, id: int) -> Option<MemoModel> {
    if has_active(s, id) {
        let i = choose|i: int| 0 <= i < s.len() && #[trigger] s[i].memo.id == id && !s[i].deleted;
        Some(s[i].memo)
    } else {
        None
    }
}

/// View of an `Option<Memo>` as returned by the lookup operation.
pub open spec fn opt_model(r: Option<Memo>) -> Option<MemoModel> {
    match r {
        Some(m) => Some(m@),
        None => None,
    }
}

/// Number of rows of `s` that are still active.
pub open spec fn active_count(s: Seq<RowModel>) -> int
    decreases s.len(),
{
    if s.len() == 0 {
        0
    } else {
        active_count(s.drop_last()) + if s.last().deleted {
            0int
        } else {
            1int
        }
    }
}

/// Views of a sequence of memo records.
pub open spec fn views_of(ms: Seq<Memo>) -> Seq<MemoModel> {
    ms.map_values(|m: Memo| m@)
}

/// `m` is the memo of some active row among the first `n` rows of `s`.
pub open spec fn active_in_prefix(s: Seq<RowModel>, n: int, m: MemoModel) -> bool {
    exists|i: int| 0 <= i < n && i < s.len() && #[trigger] s[i].memo == m && !s[i].deleted
}

/// `m` is the memo of some active row of `s`.
pub open spec fn is_active_row(s: Seq<RowModel>, m: MemoModel) -> bool {
    active_in_prefix(s, s.len() as int, m)
}

/// Some record of `r` carries `id`.
pub open spec fn contains_id(r: Seq<MemoModel>, id: int) -> bool {
    exists|j: int| 0 <= j < r.len() && #[trigger] r[j].id == id
}

/// `m` occurs in `r`.
pub open spec fn model_in(r: Seq<MemoModel>, m: MemoModel) -> bool {
    exists|j: int| 0 <= j < r.len() && #[trigger] r[j] == m
}

/// Creation timestamps never increase along `r`.
pub open spec fn sorted_desc(r: Seq<MemoModel>) -> bool {
    forall|j1: int, j2: int|
        0 <= j1 <= j2 < r.len() ==> #[trigger] r[j1].created_at >= #[trigger] r[j2].created_at
}

/// No id occurs twice in `r`.
pub open spec fn distinct_ids(r: Seq<MemoModel>) -> bool {
    forall|j1: int, j2: int|
        0 <= j1 < j2 < r.len() ==> #[trigger] r[j1].id != #[trigger] r[j2].id
}

/// What `listActive` returns: the `limit` most recent active records (all of
/// them when fewer exist), most recent first. Rows with equal timestamps may
/// come in either order, so the result is pinned up to that choice: it is
/// exactly as long as it can be, sorted, duplicate-free, drawn from the
/// active rows, and no active row it omits is more recent than its last
/// entry.
pub open spec fn list_active_post(s: Seq<RowModel>, limit: int, r: Seq<MemoModel>) -> bool {
    &&& r.len() == if active_count(s) <= limit {
        active_count(s)
    } else {
        limit
    }
    &&& sorted_desc(r)
    &&& distinct_ids(r)
    &&& forall|j: int| 0 <= j < r.len() ==> is_active_row(s, #[trigger] r[j])
    &&& forall|i: int|
        0 <= i < s.len() && !s[i].deleted && !contains_id(r, #[trigger] s[i].memo.id) ==> r.len()
            == limit && (r.len() > 0 ==> s[i].memo.created_at <= r[r.len() - 1].created_at)
}

/// What `searchActive` returns: exactly the active records whose content
/// holds the needle as a literal substring, each once, in no promised order.
pub open spec fn search_active_post(s: Seq<RowModel>, needle: Seq<char>, r: Seq<MemoModel>) -> bool {
    &&& distinct_ids(r)
    &&& forall|j: int|
        0 <= j < r.len() ==> is_active_row(s, #[trigger] r[j]) && text::contains_sub(
            r[j].content,
            needle,
        )
    &&& forall|i: int|
        0 <= i < s.len() && !s[i].deleted && text::contains_sub(
            #[trigger] s[i].memo.content,
            needle,
        ) ==> contains_id(r, s[i].memo.id)
}

/// Every row of the store carries the id the store assigned to it: the row
/// at position `i` carries id `i + 1`. Ids are therefore unique, positive,
/// and never reused, since rows are never removed.
pub open spec fn wf_rows(s: Seq<RowModel>) -> bool {
    forall|i: int| 0 <= i < s.len() ==> #[trigger] s[i].memo.id == i + 1
}

proof fn lemma_views_of_push(q: Seq<Memo>, m: Memo)
    ensures
        views_of(q.push(m)) == views_of(q).push(m@),
{
    assert(views_of(q.push(m)) =~= views_of(q).push(m@));
}

proof fn lemma_views_of_insert(q: Seq<Memo>, p: int, m: Memo)
    requires
        0 <= p <= q.len(),
    ensures
        views_of(q.insert(p, m)) == views_of(q).insert(p, m@),
{
    q.insert_ensures(p, m);
    views_of(q).insert_ensures(p, m@);
    assert forall|i: int|
        0 <= i < views_of(q.insert(p, m)).len() implies views_of(q.insert(p, m))[i] == views_of(
        q,
    ).insert(p, m@)[i] by {
        if i < p {
        } else if i == p {
        } else {
            assert(q.insert(p, m)[(i - 1) + 1] == q[i - 1]);
            assert(views_of(q).insert(p, m@)[(i - 1) + 1] == views_of(q)[i - 1]);
        }
    }
    assert(views_of(q.insert(p, m)) =~= views_of(q).insert(p, m@));
}

proof fn lemma_views_of_subrange(q: Seq<Memo>, a: int, b: int)
    requires
        0 <= a <= b <= q.len(),
    ensures
        views_of(q.subrange(a, b)) == views_of(q).subrange(a, b),
{
    assert(views_of(q.subrange(a, b)) =~= views_of(q).subrange(a, b));
}

proof fn lemma_active_count_step(s: Seq<RowModel>, i: int)
    requires
        0 <= i < s.len(),
    ensures
        active_count(s.take(i + 1)) == active_count(s.take(i)) + if s[i].deleted {
            0int
        } else {
            1int
        },
{
    assert(s.take(i + 1).drop_last() =~= s.take(i));
    assert(s.take(i + 1).last() == s[i]);
}

/// The memo repository: a logically append-only store of memo rows with
/// tombstones. All durable state of the service lives here; the surrounding
/// I/O layer only translates requests into the operations below.
pub struct MemoRepository {
    rows: Vec<Row>,
}

impl View for MemoRepository {
    type V = Seq<RowModel>;

    closed spec fn view(&self) -> Seq<RowModel> {
        self.rows@.map_values(|r: Row| r@)
    }
}

impl MemoRepository {
    pub open spec fn wf(&self) -> bool {
        wf_rows(self@)
    }

    /// An empty store.
    pub fn new() -> (repo: MemoRepository)
        ensures
            repo@ == Seq::<RowModel>::empty(),
            repo.wf(),
    {
        let repo = MemoRepository { rows: Vec::new() };
        proof {
            assert(repo@ =~= Seq::<RowModel>::empty());
        }
        repo
    }

    /// Number of rows ever created, tombstoned ones included.
    pub fn row_count(&self) -> (n: usize)
        ensures
            n == self@.len(),
    {
        self.rows.len()
    }

    /// Inserts a new active record with the given content and caller-supplied
    /// timestamp, assigns the next fresh id, and returns the created record.
    /// Empty content is accepted; no validation is applied.
    pub fn create(&mut self, content: String, created_at: i64) -> (m: Memo)
        requires
            old(self).wf(),
            old(self)@.len() + 1 <= i32::MAX,
        ensures
            final(self).wf(),
            final(self)@ == spec_create(old(self)@, content@, created_at as int),
            m@ == (MemoModel {
                id: old(self)@.len() as int + 1,
                content: content@,
                created_at: created_at as int,
            }),
    {
        let id = (self.rows.len() + 1) as i32;
        let m = Memo { id, content, created_at };
        let row = Row { memo: m.duplicate(), status: MemoStatus::Active };
        proof {
            assert(row@ == row_created(m@.content, created_at as int, id as int));
        }
        self.rows.push(row);
        proof {
            assert(self@ =~= spec_create(old(self)@, m@.content, created_at as int));
        }
        m
    }

    /// Returns the record carrying `id` only while it is active; a
    /// tombstoned or never-assigned id yields nothing, not an error.
    pub fn get_active_by_id(&self, id: i32) -> (r: Option<Memo>)
        requires
            self.wf(),
        ensures
            opt_model(r) == spec_get_active(self@, id as int),
    {
        if id >= 1 && (id as usize) <= self.rows.len() {
            let idx = (id as usize) - 1;
            let row = &self.rows[idx];
            proof {
                assert(self@[idx as int] == row@);
            }
            if row.status == MemoStatus::Active {
                let m = row.memo.duplicate();
                proof {
                    assert(self@[idx as int].memo.id == id as int && !self@[idx as int].deleted);
                    assert(has_active(self@, id as int));
                    let i = choose|i: int|
                        0 <= i < self@.len() && #[trigger] self@[i].memo.id == id as int
                            && !self@[i].deleted;
                    assert(self@[i].memo.id == i + 1);
                    assert(i == idx as int);
                }
                Some(m)
            } else {
                proof {
                    assert forall|i: int|
                        0 <= i < self@.len() && #[trigger] self@[i].memo.id == id as int implies self@[i].deleted by {
                        assert(self@[i].memo.id == i + 1);
                    }
                }
                None
            }
        } else {
            proof {
                assert forall|i: int|
                    0 <= i < self@.len() && #[trigger] self@[i].memo.id == id as int implies self@[i].deleted by {
                    assert(self@[i].memo.id == i + 1);
                }
            }
            None
        }
    }

    /// Sets the tombstone of the record carrying `id`. A silent no-op when
    /// the id was never assigned or the record is already deleted: the
    /// caller is not told whether a row was affected.
    pub fn soft_delete(&mut self, id: i32)
        requires
            old(self).wf(),
        ensures
            final(self).wf(),
            final(self)@ == spec_soft_delete(old(self)@, id as int),
    {
        if id >= 1 && (id as usize) <= self.rows.len() {
            let idx = (id as usize) - 1;
            proof {
                assert(self@[idx as int] == self.rows@[idx as int]@);
            }
            let new_memo = self.rows[idx].memo.duplicate();
            let new_status = self.rows[idx].status.tombstone();
            self.rows[idx] = Row { memo: new_memo, status: new_status };
            proof {
                assert forall|i: int| 0 <= i < self@.len() implies self@[i] == spec_soft_delete(
                    old(self)@,
                    id as int,
                )[i] by {
                    assert(old(self)@[i].memo.id == i + 1);
                    assert(self@[i] == self.rows@[i]@);
                }
                assert(self@ =~= spec_soft_delete(old(self)@, id as int));
            }
        } else {
            proof {
                assert forall|i: int| 0 <= i < self@.len() implies self@[i] == spec_soft_delete(
                    old(self)@,
                    id as int,
                )[i] by {
                    assert(old(self)@[i].memo.id == i + 1);
                }
                assert(self@ =~= spec_soft_delete(old(self)@, id as int));
            }
        }
    }

    /// Overwrites the content of the record carrying `id`, leaving its id,
    /// creation time and tombstone untouched. Deliberately does not check
    /// the tombstone, as the original design does not: a deleted record
    /// stays silently editable, though the change is unobservable through
    /// the filtered reads. A never-assigned id is a silent no-op.
    pub fn update_content(&mut self, id: i32, new_content: String)
        requires
            old(self).wf(),
        ensures
            final(self).wf(),
            final(self)@ == spec_update_content(old(self)@, id as int, new_content@),
    {
        if id >= 1 && (id as usize) <= self.rows.len() {
            let idx = (id as usize) - 1;
            proof {
                assert(self@[idx as int] == self.rows@[idx as int]@);
            }
            let old_id = self.rows[idx].memo.id;
            let old_ts = self.rows[idx].memo.created_at;
            let old_status = self.rows[idx].status;
            self.rows[idx] = Row {
                memo: Memo { id: old_id, content: new_content, created_at: old_ts },
                status: old_status,
            };
            proof {
                assert forall|i: int| 0 <= i < self@.len() implies self@[i] == spec_update_content(
                    old(self)@,
                    id as int,
                    new_content@,
                )[i] by {
                    assert(old(self)@[i].memo.id == i + 1);
                    assert(self@[i] == self.rows@[i]@);
                }
                assert(self@ =~= spec_update_content(old(self)@, id as int, new_content@));
            }
        } else {
            proof {
                assert forall|i: int| 0 <= i < self@.len() implies self@[i] == spec_update_content(
                    old(self)@,
                    id as int,
                    new_content@,
                )[i] by {
                    assert(old(self)@[i].memo.id == i + 1);
                }
                assert(self@ =~= spec_update_content(old(self)@, id as int, new_content@));
            }
        }
    }

    /// Returns the `limit` most recent active records, most recent first
    /// (all of them when fewer exist). Records with equal creation times may
    /// come in either relative order. Tombstoned records never appear.
    pub fn list_active(&self, limit: usize) -> (r: Vec<Memo>)
        requires
            self.wf(),
        ensures
            list_active_post(self@, limit as int, views_of(r@)),
    {
        let ghost s = self@;
        let mut out: Vec<Memo> = Vec::new();
        proof {
            assert(views_of(out@) =~= Seq::<MemoModel>::empty());
            assert(s.take(0) =~= Seq::<RowModel>::empty());
        }
        let mut i: usize = 0;
        while i < self.rows.len()
            invariant
                self.wf(),
                s == self@,
                i <= self.rows.len(),
                self.rows@.len() == s.len(),
                views_of(out@).len() == active_count(s.take(i as int)),
                sorted_desc(views_of(out@)),
                distinct_ids(views_of(out@)),
                forall|j: int|
                    0 <= j < views_of(out@).len() ==> active_in_prefix(
                        s,
                        i as int,
                        #[trigger] views_of(out@)[j],
                    ),
                forall|k: int|
                    0 <= k < i && !s[k].deleted ==> model_in(
                        views_of(out@),
                        #[trigger] s[k].memo,
                    ),
            decreases self.rows.len() - i,
        {
            let row = &self.rows[i];
            proof {
                assert(s[i as int] == row@);
                lemma_active_count_step(s, i as int);
            }
            if row.status == MemoStatus::Active {
                let m = row.memo.duplicate();
                let mut p: usize = out.len();
                while p > 0 && out[p - 1].created_at < m.created_at
                    invariant
                        p <= out.len(),
                        forall|q: int|
                            p <= q < views_of(out@).len() ==> #[trigger] views_of(
                                out@,
                            )[q].created_at < m@.created_at,
                    decreases p,
                {
                    proof {
                        assert(views_of(out@)[p - 1].created_at == out@[p - 1]@.created_at);
                    }
                    p = p - 1;
                }
                proof {
                    assert(p == 0 || views_of(out@)[p - 1].created_at >= m@.created_at);
                }
                let ghost old_views = views_of(out@);
                proof {
                    lemma_views_of_insert(out@, p as int, m);
                    old_views.insert_ensures(p as int, m@);
                }
                out.insert(p, m);
                proof {
                    assert(views_of(out@) == old_views.insert(p as int, m@));
                    let nv = views_of(out@);
                    assert(m@ == s[i as int].memo);
                    assert(m@.id == i + 1);
                    // where each entry of the new sequence comes from
                    assert(nv[p as int] == m@);
                    assert(forall|j: int| 0 <= j < p ==> nv[j] == old_views[j]);
                    assert forall|j: int| p < j < nv.len() implies nv[j] == old_views[j - 1] by {
                        assert(old_views.insert(p as int, m@)[(j - 1) + 1] == old_views[j - 1]);
                    }
                    assert forall|j1: int, j2: int|
                        0 <= j1 <= j2 < nv.len() implies nv[j1].created_at >= nv[j2].created_at by {
                        if j1 < p && j2 == p {
                            assert(nv[j1] == old_views[j1]);
                            assert(old_views[j1].created_at >= old_views[p - 1].created_at);
                        } else if j1 == p && j2 > p {
                            assert(nv[j2] == old_views[j2 - 1]);
                            assert(old_views[j2 - 1].created_at < m@.created_at);
                        }
                    }
                    assert forall|j: int| 0 <= j < nv.len() implies active_in_prefix(
                        s,
                        i as int + 1,
                        #[trigger] nv[j],
                    ) by {
                        if j == p {
                            assert(s[i as int].memo == nv[j] && !s[i as int].deleted);
                        } else {
                            let v = if j < p {
                                old_views[j]
                            } else {
                                old_views[j - 1]
                            };
                            assert(active_in_prefix(s, i as int, v));
                            let k = choose|k: int|
                                0 <= k < i as int && k < s.len() && #[trigger] s[k].memo == v
                                    && !s[k].deleted;
                            assert(s[k].memo == nv[j] && !s[k].deleted);
                        }
                    }
                    assert forall|j1: int, j2: int|
                        0 <= j1 < j2 < nv.len() implies nv[j1].id != nv[j2].id by {
                        let v1 = nv[j1];
                        let v2 = nv[j2];
                        if j1 == p || j2 == p {
                            let w = if j1 == p {
                                v2
                            } else {
                                v1
                            };
                            assert(active_in_prefix(s, i as int, w));
                            let k = choose|k: int|
                                0 <= k < i as int && k < s.len() && #[trigger] s[k].memo == w
                                    && !s[k].deleted;
                            assert(w.id == k + 1);
                            assert(w.id < i + 1);
                        } else {
                            let o1 = if j1 < p {
                                j1
                            } else {
                                j1 - 1
                            };
                            let o2 = if j2 < p {
                                j2
                            } else {
                                j2 - 1
                            };
                            assert(v1 == old_views[o1] && v2 == old_views[o2]);
                            assert(o1 < o2);
                        }
                    }
                    assert forall|k: int| 0 <= k < i + 1 && !s[k].deleted implies model_in(
                        nv,
                        #[trigger] s[k].memo,
                    ) by {
                        if k == i as int {
                            assert(nv[p as int] == s[k].memo);
                        } else {
                            assert(model_in(old_views, s[k].memo));
                            let j = choose|j: int|
                                0 <= j < old_views.len() && #[trigger] old_views[j] == s[k].memo;
                            if j < p {
                                assert(nv[j] == s[k].memo);
                            } else {
                                assert(nv[j + 1] == s[k].memo);
                            }
                        }
                    }
                }
            }
            i = i + 1;
        }
        proof {
            assert(s.take(s.len() as int) =~= s);
        }
        let ghost full = views_of(out@);
        if out.len() > limit {
            proof {
                lemma_views_of_subrange(out@, 0, limit as int);
            }
            out.truncate(limit);
            proof {
                let r = views_of(out@);
                assert(r == full.subrange(0, limit as int));
                assert(forall|j: int| 0 <= j < r.len() ==> r[j] == full[j]);
                assert forall|i0: int|
                    0 <= i0 < s.len() && !s[i0].deleted && !contains_id(
                        r,
                        #[trigger] s[i0].memo.id,
                    ) implies r.len() == limit && (r.len() > 0 ==> s[i0].memo.created_at <= r[r.len()
                    - 1].created_at) by {
                    assert(model_in(full, s[i0].memo));
                    let j = choose|j: int|
                        0 <= j < full.len() && #[trigger] full[j] == s[i0].memo;
                    if j < limit {
                        assert(r[j].id == s[i0].memo.id);
                    } else {
                        if r.len() > 0 {
                            assert(full[limit - 1].created_at >= full[j].created_at);
                            assert(r[r.len() - 1] == full[limit - 1]);
                        }
                    }
                }
            }
        } else {
            proof {
                let r = views_of(out@);
                assert forall|i0: int|
                    0 <= i0 < s.len() && !s[i0].deleted && !contains_id(
                        r,
                        #[trigger] s[i0].memo.id,
                    ) implies r.len() == limit as int && (r.len() > 0 ==> s[i0].memo.created_at
                    <= r[r.len() - 1].created_at) by {
                    assert(model_in(r, s[i0].memo));
                    let j = choose|j: int| 0 <= j < r.len() && #[trigger] r[j] == s[i0].memo;
                    assert(r[j].id == s[i0].memo.id);
                }
            }
        }
        proof {
            assert forall|j: int| 0 <= j < views_of(out@).len() implies is_active_row(
                s,
                #[trigger] views_of(out@)[j],
            ) by {
                assert(active_in_prefix(s, s.len() as int, views_of(out@)[j]));
            }
        }
        out
    }

    /// Returns all active records whose content holds `needle` as a literal
    /// substring; tombstoned records are excluded whatever their content.
    /// No order is promised and no limit is applied.
    pub fn search_active(&self, needle: &str) -> (r: Vec<Memo>)
        requires
            self.wf(),
        ensures
            search_active_post(self@, needle@, views_of(r@)),
    {
        let ghost s = self@;
        let mut out: Vec<Memo> = Vec::new();
        proof {
            assert(views_of(out@) =~= Seq::<MemoModel>::empty());
        }
        let mut i: usize = 0;
        while i < self.rows.len()
            invariant
                self.wf(),
                s == self@,
                i <= self.rows.len(),
                self.rows@.len() == s.len(),
                distinct_ids(views_of(out@)),
                forall|j: int|
                    0 <= j < views_of(out@).len() ==> active_in_prefix(
                        s,
                        i as int,
                        #[trigger] views_of(out@)[j],
                    ) && text::contains_sub(views_of(out@)[j].content, needle@),
                forall|k: int|
                    0 <= k < i && !s[k].deleted && text::contains_sub(
                        #[trigger] s[k].memo.content,
                        needle@,
                    ) ==> contains_id(views_of(out@), s[k].memo.id),
            decreases self.rows.len() - i,
        {
            let row = &self.rows[i];
            proof {
                assert(s[i as int] == row@);
            }
            if row.status == MemoStatus::Active && text::str_contains(
                row.memo.content.as_str(),
                needle,
            ) {
                let m = row.memo.duplicate();
                let ghost old_views = views_of(out@);
                proof {
                    lemma_views_of_push(out@, m);
                }
                out.push(m);
                proof {
                    assert(views_of(out@) == old_views.push(m@));
                    assert(m@ == s[i as int].memo);
                    assert(m@.id == i + 1);
                    assert forall|j1: int, j2: int|
                        0 <= j1 < j2 < views_of(out@).len() implies views_of(out@)[j1].id
                        != views_of(out@)[j2].id by {
                        if j2 == views_of(out@).len() - 1 {
                            let v = views_of(out@)[j1];
                            assert(old_views[j1] == v);
                            assert(active_in_prefix(s, i as int, v));
                            let k = choose|k: int|
                                0 <= k < i as int && k < s.len() && #[trigger] s[k].memo == v
                                    && !s[k].deleted;
                            assert(s[k].memo.id == k + 1);
                        } else {
                            assert(old_views[j1] == views_of(out@)[j1]);
                            assert(old_views[j2] == views_of(out@)[j2]);
                        }
                    }
                    assert forall|k: int|
                        0 <= k < i + 1 && !s[k].deleted && text::contains_sub(
                            s[k].memo.content,
                            needle@,
                        ) implies contains_id(views_of(out@), s[k].memo.id) by {
                        if k == i as int {
                            assert(views_of(out@)[views_of(out@).len() - 1].id == s[k].memo.id);
                        } else {
                            assert(contains_id(old_views, s[k].memo.id));
                            let j = choose|j: int|
                                0 <= j < old_views.len() && #[trigger] old_views[j].id
                                    == s[k].memo.id;
                            assert(views_of(out@)[j].id == s[k].memo.id);
                        }
                    }
                }
            }
            i = i + 1;
        }
        proof {
            assert(i as int == s.len());
            assert forall|j: int| 0 <= j < views_of(out@).len() implies is_active_row(
                s,
                #[trigger] views_of(out@)[j],
            ) && text::contains_sub(views_of(out@)[j].content, needle@) by {
                assert(active_in_prefix(s, i as int, views_of(out@)[j]));
            }
        }
        out
    }
}

} // verus!
