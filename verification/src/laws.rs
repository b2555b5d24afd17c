use vstd::prelude::*;

use crate::memo::MemoModel;
use crate::repo::{
    active_count, contains_id, has_active, is_active_row, list_active_post, search_active_post,
    sorted_desc, spec_create, spec_get_active, spec_soft_delete, spec_update_content, wf_rows,
    RowModel,
};

verus! {

/// After a create, looking the fresh id up yields an active record holding
/// exactly the given content and the given timestamp.
pub proof fn lemma_create_then_get(s: Seq<RowModel>, content: Seq<char>, created_at: int)
    requires
        wf_rows(s),
    ensures
        spec_get_active(spec_create(s, content, created_at), s.len() as int + 1) == Some(
            MemoModel { id: s.len() as int + 1, content, created_at },
        ),
{
    let s2 = spec_create(s, content, created_at);
    let id = s.len() as int + 1;
    assert(s2[s.len() as int].memo.id == id && !s2[s.len() as int].deleted);
    assert(has_active(s2, id));
    let i = choose|i: int| 0 <= i < s2.len() && #[trigger] s2[i].memo.id == id && !s2[i].deleted;
    if i < s.len() {
        assert(s[i].memo.id == i + 1);
    }
    assert(i == s.len() as int);
}

/// A soft delete hides the id from lookup: afterwards no row carrying it is
/// active, so the lookup returns nothing.
pub proof fn lemma_soft_delete_hides_get(s: Seq<RowModel>, id: int)
    ensures
        spec_get_active(spec_soft_delete(s, id), id) is None,
{
    let s2 = spec_soft_delete(s, id);
    assert forall|i: int|
        0 <= i < s2.len() && #[trigger] s2[i].memo.id == id implies s2[i].deleted by {
        assert(s2[i] == if s[i].memo.id == id {
            RowModel { memo: s[i].memo, deleted: true }
        } else {
            s[i]
        });
    }
    assert(!has_active(s2, id));
}

/// After a soft delete, no listing outcome carries the deleted id, whatever
/// the limit.
pub proof fn lemma_soft_delete_absent_from_list(
    s: Seq<RowModel>,
    id: int,
    limit: int,
    r: Seq<MemoModel>,
)
    requires
        list_active_post(spec_soft_delete(s, id), limit, r),
    ensures
        !contains_id(r, id),
{
    let s2 = spec_soft_delete(s, id);
    if contains_id(r, id) {
        let j = choose|j: int| 0 <= j < r.len() && #[trigger] r[j].id == id;
        assert(is_active_row(s2, r[j]));
        let i = choose|i: int|
            0 <= i < s2.len() && i < s2.len() && #[trigger] s2[i].memo == r[j] && !s2[i].deleted;
        assert(s2[i] == if s[i].memo.id == id {
            RowModel { memo: s[i].memo, deleted: true }
        } else {
            s[i]
        });
    }
}

/// After a soft delete, no search outcome carries the deleted id, whatever
/// the needle.
pub proof fn lemma_soft_delete_absent_from_search(
    s: Seq<RowModel>,
    id: int,
    needle: Seq<char>,
    r: Seq<MemoModel>,
)
    requires
        search_active_post(spec_soft_delete(s, id), needle, r),
    ensures
        !contains_id(r, id),
{
    let s2 = spec_soft_delete(s, id);
    if contains_id(r, id) {
        let j = choose|j: int| 0 <= j < r.len() && #[trigger] r[j].id == id;
        assert(is_active_row(s2, r[j]));
        let i = choose|i: int|
            0 <= i < s2.len() && i < s2.len() && #[trigger] s2[i].memo == r[j] && !s2[i].deleted;
        assert(s2[i] == if s[i].memo.id == id {
            RowModel { memo: s[i].memo, deleted: true }
        } else {
            s[i]
        });
    }
}

/// A tombstone is permanent: every further operation leaves an already
/// deleted row deleted (and no operation ever clears a tombstone).
pub proof fn lemma_tombstone_permanent(
    s: Seq<RowModel>,
    i: int,
    id: int,
    content: Seq<char>,
    created_at: int,
)
    requires
        0 <= i < s.len(),
        s[i].deleted,
    ensures
        spec_create(s, content, created_at)[i].deleted,
        spec_soft_delete(s, id)[i].deleted,
        spec_update_content(s, id, content)[i].deleted,
{
}

/// Every operation keeps the store well formed and never shrinks it, so a
/// law that holds of well-formed stores keeps holding as operations pile up.
pub proof fn lemma_ops_preserve_wf(s: Seq<RowModel>, id: int, content: Seq<char>, created_at: int)
    requires
        wf_rows(s),
    ensures
        wf_rows(spec_create(s, content, created_at)),
        wf_rows(spec_soft_delete(s, id)),
        wf_rows(spec_update_content(s, id, content)),
        spec_create(s, content, created_at).len() == s.len() + 1,
        spec_soft_delete(s, id).len() == s.len(),
        spec_update_content(s, id, content).len() == s.len(),
{
}

/// Once a row is tombstoned its id stays hidden from lookup, and stays so
/// after any further create, soft delete or content update: a fresh create
/// always takes an id past every existing one, so a dead id is never
/// resurrected. With [`lemma_tombstone_permanent`] and
/// [`lemma_ops_preserve_wf`] this extends over any run of operations.
pub proof fn lemma_deleted_stays_hidden(
    s: Seq<RowModel>,
    id: int,
    id2: int,
    content: Seq<char>,
    created_at: int,
)
    requires
        wf_rows(s),
        1 <= id <= s.len(),
        s[id - 1].deleted,
    ensures
        spec_get_active(s, id) is None,
        spec_get_active(spec_create(s, content, created_at), id) is None,
        spec_get_active(spec_soft_delete(s, id2), id) is None,
        spec_get_active(spec_update_content(s, id2, content), id) is None,
{
    let sc = spec_create(s, content, created_at);
    let sd = spec_soft_delete(s, id2);
    let su = spec_update_content(s, id2, content);
    assert forall|i: int| 0 <= i < s.len() && #[trigger] s[i].memo.id == id implies s[i].deleted by {
        assert(s[i].memo.id == i + 1);
    }
    assert(!has_active(s, id));
    assert forall|i: int|
        0 <= i < sc.len() && #[trigger] sc[i].memo.id == id implies sc[i].deleted by {
        if i < s.len() {
            assert(sc[i] == s[i]);
            assert(s[i].memo.id == i + 1);
        } else {
            assert(sc[i].memo.id == s.len() + 1);
        }
    }
    assert(!has_active(sc, id));
    assert forall|i: int|
        0 <= i < sd.len() && #[trigger] sd[i].memo.id == id implies sd[i].deleted by {
        assert(sd[i].memo.id == s[i].memo.id && (sd[i].deleted || sd[i] == s[i]));
        assert(s[i].memo.id == i + 1);
    }
    assert(!has_active(sd, id));
    assert forall|i: int|
        0 <= i < su.len() && #[trigger] su[i].memo.id == id implies su[i].deleted by {
        assert(su[i].memo.id == s[i].memo.id && su[i].deleted == s[i].deleted);
        assert(s[i].memo.id == i + 1);
    }
    assert(!has_active(su, id));
}

/// A soft delete of an id that no row carries changes nothing at all.
pub proof fn lemma_soft_delete_no_such_id(s: Seq<RowModel>, id: int)
    requires
        forall|i: int| 0 <= i < s.len() ==> #[trigger] s[i].memo.id != id,
    ensures
        spec_soft_delete(s, id) == s,
{
    assert(spec_soft_delete(s, id) =~= s);
}

/// A listing holds at most `limit` records, each the memo of an active row,
/// in descending order of creation time.
pub proof fn lemma_list_active_bounds(s: Seq<RowModel>, limit: int, r: Seq<MemoModel>)
    requires
        list_active_post(s, limit, r),
    ensures
        r.len() <= limit,
        sorted_desc(r),
        forall|j: int| 0 <= j < r.len() ==> is_active_row(s, #[trigger] r[j]),
{
}

/// A content update changes nothing but the content of the row carrying the
/// id: every id, creation time and tombstone stays, every other row stays
/// whole. The new content is visible through lookup exactly when the row is
/// still active; a deleted row swallows the change unobservably.
pub proof fn lemma_update_content_get(s: Seq<RowModel>, id: int, content: Seq<char>)
    requires
        wf_rows(s),
    ensures
        spec_update_content(s, id, content).len() == s.len(),
        forall|i: int|
            0 <= i < s.len() ==> {
                let r2 = #[trigger] spec_update_content(s, id, content)[i];
                &&& r2.memo.id == s[i].memo.id
                &&& r2.memo.created_at == s[i].memo.created_at
                &&& r2.deleted == s[i].deleted
                &&& (s[i].memo.id != id ==> r2 == s[i])
                &&& (s[i].memo.id == id ==> r2.memo.content == content)
            },
        has_active(s, id) ==> spec_get_active(spec_update_content(s, id, content), id) == Some(
            MemoModel { id, content, created_at: s[id - 1].memo.created_at },
        ),
        !has_active(s, id) ==> spec_get_active(spec_update_content(s, id, content), id) is None,
{
    let s2 = spec_update_content(s, id, content);
    assert forall|i: int| 0 <= i < s.len() implies {
        let r2 = #[trigger] s2[i];
        &&& r2.memo.id == s[i].memo.id
        &&& r2.memo.created_at == s[i].memo.created_at
        &&& r2.deleted == s[i].deleted
        &&& (s[i].memo.id != id ==> r2 == s[i])
        &&& (s[i].memo.id == id ==> r2.memo.content == content)
    } by {
        assert(s[i].memo.id == i + 1);
    }
    if has_active(s, id) {
        let w = choose|i: int| 0 <= i < s.len() && #[trigger] s[i].memo.id == id && !s[i].deleted;
        assert(w == id - 1);
        assert(s2[w].memo.id == id && !s2[w].deleted);
        assert(has_active(s2, id));
        let i = choose|i: int|
            0 <= i < s2.len() && #[trigger] s2[i].memo.id == id && !s2[i].deleted;
        assert(s2[i].memo.id == i + 1);
        assert(i == id - 1);
        assert(s2[i].memo == MemoModel { id, content, created_at: s[id - 1].memo.created_at });
    } else {
        assert forall|i: int|
            0 <= i < s2.len() && #[trigger] s2[i].memo.id == id implies s2[i].deleted by {
            assert(s[i].memo.id == i + 1);
            assert(!(s[i].memo.id == id && !s[i].deleted));
        }
        assert(!has_active(s2, id));
    }
}

/// Creation leaves every existing row whole and grows the store by exactly
/// the new active row: the store is append-only.
pub proof fn lemma_create_appends(s: Seq<RowModel>, content: Seq<char>, created_at: int)
    ensures
        spec_create(s, content, created_at).len() == s.len() + 1,
        forall|i: int|
            0 <= i < s.len() ==> #[trigger] spec_create(s, content, created_at)[i] == s[i],
        active_count(spec_create(s, content, created_at)) == active_count(s) + 1,
{
    let s2 = spec_create(s, content, created_at);
    assert(s2.drop_last() =~= s);
    assert(!s2.last().deleted);
}

} // verus!
