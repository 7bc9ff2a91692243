//! Dependency genres: user-defined categories on dependency edges, ordered
//! per project by position.

use vstd::prelude::*;

verus! {

use crate::task::Id;

/// A genre row.
#[derive(Clone)]
pub struct DependencyGenre {
    pub id: Id,
    pub project_id: Id,
    pub name: String,
    pub color: String,
    pub position: i32,
    pub created_at: i64,
    pub updated_at: i64,
}

/// Payload for creating a genre.
#[derive(Clone)]
pub struct CreateDependencyGenre {
    pub project_id: Id,
    pub name: String,
    pub color: Option<String>,
    pub position: Option<i32>,
}

/// Payload for updating a genre.
#[derive(Clone)]
pub struct UpdateDependencyGenre {
    pub name: Option<String>,
    pub color: Option<String>,
    pub position: Option<i32>,
}

/// Payload for reordering genres.
#[derive(Clone)]
pub struct ReorderGenresRequest {
    pub genre_ids: Vec<Id>,
}

/// Request body for creating a genre.
#[derive(Clone)]
pub struct CreateGenreRequest {
    pub name: String,
    pub color: Option<String>,
    pub position: Option<i32>,
}

/// Request body for updating a genre.
#[derive(Clone)]
pub struct UpdateGenreRequest {
    pub name: Option<String>,
    pub color: Option<String>,
    pub position: Option<i32>,
}

/// Request body for reordering genres.
#[derive(Clone)]
pub struct ReorderGenresApiRequest {
    pub genre_ids: Vec<Id>,
}

/// The id occurs in the list.
pub open spec fn ids_contain(ids: Seq<Id>, id: Id) -> bool {
    exists|j: int| 0 <= j < ids.len() && ids[j] == id
}

/// The last position of the id in the list (the position that a repeated
/// update, one per list entry in order, leaves behind).
pub open spec fn last_index_of(ids: Seq<Id>, id: Id) -> int
    decreases ids.len(),
{
    if ids.len() == 0 {
        -1
    } else if ids.last() == id {
        ids.len() - 1
    } else {
        last_index_of(ids.drop_last(), id)
    }
}

/// The position the reorder assigns to a genre: its (last) index in the
/// given order, or its old position if it is not named.
pub open spec fn reordered_position(ids: Seq<Id>, id: Id, old_position: i32) -> int {
    if ids_contain(ids, id) {
        last_index_of(ids, id)
    } else {
        old_position as int
    }
}

/// Reorder genres: the named genres get positions equal to their index in
/// the given order (0, 1, 2, ...); genres not named keep their position.
/// Every other field is kept; a reassigned genre gets the given update
/// time.
pub fn reorder_genres(genres: &mut Vec<DependencyGenre>, genre_ids: &Vec<Id>, now: i64)
    requires
        genre_ids@.len() <= i32::MAX as int,
    ensures
        final(genres)@.len() == old(genres)@.len(),
        forall|k: int|
            0 <= k < final(genres)@.len() ==> {
                let g = #[trigger] final(genres)@[k];
                let o = old(genres)@[k];
                g.id == o.id && g.project_id == o.project_id && g.name == o.name && g.color
                    == o.color && g.created_at == o.created_at && g.position as int
                    == reordered_position(genre_ids@, o.id, o.position) && g.updated_at == (
                if ids_contain(genre_ids@, o.id) {
                    now
                } else {
                    o.updated_at
                })
            },
{
    let m = genre_ids.len();
    for j in 0..m
        invariant
            m == genre_ids@.len(),
            m <= i32::MAX as int,
            genres@.len() == old(genres)@.len(),
            forall|k: int|
                0 <= k < genres@.len() ==> {
                    let g = #[trigger] genres@[k];
                    let o = old(genres)@[k];
                    g.id == o.id && g.project_id == o.project_id && g.name == o.name && g.color
                        == o.color && g.created_at == o.created_at && g.position as int
                        == reordered_position(genre_ids@.take(j as int), o.id, o.position)
                        && g.updated_at == (
                    if ids_contain(genre_ids@.take(j as int), o.id) {
                        now
                    } else {
                        o.updated_at
                    })
                },
    {
        proof {
            crate::seqs::lemma_take_succ(genre_ids@, j as int);
        }
        let target = genre_ids[j];
        let n = genres.len();
        for k in 0..n
            invariant
                n == genres@.len(),
                n == old(genres)@.len(),
                m == genre_ids@.len(),
                m <= i32::MAX as int,
                j < m,
                target == genre_ids@[j as int],
                genre_ids@.take(j + 1).last() == target,
                genre_ids@.take(j + 1).drop_last() =~= genre_ids@.take(j as int),
                forall|q: int|
                    0 <= q < genres@.len() ==> {
                        let g = #[trigger] genres@[q];
                        let o = old(genres)@[q];
                        g.id == o.id && g.project_id == o.project_id && g.name == o.name && g.color
                            == o.color && g.created_at == o.created_at
                    },
                forall|q: int|
                    0 <= q < k ==> {
                        let g = #[trigger] genres@[q];
                        let o = old(genres)@[q];
                        g.position as int == reordered_position(
                            genre_ids@.take(j + 1),
                            o.id,
                            o.position,
                        ) && g.updated_at == (
                        if ids_contain(genre_ids@.take(j + 1), o.id) {
                            now
                        } else {
                            o.updated_at
                        })
                    },
                forall|q: int|
                    k <= q < genres@.len() ==> {
                        let g = #[trigger] genres@[q];
                        let o = old(genres)@[q];
                        g.position as int == reordered_position(
                            genre_ids@.take(j as int),
                            o.id,
                            o.position,
                        ) && g.updated_at == (
                        if ids_contain(genre_ids@.take(j as int), o.id) {
                            now
                        } else {
                            o.updated_at
                        })
                    },
        {
            proof {
                if genres@[k as int].id == target {
                    assert(ids_contain(genre_ids@.take(j + 1), genres@[k as int].id)) by {
                        assert(genre_ids@.take(j + 1)[j as int] == target);
                    }
                } else {
                    assert(ids_contain(genre_ids@.take(j + 1), genres@[k as int].id)
                        == ids_contain(genre_ids@.take(j as int), genres@[k as int].id)) by {
                        if ids_contain(genre_ids@.take(j as int), genres@[k as int].id) {
                            let s1 = genre_ids@.take(j as int);
                            let w = choose|w: int| 0 <= w < s1.len() && s1[w] == genres@[k as int].id;
                            assert(genre_ids@.take(j + 1)[w] == genres@[k as int].id);
                        }
                        if ids_contain(genre_ids@.take(j + 1), genres@[k as int].id) {
                            let s2 = genre_ids@.take(j + 1);
                            let w = choose|w: int| 0 <= w < s2.len() && s2[w] == genres@[k as int].id;
                            assert(w < j);
                            assert(genre_ids@.take(j as int)[w] == genres@[k as int].id);
                        }
                    }
                }
            }
            if genres[k].id == target {
                genres[k].position = j as i32;
                genres[k].updated_at = now;
            }
        }
    }
    proof {
        crate::seqs::lemma_take_full(genre_ids@);
    }
}


/// In a list without repeated ids, each id's assigned position is its index:
/// a reorder gives the named genres the positions 0, 1, 2, ... in the given
/// order.
pub proof fn lemma_reorder_assigns_indices(ids: Seq<Id>, j: int)
    requires
        ids.no_duplicates(),
        0 <= j < ids.len(),
    ensures
        last_index_of(ids, ids[j]) == j,
    decreases ids.len(),
{
    if j == ids.len() - 1 {
    } else {
        assert(ids.last() != ids[j]);
        lemma_reorder_assigns_indices(ids.drop_last(), j);
    }
}

/// The id's last position in the list is within the list when present.
pub proof fn lemma_last_index_bounds(ids: Seq<Id>, id: Id)
    requires
        ids_contain(ids, id),
    ensures
        0 <= last_index_of(ids, id) < ids.len(),
    decreases ids.len(),
{
    if ids.len() > 0 && ids.last() != id {
        assert(ids_contain(ids.drop_last(), id)) by {
            let w = choose|w: int| 0 <= w < ids.len() && ids[w] == id;
            assert(ids.drop_last()[w] == id);
        }
        lemma_last_index_bounds(ids.drop_last(), id);
    }
}

/// Reordering twice with the same list is the same as reordering once: the
/// position a genre ends up with does not depend on the position it had, as
/// long as it was already the reordered one.
pub proof fn lemma_reorder_idempotent(ids: Seq<Id>, id: Id, p0: i32, p1: i32)
    requires
        ids.len() <= i32::MAX as int,
        p1 as int == reordered_position(ids, id, p0),
    ensures
        reordered_position(ids, id, p1) == p1 as int,
{
    if ids_contain(ids, id) {
        lemma_last_index_bounds(ids, id);
    }
}

} // verus!
