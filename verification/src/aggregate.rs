use vstd::prelude::*;

verus! {

use crate::errors::Error;
use crate::category_store::{Category, CategoryV, CategoryStore, cats_with_ids};
use crate::category_user_store::{
    CategoryUser,
    CategoryUserStore,
    assocs_of_user,
    lemma_assocs_of_user_members,
};

/// Whether the user holds an association to the category with the given
/// identifier.
pub open spec fn user_has_category(assocs: Seq<CategoryUser>, user_id: u64, category_id: u64)
    -> bool {
    exists|j: int|
        0 <= j < assocs.len() && (#[trigger] assocs[j]).user_id == user_id
            && assocs[j].category_id == category_id
}

/// The categories reachable from one user through the association
/// records, in category-store order.
pub open spec fn categories_of_user(
    cats: Seq<CategoryV>,
    assocs: Seq<CategoryUser>,
    user_id: u64,
) -> Seq<CategoryV>
    decreases cats.len(),
{
    if cats.len() == 0 {
        Seq::empty()
    } else {
        let rest = categories_of_user(cats.drop_last(), assocs, user_id);
        if user_has_category(assocs, user_id, cats.last().id) {
            rest.push(cats.last())
        } else {
            rest
        }
    }
}

proof fn lemma_filter_by_ids_agrees(
    cats: Seq<CategoryV>,
    ids: Seq<u64>,
    assocs: Seq<CategoryUser>,
    user_id: u64,
)
    requires
        forall|cid: u64| #[trigger] ids.contains(cid) <==> user_has_category(assocs, user_id, cid),
    ensures
        cats_with_ids(cats, ids) == categories_of_user(cats, assocs, user_id),
    decreases cats.len(),
{
    if cats.len() > 0 {
        lemma_filter_by_ids_agrees(cats.drop_last(), ids, assocs, user_id);
        assert(ids.contains(cats.last().id) <==> user_has_category(assocs, user_id,
            cats.last().id));
    }
}

/// Resolves one user identity to the categories associated with it: the
/// user's associations are listed, their category identifiers are
/// projected out, and the categories are fetched by one batched
/// membership query. A user with no associations yields an empty list,
/// never an error.
pub fn categories_by_user_id(
    cats: &CategoryStore,
    assocs: &CategoryUserStore,
    user_id: u64,
) -> (r: Vec<Category>)
    ensures
        r.deep_view() == categories_of_user(cats@.cats, assocs@.assocs, user_id),
{
    let user_assocs = assocs.categories_users_by_user_id(user_id);
    let mut ids: Vec<u64> = Vec::new();
    let mut i: usize = 0;
    while i < user_assocs.len()
        invariant
            i <= user_assocs.len(),
            ids@.len() == i,
            forall|j: int| 0 <= j < i ==> ids@[j] == (#[trigger] user_assocs@[j]).category_id,
        decreases user_assocs.len() - i,
    {
        ids.push(user_assocs[i].category_id);
        i = i + 1;
    }
    proof {
        lemma_assocs_of_user_members(assocs@.assocs, user_id);
        assert forall|cid: u64|
            #[trigger] ids@.contains(cid) <==> user_has_category(assocs@.assocs, user_id, cid) by {
            if ids@.contains(cid) {
                let j = choose|j: int| 0 <= j < ids@.len() && ids@[j] == cid;
                let a = user_assocs@[j];
                assert(user_assocs@.contains(a));
                assert(assocs@.assocs.contains(a) && a.user_id == user_id);
                let m = choose|m: int|
                    0 <= m < assocs@.assocs.len() && assocs@.assocs[m] == a;
                assert((#[trigger] assocs@.assocs[m]).user_id == user_id
                    && assocs@.assocs[m].category_id == cid);
            }
            if user_has_category(assocs@.assocs, user_id, cid) {
                let m = choose|m: int|
                    0 <= m < assocs@.assocs.len() && (#[trigger] assocs@.assocs[m]).user_id
                        == user_id && assocs@.assocs[m].category_id == cid;
                let a = assocs@.assocs[m];
                assert(assocs@.assocs.contains(a));
                assert(assocs_of_user(assocs@.assocs, user_id).contains(a));
                let j = choose|j: int| 0 <= j < user_assocs@.len() && user_assocs@[j] == a;
                assert(ids@[j] == cid);
                assert(ids@.contains(cid));
            }
        }
        lemma_filter_by_ids_agrees(cats@.cats, ids@, assocs@.assocs, user_id);
    }
    cats.categories_by_ids(&ids)
}

/// Resolves the outcome of the external user lookup and aggregates: a
/// lookup failure is propagated to the caller unchanged, and a resolved
/// user identifier is handed on to `categories_by_user_id`.
pub fn categories_by_username(
    cats: &CategoryStore,
    assocs: &CategoryUserStore,
    user: Result<u64, Error>,
) -> (r: Result<Vec<Category>, Error>)
    ensures
        user matches Err(e) ==> r matches Err(e2) && e2 == e,
        user matches Ok(uid) ==> r matches Ok(v) && v.deep_view() == categories_of_user(
            cats@.cats,
            assocs@.assocs,
            uid,
        ),
{
    match user {
        Err(e) => Err(e),
        Ok(uid) => Ok(categories_by_user_id(cats, assocs, uid)),
    }
}

/// A user with no associations in the store is resolved to the empty
/// category sequence, a normal result and not an error.
pub proof fn lemma_no_assocs_no_categories(
    cats: Seq<CategoryV>,
    assocs: Seq<CategoryUser>,
    user_id: u64,
)
    requires
        forall|j: int| 0 <= j < assocs.len() ==> (#[trigger] assocs[j]).user_id != user_id,
    ensures
        categories_of_user(cats, assocs, user_id) == Seq::<CategoryV>::empty(),
    decreases cats.len(),
{
    if cats.len() > 0 {
        lemma_no_assocs_no_categories(cats.drop_last(), assocs, user_id);
    }
}

/// The aggregation is exact: a category stands in the result if and only
/// if it stands in the category store and the user holds an association
/// to its identifier — never more, never fewer, whatever associations
/// other users hold.
pub proof fn lemma_categories_for_user_exact(
    cats: Seq<CategoryV>,
    assocs: Seq<CategoryUser>,
    user_id: u64,
)
    ensures
        forall|c: CategoryV|
            #[trigger] categories_of_user(cats, assocs, user_id).contains(c) <==> (cats.contains(c)
                && user_has_category(assocs, user_id, c.id)),
    decreases cats.len(),
{
    broadcast use vstd::seq_lib::lemma_seq_contains_after_push;

    if cats.len() > 0 {
        let rest = cats.drop_last();
        lemma_categories_for_user_exact(rest, assocs, user_id);
        assert forall|c: CategoryV|
            #[trigger] categories_of_user(cats, assocs, user_id).contains(c) <==> (cats.contains(c)
                && user_has_category(assocs, user_id, c.id)) by {
            assert(cats =~= rest.push(cats.last()));
            if categories_of_user(cats, assocs, user_id).contains(c) {
                if user_has_category(assocs, user_id, cats.last().id) {
                    assert(categories_of_user(rest, assocs, user_id).push(
                        cats.last(),
                    ).contains(c));
                } else {
                    assert(categories_of_user(rest, assocs, user_id).contains(c));
                }
            }
            if cats.contains(c) && user_has_category(assocs, user_id, c.id) {
                assert(rest.push(cats.last()).contains(c));
                if c == cats.last() {
                    assert(categories_of_user(cats, assocs, user_id).last() == c);
                    assert(categories_of_user(cats, assocs, user_id).contains(c));
                } else {
                    assert(rest.contains(c));
                    assert(categories_of_user(rest, assocs, user_id).contains(c));
                    if user_has_category(assocs, user_id, cats.last().id) {
                        assert(categories_of_user(cats, assocs, user_id).contains(c));
                    }
                }
            }
        }
    }
}

} // verus!
