use vstd::prelude::*;

verus! {

/// An association record linking one user to one category. At most one
/// association exists per distinct `(user_id, category_id)` pair.
#[derive(Clone, Copy, Debug, PartialEq, Eq, Structural)]
pub struct CategoryUser {
    pub id: u64,
    pub user_id: u64,
    pub category_id: u64,
}

/// The mathematical content of the association store: the records it
/// holds, in insertion order, and the identifier-generation counter.
#[verifier::ext_equal]
pub ghost struct CategoryUserStoreV {
    pub assocs: Seq<CategoryUser>,
    pub next_id: u64,
}

/// The first association for the given pair, if any.
pub open spec fn find_pair_in(assocs: Seq<CategoryUser>, user_id: u64, category_id: u64)
    -> Option<CategoryUser>
    decreases assocs.len(),
{
    if assocs.len() == 0 {
        None
    } else if assocs[0].user_id == user_id && assocs[0].category_id == category_id {
        Some(assocs[0])
    } else {
        find_pair_in(assocs.drop_first(), user_id, category_id)
    }
}

/// The associations of one user, in store order.
pub open spec fn assocs_of_user(assocs: Seq<CategoryUser>, user_id: u64) -> Seq<CategoryUser>
    decreases assocs.len(),
{
    if assocs.len() == 0 {
        Seq::empty()
    } else {
        let rest = assocs_of_user(assocs.drop_last(), user_id);
        if assocs.last().user_id == user_id {
            rest.push(assocs.last())
        } else {
            rest
        }
    }
}

impl CategoryUserStoreV {
    /// Well-formedness: identifiers are unique and lie below the
    /// generation counter, and `(user_id, category_id)` pairs are unique.
    pub open spec fn wf(self) -> bool {
        &&& forall|i: int|
            0 <= i < self.assocs.len() ==> (#[trigger] self.assocs[i]).id < self.next_id
        &&& forall|i: int, j: int|
            #![trigger self.assocs[i], self.assocs[j]]
            0 <= i < j < self.assocs.len() ==> self.assocs[i].id != self.assocs[j].id && !(
            self.assocs[i].user_id == self.assocs[j].user_id && self.assocs[i].category_id
                == self.assocs[j].category_id)
    }

    pub open spec fn find_pair(self, user_id: u64, category_id: u64) -> Option<CategoryUser> {
        find_pair_in(self.assocs, user_id, category_id)
    }

    pub open spec fn has_pair(self, user_id: u64, category_id: u64) -> bool {
        self.find_pair(user_id, category_id) is Some
    }
}

/// The record that a get-or-create call persists for a fresh pair.
pub open spec fn new_assoc(s: CategoryUserStoreV, user_id: u64, category_id: u64) -> CategoryUser {
    CategoryUser { id: s.next_id, user_id: user_id, category_id: category_id }
}

/// The store after a get-or-create call: unchanged when the pair is
/// already present, else extended by a fresh association.
pub open spec fn category_user_new_post(s: CategoryUserStoreV, user_id: u64, category_id: u64)
    -> CategoryUserStoreV {
    if s.has_pair(user_id, category_id) {
        s
    } else {
        CategoryUserStoreV {
            assocs: s.assocs.push(new_assoc(s, user_id, category_id)),
            next_id: (s.next_id + 1) as u64,
        }
    }
}

/// The record that a get-or-create call returns: the existing one when
/// the pair is already present, else the fresh association.
pub open spec fn category_user_new_ret(s: CategoryUserStoreV, user_id: u64, category_id: u64)
    -> CategoryUser {
    match s.find_pair(user_id, category_id) {
        Some(a) => a,
        None => new_assoc(s, user_id, category_id),
    }
}

proof fn lemma_find_pair_char(assocs: Seq<CategoryUser>, user_id: u64, category_id: u64)
    ensures
        (find_pair_in(assocs, user_id, category_id) is None <==> (forall|i: int|
            0 <= i < assocs.len() ==> !((#[trigger] assocs[i]).user_id == user_id
                && assocs[i].category_id == category_id))),
        find_pair_in(assocs, user_id, category_id) matches Some(a) ==> a.user_id == user_id
            && a.category_id == category_id && (exists|k: int|
            #![trigger assocs[k]]
            0 <= k < assocs.len() && assocs[k] == a && (forall|j: int|
                0 <= j < k ==> !((#[trigger] assocs[j]).user_id == user_id
                    && assocs[j].category_id == category_id))),
    decreases assocs.len(),
{
    if assocs.len() == 0 {
    } else if assocs[0].user_id == user_id && assocs[0].category_id == category_id {
        let k: int = 0;
        assert(0 <= k < assocs.len() && assocs[k] == assocs[0] && (forall|j: int|
            0 <= j < k ==> !((#[trigger] assocs[j]).user_id == user_id && assocs[j].category_id
                == category_id)));
    } else {
        let rest = assocs.drop_first();
        lemma_find_pair_char(rest, user_id, category_id);
        if find_pair_in(assocs, user_id, category_id) is None {
            assert forall|i: int| 0 <= i < assocs.len() implies !((#[trigger] assocs[i]).user_id
                == user_id && assocs[i].category_id == category_id) by {
                if i > 0 {
                    assert(rest[i - 1] == assocs[i]);
                    assert(!(rest[i - 1].user_id == user_id && rest[i - 1].category_id
                        == category_id));
                }
            }
        } else {
            let a = find_pair_in(assocs, user_id, category_id).unwrap();
            assert(find_pair_in(rest, user_id, category_id) == Some(a));
            let k0 = choose|k0: int|
                #![trigger rest[k0]]
                0 <= k0 < rest.len() && rest[k0] == a && (forall|j: int|
                    0 <= j < k0 ==> !((#[trigger] rest[j]).user_id == user_id
                        && rest[j].category_id == category_id));
            let k = k0 + 1;
            assert(assocs[k] == rest[k0]);
            assert forall|j: int| 0 <= j < k implies !((#[trigger] assocs[j]).user_id == user_id
                && assocs[j].category_id == category_id) by {
                if j > 0 {
                    assert(rest[j - 1] == assocs[j]);
                }
            }
            assert(0 <= k < assocs.len() && assocs[k] == a && (forall|j: int|
                0 <= j < k ==> !((#[trigger] assocs[j]).user_id == user_id
                    && assocs[j].category_id == category_id)));
        }
    }
}

/// The association collection, modelled as the sequence of its records.
pub struct CategoryUserStore {
    assocs: Vec<CategoryUser>,
    next_id: u64,
}

impl View for CategoryUserStore {
    type V = CategoryUserStoreV;

    closed spec fn view(&self) -> CategoryUserStoreV {
        CategoryUserStoreV { assocs: self.assocs@, next_id: self.next_id }
    }
}

impl CategoryUserStore {
    /// An empty store.
    pub fn new() -> (r: Self)
        ensures
            r@.assocs.len() == 0,
            r@.next_id == 0,
            r@.wf(),
    {
        CategoryUserStore { assocs: Vec::new(), next_id: 0 }
    }

    fn find_by_pair(&self, user_id: u64, category_id: u64) -> (r: Option<CategoryUser>)
        ensures
            match self@.find_pair(user_id, category_id) {
                Some(a) => r == Some(a),
                None => r is None,
            },
    {
        proof {
            lemma_find_pair_char(self@.assocs, user_id, category_id);
        }
        let mut i: usize = 0;
        while i < self.assocs.len()
            invariant
                i <= self.assocs.len(),
                forall|j: int|
                    0 <= j < i ==> !((#[trigger] self@.assocs[j]).user_id == user_id
                        && self@.assocs[j].category_id == category_id),
            decreases self.assocs.len() - i,
        {
            let a = self.assocs[i];
            if a.user_id == user_id && a.category_id == category_id {
                proof {
                    lemma_find_pair_char(self@.assocs, user_id, category_id);
                    let f = self@.find_pair(user_id, category_id).unwrap();
                    let k = choose|k: int|
                        #![trigger self@.assocs[k]]
                        0 <= k < self@.assocs.len() && self@.assocs[k] == f && (forall|j: int|
                            0 <= j < k ==> !((#[trigger] self@.assocs[j]).user_id == user_id
                                && self@.assocs[j].category_id == category_id));
                    assert(k == i as int);
                }
                return Some(a);
            }
            i = i + 1;
        }
        None
    }

    /// Get-or-create by `(user_id, category_id)` pair. An existing
    /// association is returned unchanged; a fresh pair is persisted with
    /// a new identifier and returned.
    pub fn category_user_new(&mut self, user_id: u64, category_id: u64) -> (r: CategoryUser)
        requires
            old(self)@.wf(),
            old(self)@.next_id < u64::MAX,
        ensures
            final(self)@ == category_user_new_post(old(self)@, user_id, category_id),
            final(self)@.wf(),
            r == category_user_new_ret(old(self)@, user_id, category_id),
    {
        match self.find_by_pair(user_id, category_id) {
            Some(a) => {
                return a;
            },
            None => {},
        }
        let a = CategoryUser { id: self.next_id, user_id: user_id, category_id: category_id };
        let ghost pre = self@;
        self.assocs.push(a);
        self.next_id = self.next_id + 1;
        proof {
            assert(self@.assocs =~= pre.assocs.push(a));
            assert(self@ == category_user_new_post(pre, user_id, category_id));
            lemma_find_pair_char(pre.assocs, user_id, category_id);
            assert forall|i: int, j: int|
                #![trigger self@.assocs[i], self@.assocs[j]]
                0 <= i < j < self@.assocs.len() implies self@.assocs[i].id != self@.assocs[j].id
                && !(self@.assocs[i].user_id == self@.assocs[j].user_id
                && self@.assocs[i].category_id == self@.assocs[j].category_id) by {
                if j == pre.assocs.len() {
                    assert(self@.assocs[i] == pre.assocs[i]);
                }
            }
            assert(self@.wf());
        }
        a
    }

    /// All associations of one user, in store order; a user with none
    /// yields an empty list, a normal, non-exceptional result.
    pub fn categories_users_by_user_id(&self, user_id: u64) -> (r: Vec<CategoryUser>)
        ensures
            r@ == assocs_of_user(self@.assocs, user_id),
    {
        let mut out: Vec<CategoryUser> = Vec::new();
        let mut i: usize = 0;
        while i < self.assocs.len()
            invariant
                i <= self.assocs.len(),
                out@ == assocs_of_user(self@.assocs.take(i as int), user_id),
            decreases self.assocs.len() - i,
        {
            let a = self.assocs[i];
            if a.user_id == user_id {
                out.push(a);
            }
            proof {
                assert(self@.assocs.take(i as int + 1).drop_last() =~= self@.assocs.take(i as int));
                assert(self@.assocs.take(i as int + 1).last() == self@.assocs[i as int]);
            }
            i = i + 1;
        }
        proof {
            assert(self@.assocs.take(self.assocs.len() as int) =~= self@.assocs);
        }
        out
    }
}

/// Get-or-create is idempotent: a second call with the same pair changes
/// nothing and returns the same association, with the same id, and no
/// second record is created.
pub proof fn lemma_category_user_new_idempotent(
    s: CategoryUserStoreV,
    user_id: u64,
    category_id: u64,
)
    requires
        s.wf(),
    ensures
        category_user_new_post(category_user_new_post(s, user_id, category_id), user_id,
            category_id) == category_user_new_post(s, user_id, category_id),
        category_user_new_ret(category_user_new_post(s, user_id, category_id), user_id,
            category_id) == category_user_new_ret(s, user_id, category_id),
{
    let s1 = category_user_new_post(s, user_id, category_id);
    if !s.has_pair(user_id, category_id) {
        let a = new_assoc(s, user_id, category_id);
        lemma_find_pair_char(s1.assocs, user_id, category_id);
        assert(s1.assocs[s.assocs.len() as int] == a);
        assert(s1.find_pair(user_id, category_id) is Some);
        let f = s1.find_pair(user_id, category_id).unwrap();
        let k = choose|k: int|
            #![trigger s1.assocs[k]]
            0 <= k < s1.assocs.len() && s1.assocs[k] == f && (forall|j: int|
                0 <= j < k ==> !((#[trigger] s1.assocs[j]).user_id == user_id
                    && s1.assocs[j].category_id == category_id));
        lemma_find_pair_char(s.assocs, user_id, category_id);
        if k < s.assocs.len() {
            assert(s.assocs[k] == s1.assocs[k]);
            assert(false);
        }
        assert(f == a);
    }
}

/// The listing of one user's associations holds exactly the store's
/// records that carry that user's identifier, and nothing else.
pub proof fn lemma_assocs_of_user_members(assocs: Seq<CategoryUser>, user_id: u64)
    ensures
        forall|a: CategoryUser|
            #[trigger] assocs_of_user(assocs, user_id).contains(a) <==> (assocs.contains(a)
                && a.user_id == user_id),
    decreases assocs.len(),
{
    broadcast use vstd::seq_lib::lemma_seq_contains_after_push;

    if assocs.len() > 0 {
        let rest = assocs.drop_last();
        lemma_assocs_of_user_members(rest, user_id);
        assert forall|a: CategoryUser|
            #[trigger] assocs_of_user(assocs, user_id).contains(a) <==> (assocs.contains(a)
                && a.user_id == user_id) by {
            assert(assocs =~= rest.push(assocs.last()));
            if assocs_of_user(assocs, user_id).contains(a) {
                if assocs.last().user_id == user_id {
                    assert(assocs_of_user(rest, user_id).push(assocs.last()).contains(a));
                } else {
                    assert(assocs_of_user(rest, user_id).contains(a));
                }
            }
            if assocs.contains(a) && a.user_id == user_id {
                assert(rest.push(assocs.last()).contains(a));
                if a == assocs.last() {
                    assert(assocs_of_user(assocs, user_id).last() == a);
                    assert(assocs_of_user(assocs, user_id).contains(a));
                } else {
                    assert(rest.contains(a));
                    assert(assocs_of_user(rest, user_id).contains(a));
                    if assocs.last().user_id == user_id {
                        assert(assocs_of_user(assocs, user_id).contains(a));
                    }
                }
            }
        }
    }
}

} // verus!
