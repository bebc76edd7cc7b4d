use vstd::prelude::*;
use vstd::string::StringExecFns;

verus! {

use crate::errors::Error;
use crate::slug::{slug_defined, slug_of, derive_slug, try_derive_slug};

/// A category record: a system-generated identifier, a display name that
/// is unique across the store, the slug derived from the name, and the
/// fully-qualified resource path.
#[derive(Debug)]
pub struct Category {
    pub id: u64,
    pub name: String,
    pub slug: String,
    pub uri: String,
}

/// The mathematical content of a `Category`.
#[verifier::ext_equal]
pub ghost struct CategoryV {
    pub id: u64,
    pub name: Seq<char>,
    pub slug: Seq<char>,
    pub uri: Seq<char>,
}

impl View for Category {
    type V = CategoryV;

    open spec fn view(&self) -> CategoryV {
        CategoryV { id: self.id, name: self.name@, slug: self.slug@, uri: self.uri@ }
    }
}

impl DeepView for Category {
    type V = CategoryV;

    open spec fn deep_view(&self) -> CategoryV {
        self@
    }
}

impl Clone for Category {
    fn clone(&self) -> (r: Self)
        ensures
            r@ == self@,
    {
        Category {
            id: self.id,
            name: self.name.clone(),
            slug: self.slug.clone(),
            uri: self.uri.clone(),
        }
    }
}

/// The mathematical content of the category store: the records it holds,
/// in insertion order, and the identifier-generation counter.
#[verifier::ext_equal]
pub ghost struct CategoryStoreV {
    pub cats: Seq<CategoryV>,
    pub next_id: u64,
}

/// The first record with the given name, if any.
pub open spec fn find_name_in(cats: Seq<CategoryV>, name: Seq<char>) -> Option<CategoryV>
    decreases cats.len(),
{
    if cats.len() == 0 {
        None
    } else if cats[0].name == name {
        Some(cats[0])
    } else {
        find_name_in(cats.drop_first(), name)
    }
}

/// The first record with the given identifier, if any.
pub open spec fn find_id_in(cats: Seq<CategoryV>, id: u64) -> Option<CategoryV>
    decreases cats.len(),
{
    if cats.len() == 0 {
        None
    } else if cats[0].id == id {
        Some(cats[0])
    } else {
        find_id_in(cats.drop_first(), id)
    }
}

/// The first record with the given slug, if any.
pub open spec fn find_slug_in(cats: Seq<CategoryV>, slug: Seq<char>) -> Option<CategoryV>
    decreases cats.len(),
{
    if cats.len() == 0 {
        None
    } else if cats[0].slug == slug {
        Some(cats[0])
    } else {
        find_slug_in(cats.drop_first(), slug)
    }
}

impl CategoryStoreV {
    /// Well-formedness: identifiers are unique and lie below the
    /// generation counter, and display names are unique.
    pub open spec fn wf(self) -> bool {
        &&& forall|i: int|
            0 <= i < self.cats.len() ==> (#[trigger] self.cats[i]).id < self.next_id
        &&& forall|i: int, j: int|
            #![trigger self.cats[i], self.cats[j]]
            0 <= i < j < self.cats.len() ==> self.cats[i].id != self.cats[j].id
                && self.cats[i].name != self.cats[j].name
    }

    pub open spec fn find_name(self, name: Seq<char>) -> Option<CategoryV> {
        find_name_in(self.cats, name)
    }

    pub open spec fn has_name(self, name: Seq<char>) -> bool {
        self.find_name(name) is Some
    }

    pub open spec fn find_id(self, id: u64) -> Option<CategoryV> {
        find_id_in(self.cats, id)
    }

    pub open spec fn find_slug(self, slug: Seq<char>) -> Option<CategoryV> {
        find_slug_in(self.cats, slug)
    }
}

/// The full resource path of a category: the configured base, the fixed
/// collection segment, and the slug.
pub open spec fn uri_of(base: Seq<char>, slug: Seq<char>) -> Seq<char> {
    base + "/categories/"@ + slug
}

/// The record that a get-or-create call persists for a fresh name.
pub open spec fn new_category(s: CategoryStoreV, name: Seq<char>, base: Seq<char>) -> CategoryV {
    CategoryV { id: s.next_id, name: name, slug: slug_of(name), uri: uri_of(base, slug_of(name)) }
}

/// The store after a get-or-create call: unchanged when the name is
/// already present, else extended by the freshly derived record.
pub open spec fn category_new_post(s: CategoryStoreV, name: Seq<char>, base: Seq<char>)
    -> CategoryStoreV {
    if s.has_name(name) {
        s
    } else {
        CategoryStoreV {
            cats: s.cats.push(new_category(s, name, base)),
            next_id: (s.next_id + 1) as u64,
        }
    }
}

/// The record that a get-or-create call returns: the existing one when
/// the name is already present, else the freshly derived one.
pub open spec fn category_new_ret(s: CategoryStoreV, name: Seq<char>, base: Seq<char>)
    -> CategoryV {
    match s.find_name(name) {
        Some(c) => c,
        None => new_category(s, name, base),
    }
}

proof fn lemma_find_name_char(cats: Seq<CategoryV>, name: Seq<char>)
    ensures
        (find_name_in(cats, name) is None <==> (forall|i: int|
            0 <= i < cats.len() ==> (#[trigger] cats[i]).name != name)),
        find_name_in(cats, name) matches Some(c) ==> c.name == name && (exists|k: int|
            #![trigger cats[k]]
            0 <= k < cats.len() && cats[k] == c && (forall|j: int|
                0 <= j < k ==> (#[trigger] cats[j]).name != name)),
    decreases cats.len(),
{
    if cats.len() == 0 {
    } else if cats[0].name == name {
        let k: int = 0;
        assert(0 <= k < cats.len() && cats[k] == cats[0] && (forall|j: int|
            0 <= j < k ==> (#[trigger] cats[j]).name != name));
    } else {
        let rest = cats.drop_first();
        lemma_find_name_char(rest, name);
        if find_name_in(cats, name) is None {
            assert forall|i: int| 0 <= i < cats.len() implies (#[trigger] cats[i]).name != name by {
                if i > 0 {
                    assert(rest[i - 1] == cats[i]);
                    assert(rest[i - 1].name != name);
                }
            }
        } else {
            let c = find_name_in(cats, name).unwrap();
            assert(find_name_in(rest, name) == Some(c));
            let k0 = choose|k0: int|
                #![trigger rest[k0]]
                0 <= k0 < rest.len() && rest[k0] == c && (forall|j: int|
                    0 <= j < k0 ==> (#[trigger] rest[j]).name != name);
            let k = k0 + 1;
            assert(cats[k] == rest[k0]);
            assert forall|j: int| 0 <= j < k implies (#[trigger] cats[j]).name != name by {
                if j > 0 {
                    assert(rest[j - 1] == cats[j]);
                }
            }
            assert(0 <= k < cats.len() && cats[k] == c && (forall|j: int|
                0 <= j < k ==> (#[trigger] cats[j]).name != name));
        }
    }
}

proof fn lemma_find_id_char(cats: Seq<CategoryV>, id: u64)
    ensures
        (find_id_in(cats, id) is None <==> (forall|i: int|
            0 <= i < cats.len() ==> (#[trigger] cats[i]).id != id)),
        find_id_in(cats, id) matches Some(c) ==> c.id == id && (exists|k: int|
            #![trigger cats[k]]
            0 <= k < cats.len() && cats[k] == c && (forall|j: int|
                0 <= j < k ==> (#[trigger] cats[j]).id != id)),
    decreases cats.len(),
{
    if cats.len() == 0 {
    } else if cats[0].id == id {
        let k: int = 0;
        assert(0 <= k < cats.len() && cats[k] == cats[0] && (forall|j: int|
            0 <= j < k ==> (#[trigger] cats[j]).id != id));
    } else {
        let rest = cats.drop_first();
        lemma_find_id_char(rest, id);
        if find_id_in(cats, id) is None {
            assert forall|i: int| 0 <= i < cats.len() implies (#[trigger] cats[i]).id != id by {
                if i > 0 {
                    assert(rest[i - 1] == cats[i]);
                    assert(rest[i - 1].id != id);
                }
            }
        } else {
            let c = find_id_in(cats, id).unwrap();
            assert(find_id_in(rest, id) == Some(c));
            let k0 = choose|k0: int|
                #![trigger rest[k0]]
                0 <= k0 < rest.len() && rest[k0] == c && (forall|j: int|
                    0 <= j < k0 ==> (#[trigger] rest[j]).id != id);
            let k = k0 + 1;
            assert(cats[k] == rest[k0]);
            assert forall|j: int| 0 <= j < k implies (#[trigger] cats[j]).id != id by {
                if j > 0 {
                    assert(rest[j - 1] == cats[j]);
                }
            }
            assert(0 <= k < cats.len() && cats[k] == c && (forall|j: int|
                0 <= j < k ==> (#[trigger] cats[j]).id != id));
        }
    }
}

proof fn lemma_find_slug_char(cats: Seq<CategoryV>, slug: Seq<char>)
    ensures
        (find_slug_in(cats, slug) is None <==> (forall|i: int|
            0 <= i < cats.len() ==> (#[trigger] cats[i]).slug != slug)),
        find_slug_in(cats, slug) matches Some(c) ==> c.slug == slug && (exists|k: int|
            #![trigger cats[k]]
            0 <= k < cats.len() && cats[k] == c && (forall|j: int|
                0 <= j < k ==> (#[trigger] cats[j]).slug != slug)),
    decreases cats.len(),
{
    if cats.len() == 0 {
    } else if cats[0].slug == slug {
        let k: int = 0;
        assert(0 <= k < cats.len() && cats[k] == cats[0] && (forall|j: int|
            0 <= j < k ==> (#[trigger] cats[j]).slug != slug));
    } else {
        let rest = cats.drop_first();
        lemma_find_slug_char(rest, slug);
        if find_slug_in(cats, slug) is None {
            assert forall|i: int| 0 <= i < cats.len() implies (#[trigger] cats[i]).slug != slug by {
                if i > 0 {
                    assert(rest[i - 1] == cats[i]);
                    assert(rest[i - 1].slug != slug);
                }
            }
        } else {
            let c = find_slug_in(cats, slug).unwrap();
            assert(find_slug_in(rest, slug) == Some(c));
            let k0 = choose|k0: int|
                #![trigger rest[k0]]
                0 <= k0 < rest.len() && rest[k0] == c && (forall|j: int|
                    0 <= j < k0 ==> (#[trigger] rest[j]).slug != slug);
            let k = k0 + 1;
            assert(cats[k] == rest[k0]);
            assert forall|j: int| 0 <= j < k implies (#[trigger] cats[j]).slug != slug by {
                if j > 0 {
                    assert(rest[j - 1] == cats[j]);
                }
            }
            assert(0 <= k < cats.len() && cats[k] == c && (forall|j: int|
                0 <= j < k ==> (#[trigger] cats[j]).slug != slug));
        }
    }
}

/// The category collection, modelled as the sequence of its records.
pub struct CategoryStore {
    cats: Vec<Category>,
    next_id: u64,
}

impl View for CategoryStore {
    type V = CategoryStoreV;

    closed spec fn view(&self) -> CategoryStoreV {
        CategoryStoreV { cats: self.cats.deep_view(), next_id: self.next_id }
    }
}

impl CategoryStore {
    /// An empty store.
    pub fn new() -> (r: Self)
        ensures
            r@.cats.len() == 0,
            r@.next_id == 0,
            r@.wf(),
    {
        CategoryStore { cats: Vec::new(), next_id: 0 }
    }

    fn find_by_name(&self, name: &String) -> (r: Option<&Category>)
        ensures
            match self@.find_name(name@) {
                Some(c) => r matches Some(f) && f@ == c,
                None => r is None,
            },
    {
        proof {
            lemma_find_name_char(self@.cats, name@);
        }
        let mut i: usize = 0;
        while i < self.cats.len()
            invariant
                i <= self.cats.len(),
                forall|j: int| 0 <= j < i ==> (#[trigger] self@.cats[j]).name != name@,
            decreases self.cats.len() - i,
        {
            let c = &self.cats[i];
            if c.name == *name {
                proof {
                    lemma_find_name_char(self@.cats, name@);
                    assert(self@.cats[i as int].name == name@);
                    let f = self@.find_name(name@).unwrap();
                    let k = choose|k: int|
                        #![trigger self@.cats[k]]
                        0 <= k < self@.cats.len() && self@.cats[k] == f && (forall|j: int|
                            0 <= j < k ==> (#[trigger] self@.cats[j]).name != name@);
                    assert(k == i as int);
                }
                return Some(c);
            }
            i = i + 1;
        }
        None
    }

    /// Get-or-create by display name. An existing record is returned
    /// unchanged; for a fresh name the slug is derived, the resource path
    /// is composed from the given base, and the new record is persisted
    /// and returned.
    pub fn category_new(&mut self, name: &str, uri_base: &str) -> (r: Category)
        requires
            old(self)@.wf(),
            old(self)@.next_id < u64::MAX,
            old(self)@.has_name(name@) || slug_defined(name@),
        ensures
            final(self)@ == category_new_post(old(self)@, name@, uri_base@),
            final(self)@.wf(),
            r@ == category_new_ret(old(self)@, name@, uri_base@),
    {
        let name_s = name.to_owned();
        match self.find_by_name(&name_s) {
            Some(c) => {
                return c.clone();
            },
            None => {},
        }
        let slug = derive_slug(name);
        let uri = compose_uri(uri_base, slug.as_str());
        let cat = Category { id: self.next_id, name: name_s, slug: slug, uri: uri };
        let r = cat.clone();
        let ghost pre = self@;
        proof {
            assert(r@ == new_category(pre, name@, uri_base@));
        }
        self.cats.push(cat);
        self.next_id = self.next_id + 1;
        proof {
            assert(self@.cats =~= pre.cats.push(r@));
            assert(self@ == category_new_post(pre, name@, uri_base@));
            lemma_find_name_char(pre.cats, name@);
            assert forall|i: int, j: int|
                #![trigger self@.cats[i], self@.cats[j]]
                0 <= i < j < self@.cats.len() implies self@.cats[i].id != self@.cats[j].id
                && self@.cats[i].name != self@.cats[j].name by {
                if j == pre.cats.len() {
                    assert(self@.cats[i] == pre.cats[i]);
                }
            }
            assert(self@.wf());
        }
        r
    }

    /// Get-or-create that first tests whether a slug can be derived for a
    /// fresh name, and reports `None` where none can, leaving the store
    /// unchanged.
    pub fn try_category_new(&mut self, name: &str, uri_base: &str) -> (r: Option<Category>)
        requires
            old(self)@.wf(),
            old(self)@.next_id < u64::MAX,
        ensures
            r is None <==> !old(self)@.has_name(name@) && !slug_defined(name@),
            r is None ==> final(self)@ == old(self)@,
            r matches Some(c) ==> final(self)@ == category_new_post(old(self)@, name@, uri_base@)
                && final(self)@.wf() && c@ == category_new_ret(old(self)@, name@, uri_base@),
    {
        let name_s = name.to_owned();
        let already = self.find_by_name(&name_s).is_some();
        if already {
            Some(self.category_new(name, uri_base))
        } else {
            match try_derive_slug(name) {
                Some(_) => Some(self.category_new(name, uri_base)),
                None => None,
            }
        }
    }

    /// Every category, in store order; the empty collection is reported
    /// as the distinct `EmptyCollection` error, never as an empty list.
    pub fn categories_list(&self) -> (r: Result<Vec<Category>, Error>)
        ensures
            self@.cats.len() > 0 ==> (r matches Ok(v) && v.deep_view() == self@.cats),
            self@.cats.len() == 0 ==> r == Err::<Vec<Category>, Error>(Error::EmptyCollection),
    {
        if self.cats.len() == 0 {
            return Err(Error::EmptyCollection);
        }
        let mut out: Vec<Category> = Vec::new();
        let mut i: usize = 0;
        while i < self.cats.len()
            invariant
                i <= self.cats.len(),
                out.deep_view() == self@.cats.take(i as int),
            decreases self.cats.len() - i,
        {
            let c = self.cats[i].clone();
            let ghost cv = c@;
            let ghost prev = out.deep_view();
            out.push(c);
            proof {
                assert(cv == self@.cats[i as int]);
                assert(out.deep_view() =~= prev.push(cv));
                assert(prev.push(cv) =~= self@.cats.take(i as int + 1));
                assert(out.deep_view() == self@.cats.take(i as int + 1));
            }
            i = i + 1;
        }
        proof {
            assert(self@.cats.take(self.cats.len() as int) =~= self@.cats);
        }
        Ok(out)
    }

    /// Point lookup by identifier; absence is a caller-contract violation
    /// surfaced as `NotFound`.
    pub fn category_by_id(&self, id: u64) -> (r: Result<Category, Error>)
        ensures
            match self@.find_id(id) {
                Some(c) => r matches Ok(rc) && rc@ == c,
                None => r == Err::<Category, Error>(Error::NotFound),
            },
    {
        proof {
            lemma_find_id_char(self@.cats, id);
        }
        let mut i: usize = 0;
        while i < self.cats.len()
            invariant
                i <= self.cats.len(),
                forall|j: int| 0 <= j < i ==> (#[trigger] self@.cats[j]).id != id,
            decreases self.cats.len() - i,
        {
            let c = &self.cats[i];
            if c.id == id {
                proof {
                    lemma_find_id_char(self@.cats, id);
                    assert(self@.cats[i as int].id == id);
                    let f = self@.find_id(id).unwrap();
                    let k = choose|k: int|
                        #![trigger self@.cats[k]]
                        0 <= k < self@.cats.len() && self@.cats[k] == f && (forall|j: int|
                            0 <= j < k ==> (#[trigger] self@.cats[j]).id != id);
                    assert(k == i as int);
                }
                return Ok(c.clone());
            }
            i = i + 1;
        }
        Err(Error::NotFound)
    }

    /// Point lookup by slug; absence is a caller-contract violation
    /// surfaced as `NotFound`.
    pub fn category_by_slug(&self, slug: &str) -> (r: Result<Category, Error>)
        ensures
            match self@.find_slug(slug@) {
                Some(c) => r matches Ok(rc) && rc@ == c,
                None => r == Err::<Category, Error>(Error::NotFound),
            },
    {
        proof {
            lemma_find_slug_char(self@.cats, slug@);
        }
        let slug_s = slug.to_owned();
        let mut i: usize = 0;
        while i < self.cats.len()
            invariant
                i <= self.cats.len(),
                slug_s@ == slug@,
                forall|j: int| 0 <= j < i ==> (#[trigger] self@.cats[j]).slug != slug@,
            decreases self.cats.len() - i,
        {
            let c = &self.cats[i];
            if c.slug == slug_s {
                proof {
                    lemma_find_slug_char(self@.cats, slug@);
                    assert(self@.cats[i as int].slug == slug@);
                    let f = self@.find_slug(slug@).unwrap();
                    let k = choose|k: int|
                        #![trigger self@.cats[k]]
                        0 <= k < self@.cats.len() && self@.cats[k] == f && (forall|j: int|
                            0 <= j < k ==> (#[trigger] self@.cats[j]).slug != slug@);
                    assert(k == i as int);
                }
                return Ok(c.clone());
            }
            i = i + 1;
        }
        Err(Error::NotFound)
    }
}

/// The records whose identifier lies in the given identifier list, in
/// store order.
pub open spec fn cats_with_ids(cats: Seq<CategoryV>, ids: Seq<u64>) -> Seq<CategoryV>
    decreases cats.len(),
{
    if cats.len() == 0 {
        Seq::empty()
    } else {
        let rest = cats_with_ids(cats.drop_last(), ids);
        if ids.contains(cats.last().id) {
            rest.push(cats.last())
        } else {
            rest
        }
    }
}

fn ids_contain(ids: &Vec<u64>, id: u64) -> (r: bool)
    ensures
        r == ids@.contains(id),
{
    let mut i: usize = 0;
    while i < ids.len()
        invariant
            i <= ids.len(),
            forall|j: int| 0 <= j < i ==> ids@[j] != id,
        decreases ids.len() - i,
    {
        if ids[i] == id {
            return true;
        }
        i = i + 1;
    }
    false
}

impl CategoryStore {
    /// One batched membership query: every category whose identifier
    /// lies in the given list, in store order.
    pub fn categories_by_ids(&self, ids: &Vec<u64>) -> (r: Vec<Category>)
        ensures
            r.deep_view() == cats_with_ids(self@.cats, ids@),
    {
        let mut out: Vec<Category> = Vec::new();
        let mut i: usize = 0;
        while i < self.cats.len()
            invariant
                i <= self.cats.len(),
                out.deep_view() == cats_with_ids(self@.cats.take(i as int), ids@),
            decreases self.cats.len() - i,
        {
            let c = &self.cats[i];
            if ids_contain(ids, c.id) {
                let cc = c.clone();
                let ghost cv = cc@;
                let ghost prev = out.deep_view();
                out.push(cc);
                proof {
                    assert(out.deep_view() =~= prev.push(cv));
                }
            }
            proof {
                assert(self@.cats.take(i as int + 1).drop_last() =~= self@.cats.take(i as int));
                assert(self@.cats.take(i as int + 1).last() == self@.cats[i as int]);
            }
            i = i + 1;
        }
        proof {
            assert(self@.cats.take(self.cats.len() as int) =~= self@.cats);
        }
        out
    }
}

/// Composes the full resource path of a category from the configured
/// base and the slug.
pub fn compose_uri(base: &str, slug: &str) -> (r: String)
    ensures
        r@ == uri_of(base@, slug@),
{
    let mut r = base.to_owned();
    r.append("/categories/");
    r.append(slug);
    r
}

/// Get-or-create is idempotent: a second call with the same name changes
/// nothing and returns the same record, so both calls agree on the id,
/// the slug and the uri, and no second record is created.
pub proof fn lemma_category_new_idempotent(s: CategoryStoreV, name: Seq<char>, base: Seq<char>)
    requires
        s.wf(),
    ensures
        category_new_post(category_new_post(s, name, base), name, base)
            == category_new_post(s, name, base),
        category_new_ret(category_new_post(s, name, base), name, base)
            == category_new_ret(s, name, base),
{
    let s1 = category_new_post(s, name, base);
    if !s.has_name(name) {
        let c = new_category(s, name, base);
        lemma_find_name_char(s1.cats, name);
        assert(s1.cats[s.cats.len() as int] == c);
        assert(s1.find_name(name) is Some);
        let f = s1.find_name(name).unwrap();
        let k = choose|k: int|
            #![trigger s1.cats[k]]
            0 <= k < s1.cats.len() && s1.cats[k] == f && (forall|j: int|
                0 <= j < k ==> (#[trigger] s1.cats[j]).name != name);
        lemma_find_name_char(s.cats, name);
        if k < s.cats.len() {
            assert(s.cats[k] == s1.cats[k]);
            assert(false);
        }
        assert(f == c);
    }
}

} // verus!
