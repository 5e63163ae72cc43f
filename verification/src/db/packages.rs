use vstd::prelude::*;
use vstd::seq_lib::*;

use crate::db::types::Order;
use crate::error::Error;
use crate::models::package::Package;
use crate::pagination::{
    lemma_filter_cut, lemma_filter_empty, lemma_filter_step, lemma_filter_subsume,
    lemma_filter_whole, spec_limited,
};

verus! {

/// Selects the rows lying strictly after an ascending cursor.
pub open spec fn spec_package_above(a: u128) -> spec_fn(Package) -> bool {
    |x: Package| x.id > a
}

/// Selects the rows lying strictly after a descending cursor.
pub open spec fn spec_package_below(a: u128) -> spec_fn(Package) -> bool {
    |x: Package| x.id < a
}

/// The rows a keyset query over the packages table inspects, in the order
/// it returns them, before the limit is applied.
pub open spec fn spec_package_selection(
    rows: Seq<Package>,
    after: Option<u128>,
    order: Order,
) -> Seq<Package> {
    match order {
        Order::Asc => match after {
            Option::None => rows,
            Option::Some(a) => rows.filter(spec_package_above(a)),
        },
        Order::Desc => match after {
            Option::None => rows.reverse(),
            Option::Some(a) => rows.reverse().filter(spec_package_below(a)),
        },
    }
}

/// Two package rows carry the same natural identity `(registry, name)`.
pub open spec fn spec_same_identity(a: Package, b: Package) -> bool {
    a.registry@ == b.registry@ && a.name@ == b.name@
}

/// The stored row after a re-scrape of the same identity: `version` and
/// `downloads` are overwritten, everything else — in particular the
/// stable `id` — is kept.
pub open spec fn spec_refreshed(row: Package, p: Package) -> Package {
    Package { version: p.version, downloads: p.downloads, ..row }
}

/// Package rows in strictly increasing id order with no two rows sharing
/// an identity: the at-most-one-row-per-`(registry, name)` invariant.
pub open spec fn spec_packages_wf(rows: Seq<Package>) -> bool {
    forall|i: int, j: int|
        #![trigger rows[i], rows[j]]
        0 <= i < j < rows.len() ==> rows[i].id < rows[j].id && !spec_same_identity(
            rows[i],
            rows[j],
        )
}

/// Whether no stored row carries the given id.  Package ids are chosen
/// by the scrapers, not by this store, so a fresh row may land anywhere
/// in the id order; only a collision with an existing primary key is a
/// violation.
pub open spec fn spec_pkg_id_free(rows: Seq<Package>, id: u128) -> bool {
    forall|i: int| 0 <= i < rows.len() ==> (#[trigger] rows[i]).id != id
}

/// A fresh row placed at its position in the id order: every row before
/// it keeps a smaller id, every row from its position on a larger one.
pub open spec fn spec_placed(rows0: Seq<Package>, p: Package, rows1: Seq<Package>) -> bool {
    exists|k: int|
        #![trigger rows0.insert(k, p)]
        {
            &&& 0 <= k <= rows0.len()
            &&& (forall|j: int| 0 <= j < k ==> (#[trigger] rows0[j]).id < p.id)
            &&& (forall|j: int| k <= j < rows0.len() ==> (#[trigger] rows0[j]).id > p.id)
            &&& rows1 == rows0.insert(k, p)
        }
}

/// What a successful upsert does to the table: a present identity is
/// refreshed in place, an absent one is inserted at its place in the id
/// order.
pub open spec fn spec_upsert_ok(rows0: Seq<Package>, p: Package, rows1: Seq<Package>) -> bool {
    if spec_contains_identity(rows0, p) {
        exists|k: int|
            {
                &&& 0 <= k < rows0.len()
                &&& spec_same_identity(#[trigger] rows0[k], p)
                &&& rows1 == rows0.update(k, spec_refreshed(rows0[k], p))
            }
    } else {
        spec_placed(rows0, p, rows1)
    }
}

/// Whether some row shares the identity of `p`.
pub open spec fn spec_contains_identity(rows: Seq<Package>, p: Package) -> bool {
    exists|i: int| 0 <= i < rows.len() && spec_same_identity(#[trigger] rows[i], p)
}

/// The packages table.  Rows are kept in strictly increasing id order and
/// hold at most one row per `(registry, name)`, enforced by the upsert
/// primitive rather than by the callers.
pub struct PackageStore {
    packages: Vec<Package>,
}

impl PackageStore {
    /// The rows of the table, in stored (ascending id) order.
    pub closed spec fn rows(&self) -> Seq<Package> {
        self.packages@
    }

    pub open spec fn wf(&self) -> bool {
        spec_packages_wf(self.rows())
    }

    /// Whether some row carries the given id.
    pub open spec fn spec_contains_id(&self, id: u128) -> bool {
        exists|i: int| 0 <= i < self.rows().len() && (#[trigger] self.rows()[i]).id == id
    }

    pub fn new() -> (s: Self)
        ensures
            s.rows() == Seq::<Package>::empty(),
            s.wf(),
    {
        PackageStore { packages: Vec::new() }
    }

    /// Finds the index of the row sharing `p`'s identity, if any.
    fn find_identity(&self, p: &Package) -> (r: Option<usize>)
        ensures
            match r {
                Option::Some(i) => 0 <= i < self.rows().len() && spec_same_identity(
                    self.rows()[i as int],
                    *p,
                ),
                Option::None => !spec_contains_identity(self.rows(), *p),
            },
    {
        let n = self.packages.len();
        let mut i: usize = 0;
        while i < n
            invariant
                0 <= i <= n,
                n == self.rows().len(),
                forall|k: int| 0 <= k < i ==> !spec_same_identity(#[trigger] self.rows()[k], *p),
            decreases n - i,
        {
            if self.packages[i].registry == p.registry && self.packages[i].name == p.name {
                return Some(i);
            }
            i = i + 1;
        }
        None
    }

    /// Places a fresh identity's row at its position in the id order; an
    /// id already stored is the primary-key collision and is rejected
    /// without change.
    fn place_package(&mut self, package: Package) -> (r: Result<Package, Error>)
        requires
            old(self).wf(),
            !spec_contains_identity(old(self).rows(), package),
        ensures
            final(self).wf(),
            spec_pkg_id_free(old(self).rows(), package.id) ==> (r matches Ok(p) && p == package)
                && spec_placed(old(self).rows(), package, final(self).rows()),
            !spec_pkg_id_free(old(self).rows(), package.id) ==> (r matches Err(e) && e is Internal)
                && final(self).rows() == old(self).rows(),
    {
        let n = self.packages.len();
        let mut i: usize = 0;
        while i < n && self.packages[i].id < package.id
            invariant
                0 <= i <= n,
                n == self.rows().len(),
                self == old(self),
                old(self).wf(),
                forall|j: int| 0 <= j < i ==> (#[trigger] self.rows()[j]).id < package.id,
            decreases n - i,
        {
            i = i + 1;
        }
        if i < n && self.packages[i].id == package.id {
            return Err(Error::Internal(String::from_str("duplicate package id")));
        }
        proof {
            assert forall|j: int|
                i <= j < self.rows().len() implies (#[trigger] self.rows()[j]).id
                > package.id by {
                if j > i {
                    assert(self.rows()[i as int].id < self.rows()[j].id);
                }
            }
        }
        let returned = package.clone();
        self.packages.insert(i, package);
        proof {
            let rows0 = old(self).rows();
            let rows1 = self.rows();
            let k = i as int;
            assert(rows1 == rows0.insert(k, returned));
            assert forall|a: int, b: int|
                #![trigger rows1[a], rows1[b]]
                0 <= a < b < rows1.len() implies rows1[a].id < rows1[b].id && !spec_same_identity(
                rows1[a],
                rows1[b],
            ) by {
                assert(rows1 =~= rows0.take(k) + seq![returned] + rows0.skip(k));
                if a < k {
                    assert(rows1[a] == rows0[a]);
                } else if a == k {
                    assert(rows1[a] == returned);
                } else {
                    assert(rows1[a] == rows0[a - 1]);
                }
                if b < k {
                    assert(rows1[b] == rows0[b]);
                } else if b == k {
                    assert(rows1[b] == returned);
                } else {
                    assert(rows1[b] == rows0[b - 1]);
                }
            }
        }
        Ok(returned)
    }

    /// Inserts a fresh package row at its place in the id order.  A row
    /// sharing the identity, or a row already carrying the id, is the
    /// store-level uniqueness violation and is rejected without change.
    pub fn insert_package(&mut self, package: Package) -> (r: Result<Package, Error>)
        requires
            old(self).wf(),
        ensures
            final(self).wf(),
            (!spec_contains_identity(old(self).rows(), package) && spec_pkg_id_free(
                old(self).rows(),
                package.id,
            )) ==> (r matches Ok(p) && p == package) && spec_placed(
                old(self).rows(),
                package,
                final(self).rows(),
            ),
            (spec_contains_identity(old(self).rows(), package) || !spec_pkg_id_free(
                old(self).rows(),
                package.id,
            )) ==> (r matches Err(e) && e is Internal) && final(self).rows() == old(self).rows(),
    {
        if self.find_identity(&package).is_some() {
            return Err(Error::Internal(String::from_str("duplicate package identity")));
        }
        self.place_package(package)
    }

    /// Rewrites the row with `package.id` to carry the given attributes;
    /// a missing id is reported as `NotFound`, and a rewrite that would
    /// duplicate another row's identity is rejected without change.
    pub fn update_package(&mut self, package: Package) -> (r: Result<Package, Error>)
        requires
            old(self).wf(),
        ensures
            final(self).wf(),
            !old(self).spec_contains_id(package.id) ==> (r matches Err(e) && e is NotFound)
                && final(self).rows() == old(self).rows(),
            old(self).spec_contains_id(package.id) ==> exists|i: int|
                {
                    &&& 0 <= i < old(self).rows().len()
                    &&& (#[trigger] old(self).rows()[i]).id == package.id
                    &&& if exists|j: int|
                        0 <= j < old(self).rows().len() && j != i && spec_same_identity(
                            #[trigger] old(self).rows()[j],
                            package,
                        ) {
                        (r matches Err(e) && e is Internal) && final(self).rows() == old(self).rows()
                    } else {
                        (r matches Ok(p) && p == package) && final(self).rows() == old(self).rows().update(i, package)
                    }
                },
    {
        let n = self.packages.len();
        let mut i: usize = 0;
        while i < n
            invariant
                0 <= i <= n,
                n == self.rows().len(),
                self == old(self),
                old(self).wf(),
                forall|k: int| 0 <= k < i ==> (#[trigger] self.rows()[k]).id != package.id,
            decreases n - i,
        {
            if self.packages[i].id == package.id {
                let same = self.packages[i].registry == package.registry && self.packages[i].name
                    == package.name;
                if !same {
                    match self.find_identity(&package) {
                        Some(j) => {
                            proof {
                                assert(j != i);
                            }
                            return Err(
                                Error::Internal(String::from_str("duplicate package identity")),
                            );
                        },
                        None => {},
                    }
                }
                proof {
                    if same {
                        assert forall|j: int|
                            0 <= j < old(self).rows().len() && j != i implies !spec_same_identity(
                            #[trigger] old(self).rows()[j],
                            package,
                        ) by {
                            assert(spec_same_identity(old(self).rows()[i as int], package));
                            if j < i {
                                assert(!spec_same_identity(
                                    old(self).rows()[j],
                                    old(self).rows()[i as int],
                                ));
                            } else {
                                assert(!spec_same_identity(
                                    old(self).rows()[i as int],
                                    old(self).rows()[j],
                                ));
                            }
                        }
                    }
                }
                let row = self.packages.remove(i);
                let returned = package.clone();
                let stored = package;
                self.packages.insert(i, stored);
                proof {
                    assert(self.rows() =~= old(self).rows().update(i as int, returned));
                    assert forall|p_: int, q_: int|
                        #![trigger self.rows()[p_], self.rows()[q_]]
                        0 <= p_ < q_ < self.rows().len() implies self.rows()[p_].id < self.rows()[q_].id && !spec_same_identity(self.rows()[p_], self.rows()[q_]) by {
                        assert(old(self).rows()[p_].id < old(self).rows()[q_].id);
                        assert(!spec_same_identity(old(self).rows()[p_], old(self).rows()[q_]));
                    }
                }
                return Ok(returned);
            }
            i = i + 1;
        }
        Err(Error::NotFound(String::from_str("Not found")))
    }

    /// The idempotent completion primitive: inserts the row at its place
    /// in the id order if its identity is absent, else overwrites
    /// `version` and `downloads` in place, keeping the stored id.
    /// Returns the row as stored.  Only an id collision with a row of
    /// another identity — the primary-key violation — fails.
    pub fn upsert_package(&mut self, package: Package) -> (r: Result<Package, Error>)
        requires
            old(self).wf(),
        ensures
            final(self).wf(),
            (spec_contains_identity(old(self).rows(), package) || spec_pkg_id_free(
                old(self).rows(),
                package.id,
            )) <==> r is Ok,
            r is Ok ==> spec_upsert_ok(old(self).rows(), package, final(self).rows()),
            r is Err ==> (r matches Err(e) && e is Internal) && final(self).rows() == old(self).rows(),
            spec_contains_identity(old(self).rows(), package) ==> exists|k: int|
                {
                    &&& 0 <= k < old(self).rows().len()
                    &&& spec_same_identity(#[trigger] old(self).rows()[k], package)
                    &&& r matches Ok(p) && p == spec_refreshed(old(self).rows()[k], package)
                },
            (!spec_contains_identity(old(self).rows(), package) && spec_pkg_id_free(
                old(self).rows(),
                package.id,
            )) ==> (r matches Ok(p) && p == package),
    {
        match self.find_identity(&package) {
            Some(i) => {
                let row = self.packages.remove(i);
                let updated = Package {
                    id: row.id,
                    registry: row.registry,
                    name: row.name,
                    version: package.version,
                    downloads: package.downloads,
                };
                let returned = updated.clone();
                self.packages.insert(i, updated);
                proof {
                    let rows0 = old(self).rows();
                    assert(returned == spec_refreshed(rows0[i as int], package));
                    assert(self.rows() =~= rows0.update(
                        i as int,
                        spec_refreshed(rows0[i as int], package),
                    ));
                    assert forall|p_: int, q_: int|
                        #![trigger self.rows()[p_], self.rows()[q_]]
                        0 <= p_ < q_ < self.rows().len() implies self.rows()[p_].id < self.rows()[q_].id && !spec_same_identity(self.rows()[p_], self.rows()[q_]) by {
                        assert(rows0[p_].id < rows0[q_].id);
                        assert(!spec_same_identity(rows0[p_], rows0[q_]));
                    }
                }
                Ok(returned)
            },
            None => self.place_package(package),
        }
    }

    /// Returns the row with the given id, if any.
    pub fn get_package_by_id(&self, id: u128) -> (r: Option<Package>)
        ensures
            !self.spec_contains_id(id) ==> r is None,
            self.spec_contains_id(id) ==> exists|i: int|
                {
                    &&& 0 <= i < self.rows().len()
                    &&& (#[trigger] self.rows()[i]).id == id
                    &&& r matches Some(p) && p == self.rows()[i]
                },
    {
        let n = self.packages.len();
        let mut i: usize = 0;
        while i < n
            invariant
                0 <= i <= n,
                n == self.rows().len(),
                forall|k: int| 0 <= k < i ==> (#[trigger] self.rows()[k]).id != id,
            decreases n - i,
        {
            if self.packages[i].id == id {
                return Some(self.packages[i].clone());
            }
            i = i + 1;
        }
        None
    }

    /// A keyset page over the packages table: up to `limit` rows of the
    /// selection given by the cursor and the direction.
    pub fn get_packages(&self, limit: u64, after: Option<u128>, order: Order) -> (r: Vec<Package>)
        ensures
            r@ == spec_limited(spec_package_selection(self.rows(), after, order), limit as int),
    {
        match after {
            Option::Some(a) => self.get_packages_with_limit_after(limit, a, order),
            Option::None => self.get_packages_with_limit(limit, order),
        }
    }

    fn get_packages_with_limit(&self, limit: u64, order: Order) -> (r: Vec<Package>)
        ensures
            r@ == spec_limited(
                spec_package_selection(self.rows(), Option::None, order),
                limit as int,
            ),
    {
        match order {
            Order::Asc => self.get_packages_with_limit_asc(limit),
            Order::Desc => self.get_packages_with_limit_desc(limit),
        }
    }

    fn get_packages_with_limit_after(&self, limit: u64, after: u128, order: Order) -> (r: Vec<
        Package,
    >)
        ensures
            r@ == spec_limited(
                spec_package_selection(self.rows(), Option::Some(after), order),
                limit as int,
            ),
    {
        match order {
            Order::Asc => self.get_packages_with_limit_after_asc(limit, after),
            Order::Desc => self.get_packages_with_limit_after_desc(limit, after),
        }
    }

    fn get_packages_with_limit_asc(&self, limit: u64) -> (r: Vec<Package>)
        ensures
            r@ == spec_limited(self.rows(), limit as int),
    {
        let n = self.packages.len();
        let mut out: Vec<Package> = Vec::new();
        let mut i: usize = 0;
        while i < n && (out.len() as u64) < limit
            invariant
                0 <= i <= n,
                n == self.rows().len(),
                out@ == self.rows().take(i as int),
                out.len() == i,
                i as u64 <= limit,
            decreases n - i,
        {
            out.push(self.packages[i].clone());
            proof {
                assert(self.rows().take(i as int + 1) =~= self.rows().take(i as int).push(
                    self.rows()[i as int],
                ));
            }
            i = i + 1;
        }
        proof {
            if i == n {
                assert(self.rows().take(n as int) =~= self.rows());
            }
        }
        out
    }

    fn get_packages_with_limit_desc(&self, limit: u64) -> (r: Vec<Package>)
        ensures
            r@ == spec_limited(self.rows().reverse(), limit as int),
    {
        let n = self.packages.len();
        let rev = Ghost(self.rows().reverse());
        let mut out: Vec<Package> = Vec::new();
        let mut i: usize = n;
        while i > 0 && (out.len() as u64) < limit
            invariant
                0 <= i <= n,
                n == self.rows().len(),
                rev@ == self.rows().reverse(),
                out@ == rev@.take(n - i),
                out.len() == n - i,
                (n - i) as u64 <= limit,
            decreases i,
        {
            out.push(self.packages[i - 1].clone());
            proof {
                assert(rev@[n - i] == self.rows()[i - 1]);
                assert(rev@.take(n - i + 1) =~= rev@.take(n - i).push(rev@[n - i]));
            }
            i = i - 1;
        }
        proof {
            if i == 0 {
                assert(rev@.take(n as int) =~= rev@);
            }
        }
        out
    }

    fn get_packages_with_limit_after_asc(&self, limit: u64, after: u128) -> (r: Vec<Package>)
        ensures
            r@ == spec_limited(self.rows().filter(spec_package_above(after)), limit as int),
    {
        let n = self.packages.len();
        let mut out: Vec<Package> = Vec::new();
        let mut i: usize = 0;
        while i < n && (out.len() as u64) < limit
            invariant
                0 <= i <= n,
                n == self.rows().len(),
                out@ == self.rows().take(i as int).filter(spec_package_above(after)),
                out.len() as u64 <= limit,
            decreases n - i,
        {
            proof {
                lemma_filter_step(self.rows(), i as int, spec_package_above(after));
            }
            if self.packages[i].id > after {
                out.push(self.packages[i].clone());
            }
            i = i + 1;
        }
        proof {
            broadcast use vstd::seq_lib::group_filter_ensures;

            if i == n {
                lemma_filter_whole(self.rows(), spec_package_above(after));
            } else {
                lemma_filter_cut(self.rows(), i as int, limit as int, spec_package_above(after));
            }
        }
        out
    }

    fn get_packages_with_limit_after_desc(&self, limit: u64, after: u128) -> (r: Vec<Package>)
        ensures
            r@ == spec_limited(
                self.rows().reverse().filter(spec_package_below(after)),
                limit as int,
            ),
    {
        let n = self.packages.len();
        let rev = Ghost(self.rows().reverse());
        let mut out: Vec<Package> = Vec::new();
        let mut i: usize = n;
        while i > 0 && (out.len() as u64) < limit
            invariant
                0 <= i <= n,
                n == self.rows().len(),
                rev@ == self.rows().reverse(),
                out@ == rev@.take(n - i).filter(spec_package_below(after)),
                out.len() as u64 <= limit,
            decreases i,
        {
            proof {
                assert(rev@[n - i] == self.rows()[i - 1]);
                lemma_filter_step(rev@, n - i, spec_package_below(after));
            }
            if self.packages[i - 1].id < after {
                out.push(self.packages[i - 1].clone());
            }
            i = i - 1;
        }
        proof {
            broadcast use vstd::seq_lib::group_filter_ensures;

            if i == 0 {
                assert(rev@.take(n as int) =~= rev@);
                lemma_filter_whole(rev@, spec_package_below(after));
            } else {
                lemma_filter_cut(rev@, n - i, limit as int, spec_package_below(after));
            }
        }
        out
    }
}

/// A placed row is present in the resulting table.
pub proof fn lemma_placed_has_row(rows0: Seq<Package>, p: Package, rows1: Seq<Package>)
    requires
        spec_placed(rows0, p, rows1),
    ensures
        exists|i: int| 0 <= i < rows1.len() && #[trigger] rows1[i] == p,
        rows1.len() == rows0.len() + 1,
{
    let k = choose|k: int|
        #![trigger rows0.insert(k, p)]
        {
            &&& 0 <= k <= rows0.len()
            &&& (forall|j: int| 0 <= j < k ==> (#[trigger] rows0[j]).id < p.id)
            &&& (forall|j: int| k <= j < rows0.len() ==> (#[trigger] rows0[j]).id > p.id)
            &&& rows1 == rows0.insert(k, p)
        };
    assert(rows1[k] == p);
}

/// Repeated upserts of one identity never duplicate it: after upserting
/// `p1` and then `p2` with the same `(registry, name)`, the table holds
/// the identity in exactly one row, that row carries the latest `version`
/// and `downloads`, and the second upsert added no row.
pub proof fn lemma_upsert_idempotent(
    rows0: Seq<Package>,
    p1: Package,
    p2: Package,
    rows1: Seq<Package>,
    rows2: Seq<Package>,
)
    requires
        spec_packages_wf(rows0),
        spec_packages_wf(rows1),
        spec_packages_wf(rows2),
        spec_same_identity(p1, p2),
        spec_upsert_ok(rows0, p1, rows1),
        spec_upsert_ok(rows1, p2, rows2),
    ensures
        rows2.len() == rows1.len(),
        exists|k: int|
            {
                &&& 0 <= k < rows2.len()
                &&& spec_same_identity(#[trigger] rows2[k], p2)
                &&& rows2[k].version@ == p2.version@
                &&& rows2[k].downloads == p2.downloads
            },
        forall|k1: int, k2: int|
            (0 <= k1 < rows2.len() && 0 <= k2 < rows2.len() && spec_same_identity(
                #[trigger] rows2[k1],
                p2,
            ) && spec_same_identity(#[trigger] rows2[k2], p2)) ==> k1 == k2,
{
    assert(spec_contains_identity(rows1, p1)) by {
        if spec_contains_identity(rows0, p1) {
            let k = choose|k: int|
                0 <= k < rows0.len() && spec_same_identity(#[trigger] rows0[k], p1) && rows1
                    == rows0.update(k, spec_refreshed(rows0[k], p1));
            assert(spec_same_identity(rows1[k], p1));
        } else {
            lemma_placed_has_row(rows0, p1, rows1);
            let i = choose|i: int| 0 <= i < rows1.len() && #[trigger] rows1[i] == p1;
            assert(spec_same_identity(rows1[i], p1));
        }
    }
    assert(spec_contains_identity(rows1, p2)) by {
        let k = choose|k: int| 0 <= k < rows1.len() && spec_same_identity(#[trigger] rows1[k], p1);
        assert(spec_same_identity(rows1[k], p2));
    }
    let k = choose|k: int|
        0 <= k < rows1.len() && spec_same_identity(#[trigger] rows1[k], p2) && rows2
            == rows1.update(k, spec_refreshed(rows1[k], p2));
    assert(spec_same_identity(rows2[k], p2));
    assert(rows2[k].version@ == p2.version@);
    assert forall|k1: int, k2: int|
        (0 <= k1 < rows2.len() && 0 <= k2 < rows2.len() && spec_same_identity(
            #[trigger] rows2[k1],
            p2,
        ) && spec_same_identity(#[trigger] rows2[k2], p2)) implies k1 == k2 by {
        if k1 < k2 {
            assert(!spec_same_identity(rows2[k1], rows2[k2]));
        }
        if k2 < k1 {
            assert(!spec_same_identity(rows2[k2], rows2[k1]));
        }
    }
}

/// Package rows in strictly increasing id order: the id-ordering half
/// of the table invariant, which is all the walk laws need.
pub open spec fn spec_packages_sorted(rows: Seq<Package>) -> bool {
    forall|i: int, j: int|
        #![trigger rows[i], rows[j]]
        0 <= i < j < rows.len() ==> rows[i].id < rows[j].id
}

/// Package rows in strictly decreasing id order, the order a descending
/// listing walks them in.
pub open spec fn spec_packages_sorted_desc(rows: Seq<Package>) -> bool {
    forall|i: int, j: int|
        #![trigger rows[i], rows[j]]
        0 <= i < j < rows.len() ==> rows[i].id > rows[j].id
}

proof fn lemma_reverse_sorted(rows: Seq<Package>)
    requires
        spec_packages_sorted(rows),
    ensures
        spec_packages_sorted_desc(rows.reverse()),
{
    let r = rows.reverse();
    assert forall|i: int, j: int|
        #![trigger r[i], r[j]]
        0 <= i < j < r.len() implies r[i].id > r[j].id by {
        assert(r[i] == rows[rows.len() - 1 - i]);
        assert(r[j] == rows[rows.len() - 1 - j]);
    }
}

/// A filter of an id-ascending sequence is id-ascending, and its last
/// row's id is bounded by the last inspected row's id.
proof fn lemma_filter_take_sorted_asc(rows: Seq<Package>, pred: spec_fn(Package) -> bool, i: int)
    requires
        spec_packages_sorted(rows),
        0 <= i <= rows.len(),
    ensures
        spec_packages_sorted(rows.take(i).filter(pred)),
        rows.take(i).filter(pred).len() > 0 ==> i > 0 && rows.take(i).filter(pred).last().id
            <= rows[i - 1].id,
    decreases i,
{
    if i == 0 {
        assert(rows.take(0) =~= Seq::<Package>::empty());
        lemma_filter_empty::<Package>(pred);
    } else {
        lemma_filter_take_sorted_asc(rows, pred, i - 1);
        lemma_filter_step(rows, i - 1, pred);
        let f0 = rows.take(i - 1).filter(pred);
        let f1 = rows.take(i).filter(pred);
        if pred(rows[i - 1]) {
            assert(f1 == f0 + seq![rows[i - 1]]);
            assert forall|p: int, q: int|
                #![trigger f1[p], f1[q]]
                0 <= p < q < f1.len() implies f1[p].id < f1[q].id by {
                if q < f0.len() {
                    assert(f1[p] == f0[p]);
                    assert(f1[q] == f0[q]);
                } else {
                    assert(f1[q] == rows[i - 1]);
                    assert(f1[p] == f0[p]);
                    assert(f0[p].id <= f0.last().id);
                    assert(f0.last().id <= rows[i - 2].id);
                    assert(rows[i - 2].id < rows[i - 1].id);
                }
            }
        } else {
            assert(f1 =~= f0);
            if f1.len() > 0 {
                assert(rows[i - 2].id < rows[i - 1].id);
            }
        }
    }
}

proof fn lemma_filter_sorted_asc(rows: Seq<Package>, pred: spec_fn(Package) -> bool)
    requires
        spec_packages_sorted(rows),
    ensures
        spec_packages_sorted(rows.filter(pred)),
{
    lemma_filter_take_sorted_asc(rows, pred, rows.len() as int);
    assert(rows.take(rows.len() as int) =~= rows);
}

/// On an id-ascending sequence, keeping the rows above the id at `m`
/// keeps exactly the rows after position `m`.
proof fn lemma_filter_above_at_take(s: Seq<Package>, m: int, i: int)
    requires
        spec_packages_sorted(s),
        0 <= m < s.len(),
        0 <= i <= s.len(),
    ensures
        s.take(i).filter(spec_package_above(s[m].id)) == if i <= m + 1 {
            Seq::<Package>::empty()
        } else {
            s.subrange(m + 1, i)
        },
    decreases i,
{
    let pred = spec_package_above(s[m].id);
    if i == 0 {
        assert(s.take(0) =~= Seq::<Package>::empty());
        lemma_filter_empty::<Package>(pred);
    } else {
        lemma_filter_above_at_take(s, m, i - 1);
        lemma_filter_step(s, i - 1, pred);
        if i - 1 <= m {
            assert(s[i - 1].id <= s[m].id);
            assert(!pred(s[i - 1]));
            assert(s.take(i - 1).filter(pred) + Seq::<Package>::empty() =~= s.take(i - 1).filter(
                pred,
            ));
        } else {
            assert(s[i - 1].id > s[m].id);
            assert(pred(s[i - 1]));
            if i - 1 == m + 1 {
                assert(Seq::<Package>::empty() + seq![s[i - 1]] =~= s.subrange(m + 1, i));
            } else {
                assert(s.subrange(m + 1, i - 1) + seq![s[i - 1]] =~= s.subrange(m + 1, i));
            }
        }
    }
}

proof fn lemma_filter_above_at(s: Seq<Package>, m: int)
    requires
        spec_packages_sorted(s),
        0 <= m < s.len(),
    ensures
        s.filter(spec_package_above(s[m].id)) == s.skip(m + 1),
{
    lemma_filter_above_at_take(s, m, s.len() as int);
    assert(s.take(s.len() as int) =~= s);
    assert(s.subrange(m + 1, s.len() as int) =~= s.skip(m + 1));
}

/// The descending counterparts of the two lemmas above.
proof fn lemma_filter_take_sorted_desc(rows: Seq<Package>, pred: spec_fn(Package) -> bool, i: int)
    requires
        spec_packages_sorted_desc(rows),
        0 <= i <= rows.len(),
    ensures
        spec_packages_sorted_desc(rows.take(i).filter(pred)),
        rows.take(i).filter(pred).len() > 0 ==> i > 0 && rows.take(i).filter(pred).last().id
            >= rows[i - 1].id,
    decreases i,
{
    if i == 0 {
        assert(rows.take(0) =~= Seq::<Package>::empty());
        lemma_filter_empty::<Package>(pred);
    } else {
        lemma_filter_take_sorted_desc(rows, pred, i - 1);
        lemma_filter_step(rows, i - 1, pred);
        let f0 = rows.take(i - 1).filter(pred);
        let f1 = rows.take(i).filter(pred);
        if pred(rows[i - 1]) {
            assert(f1 == f0 + seq![rows[i - 1]]);
            assert forall|p: int, q: int|
                #![trigger f1[p], f1[q]]
                0 <= p < q < f1.len() implies f1[p].id > f1[q].id by {
                if q < f0.len() {
                    assert(f1[p] == f0[p]);
                    assert(f1[q] == f0[q]);
                } else {
                    assert(f1[q] == rows[i - 1]);
                    assert(f1[p] == f0[p]);
                    assert(f0[p].id >= f0.last().id);
                    assert(f0.last().id >= rows[i - 2].id);
                    assert(rows[i - 2].id > rows[i - 1].id);
                }
            }
        } else {
            assert(f1 =~= f0);
            if f1.len() > 0 {
                assert(rows[i - 2].id > rows[i - 1].id);
            }
        }
    }
}

proof fn lemma_filter_sorted_desc(rows: Seq<Package>, pred: spec_fn(Package) -> bool)
    requires
        spec_packages_sorted_desc(rows),
    ensures
        spec_packages_sorted_desc(rows.filter(pred)),
{
    lemma_filter_take_sorted_desc(rows, pred, rows.len() as int);
    assert(rows.take(rows.len() as int) =~= rows);
}

proof fn lemma_filter_below_at_take(s: Seq<Package>, m: int, i: int)
    requires
        spec_packages_sorted_desc(s),
        0 <= m < s.len(),
        0 <= i <= s.len(),
    ensures
        s.take(i).filter(spec_package_below(s[m].id)) == if i <= m + 1 {
            Seq::<Package>::empty()
        } else {
            s.subrange(m + 1, i)
        },
    decreases i,
{
    let pred = spec_package_below(s[m].id);
    if i == 0 {
        assert(s.take(0) =~= Seq::<Package>::empty());
        lemma_filter_empty::<Package>(pred);
    } else {
        lemma_filter_below_at_take(s, m, i - 1);
        lemma_filter_step(s, i - 1, pred);
        if i - 1 <= m {
            assert(s[i - 1].id >= s[m].id);
            assert(!pred(s[i - 1]));
            assert(s.take(i - 1).filter(pred) + Seq::<Package>::empty() =~= s.take(i - 1).filter(
                pred,
            ));
        } else {
            assert(s[i - 1].id < s[m].id);
            assert(pred(s[i - 1]));
            if i - 1 == m + 1 {
                assert(Seq::<Package>::empty() + seq![s[i - 1]] =~= s.subrange(m + 1, i));
            } else {
                assert(s.subrange(m + 1, i - 1) + seq![s[i - 1]] =~= s.subrange(m + 1, i));
            }
        }
    }
}

proof fn lemma_filter_below_at(s: Seq<Package>, m: int)
    requires
        spec_packages_sorted_desc(s),
        0 <= m < s.len(),
    ensures
        s.filter(spec_package_below(s[m].id)) == s.skip(m + 1),
{
    lemma_filter_below_at_take(s, m, s.len() as int);
    assert(s.take(s.len() as int) =~= s);
    assert(s.subrange(m + 1, s.len() as int) =~= s.skip(m + 1));
}

/// One page of a listing, as the API returns it: the first `limit` rows
/// of the selection.
pub open spec fn spec_package_page(rows: Seq<Package>, limit: int, after: Option<u128>, order: Order) -> Seq<
    Package,
> {
    spec_limited(spec_package_selection(rows, after, order), limit)
}

/// The cursor one page hands out: the id of its last row, present
/// exactly when rows were cut off.
pub open spec fn spec_package_page_next(
    rows: Seq<Package>,
    limit: int,
    after: Option<u128>,
    order: Order,
) -> Option<u128> {
    let sel = spec_package_selection(rows, after, order);
    if sel.len() > limit && limit > 0 {
        Some(sel[limit - 1].id)
    } else {
        None
    }
}

/// After one page, the remaining selection is exactly the tail beyond
/// the cursor the page handed out.
proof fn lemma_package_selection_after_cursor(
    rows: Seq<Package>,
    limit: int,
    after: Option<u128>,
    order: Order,
)
    requires
        spec_packages_sorted(rows),
        limit >= 1,
        spec_package_selection(rows, after, order).len() > limit,
    ensures
        spec_package_selection(
            rows,
            Some(spec_package_selection(rows, after, order)[limit - 1].id),
            order,
        ) == spec_package_selection(rows, after, order).skip(limit),
{
    let sel = spec_package_selection(rows, after, order);
    let c = sel[limit - 1].id;
    match order {
        Order::Asc => {
            match after {
                Option::None => {
                    lemma_filter_above_at(rows, limit - 1);
                },
                Option::Some(a) => {
                    lemma_filter_sorted_asc(rows, spec_package_above(a));
                    rows.lemma_filter_pred(spec_package_above(a), limit - 1);
                    lemma_filter_above_at(sel, limit - 1);
                    assert(forall|x: Package|
                        #[trigger] spec_package_above(c)(x) ==> spec_package_above(a)(x));
                    lemma_filter_subsume(rows, spec_package_above(c), spec_package_above(a));
                },
            }
        },
        Order::Desc => {
            let r = rows.reverse();
            lemma_reverse_sorted(rows);
            match after {
                Option::None => {
                    lemma_filter_below_at(r, limit - 1);
                },
                Option::Some(a) => {
                    lemma_filter_sorted_desc(r, spec_package_below(a));
                    r.lemma_filter_pred(spec_package_below(a), limit - 1);
                    lemma_filter_below_at(sel, limit - 1);
                    assert(forall|x: Package|
                        #[trigger] spec_package_below(c)(x) ==> spec_package_below(a)(x));
                    lemma_filter_subsume(r, spec_package_below(c), spec_package_below(a));
                },
            }
        },
    }
}

/// Every row a walk of the listing visits, following each page's cursor
/// until a page hands out none.
pub open spec fn spec_package_walk(rows: Seq<Package>, limit: int, after: Option<u128>, order: Order) -> Seq<
    Package,
>
    decreases spec_package_selection(rows, after, order).len(),
        when limit >= 1 && spec_packages_sorted(rows)
        via spec_package_walk_decreases
{
    match spec_package_page_next(rows, limit, after, order) {
        Option::None => spec_package_page(rows, limit, after, order),
        Option::Some(c) => spec_package_page(rows, limit, after, order) + spec_package_walk(
            rows,
            limit,
            Some(c),
            order,
        ),
    }
}

#[via_fn]
proof fn spec_package_walk_decreases(rows: Seq<Package>, limit: int, after: Option<u128>, order: Order) {
    match spec_package_page_next(rows, limit, after, order) {
        Option::None => {},
        Option::Some(c) => {
            lemma_package_selection_after_cursor(rows, limit, after, order);
        },
    }
}

/// A walk started anywhere covers the remaining selection: each page
/// picks up exactly where the previous cursor left off.
pub proof fn lemma_package_walk_covers(rows: Seq<Package>, limit: int, after: Option<u128>, order: Order)
    requires
        spec_packages_sorted(rows),
        limit >= 1,
    ensures
        spec_package_walk(rows, limit, after, order) == spec_package_selection(rows, after, order),
    decreases spec_package_selection(rows, after, order).len(),
{
    let sel = spec_package_selection(rows, after, order);
    match spec_package_page_next(rows, limit, after, order) {
        Option::None => {},
        Option::Some(c) => {
            lemma_package_selection_after_cursor(rows, limit, after, order);
            lemma_package_walk_covers(rows, limit, Some(c), order);
            assert(sel.take(limit) + sel.skip(limit) =~= sel);
        },
    }
}

/// Pagination boundary: a limit equal to the selection's size yields no
/// cursor, and a limit one less yields the cursor of the last returned
/// row.
pub proof fn lemma_package_pagination_boundary(rows: Seq<Package>, after: Option<u128>, order: Order)
    ensures
        spec_package_page_next(
            rows,
            spec_package_selection(rows, after, order).len() as int,
            after,
            order,
        ) is None,
        spec_package_selection(rows, after, order).len() > 1 ==> (spec_package_page_next(
            rows,
            spec_package_selection(rows, after, order).len() - 1,
            after,
            order,
        ) matches Some(c) && c == spec_package_page(
            rows,
            spec_package_selection(rows, after, order).len() - 1,
            after,
            order,
        ).last().id),
{
}

/// Keyset pagination correctness: on a table of strictly increasing ids,
/// requesting pages of any positive size and following `next_cursor`
/// visits every row exactly once — in increasing id order ascending, in
/// decreasing id order descending — and terminates with no cursor.
pub proof fn lemma_package_pagination_visits_all(rows: Seq<Package>, limit: int, order: Order)
    requires
        spec_packages_sorted(rows),
        limit >= 1,
    ensures
        order == Order::Asc ==> spec_package_walk(rows, limit, Option::None, order) == rows,
        order == Order::Desc ==> spec_package_walk(rows, limit, Option::None, order) == rows.reverse(),
{
    lemma_package_walk_covers(rows, limit, Option::None, order);
}

} // verus!
