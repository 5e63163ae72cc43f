use vstd::prelude::*;
use vstd::seq_lib::*;

use crate::db::types::Order;
use crate::error::Error;
use crate::models::job::{Job, JobStatus};
use crate::pagination::{
    lemma_filter_cut, lemma_filter_empty, lemma_filter_step, lemma_filter_subsume,
    lemma_filter_whole, spec_limited,
};

verus! {

/// Selects the rows lying strictly after an ascending cursor.
pub open spec fn spec_job_above(a: u128) -> spec_fn(Job) -> bool {
    |x: Job| x.id > a
}

/// Selects the rows lying strictly after a descending cursor.
pub open spec fn spec_job_below(a: u128) -> spec_fn(Job) -> bool {
    |x: Job| x.id < a
}

/// The rows a keyset query over the jobs table inspects, in the order it
/// returns them, before the limit is applied: ascending queries walk the
/// table in id order from just above the cursor, descending queries walk
/// it in reverse id order from just below it.
pub open spec fn spec_job_selection(rows: Seq<Job>, after: Option<u128>, order: Order) -> Seq<
    Job,
> {
    match order {
        Order::Asc => match after {
            Option::None => rows,
            Option::Some(a) => rows.filter(spec_job_above(a)),
        },
        Order::Desc => match after {
            Option::None => rows.reverse(),
            Option::Some(a) => rows.reverse().filter(spec_job_below(a)),
        },
    }
}

/// Job rows in strictly increasing id order; in particular ids are
/// unique.
pub open spec fn spec_jobs_sorted(rows: Seq<Job>) -> bool {
    forall|i: int, j: int|
        #![trigger rows[i], rows[j]]
        0 <= i < j < rows.len() ==> rows[i].id < rows[j].id
}

/// The same job with its status set to `Completed`.
pub open spec fn spec_completed(j: Job) -> Job {
    Job { status: JobStatus::Completed, ..j }
}

/// The jobs table.  Rows are kept in strictly increasing id order, which
/// the table can do because ids are time-ordered: each inserted row's id
/// lies above every id already present.
pub struct JobStore {
    jobs: Vec<Job>,
}

impl JobStore {
    /// The rows of the table, in stored (ascending id) order.
    pub closed spec fn rows(&self) -> Seq<Job> {
        self.jobs@
    }

    /// Rows are strictly ordered by id; in particular ids are unique.
    pub open spec fn wf(&self) -> bool {
        spec_jobs_sorted(self.rows())
    }

    /// Whether some row carries the given id.
    pub open spec fn spec_contains_id(&self, id: u128) -> bool {
        exists|i: int| 0 <= i < self.rows().len() && (#[trigger] self.rows()[i]).id == id
    }

    /// Whether a row with the given id may be appended: the table is
    /// empty or the id lies above every stored id.
    pub open spec fn spec_can_append(&self, id: u128) -> bool {
        self.rows().len() == 0 || self.rows().last().id < id
    }

    pub fn new() -> (s: Self)
        ensures
            s.rows() == Seq::<Job>::empty(),
            s.wf(),
    {
        JobStore { jobs: Vec::new() }
    }

    /// Inserts a job row.  Ids are time-ordered, so a fresh job's id lies
    /// above every stored id and the row is appended; an id at or below
    /// an existing id is the store-level uniqueness/ordering violation
    /// and is rejected without changing the table.
    pub fn insert_job(&mut self, job: Job) -> (r: Result<Job, Error>)
        requires
            old(self).wf(),
        ensures
            final(self).wf(),
            old(self).spec_can_append(job.id) ==> (r matches Ok(j) && j == job) && final(self).rows() == old(self).rows().push(job),
            !old(self).spec_can_append(job.id) ==> (r matches Err(e) && e is Internal) && final(self).rows() == old(self).rows(),
    {
        let n = self.jobs.len();
        if n == 0 || self.jobs[n - 1].id < job.id {
            let returned = job.clone();
            self.jobs.push(job);
            proof {
                assert forall|i: int, j: int|
                    #![trigger self.rows()[i], self.rows()[j]]
                    0 <= i < j < self.rows().len() implies self.rows()[i].id < self.rows()[j].id by {
                    if j < old(self).rows().len() {
                    } else {
                        if i < old(self).rows().len() as int - 1 {
                            assert(old(self).rows()[i].id < old(self).rows()[old(self).rows().len() - 1].id);
                        }
                    }
                }
            }
            Ok(returned)
        } else {
            Err(Error::Internal(String::from_str("job id is not above the stored ids")))
        }
    }

    /// Marks the row with the given id `Completed` and returns it as
    /// updated; a missing id is reported as `NotFound`.  Completing an
    /// already completed job is a no-op returning the same row, which is
    /// what makes redelivered work messages safe.
    pub fn complete_job(&mut self, id: u128) -> (r: Result<Job, Error>)
        requires
            old(self).wf(),
        ensures
            final(self).wf(),
            !old(self).spec_contains_id(id) ==> (r matches Err(e) && e is NotFound) && final(self).rows() == old(self).rows(),
            old(self).spec_contains_id(id) ==> exists|i: int|
                {
                    &&& 0 <= i < old(self).rows().len()
                    &&& (#[trigger] old(self).rows()[i]).id == id
                    &&& final(self).rows() == old(self).rows().update(
                        i,
                        spec_completed(old(self).rows()[i]),
                    )
                    &&& r matches Ok(j) && j == spec_completed(old(self).rows()[i])
                },
    {
        let n = self.jobs.len();
        let mut i: usize = 0;
        while i < n
            invariant
                0 <= i <= n,
                n == self.rows().len(),
                self == old(self),
                old(self).wf(),
                forall|k: int| 0 <= k < i ==> (#[trigger] self.rows()[k]).id != id,
            decreases n - i,
        {
            if self.jobs[i].id == id {
                let row = self.jobs.remove(i);
                let updated = Job { status: JobStatus::Completed, ..row };
                let returned = updated.clone();
                self.jobs.insert(i, updated);
                proof {
                    assert(self.rows() =~= old(self).rows().update(
                        i as int,
                        spec_completed(old(self).rows()[i as int]),
                    ));
                    assert forall|p: int, q: int|
                        #![trigger self.rows()[p], self.rows()[q]]
                        0 <= p < q < self.rows().len() implies self.rows()[p].id < self.rows()[q].id by {
                        assert(old(self).rows()[p].id < old(self).rows()[q].id);
                        assert(self.rows()[p].id == old(self).rows()[p].id);
                        assert(self.rows()[q].id == old(self).rows()[q].id);
                    }
                }
                return Ok(returned);
            }
            i = i + 1;
        }
        Err(Error::NotFound(String::from_str("Not found")))
    }

    /// Returns the row with the given id, if any.
    pub fn get_job_by_id(&self, id: u128) -> (r: Option<Job>)
        ensures
            !self.spec_contains_id(id) ==> r is None,
            self.spec_contains_id(id) ==> exists|i: int|
                {
                    &&& 0 <= i < self.rows().len()
                    &&& (#[trigger] self.rows()[i]).id == id
                    &&& r matches Some(j) && j == self.rows()[i]
                },
    {
        let n = self.jobs.len();
        let mut i: usize = 0;
        while i < n
            invariant
                0 <= i <= n,
                n == self.rows().len(),
                forall|k: int| 0 <= k < i ==> (#[trigger] self.rows()[k]).id != id,
            decreases n - i,
        {
            if self.jobs[i].id == id {
                return Some(self.jobs[i].clone());
            }
            i = i + 1;
        }
        None
    }

    /// A keyset page over the jobs table: up to `limit` rows of the
    /// selection given by the cursor and the direction.
    pub fn get_jobs(&self, limit: u64, after: Option<u128>, order: Order) -> (r: Vec<Job>)
        ensures
            r@ == spec_limited(spec_job_selection(self.rows(), after, order), limit as int),
    {
        match after {
            Option::Some(a) => self.get_jobs_with_limit_after(limit, a, order),
            Option::None => self.get_jobs_with_limit(limit, order),
        }
    }

    fn get_jobs_with_limit(&self, limit: u64, order: Order) -> (r: Vec<Job>)
        ensures
            r@ == spec_limited(spec_job_selection(self.rows(), Option::None, order), limit as int),
    {
        match order {
            Order::Asc => self.get_jobs_with_limit_asc(limit),
            Order::Desc => self.get_jobs_with_limit_desc(limit),
        }
    }

    fn get_jobs_with_limit_after(&self, limit: u64, after: u128, order: Order) -> (r: Vec<Job>)
        ensures
            r@ == spec_limited(
                spec_job_selection(self.rows(), Option::Some(after), order),
                limit as int,
            ),
    {
        match order {
            Order::Asc => self.get_jobs_with_limit_after_asc(limit, after),
            Order::Desc => self.get_jobs_with_limit_after_desc(limit, after),
        }
    }

    fn get_jobs_with_limit_asc(&self, limit: u64) -> (r: Vec<Job>)
        ensures
            r@ == spec_limited(self.rows(), limit as int),
    {
        let n = self.jobs.len();
        let mut out: Vec<Job> = Vec::new();
        let mut i: usize = 0;
        while i < n && (out.len() as u64) < limit
            invariant
                0 <= i <= n,
                n == self.rows().len(),
                out@ == self.rows().take(i as int),
                out.len() == i,
                i as u64 <= limit,
            decreases n - i,
        {
            out.push(self.jobs[i].clone());
            proof {
                assert(self.rows().take(i as int + 1) =~= self.rows().take(i as int).push(
                    self.rows()[i as int],
                ));
            }
            i = i + 1;
        }
        proof {
            if i == n {
                assert(self.rows().take(n as int) =~= self.rows());
            }
        }
        out
    }

    fn get_jobs_with_limit_desc(&self, limit: u64) -> (r: Vec<Job>)
        ensures
            r@ == spec_limited(self.rows().reverse(), limit as int),
    {
        let n = self.jobs.len();
        let rev = Ghost(self.rows().reverse());
        let mut out: Vec<Job> = Vec::new();
        let mut i: usize = n;
        while i > 0 && (out.len() as u64) < limit
            invariant
                0 <= i <= n,
                n == self.rows().len(),
                rev@ == self.rows().reverse(),
                out@ == rev@.take(n - i),
                out.len() == n - i,
                (n - i) as u64 <= limit,
            decreases i,
        {
            out.push(self.jobs[i - 1].clone());
            proof {
                assert(rev@[n - i] == self.rows()[i - 1]);
                assert(rev@.take(n - i + 1) =~= rev@.take(n - i).push(rev@[n - i]));
            }
            i = i - 1;
        }
        proof {
            if i == 0 {
                assert(rev@.take(n as int) =~= rev@);
            }
        }
        out
    }

    fn get_jobs_with_limit_after_asc(&self, limit: u64, after: u128) -> (r: Vec<Job>)
        ensures
            r@ == spec_limited(self.rows().filter(spec_job_above(after)), limit as int),
    {
        let n = self.jobs.len();
        let mut out: Vec<Job> = Vec::new();
        let mut i: usize = 0;
        while i < n && (out.len() as u64) < limit
            invariant
                0 <= i <= n,
                n == self.rows().len(),
                out@ == self.rows().take(i as int).filter(spec_job_above(after)),
                out.len() as u64 <= limit,
            decreases n - i,
        {
            proof {
                lemma_filter_step(self.rows(), i as int, spec_job_above(after));
            }
            if self.jobs[i].id > after {
                out.push(self.jobs[i].clone());
            }
            i = i + 1;
        }
        proof {
            broadcast use vstd::seq_lib::group_filter_ensures;

            if i == n {
                lemma_filter_whole(self.rows(), spec_job_above(after));
            } else {
                lemma_filter_cut(self.rows(), i as int, limit as int, spec_job_above(after));
            }
        }
        out
    }

    fn get_jobs_with_limit_after_desc(&self, limit: u64, after: u128) -> (r: Vec<Job>)
        ensures
            r@ == spec_limited(self.rows().reverse().filter(spec_job_below(after)), limit as int),
    {
        let n = self.jobs.len();
        let rev = Ghost(self.rows().reverse());
        let mut out: Vec<Job> = Vec::new();
        let mut i: usize = n;
        while i > 0 && (out.len() as u64) < limit
            invariant
                0 <= i <= n,
                n == self.rows().len(),
                rev@ == self.rows().reverse(),
                out@ == rev@.take(n - i).filter(spec_job_below(after)),
                out.len() as u64 <= limit,
            decreases i,
        {
            proof {
                assert(rev@[n - i] == self.rows()[i - 1]);
                lemma_filter_step(rev@, n - i, spec_job_below(after));
            }
            if self.jobs[i - 1].id < after {
                out.push(self.jobs[i - 1].clone());
            }
            i = i - 1;
        }
        proof {
            broadcast use vstd::seq_lib::group_filter_ensures;

            if i == 0 {
                assert(rev@.take(n as int) =~= rev@);
                lemma_filter_whole(rev@, spec_job_below(after));
            } else {
                lemma_filter_cut(rev@, n - i, limit as int, spec_job_below(after));
            }
        }
        out
    }
}

/// Job rows in strictly decreasing id order, the order a descending
/// listing walks them in.
pub open spec fn spec_jobs_sorted_desc(rows: Seq<Job>) -> bool {
    forall|i: int, j: int|
        #![trigger rows[i], rows[j]]
        0 <= i < j < rows.len() ==> rows[i].id > rows[j].id
}

proof fn lemma_reverse_sorted(rows: Seq<Job>)
    requires
        spec_jobs_sorted(rows),
    ensures
        spec_jobs_sorted_desc(rows.reverse()),
{
    let r = rows.reverse();
    assert forall|i: int, j: int|
        #![trigger r[i], r[j]]
        0 <= i < j < r.len() implies r[i].id > r[j].id by {
        assert(r[i] == rows[rows.len() - 1 - i]);
        assert(r[j] == rows[rows.len() - 1 - j]);
    }
}

/// A filter of an id-ascending sequence is id-ascending, and its last
/// row's id is bounded by the last inspected row's id.
proof fn lemma_filter_take_sorted_asc(rows: Seq<Job>, pred: spec_fn(Job) -> bool, i: int)
    requires
        spec_jobs_sorted(rows),
        0 <= i <= rows.len(),
    ensures
        spec_jobs_sorted(rows.take(i).filter(pred)),
        rows.take(i).filter(pred).len() > 0 ==> i > 0 && rows.take(i).filter(pred).last().id
            <= rows[i - 1].id,
    decreases i,
{
    if i == 0 {
        assert(rows.take(0) =~= Seq::<Job>::empty());
        lemma_filter_empty::<Job>(pred);
    } else {
        lemma_filter_take_sorted_asc(rows, pred, i - 1);
        lemma_filter_step(rows, i - 1, pred);
        let f0 = rows.take(i - 1).filter(pred);
        let f1 = rows.take(i).filter(pred);
        if pred(rows[i - 1]) {
            assert(f1 == f0 + seq![rows[i - 1]]);
            assert forall|p: int, q: int|
                #![trigger f1[p], f1[q]]
                0 <= p < q < f1.len() implies f1[p].id < f1[q].id by {
                if q < f0.len() {
                    assert(f1[p] == f0[p]);
                    assert(f1[q] == f0[q]);
                } else {
                    assert(f1[q] == rows[i - 1]);
                    assert(f1[p] == f0[p]);
                    assert(f0[p].id <= f0.last().id);
                    assert(f0.last().id <= rows[i - 2].id);
                    assert(rows[i - 2].id < rows[i - 1].id);
                }
            }
        } else {
            assert(f1 =~= f0);
            if f1.len() > 0 {
                assert(rows[i - 2].id < rows[i - 1].id);
            }
        }
    }
}

proof fn lemma_filter_sorted_asc(rows: Seq<Job>, pred: spec_fn(Job) -> bool)
    requires
        spec_jobs_sorted(rows),
    ensures
        spec_jobs_sorted(rows.filter(pred)),
{
    lemma_filter_take_sorted_asc(rows, pred, rows.len() as int);
    assert(rows.take(rows.len() as int) =~= rows);
}

/// On an id-ascending sequence, keeping the rows above the id at `m`
/// keeps exactly the rows after position `m`.
proof fn lemma_filter_above_at_take(s: Seq<Job>, m: int, i: int)
    requires
        spec_jobs_sorted(s),
        0 <= m < s.len(),
        0 <= i <= s.len(),
    ensures
        s.take(i).filter(spec_job_above(s[m].id)) == if i <= m + 1 {
            Seq::<Job>::empty()
        } else {
            s.subrange(m + 1, i)
        },
    decreases i,
{
    let pred = spec_job_above(s[m].id);
    if i == 0 {
        assert(s.take(0) =~= Seq::<Job>::empty());
        lemma_filter_empty::<Job>(pred);
    } else {
        lemma_filter_above_at_take(s, m, i - 1);
        lemma_filter_step(s, i - 1, pred);
        if i - 1 <= m {
            assert(s[i - 1].id <= s[m].id);
            assert(!pred(s[i - 1]));
            assert(s.take(i - 1).filter(pred) + Seq::<Job>::empty() =~= s.take(i - 1).filter(
                pred,
            ));
        } else {
            assert(s[i - 1].id > s[m].id);
            assert(pred(s[i - 1]));
            if i - 1 == m + 1 {
                assert(Seq::<Job>::empty() + seq![s[i - 1]] =~= s.subrange(m + 1, i));
            } else {
                assert(s.subrange(m + 1, i - 1) + seq![s[i - 1]] =~= s.subrange(m + 1, i));
            }
        }
    }
}

proof fn lemma_filter_above_at(s: Seq<Job>, m: int)
    requires
        spec_jobs_sorted(s),
        0 <= m < s.len(),
    ensures
        s.filter(spec_job_above(s[m].id)) == s.skip(m + 1),
{
    lemma_filter_above_at_take(s, m, s.len() as int);
    assert(s.take(s.len() as int) =~= s);
    assert(s.subrange(m + 1, s.len() as int) =~= s.skip(m + 1));
}

/// The descending counterparts of the two lemmas above.
proof fn lemma_filter_take_sorted_desc(rows: Seq<Job>, pred: spec_fn(Job) -> bool, i: int)
    requires
        spec_jobs_sorted_desc(rows),
        0 <= i <= rows.len(),
    ensures
        spec_jobs_sorted_desc(rows.take(i).filter(pred)),
        rows.take(i).filter(pred).len() > 0 ==> i > 0 && rows.take(i).filter(pred).last().id
            >= rows[i - 1].id,
    decreases i,
{
    if i == 0 {
        assert(rows.take(0) =~= Seq::<Job>::empty());
        lemma_filter_empty::<Job>(pred);
    } else {
        lemma_filter_take_sorted_desc(rows, pred, i - 1);
        lemma_filter_step(rows, i - 1, pred);
        let f0 = rows.take(i - 1).filter(pred);
        let f1 = rows.take(i).filter(pred);
        if pred(rows[i - 1]) {
            assert(f1 == f0 + seq![rows[i - 1]]);
            assert forall|p: int, q: int|
                #![trigger f1[p], f1[q]]
                0 <= p < q < f1.len() implies f1[p].id > f1[q].id by {
                if q < f0.len() {
                    assert(f1[p] == f0[p]);
                    assert(f1[q] == f0[q]);
                } else {
                    assert(f1[q] == rows[i - 1]);
                    assert(f1[p] == f0[p]);
                    assert(f0[p].id >= f0.last().id);
                    assert(f0.last().id >= rows[i - 2].id);
                    assert(rows[i - 2].id > rows[i - 1].id);
                }
            }
        } else {
            assert(f1 =~= f0);
            if f1.len() > 0 {
                assert(rows[i - 2].id > rows[i - 1].id);
            }
        }
    }
}

proof fn lemma_filter_sorted_desc(rows: Seq<Job>, pred: spec_fn(Job) -> bool)
    requires
        spec_jobs_sorted_desc(rows),
    ensures
        spec_jobs_sorted_desc(rows.filter(pred)),
{
    lemma_filter_take_sorted_desc(rows, pred, rows.len() as int);
    assert(rows.take(rows.len() as int) =~= rows);
}

proof fn lemma_filter_below_at_take(s: Seq<Job>, m: int, i: int)
    requires
        spec_jobs_sorted_desc(s),
        0 <= m < s.len(),
        0 <= i <= s.len(),
    ensures
        s.take(i).filter(spec_job_below(s[m].id)) == if i <= m + 1 {
            Seq::<Job>::empty()
        } else {
            s.subrange(m + 1, i)
        },
    decreases i,
{
    let pred = spec_job_below(s[m].id);
    if i == 0 {
        assert(s.take(0) =~= Seq::<Job>::empty());
        lemma_filter_empty::<Job>(pred);
    } else {
        lemma_filter_below_at_take(s, m, i - 1);
        lemma_filter_step(s, i - 1, pred);
        if i - 1 <= m {
            assert(s[i - 1].id >= s[m].id);
            assert(!pred(s[i - 1]));
            assert(s.take(i - 1).filter(pred) + Seq::<Job>::empty() =~= s.take(i - 1).filter(
                pred,
            ));
        } else {
            assert(s[i - 1].id < s[m].id);
            assert(pred(s[i - 1]));
            if i - 1 == m + 1 {
                assert(Seq::<Job>::empty() + seq![s[i - 1]] =~= s.subrange(m + 1, i));
            } else {
                assert(s.subrange(m + 1, i - 1) + seq![s[i - 1]] =~= s.subrange(m + 1, i));
            }
        }
    }
}

proof fn lemma_filter_below_at(s: Seq<Job>, m: int)
    requires
        spec_jobs_sorted_desc(s),
        0 <= m < s.len(),
    ensures
        s.filter(spec_job_below(s[m].id)) == s.skip(m + 1),
{
    lemma_filter_below_at_take(s, m, s.len() as int);
    assert(s.take(s.len() as int) =~= s);
    assert(s.subrange(m + 1, s.len() as int) =~= s.skip(m + 1));
}

/// One page of a listing, as the API returns it: the first `limit` rows
/// of the selection.
pub open spec fn spec_page(rows: Seq<Job>, limit: int, after: Option<u128>, order: Order) -> Seq<
    Job,
> {
    spec_limited(spec_job_selection(rows, after, order), limit)
}

/// The cursor one page hands out: the id of its last row, present
/// exactly when rows were cut off.
pub open spec fn spec_page_next(
    rows: Seq<Job>,
    limit: int,
    after: Option<u128>,
    order: Order,
) -> Option<u128> {
    let sel = spec_job_selection(rows, after, order);
    if sel.len() > limit && limit > 0 {
        Some(sel[limit - 1].id)
    } else {
        None
    }
}

/// After one page, the remaining selection is exactly the tail beyond
/// the cursor the page handed out.
proof fn lemma_selection_after_cursor(
    rows: Seq<Job>,
    limit: int,
    after: Option<u128>,
    order: Order,
)
    requires
        spec_jobs_sorted(rows),
        limit >= 1,
        spec_job_selection(rows, after, order).len() > limit,
    ensures
        spec_job_selection(
            rows,
            Some(spec_job_selection(rows, after, order)[limit - 1].id),
            order,
        ) == spec_job_selection(rows, after, order).skip(limit),
{
    let sel = spec_job_selection(rows, after, order);
    let c = sel[limit - 1].id;
    match order {
        Order::Asc => {
            match after {
                Option::None => {
                    lemma_filter_above_at(rows, limit - 1);
                },
                Option::Some(a) => {
                    lemma_filter_sorted_asc(rows, spec_job_above(a));
                    rows.lemma_filter_pred(spec_job_above(a), limit - 1);
                    lemma_filter_above_at(sel, limit - 1);
                    assert(forall|x: Job|
                        #[trigger] spec_job_above(c)(x) ==> spec_job_above(a)(x));
                    lemma_filter_subsume(rows, spec_job_above(c), spec_job_above(a));
                },
            }
        },
        Order::Desc => {
            let r = rows.reverse();
            lemma_reverse_sorted(rows);
            match after {
                Option::None => {
                    lemma_filter_below_at(r, limit - 1);
                },
                Option::Some(a) => {
                    lemma_filter_sorted_desc(r, spec_job_below(a));
                    r.lemma_filter_pred(spec_job_below(a), limit - 1);
                    lemma_filter_below_at(sel, limit - 1);
                    assert(forall|x: Job|
                        #[trigger] spec_job_below(c)(x) ==> spec_job_below(a)(x));
                    lemma_filter_subsume(r, spec_job_below(c), spec_job_below(a));
                },
            }
        },
    }
}

/// Every row a walk of the listing visits, following each page's cursor
/// until a page hands out none.
pub open spec fn spec_walk(rows: Seq<Job>, limit: int, after: Option<u128>, order: Order) -> Seq<
    Job,
>
    decreases spec_job_selection(rows, after, order).len(),
        when limit >= 1 && spec_jobs_sorted(rows)
        via spec_walk_decreases
{
    match spec_page_next(rows, limit, after, order) {
        Option::None => spec_page(rows, limit, after, order),
        Option::Some(c) => spec_page(rows, limit, after, order) + spec_walk(
            rows,
            limit,
            Some(c),
            order,
        ),
    }
}

#[via_fn]
proof fn spec_walk_decreases(rows: Seq<Job>, limit: int, after: Option<u128>, order: Order) {
    match spec_page_next(rows, limit, after, order) {
        Option::None => {},
        Option::Some(c) => {
            lemma_selection_after_cursor(rows, limit, after, order);
        },
    }
}

/// A walk started anywhere covers the remaining selection: each page
/// picks up exactly where the previous cursor left off.
pub proof fn lemma_walk_covers(rows: Seq<Job>, limit: int, after: Option<u128>, order: Order)
    requires
        spec_jobs_sorted(rows),
        limit >= 1,
    ensures
        spec_walk(rows, limit, after, order) == spec_job_selection(rows, after, order),
    decreases spec_job_selection(rows, after, order).len(),
{
    let sel = spec_job_selection(rows, after, order);
    match spec_page_next(rows, limit, after, order) {
        Option::None => {},
        Option::Some(c) => {
            lemma_selection_after_cursor(rows, limit, after, order);
            lemma_walk_covers(rows, limit, Some(c), order);
            assert(sel.take(limit) + sel.skip(limit) =~= sel);
        },
    }
}

/// Pagination boundary: a limit equal to the selection's size yields no
/// cursor, and a limit one less yields the cursor of the last returned
/// row.
pub proof fn lemma_pagination_boundary(rows: Seq<Job>, after: Option<u128>, order: Order)
    ensures
        spec_page_next(
            rows,
            spec_job_selection(rows, after, order).len() as int,
            after,
            order,
        ) is None,
        spec_job_selection(rows, after, order).len() > 1 ==> (spec_page_next(
            rows,
            spec_job_selection(rows, after, order).len() - 1,
            after,
            order,
        ) matches Some(c) && c == spec_page(
            rows,
            spec_job_selection(rows, after, order).len() - 1,
            after,
            order,
        ).last().id),
{
}

/// Keyset pagination correctness: on a table of strictly increasing ids,
/// requesting pages of any positive size and following `next_cursor`
/// visits every row exactly once — in increasing id order ascending, in
/// decreasing id order descending — and terminates with no cursor.
pub proof fn lemma_pagination_visits_all(rows: Seq<Job>, limit: int, order: Order)
    requires
        spec_jobs_sorted(rows),
        limit >= 1,
    ensures
        order == Order::Asc ==> spec_walk(rows, limit, Option::None, order) == rows,
        order == Order::Desc ==> spec_walk(rows, limit, Option::None, order) == rows.reverse(),
{
    lemma_walk_covers(rows, limit, Option::None, order);
}

} // verus!
