//! Reading the store: counts, listings and lookups.

use crate::bytes::{before, before_is_transitive, copy_bytes, copy_range, has_prefix, starts_with};
use crate::error::{Error, ErrorView};
use crate::job::{JobRecord, JobStatus, JobView};
use crate::keys::{
    claimed_prefix, dead_key, dead_prefix, name_field, name_fits, parse_stats_key, pending_prefix,
    queue_prefix, tag_prefix, user_scoped_key, validate_queue_name, KeyTag, RecordKeyView, StoreKey,
    TAG_CLAIMED, TAG_DEAD, TAG_DONE, TAG_PENDING, TAG_SCHEDULED, TAG_STATS,
};
use crate::range::{in_range, past_start, subrange, within_prefix, KeyBound};
use crate::stats::{count_of, counter_value, QueueStats};
use crate::store::{entry, StoreView};
use crate::txn::{get_indexed_job, needs_job, opt_job, Reads, Stop, Txn};
use vstd::prelude::*;
use vstd::utf8::encode_utf8;

verus! {

/// One page of a job listing.
#[derive(Debug)]
pub struct JobPage {
    /// The jobs, in the order of the listed state's keys.
    pub jobs: Vec<JobRecord>,
    /// Where the next page starts; `None` where there is none.
    pub next_cursor: Option<Vec<u8>>,
}

/// One page of a listing of the caller's entries.
#[derive(Debug)]
pub struct KvPage {
    /// The entries, in the order of their keys.
    pub entries: Vec<(Vec<u8>, Vec<u8>)>,
    /// Whether further entries existed.
    pub more: bool,
    /// The last key of the page where further entries existed.
    pub next_cursor: Option<Vec<u8>>,
}

/// The keys that a job listing scans.
#[derive(Debug)]
pub struct ListRange {
    /// The prefix of the keys.
    pub prefix: Vec<u8>,
    /// Where the scan starts, as the part of the key after the prefix.
    pub start: KeyBound,
    /// Whether jobs of other queues are in the range.
    pub filter_queue: bool,
}

/// The prefix of the keys that hold a queue's jobs in a state. Scheduled and
/// done keys lead with a time and are shared by all queues.
pub open spec fn listing_prefix(queue: Seq<char>, status: JobStatus) -> Seq<u8> {
    match status {
        JobStatus::Pending => queue_prefix(TAG_PENDING, queue),
        JobStatus::Dead => queue_prefix(TAG_DEAD, queue),
        JobStatus::Claimed => queue_prefix(TAG_CLAIMED, queue),
        JobStatus::Scheduled => seq![TAG_SCHEDULED],
        JobStatus::Done => seq![TAG_DONE],
    }
}

/// The keys to scan for a page of a queue's jobs in one state: those of the
/// state after the cursor. There is nothing to scan where no job is asked for
/// or the cursor is not a key of the state.
pub fn list_jobs_range(
    queue: &str,
    status: JobStatus,
    cursor: Option<&[u8]>,
    limit: usize,
) -> (r: Result<Option<ListRange>, Error>)
    ensures
        match r {
            Err(e) => !name_fits(queue@) && e@ == (ErrorView::InvalidQueueName {
                queue: queue@,
                reason: "queue name exceeds the maximum length of 255 bytes"@,
            }),
            Ok(None) => name_fits(queue@) && (limit == 0 || (cursor matches Some(c)
                && !starts_with(c@, listing_prefix(queue@, status)))),
            Ok(Some(range)) => {
                &&& name_fits(queue@)
                &&& limit > 0
                &&& range.prefix@ == listing_prefix(queue@, status)
                &&& range.filter_queue == (status == JobStatus::Scheduled || status
                    == JobStatus::Done)
                &&& cursor matches Some(c) ==> starts_with(c@, range.prefix@)
                &&& forall|suffix: Seq<u8>| #[trigger]
                    past_start(suffix, range.start@) == match cursor {
                        Some(c) => before(c@, range.prefix@ + suffix),
                        None => true,
                    }
            },
        },
{
    if let Err(e) = validate_queue_name(queue) {
        return Err(e);
    }
    if limit == 0 {
        return Ok(None);
    }
    let (prefix, filter_queue) = match status {
        JobStatus::Pending => (pending_prefix(queue), false),
        JobStatus::Dead => (dead_prefix(queue), false),
        JobStatus::Claimed => (claimed_prefix(queue), false),
        JobStatus::Scheduled => (tag_prefix(KeyTag::Scheduled), true),
        JobStatus::Done => (tag_prefix(KeyTag::Done), true),
    };
    match cursor {
        None => Ok(Some(ListRange { prefix, start: KeyBound::Unbounded, filter_queue })),
        Some(c) => {
            if !has_prefix(c, prefix.as_slice()) {
                return Ok(None);
            }
            let rest = copy_range(c, prefix.len(), c.len());
            proof {
                assert forall|suffix: Seq<u8>| #[trigger] before(rest@, suffix) == before(
                    c@,
                    prefix@ + suffix,
                ) by {
                    within_prefix(c@, prefix@, suffix);
                }
            }
            Ok(Some(ListRange { prefix, start: KeyBound::Excluded(rest), filter_queue }))
        },
    }
}

/// The cursor of a dead-job listing that goes on after a job.
pub fn dead_jobs_cursor(queue: &str, after: Option<&str>) -> (r: Result<Option<Vec<u8>>, Error>)
    ensures
        match r {
            Err(e) => !name_fits(queue@) && e@ == (ErrorView::InvalidQueueName {
                queue: queue@,
                reason: "queue name exceeds the maximum length of 255 bytes"@,
            }),
            Ok(cursor) => name_fits(queue@) && match after {
                Some(id) => cursor matches Some(c) && c@ == (RecordKeyView::Dead {
                    queue: queue@,
                    id: id@,
                }).encode(),
                None => cursor is None,
            },
        },
{
    if let Err(e) = validate_queue_name(queue) {
        return Err(e);
    }
    match after {
        Some(id) => Ok(Some(dead_key(queue, id))),
        None => Ok(None),
    }
}

/// The rows of a listing that belong to it: all of them, or those of one
/// queue.
pub open spec fn matching(
    rows: Seq<(Seq<u8>, JobView)>,
    queue: Option<Seq<char>>,
) -> Seq<(Seq<u8>, JobView)>
    decreases rows.len(),
{
    if rows.len() == 0 {
        Seq::empty()
    } else {
        let rest = matching(rows.drop_last(), queue);
        if queue is None || queue == Some(rows.last().1.queue) {
            rest.push(rows.last())
        } else {
            rest
        }
    }
}

/// The contents of a list of records.
pub open spec fn record_views(jobs: Seq<JobRecord>) -> Seq<JobView> {
    Seq::new(jobs.len(), |i: int| jobs[i]@)
}

/// The jobs of a list of rows.
pub open spec fn row_jobs(rows: Seq<(Seq<u8>, JobView)>) -> Seq<JobView> {
    Seq::new(rows.len(), |i: int| rows[i].1)
}

/// Whether `page` is the first page of a list of rows.
pub open spec fn first_page(page: JobPage, rows: Seq<(Seq<u8>, JobView)>, limit: nat) -> bool {
    if rows.len() > limit {
        &&& record_views(page.jobs@) == row_jobs(rows.subrange(0, limit as int))
        &&& page.next_cursor matches Some(c) && c@ == rows[limit - 1].0
    } else {
        &&& record_views(page.jobs@) == row_jobs(rows)
        &&& page.next_cursor is None
    }
}

/// Puts together a page of a job listing from the rows of a scan.
pub struct JobPager {
    queue: Option<String>,
    limit: usize,
    jobs: Vec<JobRecord>,
    last_key: Option<Vec<u8>>,
    more: bool,
    seen: Ghost<Seq<(Seq<u8>, JobView)>>,
}

impl JobPager {
    #[verifier::type_invariant]
    spec fn inv(self) -> bool {
        let found = matching(self.seen@, self.filter());
        &&& self.limit > 0
        &&& self.jobs@.len() > 0 ==> (self.last_key matches Some(k) && k@ == found[self.jobs@.len()
            - 1].0)
        &&& if self.more {
            &&& found.len() == self.limit + 1
            &&& record_views(self.jobs@) == row_jobs(found.subrange(0, self.limit as int))
        } else {
            &&& found.len() <= self.limit
            &&& record_views(self.jobs@) == row_jobs(found)
        }
    }

    /// The queue whose jobs are listed, where others are in the scan.
    pub closed spec fn filter(self) -> Option<Seq<char>> {
        crate::job::opt_text(self.queue)
    }

    /// The most jobs of the page.
    pub closed spec fn limit(self) -> nat {
        self.limit as nat
    }

    /// The rows taken in so far.
    pub closed spec fn seen(self) -> Seq<(Seq<u8>, JobView)> {
        self.seen@
    }

    /// Whether the page needs no further row.
    pub closed spec fn full(self) -> bool {
        self.more
    }

    /// An empty page of at most `limit` jobs; with a queue, of its jobs only.
    pub fn new(queue: Option<String>, limit: usize) -> (r: JobPager)
        requires
            limit > 0,
        ensures
            r.filter() == crate::job::opt_text(queue),
            r.limit() == limit,
            r.seen() == Seq::<(Seq<u8>, JobView)>::empty(),
            !r.full(),
    {
        let jobs: Vec<JobRecord> = Vec::new();
        proof {
            assert(record_views(jobs@) =~= row_jobs(Seq::empty()));
        }
        JobPager { queue, limit, jobs, last_key: None, more: false, seen: Ghost(Seq::empty()) }
    }

    /// Takes in the next row of the scan, with its key. Returns whether the
    /// page needs further rows: it does until a job past the page is seen.
    pub fn push(self, key: &[u8], job: JobRecord) -> (r: (JobPager, bool))
        requires
            !self.full(),
        ensures
            r.0.filter() == self.filter(),
            r.0.limit() == self.limit(),
            r.0.seen() == self.seen().push((key@, job@)),
            r.1 == !r.0.full(),
            r.0.full() == (matching(r.0.seen(), r.0.filter()).len() > self.limit()),
    {
        proof {
            use_type_invariant(&self);
        }
        let JobPager { queue, limit, mut jobs, mut last_key, more: _, seen } = self;
        let ghost filter = crate::job::opt_text(queue);
        let ghost before_rows = seen@;
        let ghost rows = seen@.push((key@, job@));
        let ghost found = matching(before_rows, filter);
        proof {
            assert(rows.drop_last() =~= before_rows);
        }
        let belongs: bool = match &queue {
            Some(name) => *name == job.queue,
            None => true,
        };
        if !belongs {
            return (
                JobPager { queue, limit, jobs, last_key, more: false, seen: Ghost(rows) },
                true,
            );
        }
        proof {
            assert(matching(rows, filter) =~= found.push((key@, job@)));
            assert(jobs@.len() == found.len()) by {
                assert(record_views(jobs@).len() == row_jobs(found).len());
            }
        }
        if jobs.len() == limit {
            proof {
                let all = matching(rows, filter);
                assert(all.subrange(0, limit as int) =~= found);
                assert(all[limit - 1] == found[limit - 1]);
            }
            (JobPager { queue, limit, jobs, last_key, more: true, seen: Ghost(rows) }, false)
        } else {
            let ghost view = job@;
            let ghost before_jobs = jobs@;
            jobs.push(job);
            last_key = Some(copy_bytes(key));
            proof {
                assert(record_views(jobs@) =~= record_views(before_jobs).push(view));
                assert(row_jobs(found.push((key@, view))) =~= row_jobs(found).push(view));
            }
            (JobPager { queue, limit, jobs, last_key, more: false, seen: Ghost(rows) }, true)
        }
    }

    /// The page.
    pub fn finish(self) -> (r: JobPage)
        ensures
            self.full() ==> matching(self.seen(), self.filter()).len() > self.limit(),
            !self.full() ==> matching(self.seen(), self.filter()).len() <= self.limit(),
            first_page(r, matching(self.seen(), self.filter()), self.limit()),
    {
        proof {
            use_type_invariant(&self);
            let found = matching(self.seen@, self.filter());
            if self.more {
                assert(record_views(self.jobs@).len() == row_jobs(
                    found.subrange(0, self.limit as int),
                ).len());
            }
        }
        let JobPager { jobs, last_key, more, .. } = self;
        JobPage {
            jobs,
            next_cursor: if more {
                last_key
            } else {
                None
            },
        }
    }
}

/// Whether keys are in strictly ascending order.
pub open spec fn ascending(rows: Seq<(Seq<u8>, JobView)>) -> bool {
    forall|i: int, j: int| 0 <= i < j < rows.len() ==> before(#[trigger] rows[i].0, #[trigger] rows[j].0)
}

/// A listing has the rows of its queue and no others, in the order of the scan.
pub proof fn matching_selects_the_queue(
    rows: Seq<(Seq<u8>, JobView)>,
    queue: Option<Seq<char>>,
)
    ensures
        forall|row: (Seq<u8>, JobView)| #[trigger]
            matching(rows, queue).contains(row) <==> rows.contains(row) && (queue is None || queue
                == Some(row.1.queue)),
        ascending(rows) ==> ascending(matching(rows, queue)),
    decreases rows.len(),
{
    if rows.len() > 0 {
        let rest = rows.drop_last();
        let last = rows.last();
        let found = matching(rest, queue);
        let all = matching(rows, queue);
        matching_selects_the_queue(rest, queue);
        assert forall|row: (Seq<u8>, JobView)| #[trigger] all.contains(row) <==> rows.contains(row)
            && (queue is None || queue == Some(row.1.queue)) by {
            assert(rows =~= rest.push(last));
            assert(rows.contains(row) <==> rest.contains(row) || row == last) by {
                if rest.contains(row) {
                    let i = choose|i: int| 0 <= i < rest.len() && rest[i] == row;
                    assert(rows[i] == row);
                }
                assert(rows[rows.len() - 1] == last);
            }
            assert(found.contains(row) <==> rest.contains(row) && (queue is None || queue == Some(
                row.1.queue,
            )));
            if queue is None || queue == Some(last.1.queue) {
                assert(all == found.push(last));
                if found.contains(row) {
                    let i = choose|i: int| 0 <= i < found.len() && found[i] == row;
                    assert(all[i] == row);
                }
                assert(all[found.len() as int] == last);
            }
        }
        if ascending(rows) {
            assert forall|i: int, j: int| 0 <= i < j < rest.len() implies before(
                #[trigger] rest[i].0,
                #[trigger] rest[j].0,
            ) by {
                assert(before(rows[i].0, rows[j].0));
            }
            assert forall|i: int, j: int| 0 <= i < j < all.len() implies before(
                #[trigger] all[i].0,
                #[trigger] all[j].0,
            ) by {
                if j < found.len() {
                    assert(before(found[i].0, found[j].0));
                } else {
                    assert(all[i] == found[i]);
                    assert(found.contains(found[i]));
                    let k = choose|k: int| 0 <= k < rest.len() && rest[k] == found[i];
                    assert(before(rows[k].0, rows[rows.len() - 1].0));
                }
            }
        }
    }
}

proof fn matching_concat(
    a: Seq<(Seq<u8>, JobView)>,
    b: Seq<(Seq<u8>, JobView)>,
    queue: Option<Seq<char>>,
)
    ensures
        matching(a + b, queue) == matching(a, queue) + matching(b, queue),
    decreases b.len(),
{
    if b.len() == 0 {
        assert(a + b =~= a);
        assert(matching(a, queue) + matching(b, queue) =~= matching(a, queue));
    } else {
        assert((a + b).drop_last() =~= a + b.drop_last());
        matching_concat(a, b.drop_last(), queue);
        assert(matching(a + b, queue) =~= matching(a, queue) + matching(b, queue));
    }
}

/// The row of the scan at which the `n`-th listed row stands.
proof fn row_of_match(
    rows: Seq<(Seq<u8>, JobView)>,
    queue: Option<Seq<char>>,
    n: int,
) -> (j: int)
    requires
        0 <= n < matching(rows, queue).len(),
    ensures
        0 <= j < rows.len(),
        rows[j] == matching(rows, queue)[n],
        matching(rows.subrange(0, j + 1), queue) == matching(rows, queue).subrange(0, n + 1),
    decreases rows.len(),
{
    let rest = rows.drop_last();
    let m = matching(rows, queue);
    let mr = matching(rest, queue);
    if n < mr.len() {
        let j = row_of_match(rest, queue, n);
        assert(rest.subrange(0, j + 1) =~= rows.subrange(0, j + 1));
        assert(mr.subrange(0, n + 1) =~= m.subrange(0, n + 1));
        j
    } else {
        let j = rows.len() - 1;
        assert(rows.subrange(0, j + 1) =~= rows);
        assert(m.subrange(0, n + 1) =~= m);
        j
    }
}

/// The page that a listing resumes with goes on where the one before it
/// ended: of the rows in key order, those past the cursor are those after the
/// page, so that each listed job is on one page and none is on two.
pub proof fn next_page_continues(
    rows: Seq<(Seq<u8>, JobView)>,
    queue: Option<Seq<char>>,
    limit: nat,
) -> (j: int)
    requires
        ascending(rows),
        0 < limit < matching(rows, queue).len(),
    ensures
        0 <= j < rows.len(),
        rows[j].0 == matching(rows, queue)[limit - 1].0,
        matching(rows.subrange(0, j + 1), queue) == matching(rows, queue).subrange(
            0,
            limit as int,
        ),
        matching(rows.subrange(j + 1, rows.len() as int), queue) == matching(rows, queue).subrange(
            limit as int,
            matching(rows, queue).len() as int,
        ),
        forall|i: int|
            0 <= i < rows.len() ==> (i > j) == before(
                matching(rows, queue)[limit - 1].0,
                #[trigger] rows[i].0,
            ),
{
    let m = matching(rows, queue);
    let j = row_of_match(rows, queue, limit - 1);
    let a = rows.subrange(0, j + 1);
    let b = rows.subrange(j + 1, rows.len() as int);
    assert(rows =~= a + b);
    matching_concat(a, b, queue);
    assert(matching(b, queue) =~= m.subrange(limit as int, m.len() as int));
    assert forall|i: int| 0 <= i < rows.len() implies (i > j) == before(
        m[limit - 1].0,
        #[trigger] rows[i].0,
    ) by {
        if i < j {
            assert(before(rows[i].0, rows[j].0));
            if before(rows[j].0, rows[i].0) {
                before_is_transitive(rows[i].0, rows[j].0, rows[i].0);
            }
        } else if i > j {
            assert(before(rows[j].0, rows[i].0));
        }
    }
    j
}

/// Whether a key is after a cursor; every key is after none.
pub open spec fn past_cursor(key: Seq<u8>, cursor: Option<Seq<u8>>) -> bool {
    match cursor {
        Some(c) => before(c, key),
        None => true,
    }
}

/// The rows of a scan that starts after a cursor.
pub open spec fn rows_past<V>(rows: Seq<(Seq<u8>, V)>, cursor: Option<Seq<u8>>) -> Seq<
    (Seq<u8>, V),
> {
    rows.filter(|row: (Seq<u8>, V)| past_cursor(row.0, cursor))
}

proof fn rows_past_are_the_tail<V>(rows: Seq<(Seq<u8>, V)>, cursor: Option<Seq<u8>>, from: int)
    requires
        0 <= from <= rows.len(),
        forall|i: int|
            0 <= i < rows.len() ==> past_cursor((#[trigger] rows[i]).0, cursor) == (i >= from),
    ensures
        rows_past(rows, cursor) == rows.subrange(from, rows.len() as int),
    decreases rows.len(),
{
    reveal(Seq::filter);
    if rows.len() > 0 {
        let rest = rows.drop_last();
        assert forall|i: int| 0 <= i < rest.len() implies past_cursor(
            (#[trigger] rest[i]).0,
            cursor,
        ) == (i >= from) by {
            assert(rest[i] == rows[i]);
        }
        assert(rows[rows.len() - 1] == rows.last());
        if from < rows.len() {
            rows_past_are_the_tail(rest, cursor, from);
            assert(rows.subrange(from, rows.len() as int) =~= rest.subrange(
                from,
                rest.len() as int,
            ).push(rows.last()));
        } else {
            rows_past_are_the_tail(rest, cursor, from - 1);
            assert(rows_past(rest, cursor) =~= Seq::empty());
            assert(rows.subrange(from, rows.len() as int) =~= Seq::empty());
        }
    }
}

/// A page that was cut short by its limit is the same with the rows of the scan
/// that were not read.
pub proof fn full_page_needs_no_further_row(
    page: JobPage,
    read: Seq<(Seq<u8>, JobView)>,
    unread: Seq<(Seq<u8>, JobView)>,
    queue: Option<Seq<char>>,
    limit: nat,
)
    requires
        limit > 0,
        matching(read, queue).len() > limit,
        first_page(page, matching(read, queue), limit),
    ensures
        first_page(page, matching(read + unread, queue), limit),
{
    matching_concat(read, unread, queue);
    let m = matching(read, queue);
    let all = matching(read + unread, queue);
    assert(all.subrange(0, limit as int) =~= m.subrange(0, limit as int));
}

/// Where a page goes on: nowhere for the first one, and for each later one at
/// the cursor of the page before it.
pub open spec fn page_cursor(pages: Seq<JobPage>, n: int) -> Option<Seq<u8>> {
    if n == 0 {
        None
    } else {
        match pages[n - 1].next_cursor {
            Some(c) => Some(c@),
            None => None,
        }
    }
}

/// Whether `pages` are read one after the other, the first from the start and
/// each later one from the cursor of the one before it.
pub open spec fn pages_follow(
    pages: Seq<JobPage>,
    rows: Seq<(Seq<u8>, JobView)>,
    queue: Option<Seq<char>>,
    limits: Seq<nat>,
) -> bool {
    &&& pages.len() == limits.len()
    &&& forall|n: int|
        0 <= n < pages.len() ==> #[trigger] limits[n] > 0 && first_page(
            pages[n],
            matching(rows_past(rows, page_cursor(pages, n)), queue),
            limits[n],
        ) && (n > 0 ==> page_cursor(pages, n) is Some)
}

/// The jobs of a list of pages.
pub open spec fn listed(pages: Seq<JobPage>) -> Seq<JobView>
    decreases pages.len(),
{
    if pages.len() == 0 {
        Seq::empty()
    } else {
        listed(pages.drop_last()) + record_views(pages.last().jobs@)
    }
}

/// Following the cursors of a listing lists each job of it once, in order: the
/// pages read so far hold the first jobs of the listing, they hold all of them
/// where the last page has no cursor and only there, and as every page holds a
/// job that is after no more pages than there are jobs.
pub proof fn pages_list_every_job_once(
    pages: Seq<JobPage>,
    rows: Seq<(Seq<u8>, JobView)>,
    queue: Option<Seq<char>>,
    limits: Seq<nat>,
)
    requires
        ascending(rows),
        pages.len() > 0,
        pages_follow(pages, rows, queue, limits),
    ensures
        listed(pages).len() <= matching(rows, queue).len(),
        listed(pages) == row_jobs(matching(rows, queue).subrange(0, listed(pages).len() as int)),
        pages.last().next_cursor is None <==> listed(pages) == row_jobs(matching(rows, queue)),
        pages.last().next_cursor matches Some(c) ==> listed(pages).len() > 0 && c@ == matching(
            rows,
            queue,
        )[listed(pages).len() - 1].0,
        matching(rows, queue).len() > 0 ==> pages.len() <= listed(pages).len(),
        matching(rows, queue).len() == 0 ==> pages.len() == 1,
    decreases pages.len(),
{
    let m = matching(rows, queue);
    let n = pages.len() - 1;
    let rest = pages.drop_last();
    let cursor = page_cursor(pages, n);
    let k: nat = if n == 0 {
        0
    } else {
        listed(rest).len()
    };
    if n == 0 {
        assert(listed(rest) =~= Seq::empty());
        rows_past_are_the_tail(rows, cursor, 0);
        assert(rows.subrange(0, rows.len() as int) =~= rows);
        assert(m.subrange(0, m.len() as int) =~= m);
    } else {
        let fewer = limits.drop_last();
        assert forall|i: int| 0 <= i < rest.len() implies #[trigger] fewer[i] > 0 && first_page(
            rest[i],
            matching(rows_past(rows, page_cursor(rest, i)), queue),
            fewer[i],
        ) && (i > 0 ==> page_cursor(rest, i) is Some) by {
            assert(limits[i] == fewer[i]);
            assert(page_cursor(rest, i) == page_cursor(pages, i));
        }
        assert(limits[n] > 0);
        pages_list_every_job_once(rest, rows, queue, fewer);
        assert(rest.last() == pages[n - 1]);
        if k == m.len() {
            assert(m.subrange(0, k as int) =~= m);
            assert(false);
        }
        let j = next_page_continues(rows, queue, k);
        rows_past_are_the_tail(rows, cursor, j + 1);
    }
    let tail = m.subrange(k as int, m.len() as int);
    assert(matching(rows_past(rows, cursor), queue) == tail);
    let page = pages[n];
    let limit = limits[n];
    assert(first_page(page, tail, limit));
    let taken: nat = if tail.len() > limit {
        limit
    } else {
        tail.len()
    };
    assert(tail.subrange(0, tail.len() as int) =~= tail);
    assert(record_views(page.jobs@) == row_jobs(tail.subrange(0, taken as int)));
    assert(listed(pages) =~= row_jobs(m.subrange(0, (k + taken) as int)));
    assert(m.subrange(0, m.len() as int) =~= m);
    assert(row_jobs(m).len() == m.len());
}

/// The keys to scan for the caller's entries under `prefix` within a range:
/// the scan's prefix and its bounds on the part of the key after it. There is
/// nothing to scan where no entry is asked for or no key is in the range.
pub fn kv_scan_range(prefix: &[u8], start: &KeyBound, end: &KeyBound, limit: usize) -> (r: Option<
    (Vec<u8>, KeyBound, KeyBound),
>)
    ensures
        r is None <==> (limit == 0 || forall|suffix: Seq<u8>|
            !in_range(#[trigger] (prefix@ + suffix), start@, end@)),
        r matches Some((scoped, from, to)) ==> {
            &&& scoped@ == (StoreKey::User { key: prefix@ }).encode()
            &&& forall|suffix: Seq<u8>| #[trigger]
                in_range(suffix, from@, to@) == in_range(prefix@ + suffix, start@, end@)
        },
{
    match subrange(prefix, start, end) {
        None => None,
        Some((from, to)) => if limit == 0 {
            None
        } else {
            Some((user_scoped_key(prefix), from, to))
        },
    }
}

/// The contents of a list of entries.
pub open spec fn entry_views(entries: Seq<(Vec<u8>, Vec<u8>)>) -> Seq<(Seq<u8>, Seq<u8>)> {
    Seq::new(entries.len(), |i: int| (entries[i].0@, entries[i].1@))
}

/// Whether `page` is the first page of a list of the caller's entries.
pub open spec fn first_kv_page(page: KvPage, rows: Seq<(Seq<u8>, Seq<u8>)>, limit: nat) -> bool {
    if rows.len() > limit {
        &&& entry_views(page.entries@) == rows.subrange(0, limit as int)
        &&& page.more
        &&& page.next_cursor matches Some(c) && c@ == rows[limit - 1].0
    } else {
        &&& entry_views(page.entries@) == rows
        &&& !page.more
        &&& page.next_cursor is None
    }
}

/// Puts together a page of the caller's entries from the rows of a scan.
pub struct KvPager {
    limit: usize,
    entries: Vec<(Vec<u8>, Vec<u8>)>,
    more: bool,
    seen: Ghost<Seq<(Seq<u8>, Seq<u8>)>>,
}

impl KvPager {
    #[verifier::type_invariant]
    spec fn inv(self) -> bool {
        &&& self.limit > 0
        &&& if self.more {
            &&& self.seen@.len() == self.limit + 1
            &&& entry_views(self.entries@) == self.seen@.subrange(0, self.limit as int)
        } else {
            &&& self.seen@.len() <= self.limit
            &&& entry_views(self.entries@) == self.seen@
        }
    }

    /// The most entries of the page.
    pub closed spec fn limit(self) -> nat {
        self.limit as nat
    }

    /// The entries taken in so far, under the caller's keys.
    pub closed spec fn seen(self) -> Seq<(Seq<u8>, Seq<u8>)> {
        self.seen@
    }

    /// Whether the page needs no further row.
    pub closed spec fn full(self) -> bool {
        self.more
    }

    /// An empty page of at most `limit` entries.
    pub fn new(limit: usize) -> (r: KvPager)
        requires
            limit > 0,
        ensures
            r.limit() == limit,
            r.seen() == Seq::<(Seq<u8>, Seq<u8>)>::empty(),
            !r.full(),
    {
        let entries: Vec<(Vec<u8>, Vec<u8>)> = Vec::new();
        proof {
            assert(entry_views(entries@) =~= Seq::empty());
        }
        KvPager { limit, entries, more: false, seen: Ghost(Seq::empty()) }
    }

    /// Takes in the next row of the scan, under its store key. Returns whether
    /// the page needs further rows.
    pub fn push(self, key: &[u8], value: Vec<u8>) -> (r: (KvPager, bool))
        requires
            !self.full(),
            key@.len() > 0,
        ensures
            r.0.limit() == self.limit(),
            r.0.seen() == self.seen().push((key@.subrange(1, key@.len() as int), value@)),
            r.1 == !r.0.full(),
            r.0.full() == (r.0.seen().len() > self.limit()),
    {
        proof {
            use_type_invariant(&self);
        }
        let KvPager { limit, mut entries, more: _, seen } = self;
        let ghost rows = seen@.push((key@.subrange(1, key@.len() as int), value@));
        proof {
            assert(entry_views(entries@).len() == seen@.len());
        }
        if entries.len() == limit {
            proof {
                assert(rows.subrange(0, limit as int) =~= seen@);
            }
            (KvPager { limit, entries, more: true, seen: Ghost(rows) }, false)
        } else {
            let own = copy_range(key, 1, key.len());
            let ghost before_entries = entries@;
            entries.push((own, value));
            proof {
                assert(entry_views(entries@) =~= rows);
            }
            (KvPager { limit, entries, more: false, seen: Ghost(rows) }, true)
        }
    }

    /// The page.
    pub fn finish(self) -> (r: KvPage)
        ensures
            first_kv_page(r, self.seen(), self.limit()),
    {
        proof {
            use_type_invariant(&self);
        }
        let KvPager { limit, entries, more, seen } = self;
        let next_cursor: Option<Vec<u8>> = if more {
            proof {
                assert(entry_views(entries@).len() == limit);
                assert(entry_views(entries@)[limit - 1] == seen@[limit - 1]);
            }
            Some(copy_bytes(entries[limit - 1].0.as_slice()))
        } else {
            None
        };
        KvPage { entries, more, next_cursor }
    }
}

/// The page that a listing of the caller's entries resumes with goes on where
/// the one before it ended: of the entries in key order, those past the last key
/// of the page are those after the page.
pub proof fn next_kv_page_continues(rows: Seq<(Seq<u8>, Seq<u8>)>, limit: nat)
    requires
        forall|i: int, j: int|
            0 <= i < j < rows.len() ==> before(#[trigger] rows[i].0, #[trigger] rows[j].0),
        0 < limit < rows.len(),
    ensures
        forall|i: int|
            0 <= i < rows.len() ==> (i >= limit) == before(
                rows[limit - 1].0,
                #[trigger] rows[i].0,
            ),
{
    let last = limit - 1;
    assert forall|i: int| 0 <= i < rows.len() implies (i >= limit) == before(
        rows[last].0,
        #[trigger] rows[i].0,
    ) by {
        if i < last {
            assert(before(rows[i].0, rows[last].0));
            if before(rows[last].0, rows[i].0) {
                before_is_transitive(rows[i].0, rows[last].0, rows[i].0);
            }
        } else if i > last {
            assert(before(rows[last].0, rows[i].0));
        }
    }
}

/// A page that was cut short by its limit is the same with the entries of the
/// scan that were not read.
pub proof fn full_kv_page_needs_no_further_row(
    page: KvPage,
    read: Seq<(Seq<u8>, Seq<u8>)>,
    unread: Seq<(Seq<u8>, Seq<u8>)>,
    limit: nat,
)
    requires
        limit > 0,
        read.len() > limit,
        first_kv_page(page, read, limit),
    ensures
        first_kv_page(page, read + unread, limit),
{
    assert((read + unread).subrange(0, limit as int) =~= read.subrange(0, limit as int));
}

/// Where a page of the caller's entries goes on.
pub open spec fn kv_page_cursor(pages: Seq<KvPage>, n: int) -> Option<Seq<u8>> {
    if n == 0 {
        None
    } else {
        match pages[n - 1].next_cursor {
            Some(c) => Some(c@),
            None => None,
        }
    }
}

/// Whether `pages` of the caller's entries are read one after the other, the
/// first from the start and each later one from the cursor of the one before
/// it.
pub open spec fn kv_pages_follow(
    pages: Seq<KvPage>,
    rows: Seq<(Seq<u8>, Seq<u8>)>,
    limits: Seq<nat>,
) -> bool {
    &&& pages.len() == limits.len()
    &&& forall|n: int|
        0 <= n < pages.len() ==> #[trigger] limits[n] > 0 && first_kv_page(
            pages[n],
            rows_past(rows, kv_page_cursor(pages, n)),
            limits[n],
        ) && (n > 0 ==> kv_page_cursor(pages, n) is Some)
}

/// The entries of a list of pages.
pub open spec fn listed_entries(pages: Seq<KvPage>) -> Seq<(Seq<u8>, Seq<u8>)>
    decreases pages.len(),
{
    if pages.len() == 0 {
        Seq::empty()
    } else {
        listed_entries(pages.drop_last()) + entry_views(pages.last().entries@)
    }
}

/// Following the cursors of a listing of the caller's entries lists each entry
/// once, in order: the pages read so far hold the first entries, they hold all
/// of them where the last page has no cursor and only there, and as every page
/// holds an entry that is after no more pages than there are entries.
pub proof fn kv_pages_list_every_entry_once(
    pages: Seq<KvPage>,
    rows: Seq<(Seq<u8>, Seq<u8>)>,
    limits: Seq<nat>,
)
    requires
        forall|i: int, j: int|
            0 <= i < j < rows.len() ==> before(#[trigger] rows[i].0, #[trigger] rows[j].0),
        pages.len() > 0,
        kv_pages_follow(pages, rows, limits),
    ensures
        listed_entries(pages).len() <= rows.len(),
        listed_entries(pages) == rows.subrange(0, listed_entries(pages).len() as int),
        pages.last().next_cursor is None <==> listed_entries(pages) == rows,
        pages.last().next_cursor matches Some(c) ==> listed_entries(pages).len() > 0 && c@
            == rows[listed_entries(pages).len() - 1].0,
        rows.len() > 0 ==> pages.len() <= listed_entries(pages).len(),
        rows.len() == 0 ==> pages.len() == 1,
    decreases pages.len(),
{
    let n = pages.len() - 1;
    let rest = pages.drop_last();
    let cursor = kv_page_cursor(pages, n);
    let k: nat = if n == 0 {
        0
    } else {
        listed_entries(rest).len()
    };
    if n == 0 {
        assert(listed_entries(rest) =~= Seq::empty());
    } else {
        let fewer = limits.drop_last();
        assert forall|i: int| 0 <= i < rest.len() implies #[trigger] fewer[i] > 0
            && first_kv_page(
            rest[i],
            rows_past(rows, kv_page_cursor(rest, i)),
            fewer[i],
        ) && (i > 0 ==> kv_page_cursor(rest, i) is Some) by {
            assert(limits[i] == fewer[i]);
            assert(kv_page_cursor(rest, i) == kv_page_cursor(pages, i));
        }
        assert(limits[n] > 0);
        kv_pages_list_every_entry_once(rest, rows, fewer);
        assert(rest.last() == pages[n - 1]);
        if k == rows.len() {
            assert(rows.subrange(0, k as int) =~= rows);
            assert(false);
        }
        next_kv_page_continues(rows, k);
    }
    rows_past_are_the_tail(rows, cursor, k as int);
    let tail = rows.subrange(k as int, rows.len() as int);
    let page = pages[n];
    let limit = limits[n];
    assert(first_kv_page(page, tail, limit));
    let taken: nat = if tail.len() > limit {
        limit
    } else {
        tail.len()
    };
    assert(tail.subrange(0, tail.len() as int) =~= tail);
    assert(entry_views(page.entries@) == tail.subrange(0, taken as int));
    assert(listed_entries(pages) =~= rows.subrange(0, (k + taken) as int));
    assert(rows.subrange(0, rows.len() as int) =~= rows);
}

/// Whether a stats key counts jobs of a queue.
pub open spec fn counts_queue(key: Seq<u8>, queue: Seq<char>) -> bool {
    name_fits(queue) && exists|metric: Seq<char>|
        key == seq![TAG_STATS] + #[trigger] (name_field(queue) + encode_utf8(metric))
}

/// The queue that a stats key counts jobs of.
pub open spec fn counted_queue(key: Seq<u8>) -> Option<Seq<char>> {
    if exists|queue: Seq<char>| counts_queue(key, queue) {
        Some(choose|queue: Seq<char>| counts_queue(key, queue))
    } else {
        None
    }
}

/// The queues that a list of stats keys counts jobs of, each once, in the
/// order of their first keys.
pub open spec fn queue_names(keys: Seq<Seq<u8>>) -> Seq<Seq<char>>
    decreases keys.len(),
{
    if keys.len() == 0 {
        Seq::empty()
    } else {
        let rest = queue_names(keys.drop_last());
        match counted_queue(keys.last()) {
            Some(queue) if !rest.contains(queue) => rest.push(queue),
            _ => rest,
        }
    }
}

/// A listing of queues names each queue that a key counts jobs of, once, and
/// no other.
pub proof fn queue_names_are_exact(keys: Seq<Seq<u8>>)
    ensures
        queue_names(keys).no_duplicates(),
        forall|queue: Seq<char>|
            queue_names(keys).contains(queue) <==> exists|i: int|
                0 <= i < keys.len() && #[trigger] counts_queue(keys[i], queue),
    decreases keys.len(),
{
    if keys.len() > 0 {
        let rest_keys = keys.drop_last();
        let rest = queue_names(rest_keys);
        let names = queue_names(keys);
        let last = keys.last();
        queue_names_are_exact(rest_keys);
        assert forall|queue: Seq<char>| names.contains(queue) <==> exists|i: int|
            0 <= i < keys.len() && #[trigger] counts_queue(keys[i], queue) by {
            if names.contains(queue) {
                let k = choose|k: int| 0 <= k < names.len() && names[k] == queue;
                if k < rest.len() {
                    assert(rest[k] == queue);
                    assert(rest.contains(queue));
                    let i = choose|i: int|
                        0 <= i < rest_keys.len() && #[trigger] counts_queue(rest_keys[i], queue);
                    assert(counts_queue(keys[i], queue));
                } else {
                    assert(counts_queue(keys[keys.len() - 1], queue));
                }
            }
            if exists|i: int| 0 <= i < keys.len() && #[trigger] counts_queue(keys[i], queue) {
                let i = choose|i: int|
                    0 <= i < keys.len() && #[trigger] counts_queue(keys[i], queue);
                if i < rest_keys.len() {
                    assert(counts_queue(rest_keys[i], queue));
                    assert(rest.contains(queue));
                    let k = choose|k: int| 0 <= k < rest.len() && rest[k] == queue;
                    assert(names[k] == queue);
                } else {
                    counted_queue_is_unique(last, queue, counted_queue(last).unwrap());
                    if rest.contains(queue) {
                        let k = choose|k: int| 0 <= k < rest.len() && rest[k] == queue;
                        assert(names[k] == queue);
                    } else {
                        assert(names[rest.len() as int] == queue);
                    }
                }
            }
        }
    }
}

/// The texts of a list of strings.
pub open spec fn texts(list: Seq<String>) -> Seq<Seq<char>> {
    Seq::new(list.len(), |i: int| list[i]@)
}

/// The names of the queues that a list of stats keys counts jobs of, each
/// once, in the order of their first keys. Other keys are passed over.
pub fn list_queues(keys: &Vec<Vec<u8>>) -> (r: Vec<String>)
    ensures
        texts(r@) == queue_names(Seq::new(keys@.len(), |i: int| keys@[i]@)),
{
    let ghost all = Seq::new(keys@.len(), |i: int| keys@[i]@);
    let mut queues: Vec<String> = Vec::new();
    let mut n: usize = 0;
    proof {
        assert(texts(queues@) =~= queue_names(all.subrange(0, 0)));
    }
    while n < keys.len()
        invariant
            0 <= n <= keys@.len(),
            all == Seq::new(keys@.len(), |i: int| keys@[i]@),
            texts(queues@) == queue_names(all.subrange(0, n as int)),
        decreases keys@.len() - n,
    {
        let ghost listed = texts(queues@);
        proof {
            assert(all.subrange(0, n + 1).drop_last() =~= all.subrange(0, n as int));
            assert(all.subrange(0, n + 1).last() == keys@[n as int]@);
        }
        match parse_stats_key(keys[n].as_slice()) {
            None => {
                proof {
                    assert forall|queue: Seq<char>| !counts_queue(keys@[n as int]@, queue) by {}
                    assert(counted_queue(keys@[n as int]@) is None);
                }
            },
            Some((queue, _metric)) => {
                proof {
                    assert(counts_queue(keys@[n as int]@, queue@));
                    counted_queue_is_unique(
                        keys@[n as int]@,
                        queue@,
                        counted_queue(keys@[n as int]@).unwrap(),
                    );
                }
                if !contains_text(&queues, queue.as_str()) {
                    let ghost name = queue@;
                    queues.push(queue);
                    proof {
                        assert(texts(queues@) =~= listed.push(name));
                    }
                }
            },
        }
        n += 1;
    }
    proof {
        assert(all.subrange(0, n as int) =~= all);
    }
    queues
}

proof fn counted_queue_is_unique(key: Seq<u8>, a: Seq<char>, b: Seq<char>)
    requires
        counts_queue(key, a),
        counts_queue(key, b),
    ensures
        a == b,
{
    let ma = choose|metric: Seq<char>|
        key == seq![TAG_STATS] + #[trigger] (name_field(a) + encode_utf8(metric));
    let mb = choose|metric: Seq<char>|
        key == seq![TAG_STATS] + #[trigger] (name_field(b) + encode_utf8(metric));
    crate::keys::named_is_injective(TAG_STATS, a, ma, b, mb);
}

fn contains_text(list: &Vec<String>, text: &str) -> (r: bool)
    ensures
        r == texts(list@).contains(text@),
{
    let mut i: usize = 0;
    while i < list.len()
        invariant
            0 <= i <= list@.len(),
            forall|j: int| 0 <= j < i ==> (#[trigger] list@[j])@ != text@,
        decreases list@.len() - i,
    {
        if crate::bytes::same_text(list[i].as_str(), text) {
            assert(texts(list@)[i as int] == text@);
            return true;
        }
        i += 1;
    }
    false
}

/// The counters of a queue as read from the store; an absent one is `None`.
#[derive(Debug)]
pub struct RawCounters {
    pub pending: Option<Vec<u8>>,
    pub claimed: Option<Vec<u8>>,
    pub done: Option<Vec<u8>>,
    pub dead: Option<Vec<u8>>,
    pub scheduled: Option<Vec<u8>>,
}

/// The value of a counter as read from the store: zero where it is absent.
pub open spec fn raw_count(bytes: Option<Vec<u8>>) -> Option<int> {
    match bytes {
        None => Some(0),
        Some(b) => counter_value(b@),
    }
}

/// The job counts of a queue. Counters that are not eight bytes long are
/// refused.
pub fn queue_stats(queue: &str, counters: &RawCounters) -> (r: Result<QueueStats, Error>)
    ensures
        match r {
            Ok(stats) => {
                &&& stats.queue@ == queue@
                &&& raw_count(counters.pending) == Some(stats.pending as int)
                &&& raw_count(counters.claimed) == Some(stats.claimed as int)
                &&& raw_count(counters.done) == Some(stats.done as int)
                &&& raw_count(counters.dead) == Some(stats.dead as int)
                &&& raw_count(counters.scheduled) == Some(stats.scheduled as int)
            },
            Err(e) => e == Error::InvalidState && (raw_count(counters.pending) is None || raw_count(
                counters.claimed,
            ) is None || raw_count(counters.done) is None || raw_count(counters.dead) is None
                || raw_count(counters.scheduled) is None),
        },
{
    let pending: i64 = match count_of(&counters.pending) {
        Ok(n) => n,
        Err(e) => {
            return Err(e);
        },
    };
    let claimed: i64 = match count_of(&counters.claimed) {
        Ok(n) => n,
        Err(e) => {
            return Err(e);
        },
    };
    let done: i64 = match count_of(&counters.done) {
        Ok(n) => n,
        Err(e) => {
            return Err(e);
        },
    };
    let dead: i64 = match count_of(&counters.dead) {
        Ok(n) => n,
        Err(e) => {
            return Err(e);
        },
    };
    let scheduled: i64 = match count_of(&counters.scheduled) {
        Ok(n) => n,
        Err(e) => {
            return Err(e);
        },
    };
    Ok(QueueStats { queue: queue.to_owned(), pending, claimed, done, dead, scheduled })
}

/// Looks up a job by id, whatever state it is in.
pub fn find_job(reads: &Reads, id: &str) -> (r: Result<Option<JobRecord>, Stop>)
    ensures
        match r {
            Ok(job) => forall|s: StoreView| #[trigger]
                reads.agrees(s) ==> s.job(id@) == opt_job(job),
            Err(Stop::Need(need)) => !reads.knows(need@) && needs_job(*reads, id@, need@),
            Err(Stop::Fail(_)) => false,
        },
{
    let txn = Txn::new(reads);
    match get_indexed_job(&txn, id) {
        Ok(Some((_, job))) => Ok(Some(job)),
        Ok(None) => Ok(None),
        Err(stop) => Err(stop),
    }
}

/// A job with its payload inline: an offloaded one is taken from its payload
/// object, which is an error to miss.
pub fn materialize(job: JobRecord, fetched: Option<Vec<u8>>) -> (r: Result<JobRecord, Error>)
    ensures
        job@.payload_ref is None ==> (r matches Ok(j) && j@ == job@),
        job@.payload_ref is Some ==> match fetched {
            Some(bytes) => r matches Ok(j) && j@ == (JobView { payload: bytes@, ..job@ }),
            None => r matches Err(e) && e@ == (ErrorView::PayloadMissing { id: job@.id }),
        },
{
    if job.payload_ref.is_none() {
        return Ok(job);
    }
    match fetched {
        Some(bytes) => {
            let mut job = job;
            job.payload = bytes;
            Ok(job)
        },
        None => Err(Error::PayloadMissing { id: job.id }),
    }
}

/// The answer to a lookup whose payload object was fetched after the record
/// was read. A record-removing transaction deletes the object after its
/// commit, so a job whose object is missing is reported as absent where it is
/// no longer indexed.
pub fn looked_up(found: Result<JobRecord, Error>, still_indexed: bool) -> (r: Result<
    Option<JobRecord>,
    Error,
>)
    ensures
        match found {
            Ok(job) => r == Ok::<Option<JobRecord>, Error>(Some(job)),
            Err(Error::PayloadMissing { id }) => if still_indexed {
                r == Err::<Option<JobRecord>, Error>(Error::PayloadMissing { id })
            } else {
                r == Ok::<Option<JobRecord>, Error>(None)
            },
            Err(e) => r == Err::<Option<JobRecord>, Error>(e),
        },
{
    match found {
        Ok(job) => Ok(Some(job)),
        Err(Error::PayloadMissing { id }) => if still_indexed {
            Err(Error::PayloadMissing { id })
        } else {
            Ok(None)
        },
        Err(e) => Err(e),
    }
}

} // verus!
