//! The pages that a client keeps: how long, how many, and which one goes.
//!
//! Times are whole seconds since the start of 1970.

use vstd::prelude::*;
use crate::text::same;

verus! {

/// How many entries are listed at most.
pub const LIST_LIMIT: usize = 200;

/// A point in time: whole seconds and what is over.
#[derive(Debug, Clone, Copy)]
pub struct Moment {
    pub secs: u64,
    pub nanos: u32,
}

/// The whole seconds that are left at `now` of an age that is counted from
/// `fetched_at`; none where that lies ahead.
pub open spec fn seconds_left(fetched_at: u64, max_age: u64, now: Moment) -> int {
    let age = now.secs - fetched_at + (if now.nanos > 0 {
        1int
    } else {
        0
    });
    if now.secs < fetched_at || age > max_age {
        0
    } else {
        max_age - age
    }
}

/// The whole seconds that are left at `now` of an age that is counted from
/// `fetched_at`.
pub fn remaining_secs(fetched_at: u64, max_age: u64, now: Moment) -> (r: u64)
    ensures
        r == seconds_left(fetched_at, max_age, now),
{
    if now.secs < fetched_at {
        return 0;
    }
    let age: u64 = now.secs - fetched_at;
    if age > max_age || (age == max_age && now.nanos > 0) {
        return 0;
    }
    if now.nanos > 0 {
        max_age - age - 1
    } else {
        max_age - age
    }
}

/// A page that is kept.
#[derive(Debug)]
pub struct Row {
    pub url: String,
    pub etag: String,
    pub brotli_body: Vec<u8>,
    pub fetched_at: u64,
    pub last_used: u64,
    pub max_age: u64,
}

/// A page that is kept, by its texts and bytes.
pub struct RowView {
    pub url: Seq<char>,
    pub etag: Seq<char>,
    pub brotli_body: Seq<u8>,
    pub fetched_at: u64,
    pub last_used: u64,
    pub max_age: u64,
}

impl View for Row {
    type V = RowView;

    open spec fn view(&self) -> RowView {
        RowView {
            url: self.url@,
            etag: self.etag@,
            brotli_body: self.brotli_body@,
            fetched_at: self.fetched_at,
            last_used: self.last_used,
            max_age: self.max_age,
        }
    }
}

/// Rows by their views.
pub open spec fn row_views(rows: Seq<Row>) -> Seq<RowView> {
    rows.map_values(|r: Row| r@)
}

/// A page that was found.
#[derive(Debug, Clone)]
pub struct Hit {
    pub etag: String,
    pub brotli_body: Vec<u8>,
    pub fetched_at: u64,
    pub max_age: u64,
}

impl Hit {
    /// Younger than it may be, and not from the future.
    pub open spec fn fresh(&self, now: u64) -> bool {
        self.fetched_at <= now && now - self.fetched_at < self.max_age
    }

    /// Tells whether the page may be shown without asking for it again.
    pub fn is_fresh(&self, now: u64) -> (r: bool)
        ensures
            r == self.fresh(now),
    {
        self.fetched_at <= now && now - self.fetched_at < self.max_age
    }

    /// The page of a row.
    pub open spec fn shows(&self, row: RowView) -> bool {
        self.etag@ == row.etag && self.brotli_body@ == row.brotli_body && self.fetched_at
            == row.fetched_at && self.max_age == row.max_age
    }
}

/// A page in a list, without its body.
#[derive(Debug, Clone)]
pub struct CacheEntry {
    pub url: String,
    pub etag: String,
    pub fetched_at: u64,
    pub last_used: u64,
    pub size: u64,
    pub max_age: u64,
}

impl CacheEntry {
    /// The entry of a row.
    pub open spec fn lists(&self, row: RowView) -> bool {
        self.url@ == row.url && self.etag@ == row.etag && self.fetched_at == row.fetched_at
            && self.last_used == row.last_used && self.size == row.brotli_body.len()
            && self.max_age == row.max_age
    }
}

/// The pages that are kept.
#[derive(Debug)]
pub struct Cache {
    /// In the order in which their URLs came in first.
    pub rows: Vec<Row>,
    pub cap_bytes: u64,
    pub max_ttl: u64,
}

/// No URL is kept twice.
pub open spec fn distinct_urls(rows: Seq<RowView>) -> bool {
    forall|i: int, j: int|
        0 <= i < j < rows.len() ==> (#[trigger] rows[i]).url != (#[trigger] rows[j]).url
}

/// Where a URL is kept.
pub open spec fn position_of(rows: Seq<RowView>, url: Seq<char>) -> Option<int>
    decreases rows.len(),
{
    if rows.len() == 0 {
        None
    } else if rows.last().url == url {
        Some(rows.len() - 1)
    } else {
        position_of(rows.drop_last(), url)
    }
}

/// The rows with a row added, in place of an older one of the same URL.
pub open spec fn upserted(rows: Seq<RowView>, row: RowView) -> Seq<RowView> {
    match position_of(rows, row.url) {
        Some(i) => rows.update(i, row),
        None => rows.push(row),
    }
}

/// The bytes of all bodies.
pub open spec fn total_size(rows: Seq<RowView>) -> int
    decreases rows.len(),
{
    if rows.len() == 0 {
        0
    } else {
        total_size(rows.drop_last()) + rows.last().brotli_body.len()
    }
}

/// The row that was used least recently, but for that of `keep`: among equals
/// the one that came in first.
pub open spec fn oldest(rows: Seq<RowView>, keep: Seq<char>) -> Option<int>
    decreases rows.len(),
{
    if rows.len() == 0 {
        None
    } else {
        let n = rows.len() - 1;
        match oldest(rows.drop_last(), keep) {
            Some(b) => if rows[n].url != keep && rows[n].last_used < rows[b].last_used {
                Some(n)
            } else {
                Some(b)
            },
            None => if rows[n].url != keep {
                Some(n)
            } else {
                None
            },
        }
    }
}

/// The rows that stay where `over` bytes are too many: the least recently used
/// go, one after another, until they have made up for that or `keep` alone is
/// left.
pub open spec fn shrunk(rows: Seq<RowView>, keep: Seq<char>, over: int) -> Seq<RowView>
    decreases rows.len(),
{
    if over <= 0 {
        rows
    } else {
        match oldest(rows, keep) {
            Some(i) => if 0 <= i < rows.len() {
                shrunk(rows.remove(i), keep, over - rows[i].brotli_body.len())
            } else {
                rows
            },
            None => rows,
        }
    }
}

/// The rows after a page came in.
pub open spec fn inserted(rows: Seq<RowView>, row: RowView, cap_bytes: u64) -> Seq<RowView> {
    let all = upserted(rows, row);
    shrunk(all, row.url, total_size(all) - cap_bytes)
}

/// The rows after a page came in with an age that its server gave; a negative
/// one forbids to keep it.
pub open spec fn taken_in(
    rows: Seq<RowView>,
    row: RowView,
    server_max_age_secs: i32,
    cap_bytes: u64,
) -> Seq<RowView> {
    if server_max_age_secs < 0 {
        rows
    } else {
        inserted(rows, row, cap_bytes)
    }
}

/// The rows after the server confirmed a page.
pub open spec fn confirmed(rows: Seq<RowView>, url: Seq<char>, now: u64) -> Seq<RowView> {
    match position_of(rows, url) {
        Some(i) => rows.update(i, (RowView { fetched_at: now, last_used: now, ..rows[i] })),
        None => rows,
    }
}

/// The rows after a page was shown.
pub open spec fn used(rows: Seq<RowView>, url: Seq<char>, now: u64) -> Seq<RowView> {
    match position_of(rows, url) {
        Some(i) => rows.update(i, (RowView { last_used: now, ..rows[i] })),
        None => rows,
    }
}

/// The rows by their last use, the latest first: among equals the one that came
/// in last.
pub open spec fn by_recency(rows: Seq<RowView>) -> Seq<RowView>
    decreases rows.len(),
{
    if rows.len() == 0 {
        rows
    } else {
        let front = by_recency(rows.drop_last());
        front.insert(rank(front, rows.last().last_used), rows.last())
    }
}

/// How many rows in front were used later than `last_used`.
pub open spec fn rank(rows: Seq<RowView>, last_used: u64) -> int
    decreases rows.len(),
{
    if rows.len() == 0 {
        0
    } else if rows[0].last_used > last_used {
        1 + rank(rows.drop_first(), last_used)
    } else {
        0
    }
}

proof fn lemma_position(rows: Seq<RowView>, url: Seq<char>)
    ensures
        match position_of(rows, url) {
            Some(i) => 0 <= i < rows.len() && rows[i].url == url,
            None => forall|k: int| 0 <= k < rows.len() ==> (#[trigger] rows[k]).url != url,
        },
    decreases rows.len(),
{
    if rows.len() > 0 {
        let front = rows.drop_last();
        lemma_position(front, url);
        if position_of(rows, url) is None {
            assert forall|k: int| 0 <= k < rows.len() implies (#[trigger] rows[k]).url != url by {
                if k < front.len() {
                    assert(front[k] == rows[k]);
                }
            }
        }
    }
}

/// A position, where it is known.
pub proof fn lemma_position_is(rows: Seq<RowView>, url: Seq<char>, i: int)
    requires
        distinct_urls(rows),
        0 <= i < rows.len(),
        rows[i].url == url,
    ensures
        position_of(rows, url) == Some(i),
{
    lemma_position(rows, url);
    let p = position_of(rows, url);
    match p {
        Some(k) => {
            if k < i {
                assert(rows[k].url != rows[i].url);
            } else if i < k {
                assert(rows[i].url != rows[k].url);
            }
        },
        None => {
            assert(rows[i].url != url);
        },
    }
}

proof fn lemma_oldest(rows: Seq<RowView>, keep: Seq<char>)
    ensures
        match oldest(rows, keep) {
            Some(i) => 0 <= i < rows.len() && rows[i].url != keep && forall|k: int|
                0 <= k < rows.len() && (#[trigger] rows[k]).url != keep ==> rows[i].last_used
                    <= rows[k].last_used,
            None => forall|k: int| 0 <= k < rows.len() ==> (#[trigger] rows[k]).url == keep,
        },
    decreases rows.len(),
{
    if rows.len() > 0 {
        let front = rows.drop_last();
        lemma_oldest(front, keep);
        let n = rows.len() - 1;
        assert forall|k: int| 0 <= k < n implies #[trigger] rows[k] == front[k] by {}
    }
}

proof fn lemma_total_remove(rows: Seq<RowView>, i: int)
    requires
        0 <= i < rows.len(),
    ensures
        total_size(rows.remove(i)) == total_size(rows) - rows[i].brotli_body.len(),
    decreases rows.len(),
{
    let less = rows.remove(i);
    if i == rows.len() - 1 {
        assert(less =~= rows.drop_last());
    } else {
        assert(less.drop_last() =~= rows.drop_last().remove(i));
        assert(less.last() == rows.last());
        lemma_total_remove(rows.drop_last(), i);
    }
}

proof fn lemma_distinct_remove(rows: Seq<RowView>, i: int)
    requires
        distinct_urls(rows),
        0 <= i < rows.len(),
    ensures
        distinct_urls(rows.remove(i)),
{
    let less = rows.remove(i);
    assert forall|a: int, b: int| 0 <= a < b < less.len() implies (#[trigger] less[a]).url != (
    #[trigger] less[b]).url by {
        let x = if a < i {
            a
        } else {
            a + 1
        };
        let y = if b < i {
            b
        } else {
            b + 1
        };
        assert(less[a] == rows[x] && less[b] == rows[y]);
    }
}

proof fn lemma_distinct_upserted(rows: Seq<RowView>, row: RowView)
    requires
        distinct_urls(rows),
    ensures
        distinct_urls(upserted(rows, row)),
{
    lemma_position(rows, row.url);
    let all = upserted(rows, row);
    assert forall|a: int, b: int| 0 <= a < b < all.len() implies (#[trigger] all[a]).url != (
    #[trigger] all[b]).url by {
        assert(a < rows.len());
        assert(all[a].url == rows[a].url);
        if b < rows.len() {
            assert(all[b].url == rows[b].url);
        }
    }
}

proof fn lemma_distinct_shrunk(rows: Seq<RowView>, keep: Seq<char>, over: int)
    requires
        distinct_urls(rows),
    ensures
        distinct_urls(shrunk(rows, keep, over)),
    decreases rows.len(),
{
    if over > 0 {
        if let Some(i) = oldest(rows, keep) {
            lemma_oldest(rows, keep);
            lemma_distinct_remove(rows, i);
            lemma_distinct_shrunk(rows.remove(i), keep, over - rows[i].brotli_body.len());
        }
    }
}

proof fn lemma_rank(rows: Seq<RowView>, last_used: u64)
    ensures
        0 <= rank(rows, last_used) <= rows.len(),
        forall|k: int|
            0 <= k < rank(rows, last_used) ==> (#[trigger] rows[k]).last_used > last_used,
        rank(rows, last_used) < rows.len() ==> rows[rank(rows, last_used)].last_used <= last_used,
    decreases rows.len(),
{
    if rows.len() > 0 && rows[0].last_used > last_used {
        let rest = rows.drop_first();
        lemma_rank(rest, last_used);
        assert forall|k: int| 0 <= k < rank(rows, last_used) implies (#[trigger] rows[k]).last_used
            > last_used by {
            if k > 0 {
                assert(rest[k - 1] == rows[k]);
            }
        }
        if rank(rows, last_used) < rows.len() {
            assert(rest[rank(rest, last_used)] == rows[rank(rows, last_used)]);
        }
    }
}

/// A rank, where it is known.
proof fn lemma_rank_is(rows: Seq<RowView>, last_used: u64, n: int)
    requires
        0 <= n <= rows.len(),
        forall|k: int| 0 <= k < n ==> (#[trigger] rows[k]).last_used > last_used,
        n < rows.len() ==> rows[n].last_used <= last_used,
    ensures
        rank(rows, last_used) == n,
{
    lemma_rank(rows, last_used);
    let p = rank(rows, last_used);
    if p < n {
        assert(rows[p].last_used > last_used);
    } else if n < p {
        assert(rows[n].last_used > last_used);
    }
}

impl Cache {
    /// No URL is kept twice.
    pub open spec fn wf(&self) -> bool {
        distinct_urls(row_views(self.rows@))
    }

    /// The pages that are kept.
    pub open spec fn view(&self) -> Seq<RowView> {
        row_views(self.rows@)
    }

    /// Nothing but the pages and the limits.
    pub open spec fn same_limits(&self, other: &Cache) -> bool {
        self.cap_bytes == other.cap_bytes && self.max_ttl == other.max_ttl
    }

    /// An empty cache.
    pub fn open(cap_bytes: u64, max_ttl: u64) -> (r: Cache)
        ensures
            r.wf(),
            r@ == Seq::<RowView>::empty(),
            r.cap_bytes == cap_bytes,
            r.max_ttl == max_ttl,
    {
        let rows: Vec<Row> = Vec::new();
        assert(row_views(rows@) =~= Seq::empty());
        Cache { rows, cap_bytes, max_ttl }
    }

    /// Takes up a page that was kept before, in place of one of the same URL.
    pub fn restore(&mut self, row: Row)
        requires
            old(self).wf(),
        ensures
            final(self).wf(),
            final(self)@ == upserted(old(self)@, row@),
            final(self).same_limits(old(self)),
    {
        let ghost before = self@;
        proof {
            lemma_distinct_upserted(before, row@);
        }
        match self.position(row.url.as_str()) {
            Some(i) => {
                let ghost old_rows = self.rows@;
                self.rows.set(i, row);
                assert(self@ =~= before.update(i as int, row@));
            },
            None => {
                self.rows.push(row);
                assert(self@ =~= before.push(row@));
            },
        }
    }

    /// Where a URL is kept.
    fn position(&self, url: &str) -> (r: Option<usize>)
        ensures
            match r {
                Some(i) => position_of(self@, url@) == Some(i as int) && i < self.rows@.len()
                    && self.rows@[i as int].url@ == url@,
                None => position_of(self@, url@) is None,
            },
    {
        let mut i: usize = self.rows.len();
        let ghost all = self@;
        assert(all.take(i as int) =~= all);
        while i > 0
            invariant
                i <= self.rows@.len(),
                all == self@,
                position_of(all, url@) == position_of(all.take(i as int), url@),
            decreases i,
        {
            assert(all.take(i as int).last() == self.rows@[i - 1]@);
            assert(all.take(i as int).drop_last() =~= all.take(i - 1));
            i -= 1;
            if same(self.rows[i].url.as_str(), url) {
                return Some(i);
            }
        }
        None
    }

    /// The page of a URL, where it is kept.
    pub fn lookup(&self, url: &str) -> (r: Option<Hit>)
        ensures
            match position_of(self@, url@) {
                Some(i) => r matches Some(hit) && hit.shows(self@[i]),
                None => r is None,
            },
    {
        match self.position(url) {
            Some(i) => {
                let row = &self.rows[i];
                assert(self@[i as int] == row@);
                let mut brotli_body: Vec<u8> = Vec::new();
                crate::bytes::append(&mut brotli_body, row.brotli_body.as_slice());
                assert(brotli_body@ =~= row.brotli_body@);
                Some(
                    Hit {
                        etag: row.etag.clone(),
                        brotli_body,
                        fetched_at: row.fetched_at,
                        max_age: row.max_age,
                    },
                )
            },
            None => None,
        }
    }

    /// The bytes of all bodies.
    fn total(&self) -> (r: u128)
        ensures
            r == total_size(self@),
            r <= 0xffff_ffff_ffff_ffff * 0xffff_ffff_ffff_ffff,
    {
        let mut i: usize = 0;
        let mut sum: u128 = 0;
        let ghost all = self@;
        assert(total_size(all.take(0)) == 0);
        while i < self.rows.len()
            invariant
                i <= self.rows@.len(),
                all == self@,
                sum == total_size(all.take(i as int)),
                0 <= sum <= i * 0xffff_ffff_ffff_ffff,
                sum <= 0xffff_ffff_ffff_ffff * 0xffff_ffff_ffff_ffff,
            decreases self.rows.len() - i,
        {
            assert(all.take(i + 1).drop_last() =~= all.take(i as int));
            assert(all.take(i + 1).last() == self.rows@[i as int]@);
            let n: usize = self.rows[i].brotli_body.len();
            let count: usize = self.rows.len();
            assert(sum + n <= (i + 1) * 0xffff_ffff_ffff_ffff && (i + 1) * 0xffff_ffff_ffff_ffff
                <= 0xffff_ffff_ffff_ffff * 0xffff_ffff_ffff_ffff) by (nonlinear_arith)
                requires
                    sum <= i * 0xffff_ffff_ffff_ffff,
                    n <= 0xffff_ffff_ffff_ffff,
                    0 <= i < count,
                    count <= 0xffff_ffff_ffff_ffff,
            ;
            sum = sum + n as u128;
            i += 1;
        }
        assert(all.take(i as int) =~= all);
        sum
    }

    /// The row that is to go first.
    fn find_oldest(&self, keep: &str) -> (r: Option<usize>)
        ensures
            match r {
                Some(i) => oldest(self@, keep@) == Some(i as int) && i < self.rows@.len(),
                None => oldest(self@, keep@) is None,
            },
    {
        let mut best: Option<usize> = None;
        let mut i: usize = 0;
        let ghost all = self@;
        while i < self.rows.len()
            invariant
                i <= self.rows@.len(),
                all == self@,
                match best {
                    Some(b) => oldest(all.take(i as int), keep@) == Some(b as int) && b < i,
                    None => oldest(all.take(i as int), keep@) is None,
                },
            decreases self.rows.len() - i,
        {
            assert(all.take(i + 1).drop_last() =~= all.take(i as int));
            assert(all.take(i + 1)[i as int] == self.rows@[i as int]@);
            if !same(self.rows[i].url.as_str(), keep) {
                match best {
                    None => {
                        best = Some(i);
                    },
                    Some(b) => {
                        assert(all.take(i + 1)[b as int] == self.rows@[b as int]@);
                        if self.rows[i].last_used < self.rows[b].last_used {
                            best = Some(i);
                        }
                    },
                }
            }
            i += 1;
        }
        assert(all.take(i as int) =~= all);
        best
    }

    /// Lets the least recently used go until `over` bytes are made up for.
    fn shrink(&mut self, keep: &str, over: u128)
        requires
            old(self).wf(),
        ensures
            final(self).wf(),
            final(self)@ == shrunk(old(self)@, keep@, over as int),
            final(self).same_limits(old(self)),
    {
        let mut left: u128 = over;
        let ghost start = self@;
        proof {
            lemma_distinct_shrunk(start, keep@, over as int);
        }
        while left > 0
            invariant
                shrunk(self@, keep@, left as int) == shrunk(start, keep@, over as int),
                self.same_limits(old(self)),
            ensures
                self@ == shrunk(start, keep@, over as int),
            decreases self.rows@.len(),
        {
            match self.find_oldest(keep) {
                Some(i) => {
                    let ghost before = self@;
                    let n: usize = self.rows[i].brotli_body.len();
                    assert(before[i as int].brotli_body.len() == n);
                    self.rows.remove(i);
                    assert(self@ =~= before.remove(i as int));
                    assert(shrunk(before, keep@, left as int) == shrunk(self@, keep@, left - n));
                    assert(left <= n ==> shrunk(self@, keep@, left - n) == self@);
                    left = if left > n as u128 {
                        left - n as u128
                    } else {
                        0
                    };
                },
                None => {
                    break;
                },
            }
        }
    }

    /// Keeps a page that came in at `now`, unless its server forbids it by a
    /// negative age. Where all pages together are too many bytes, the least
    /// recently used go, but never the one that came in.
    pub fn insert(
        &mut self,
        url: &str,
        etag: &str,
        brotli_body: &[u8],
        server_max_age_secs: i32,
        now: u64,
    )
        requires
            old(self).wf(),
        ensures
            final(self).wf(),
            final(self).same_limits(old(self)),
            final(self)@ == taken_in(
                old(self)@,
                new_row(
                    url@,
                    etag@,
                    brotli_body@,
                    capped(server_max_age_secs, old(self).max_ttl),
                    now,
                ),
                server_max_age_secs,
                old(self).cap_bytes,
            ),
    {
        if server_max_age_secs < 0 {
            return;
        }
        let age: u64 = server_max_age_secs as u64;
        let max_age: u64 = if age < self.max_ttl {
            age
        } else {
            self.max_ttl
        };
        let mut body: Vec<u8> = Vec::new();
        crate::bytes::append(&mut body, brotli_body);
        assert(body@ =~= brotli_body@);
        let row = Row {
            url: url.to_owned(),
            etag: etag.to_owned(),
            brotli_body: body,
            fetched_at: now,
            last_used: now,
            max_age,
        };
        self.restore(row);
        let total: u128 = self.total();
        let cap: u128 = self.cap_bytes as u128;
        let over: u128 = if total > cap {
            total - cap
        } else {
            0
        };
        self.shrink(url, over);
    }

    /// Notes that the server confirmed a page at `now`.
    pub fn touch_fresh(&mut self, url: &str, now: u64)
        requires
            old(self).wf(),
        ensures
            final(self).wf(),
            final(self).same_limits(old(self)),
            final(self)@ == confirmed(old(self)@, url@, now),
    {
        let ghost before = self@;
        if let Some(i) = self.position(url) {
            assert(before[i as int] == self.rows@[i as int]@);
            self.rows[i].fetched_at = now;
            self.rows[i].last_used = now;
            assert(self@ =~= before.update(
                i as int,
                RowView { fetched_at: now, last_used: now, ..before[i as int] },
            ));
            proof {
                lemma_distinct_same_urls(before, self@);
            }
        }
    }

    /// Notes that a page was shown at `now`.
    pub fn touch_last_used(&mut self, url: &str, now: u64)
        requires
            old(self).wf(),
        ensures
            final(self).wf(),
            final(self).same_limits(old(self)),
            final(self)@ == used(old(self)@, url@, now),
    {
        let ghost before = self@;
        if let Some(i) = self.position(url) {
            assert(before[i as int] == self.rows@[i as int]@);
            self.rows[i].last_used = now;
            assert(self@ =~= before.update(i as int, RowView { last_used: now, ..before[i as int] }));
            proof {
                lemma_distinct_same_urls(before, self@);
            }
        }
    }

    /// Lets go of a page.
    pub fn delete(&mut self, url: &str)
        requires
            old(self).wf(),
        ensures
            final(self).wf(),
            final(self).same_limits(old(self)),
            final(self)@ == (match position_of(old(self)@, url@) {
                Some(i) => old(self)@.remove(i),
                None => old(self)@,
            }),
    {
        let ghost before = self@;
        if let Some(i) = self.position(url) {
            self.rows.remove(i);
            assert(self@ =~= before.remove(i as int));
            proof {
                lemma_distinct_remove(before, i as int);
            }
        }
    }

    /// Lets go of all pages.
    pub fn clear(&mut self)
        ensures
            final(self).wf(),
            final(self).same_limits(old(self)),
            final(self)@ == Seq::<RowView>::empty(),
    {
        self.rows = Vec::new();
        assert(self@ =~= Seq::empty());
    }

    /// The limit on all bodies.
    pub fn cap_bytes(&self) -> (r: u64)
        ensures
            r == self.cap_bytes,
    {
        self.cap_bytes
    }

    /// The pages that were used last, the latest first, and no more than the
    /// limit.
    pub fn list(&self) -> (r: Vec<CacheEntry>)
        ensures
            r@.len() == (if self@.len() < LIST_LIMIT {
                self@.len() as int
            } else {
                LIST_LIMIT as int
            }),
            forall|i: int| 0 <= i < r@.len() ==> (#[trigger] r@[i]).lists(by_recency(self@)[i]),
    {
        let mut order: Vec<usize> = Vec::new();
        let mut i: usize = 0;
        let ghost all = self@;
        assert(at_positions(all, order@) =~= by_recency(all.take(0)));
        while i < self.rows.len()
            invariant
                i <= self.rows@.len(),
                all == self@,
                order@.len() == i,
                forall|k: int| 0 <= k < order@.len() ==> #[trigger] order@[k] < self.rows@.len(),
                at_positions(all, order@) == by_recency(all.take(i as int)),
            decreases self.rows.len() - i,
        {
            let at: usize = self.rank_of(&order, self.rows[i].last_used);
            assert(all.take(i + 1).drop_last() =~= all.take(i as int));
            assert(all.take(i + 1).last() == all[i as int]);
            let ghost before = order@;
            order.insert(at, i);
            assert(at_positions(all, order@) =~= at_positions(all, before).insert(
                at as int,
                all[i as int],
            ));
            i += 1;
        }
        assert(all.take(i as int) =~= all);
        let mut out: Vec<CacheEntry> = Vec::new();
        let mut k: usize = 0;
        while k < order.len() && k < LIST_LIMIT
            invariant
                k <= order@.len(),
                k <= LIST_LIMIT,
                all == self@,
                order@.len() == all.len(),
                forall|j: int| 0 <= j < order@.len() ==> #[trigger] order@[j] < self.rows@.len(),
                at_positions(all, order@) == by_recency(all),
                out@.len() == k,
                forall|j: int| 0 <= j < k ==> (#[trigger] out@[j]).lists(by_recency(all)[j]),
            decreases order.len() - k,
        {
            let row = &self.rows[order[k]];
            assert(at_positions(all, order@)[k as int] == row@);
            out.push(
                CacheEntry {
                    url: row.url.clone(),
                    etag: row.etag.clone(),
                    fetched_at: row.fetched_at,
                    last_used: row.last_used,
                    size: row.brotli_body.len() as u64,
                    max_age: row.max_age,
                },
            );
            k += 1;
        }
        out
    }

    /// How many rows of an order in front were used later than `last_used`.
    fn rank_of(&self, order: &Vec<usize>, last_used: u64) -> (r: usize)
        requires
            forall|k: int| 0 <= k < order@.len() ==> #[trigger] order@[k] < self.rows@.len(),
        ensures
            r == rank(at_positions(self@, order@), last_used),
            r <= order@.len(),
    {
        let ghost rows = at_positions(self@, order@);
        let mut n: usize = 0;
        while n < order.len() && self.rows[order[n]].last_used > last_used
            invariant
                n <= order@.len(),
                rows == at_positions(self@, order@),
                forall|k: int| 0 <= k < order@.len() ==> #[trigger] order@[k] < self.rows@.len(),
                forall|k: int| 0 <= k < n ==> (#[trigger] rows[k]).last_used > last_used,
            decreases order.len() - n,
        {
            assert(rows[n as int] == self.rows@[order@[n as int] as int]@);
            n += 1;
        }
        proof {
            if n < order@.len() {
                assert(rows[n as int] == self.rows@[order@[n as int] as int]@);
            }
            lemma_rank_is(rows, last_used, n as int);
        }
        n
    }
}

/// The rows at some positions.
pub open spec fn at_positions(rows: Seq<RowView>, order: Seq<usize>) -> Seq<RowView> {
    order.map_values(|i: usize| rows[i as int])
}

/// The age that a server gave, within the longest that is kept.
pub open spec fn capped(server_max_age_secs: i32, max_ttl: u64) -> u64 {
    if server_max_age_secs < max_ttl {
        server_max_age_secs as u64
    } else {
        max_ttl
    }
}

/// A page that came in at `now`.
pub open spec fn new_row(
    url: Seq<char>,
    etag: Seq<char>,
    brotli_body: Seq<u8>,
    max_age: u64,
    now: u64,
) -> RowView {
    RowView { url, etag, brotli_body, fetched_at: now, last_used: now, max_age }
}

/// Rows with the same URLs in the same places.
pub proof fn lemma_distinct_same_urls(a: Seq<RowView>, b: Seq<RowView>)
    requires
        distinct_urls(a),
        a.len() == b.len(),
        forall|i: int| 0 <= i < a.len() ==> (#[trigger] a[i]).url == b[i].url,
    ensures
        distinct_urls(b),
{
    assert forall|i: int, j: int| 0 <= i < j < b.len() implies (#[trigger] b[i]).url != (
    #[trigger] b[j]).url by {
        assert(a[i].url != a[j].url);
    }
}

// ---------------------------------------------------------------------------
// Laws
// ---------------------------------------------------------------------------

/// What holds of rows that are left where some went.
spec fn left_of(rows: Seq<RowView>, keep: Seq<char>, out: Seq<RowView>) -> bool {
    &&& forall|r: RowView| #[trigger] out.contains(r) ==> rows.contains(r)
    &&& forall|r: RowView| #[trigger] rows.contains(r) && r.url == keep ==> out.contains(r)
    &&& forall|a: RowView, b: RowView|
        (#[trigger] rows.contains(a) && !out.contains(a) && #[trigger] out.contains(b) && b.url
            != keep) ==> a.last_used <= b.last_used
}

proof fn lemma_contains_remove(rows: Seq<RowView>, i: int, r: RowView)
    requires
        0 <= i < rows.len(),
    ensures
        rows.remove(i).contains(r) ==> rows.contains(r),
        rows.contains(r) && r != rows[i] ==> rows.remove(i).contains(r),
{
    let less = rows.remove(i);
    if less.contains(r) {
        let k = choose|k: int| 0 <= k < less.len() && less[k] == r;
        if k < i {
            assert(rows[k] == r);
        } else {
            assert(rows[k + 1] == r);
        }
    }
    if rows.contains(r) && r != rows[i] {
        let k = choose|k: int| 0 <= k < rows.len() && rows[k] == r;
        if k < i {
            assert(less[k] == r);
        } else {
            assert(less[k - 1] == r);
        }
    }
}

proof fn lemma_shrunk(rows: Seq<RowView>, keep: Seq<char>, over: int)
    ensures
        left_of(rows, keep, shrunk(rows, keep, over)),
        total_size(shrunk(rows, keep, over)) <= total_size(rows) - over || forall|k: int|
            0 <= k < shrunk(rows, keep, over).len() ==> (#[trigger] shrunk(rows, keep, over)[k]).url
                == keep,
    decreases rows.len(),
{
    let out = shrunk(rows, keep, over);
    lemma_oldest(rows, keep);
    if over > 0 && oldest(rows, keep) is Some {
        let i = oldest(rows, keep)->0;
        let less = rows.remove(i);
        let n = rows[i].brotli_body.len();
        lemma_shrunk(less, keep, over - n);
        lemma_total_remove(rows, i);
        assert(out == shrunk(less, keep, over - n));
        assert forall|r: RowView| #[trigger] out.contains(r) implies rows.contains(r) by {
            assert(less.contains(r));
            lemma_contains_remove(rows, i, r);
        }
        assert forall|r: RowView| #[trigger] rows.contains(r) && r.url == keep implies out.contains(
            r,
        ) by {
            lemma_contains_remove(rows, i, r);
            assert(less.contains(r));
        }
        assert forall|a: RowView, b: RowView|
            (#[trigger] rows.contains(a) && !out.contains(a) && #[trigger] out.contains(b) && b.url
                != keep) implies a.last_used <= b.last_used by {
            lemma_contains_remove(rows, i, a);
            assert(less.contains(b));
            lemma_contains_remove(rows, i, b);
            if less.contains(a) {
            } else {
                assert(a == rows[i]);
                let k = choose|k: int| 0 <= k < rows.len() && rows[k] == b;
                assert(rows[k].url != keep);
            }
        }
    } else if over > 0 {
        assert(out == rows);
    }
}

proof fn lemma_upserted_holds(rows: Seq<RowView>, row: RowView)
    ensures
        upserted(rows, row).contains(row),
        forall|r: RowView| #[trigger]
            upserted(rows, row).contains(r) && r.url != row.url ==> rows.contains(r),
        forall|r: RowView| #[trigger]
            rows.contains(r) && r.url != row.url ==> upserted(rows, row).contains(r),
{
    lemma_position(rows, row.url);
    let all = upserted(rows, row);
    match position_of(rows, row.url) {
        Some(i) => {
            assert(all[i] == row);
        },
        None => {
            assert(all[rows.len() as int] == row);
        },
    }
    assert forall|r: RowView| #[trigger] all.contains(r) && r.url != row.url implies rows.contains(
        r,
    ) by {
        let k = choose|k: int| 0 <= k < all.len() && all[k] == r;
        assert(rows[k] == r);
    }
    assert forall|r: RowView| #[trigger] rows.contains(r) && r.url != row.url implies all.contains(
        r,
    ) by {
        let k = choose|k: int| 0 <= k < rows.len() && rows[k] == r;
        assert(all[k] == r);
    }
}

/// A page that came in is found as it came in, whatever had to go for it.
pub proof fn inserted_pages_are_found(rows: Seq<RowView>, row: RowView, cap_bytes: u64)
    requires
        distinct_urls(rows),
    ensures
        position_of(inserted(rows, row, cap_bytes), row.url) matches Some(i) && inserted(
            rows,
            row,
            cap_bytes,
        )[i] == row,
{
    let all = upserted(rows, row);
    let over = total_size(all) - cap_bytes;
    let out = inserted(rows, row, cap_bytes);
    lemma_upserted_holds(rows, row);
    lemma_distinct_upserted(rows, row);
    lemma_shrunk(all, row.url, over);
    lemma_distinct_shrunk(all, row.url, over);
    assert(out.contains(row));
    let i = choose|i: int| 0 <= i < out.len() && out[i] == row;
    lemma_position_is(out, row.url, i);
}

/// Of the other pages none is changed by a page that comes in: those that are
/// kept are as they were.
pub proof fn other_pages_stay_as_they_were(rows: Seq<RowView>, row: RowView, cap_bytes: u64)
    ensures
        forall|r: RowView| #[trigger]
            inserted(rows, row, cap_bytes).contains(r) && r.url != row.url ==> rows.contains(r),
{
    let all = upserted(rows, row);
    lemma_upserted_holds(rows, row);
    lemma_shrunk(all, row.url, total_size(all) - cap_bytes);
}

/// All pages together stay within the limit, unless the one that came in is
/// alone too large.
pub proof fn the_limit_holds(rows: Seq<RowView>, row: RowView, cap_bytes: u64)
    ensures
        total_size(inserted(rows, row, cap_bytes)) <= cap_bytes || forall|k: int|
            0 <= k < inserted(rows, row, cap_bytes).len() ==> (#[trigger] inserted(
                rows,
                row,
                cap_bytes,
            )[k]).url == row.url,
{
    let all = upserted(rows, row);
    lemma_shrunk(all, row.url, total_size(all) - cap_bytes);
}

/// The least recently used page goes first: none that went was used later than
/// one that stays, but for the one that came in.
pub proof fn the_least_recently_used_goes(
    rows: Seq<RowView>,
    row: RowView,
    cap_bytes: u64,
    gone: RowView,
    kept: RowView,
)
    requires
        rows.contains(gone),
        gone.url != row.url,
        !inserted(rows, row, cap_bytes).contains(gone),
        inserted(rows, row, cap_bytes).contains(kept),
        kept.url != row.url,
    ensures
        gone.last_used <= kept.last_used,
{
    let all = upserted(rows, row);
    lemma_upserted_holds(rows, row);
    lemma_shrunk(all, row.url, total_size(all) - cap_bytes);
    assert(all.contains(gone));
}

/// Where nothing is too much, nothing goes.
pub proof fn nothing_goes_within_the_limit(rows: Seq<RowView>, row: RowView, cap_bytes: u64)
    requires
        total_size(upserted(rows, row)) <= cap_bytes,
    ensures
        inserted(rows, row, cap_bytes) == upserted(rows, row),
{
}

/// A page that was let go is found no more, and the others are.
pub proof fn deleted_pages_are_gone(rows: Seq<RowView>, url: Seq<char>, other: Seq<char>)
    requires
        distinct_urls(rows),
        other != url,
    ensures
        position_of(rows, url) matches Some(i) ==> {
            &&& position_of(rows.remove(i), url) is None
            &&& match position_of(rows, other) {
                Some(k) => position_of(rows.remove(i), other) matches Some(j) && rows.remove(i)[j]
                    == rows[k],
                None => position_of(rows.remove(i), other) is None,
            }
        },
{
    lemma_position(rows, url);
    lemma_position(rows, other);
    if let Some(i) = position_of(rows, url) {
        let less = rows.remove(i);
        lemma_distinct_remove(rows, i);
        lemma_position(less, url);
        if let Some(j) = position_of(less, url) {
            if j < i {
                assert(rows[j].url != rows[i].url);
                assert(less[j] == rows[j]);
            } else {
                assert(rows[i].url != rows[j + 1].url);
                assert(less[j] == rows[j + 1]);
            }
        }
        match position_of(rows, other) {
            Some(k) => {
                if k < i {
                    assert(less[k] == rows[k]);
                    lemma_position_is(less, other, k);
                } else {
                    assert(less[k - 1] == rows[k]);
                    lemma_position_is(less, other, k - 1);
                }
            },
            None => {
                lemma_position(less, other);
                if let Some(j) = position_of(less, other) {
                    if j < i {
                        assert(less[j] == rows[j]);
                    } else {
                        assert(less[j] == rows[j + 1]);
                    }
                }
            },
        }
    }
}

/// The list goes by the last use, the latest first, and holds each page once.
pub proof fn the_list_goes_by_recency(rows: Seq<RowView>)
    ensures
        by_recency(rows).len() == rows.len(),
        by_recency(rows).to_multiset() == rows.to_multiset(),
        forall|i: int, j: int|
            0 <= i < j < rows.len() ==> (#[trigger] by_recency(rows)[i]).last_used >= (
            #[trigger] by_recency(rows)[j]).last_used,
    decreases rows.len(),
{
    broadcast use vstd::seq_lib::group_to_multiset_ensures;

    if rows.len() > 0 {
        let front = rows.drop_last();
        the_list_goes_by_recency(front);
        let sorted = by_recency(front);
        let last = rows.last();
        lemma_rank(sorted, last.last_used);
        let n = rank(sorted, last.last_used);
        let out = by_recency(rows);
        assert(out == sorted.insert(n, last));
        assert(rows =~= front.push(last));
        vstd::seq_lib::to_multiset_insert(sorted, n, last);
        assert(out.to_multiset() =~= rows.to_multiset());
        assert forall|i: int, j: int| 0 <= i < j < rows.len() implies (#[trigger] out[i]).last_used
            >= (#[trigger] out[j]).last_used by {
            if j < n {
                assert(out[i] == sorted[i] && out[j] == sorted[j]);
            } else if j == n {
                assert(out[i] == sorted[i]);
            } else {
                assert(out[j] == sorted[j - 1]);
                if i < n {
                    assert(out[i] == sorted[i]);
                } else if i == n {
                    if j - 1 > n {
                        assert(sorted[n].last_used >= sorted[j - 1].last_used);
                    }
                } else {
                    assert(out[i] == sorted[i - 1]);
                }
            }
        }
    }
}

/// The page that was used after all others is listed first.
pub proof fn the_page_used_last_is_listed_first(rows: Seq<RowView>, i: int)
    requires
        0 <= i < rows.len(),
        forall|k: int|
            0 <= k < rows.len() && k != i ==> (#[trigger] rows[k]).last_used < rows[i].last_used,
    ensures
        by_recency(rows)[0] == rows[i],
    decreases rows.len(),
{
    let front = rows.drop_last();
    let sorted = by_recency(front);
    let last = rows.last();
    the_list_goes_by_recency(front);
    lemma_rank(sorted, last.last_used);
    if i == rows.len() - 1 {
        if sorted.len() > 0 {
            assert(front.to_multiset().count(sorted[0]) > 0) by {
                broadcast use vstd::seq_lib::group_to_multiset_ensures;

                assert(sorted.contains(sorted[0]));
                assert(sorted.to_multiset().count(sorted[0]) > 0);
            }
            assert(front.contains(sorted[0])) by {
                broadcast use vstd::seq_lib::group_to_multiset_ensures;

            }
            let k = choose|k: int| 0 <= k < front.len() && front[k] == sorted[0];
            assert(rows[k].last_used < rows[i].last_used);
        }
        assert(rank(sorted, last.last_used) == 0);
    } else {
        assert(front[i] == rows[i]);
        the_page_used_last_is_listed_first(front, i);
        assert(rows[rows.len() - 1].last_used < rows[i].last_used);
        if rank(sorted, last.last_used) == 0 {
            assert(sorted[0].last_used <= last.last_used);
        }
    }
}

/// A page lives as long as its server lets it, but no longer than the client
/// keeps any: of the two ages the lesser one.
pub proof fn pages_live_as_long_as_they_may(server_max_age_secs: i32, max_ttl: u64)
    requires
        server_max_age_secs >= 0,
    ensures
        server_max_age_secs <= max_ttl ==> capped(server_max_age_secs, max_ttl)
            == server_max_age_secs,
        server_max_age_secs >= max_ttl ==> capped(server_max_age_secs, max_ttl) == max_ttl,
{
}

/// A page that comes in is found with the etag and the body that it came with,
/// its age counted from then, and the lesser of its server's age and the longest
/// that is kept.
pub proof fn pages_are_kept_as_they_came(
    rows: Seq<RowView>,
    url: Seq<char>,
    etag: Seq<char>,
    body: Seq<u8>,
    server_max_age_secs: i32,
    max_ttl: u64,
    now: u64,
    cap_bytes: u64,
)
    requires
        distinct_urls(rows),
        server_max_age_secs >= 0,
    ensures
        ({
            let row = new_row(url, etag, body, capped(server_max_age_secs, max_ttl), now);
            let out = taken_in(rows, row, server_max_age_secs, cap_bytes);
            position_of(out, url) matches Some(i) && {
                &&& 0 <= i < out.len()
                &&& out[i].url == url
                &&& out[i].etag == etag
                &&& out[i].brotli_body == body
                &&& out[i].fetched_at == now
                &&& out[i].last_used == now
                &&& server_max_age_secs <= max_ttl ==> out[i].max_age == server_max_age_secs
                &&& server_max_age_secs >= max_ttl ==> out[i].max_age == max_ttl
            }
        }),
{
    let row = new_row(url, etag, body, capped(server_max_age_secs, max_ttl), now);
    inserted_pages_are_found(rows, row, cap_bytes);
    lemma_position(inserted(rows, row, cap_bytes), url);
}

/// A page is fresh from when it was fetched for exactly as long as it may live,
/// and never before.
pub proof fn pages_are_fresh_for_their_age(hit: Hit, now: u64)
    ensures
        hit.fresh(now) <==> hit.fetched_at <= now < hit.fetched_at + hit.max_age,
{
}

/// The time that a page has left and the time that it has been kept make up its
/// age, a begun second counted whole; nothing is left beyond that, nor of a page
/// from the future.
pub proof fn time_left_and_time_gone_make_the_age(fetched_at: u64, max_age: u64, now: Moment)
    ensures
        ({
            let left = seconds_left(fetched_at, max_age, now);
            let begun: int = if now.nanos > 0 {
                1
            } else {
                0
            };
            &&& now.secs < fetched_at ==> left == 0
            &&& fetched_at <= now.secs && now.secs + begun <= fetched_at + max_age ==> left + (
            now.secs - fetched_at) + begun == max_age
            &&& fetched_at <= now.secs && now.secs + begun > fetched_at + max_age ==> left == 0
        }),
{
}

/// A page that the server confirmed counts from then on, and is otherwise as it
/// was; a page that was shown is only noted as used. All others stay as they
/// were, and none comes or goes.
pub proof fn confirming_and_showing_change_times_alone(
    rows: Seq<RowView>,
    url: Seq<char>,
    now: u64,
    k: int,
)
    requires
        distinct_urls(rows),
        0 <= k < rows.len(),
    ensures
        confirmed(rows, url, now).len() == rows.len(),
        used(rows, url, now).len() == rows.len(),
        rows[k].url != url ==> confirmed(rows, url, now)[k] == rows[k] && used(rows, url, now)[k]
            == rows[k],
        rows[k].url == url ==> confirmed(rows, url, now)[k] == (RowView {
            fetched_at: now,
            last_used: now,
            ..rows[k]
        }) && used(rows, url, now)[k] == (RowView { last_used: now, ..rows[k] }),
{
    lemma_position(rows, url);
    if rows[k].url == url {
        lemma_position_is(rows, url, k);
    }
}

/// No more pages go than must: where one went, putting the one that went last
/// back would be too much.
pub proof fn no_more_pages_go_than_must(rows: Seq<RowView>, row: RowView, cap_bytes: u64)
    requires
        inserted(rows, row, cap_bytes) != upserted(rows, row),
    ensures
        exists|gone: RowView| #[trigger]
            upserted(rows, row).contains(gone) && gone.url != row.url && total_size(
                inserted(rows, row, cap_bytes),
            ) + gone.brotli_body.len() > cap_bytes,
{
    let all = upserted(rows, row);
    lemma_last_gone(all, row.url, total_size(all) - cap_bytes);
}

proof fn lemma_last_gone(rows: Seq<RowView>, keep: Seq<char>, over: int)
    requires
        shrunk(rows, keep, over) != rows,
    ensures
        exists|gone: RowView| #[trigger]
            rows.contains(gone) && gone.url != keep && total_size(shrunk(rows, keep, over))
                + gone.brotli_body.len() > total_size(rows) - over,
    decreases rows.len(),
{
    lemma_oldest(rows, keep);
    let i = oldest(rows, keep)->0;
    let less = rows.remove(i);
    let n = rows[i].brotli_body.len() as int;
    lemma_total_remove(rows, i);
    if shrunk(less, keep, over - n) != less {
        lemma_last_gone(less, keep, over - n);
        let gone = choose|gone: RowView| #[trigger]
            less.contains(gone) && gone.url != keep && total_size(shrunk(less, keep, over - n))
                + gone.brotli_body.len() > total_size(less) - (over - n);
        let k = choose|k: int| 0 <= k < less.len() && less[k] == gone;
        assert(rows[if k < i {
            k
        } else {
            k + 1
        }] == gone);
        assert(rows.contains(gone));
    } else {
        assert(rows.contains(rows[i]));
    }
}

/// A URL has a position exactly where it is kept.
pub proof fn lemma_position_found(rows: Seq<RowView>, url: Seq<char>)
    ensures
        position_of(rows, url) is None <==> (forall|k: int|
            0 <= k < rows.len() ==> (#[trigger] rows[k]).url != url),
{
    lemma_position(rows, url);
}

/// A hit holds what is kept of a page, and an entry of the list tells it without
/// the body, whose length it tells.
pub proof fn hits_and_entries_show_their_row(hit: Hit, entry: CacheEntry, row: RowView)
    ensures
        hit.shows(row) ==> hit.etag@ == row.etag && hit.brotli_body@ == row.brotli_body,
        hit.shows(row) ==> hit.fetched_at == row.fetched_at && hit.max_age == row.max_age,
        entry.lists(row) ==> entry.url@ == row.url && entry.etag@ == row.etag,
        entry.lists(row) ==> entry.fetched_at == row.fetched_at && entry.max_age == row.max_age,
        entry.lists(row) ==> entry.last_used == row.last_used && entry.size
            == row.brotli_body.len(),
{
}

} // verus!
