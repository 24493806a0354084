//! The per-guest stats: request and downvote counts merged by address, with bans added, most
//! active first; and the redacted form guests see. Titles and artists are copied into the
//! logs, so history survives a rescan pruning the track. The logs themselves are read and
//! written around these rules.

use vstd::prelude::*;

use super::queue::opt_view;
use crate::hash::{hex, sha1_digest, sha1_hex};
use crate::text::{same_text, string_of};
use crate::js::{js_trim, trim};
use crate::types::{BanEntry, PlaySource, UserStat};

verus! {

/// One guest's count in one log: their address, the latest name logged for it, the count.
pub struct GuestCount {
    pub ip: String,
    pub name: Option<String>,
    pub count: i64,
}

/// A guest's row as the rules see it.
pub struct Tally {
    pub ip: Seq<char>,
    pub name: Option<Seq<char>>,
    pub requests: i64,
    pub downvotes: i64,
    pub banned: bool,
    pub banned_until: Option<Seq<char>>,
}

/// A user row's content, keyed by its address.
pub open spec fn tally(u: UserStat) -> Tally {
    Tally {
        ip: u.id@,
        name: opt_view(u.name),
        requests: u.requests,
        downvotes: u.downvotes,
        banned: u.banned,
        banned_until: opt_view(u.banned_until),
    }
}

/// The rows' contents.
pub open spec fn tallies(users: Seq<UserStat>) -> Seq<Tally> {
    users.map_values(|u: UserStat| tally(u))
}

/// Each row of the admin's view is keyed by the address it shows.
pub open spec fn keyed_by_address(users: Seq<UserStat>) -> bool {
    forall|i: int| 0 <= i < users.len() ==> ((#[trigger] users[i]).ip matches Some(a) && a@ == users[i].id@)
}

/// The index of the row for `ip`, or the length when there is none.
pub open spec fn row_of(rows: Seq<Tally>, ip: Seq<char>) -> int
    decreases rows.len(),
{
    if rows.len() == 0 {
        0
    } else if row_of(rows.drop_last(), ip) < rows.len() - 1 {
        row_of(rows.drop_last(), ip)
    } else if rows.last().ip == ip {
        rows.len() - 1
    } else {
        rows.len() as int
    }
}

/// The rows with one for `ip`: a new one at the end, named `name`, if there was none; else the
/// existing one, given `name` if it had none.
pub open spec fn upsert(rows: Seq<Tally>, ip: Seq<char>, name: Option<Seq<char>>) -> Seq<Tally> {
    let i = row_of(rows, ip);
    if i < rows.len() {
        if rows[i].name is None {
            rows.update(i, Tally { name, ..rows[i] })
        } else {
            rows
        }
    } else {
        rows.push(Tally { ip, name, requests: 0, downvotes: 0, banned: false, banned_until: None })
    }
}

/// What a log entry sets on its guest's row.
pub enum Mark {
    Requests(i64),
    Downvotes(i64),
    Ban(Option<Seq<char>>),
}

/// The rows after one entry for `ip`: the row upserted, then marked.
pub open spec fn apply(rows: Seq<Tally>, ip: Seq<char>, name: Option<Seq<char>>, mark: Mark) -> Seq<Tally> {
    let up = upsert(rows, ip, name);
    let i = row_of(up, ip);
    let row = up[i];
    up.update(i, match mark {
        Mark::Requests(c) => Tally { requests: c, ..row },
        Mark::Downvotes(c) => Tally { downvotes: c, ..row },
        Mark::Ban(until) => Tally { banned: true, banned_until: until, ..row },
    })
}

/// The rows after the request counts.
pub open spec fn after_requests(requests: Seq<GuestCount>) -> Seq<Tally>
    decreases requests.len(),
{
    if requests.len() == 0 {
        Seq::empty()
    } else {
        let g = requests.last();
        apply(after_requests(requests.drop_last()), g.ip@, opt_view(g.name), Mark::Requests(g.count))
    }
}

/// The rows after the downvote counts, on top of `base`.
pub open spec fn after_downvotes(base: Seq<Tally>, downvotes: Seq<GuestCount>) -> Seq<Tally>
    decreases downvotes.len(),
{
    if downvotes.len() == 0 {
        base
    } else {
        let g = downvotes.last();
        apply(after_downvotes(base, downvotes.drop_last()), g.ip@, opt_view(g.name), Mark::Downvotes(g.count))
    }
}

/// The rows after the bans, on top of `base`.
pub open spec fn after_bans(base: Seq<Tally>, bans: Seq<BanEntry>) -> Seq<Tally>
    decreases bans.len(),
{
    if bans.len() == 0 {
        base
    } else {
        let b = bans.last();
        apply(after_bans(base, bans.drop_last()), b.ip@, opt_view(b.name), Mark::Ban(opt_view(b.expires_at)))
    }
}

/// Per-guest rows, merged by address, in the order each address first appears: requests,
/// then downvotes, then bans (a guest can be banned before adding anything).
pub open spec fn merged(requests: Seq<GuestCount>, downvotes: Seq<GuestCount>, bans: Seq<BanEntry>) -> Seq<Tally> {
    after_bans(after_downvotes(after_requests(requests), downvotes), bans)
}

/// Whether no two rows share an address.
pub open spec fn distinct_addresses(rows: Seq<Tally>) -> bool {
    forall|i: int, j: int| 0 <= i < j < rows.len() ==> rows[i].ip != rows[j].ip
}


proof fn lemma_row_of(rows: Seq<Tally>, ip: Seq<char>)
    ensures
        0 <= row_of(rows, ip) <= rows.len(),
        row_of(rows, ip) < rows.len() ==> rows[row_of(rows, ip)].ip == ip,
        forall|k: int| 0 <= k < row_of(rows, ip) ==> rows[k].ip != ip,
    decreases rows.len(),
{
    if rows.len() > 0 {
        let init = rows.drop_last();
        lemma_row_of(init, ip);
        assert forall|k: int| 0 <= k < row_of(rows, ip) implies rows[k].ip != ip by {
            if k < init.len() {
                assert(init[k] == rows[k]);
            }
        }
    }
}

/// `row_of` is the first row with the address.
proof fn lemma_row_of_first(rows: Seq<Tally>, ip: Seq<char>, k: int)
    requires
        0 <= k <= rows.len(),
        k < rows.len() ==> rows[k].ip == ip,
        forall|j: int| 0 <= j < k ==> rows[j].ip != ip,
    ensures
        row_of(rows, ip) == k,
{
    lemma_row_of(rows, ip);
}

/// The merge keeps one row per address.
proof fn lemma_apply_distinct(rows: Seq<Tally>, ip: Seq<char>, name: Option<Seq<char>>, mark: Mark)
    requires
        distinct_addresses(rows),
    ensures
        distinct_addresses(apply(rows, ip, name, mark)),
        row_of(upsert(rows, ip, name), ip) < upsert(rows, ip, name).len(),
{
    lemma_row_of(rows, ip);
    let up = upsert(rows, ip, name);
    lemma_row_of(up, ip);
    if row_of(rows, ip) == rows.len() {
        lemma_row_of_first(up, ip, rows.len() as int);
    } else {
        lemma_row_of_first(up, ip, row_of(rows, ip));
    }
}

/// Upserting a row for an address points at a row with that address, and keeps every other
/// row where it was.
proof fn lemma_upsert_keeps(rows: Seq<Tally>, ip: Seq<char>, name: Option<Seq<char>>)
    ensures
        row_of(upsert(rows, ip, name), ip) < upsert(rows, ip, name).len(),
        upsert(rows, ip, name)[row_of(upsert(rows, ip, name), ip)].ip == ip,
        upsert(rows, ip, name).len() >= rows.len(),
        forall|k: int| 0 <= k < rows.len() && rows[k].ip != ip ==> #[trigger] upsert(rows, ip, name)[k] == rows[k],
{
    lemma_row_of(rows, ip);
    let up = upsert(rows, ip, name);
    let i = row_of(rows, ip);
    if i < rows.len() {
        assert forall|j: int| 0 <= j < i implies up[j].ip != ip by {
            assert(up[j] == rows[j]);
        }
        lemma_row_of_first(up, ip, i);
    } else {
        assert forall|j: int| 0 <= j < rows.len() implies up[j].ip != ip by {
            assert(up[j] == rows[j]);
        }
        lemma_row_of_first(up, ip, rows.len() as int);
    }
    lemma_row_of(up, ip);
}

/// Applying a guest's entry keeps every other guest's row where it was.
proof fn lemma_apply_keeps_others(rows: Seq<Tally>, ip: Seq<char>, name: Option<Seq<char>>, mark: Mark, k: int)
    requires
        0 <= k < rows.len(),
        rows[k].ip != ip,
    ensures
        k < apply(rows, ip, name, mark).len(),
        apply(rows, ip, name, mark)[k] == rows[k],
{
    lemma_upsert_keeps(rows, ip, name);
    let up = upsert(rows, ip, name);
    let r = row_of(up, ip);
    lemma_row_of(up, ip);
    assert(up[k] == rows[k]);
    assert(r != k);
    let row = up[r];
    let t = match mark {
        Mark::Requests(c) => Tally { requests: c, ..row },
        Mark::Downvotes(c) => Tally { downvotes: c, ..row },
        Mark::Ban(until) => Tally { banned: true, banned_until: until, ..row },
    };
    assert(apply(rows, ip, name, mark) == up.update(r, t));
    assert(up.update(r, t).len() == up.len());
    assert(up.update(r, t)[k] == up[k]);
}

/// The row for a banned guest, once their last ban is applied, shows the ban: blocked, until
/// when that ban ends (or for good), whatever else that guest did.
proof fn lemma_bans_show(base: Seq<Tally>, bans: Seq<BanEntry>, i: int)
    requires
        0 <= i < bans.len(),
        forall|j: int| i < j < bans.len() ==> (#[trigger] bans[j]).ip@ != bans[i].ip@,
    ensures
        exists|k: int| 0 <= k < after_bans(base, bans).len()
            && after_bans(base, bans)[k].ip == bans[i].ip@
            && after_bans(base, bans)[k].banned
            && after_bans(base, bans)[k].banned_until == opt_view(bans[i].expires_at),
    decreases bans.len(),
{
    let init = bans.drop_last();
    let b = bans.last();
    let prev = after_bans(base, init);
    assert(after_bans(base, bans) == apply(prev, b.ip@, opt_view(b.name), Mark::Ban(opt_view(b.expires_at))));
    if i == bans.len() - 1 {
        lemma_upsert_keeps(prev, b.ip@, opt_view(b.name));
        let up = upsert(prev, b.ip@, opt_view(b.name));
        let r = row_of(up, b.ip@);
        lemma_row_of(up, b.ip@);
        let out = after_bans(base, bans);
        assert(out[r].banned && out[r].ip == bans[i].ip@ && out[r].banned_until == opt_view(bans[i].expires_at));
    } else {
        assert forall|j: int| i < j < init.len() implies (#[trigger] init[j]).ip@ != init[i].ip@ by {
            assert(init[j] == bans[j]);
        }
        lemma_bans_show(base, init, i);
        let k = choose|k: int| 0 <= k < prev.len() && prev[k].ip == init[i].ip@ && prev[k].banned
            && prev[k].banned_until == opt_view(init[i].expires_at);
        assert(bans[bans.len() - 1].ip@ != bans[i].ip@);
        lemma_apply_keeps_others(prev, b.ip@, opt_view(b.name), Mark::Ban(opt_view(b.expires_at)), k);
        assert(init[i] == bans[i]);
        assert(after_bans(base, bans)[k] == prev[k]);
    }
}

/// Every ban shows on its guest's row: for each ban (the last one for its address), the
/// merged rows hold a row for that address that is blocked until the ban ends, or for
/// good, also when the guest has requests or downvotes too.
pub proof fn every_ban_shows_on_its_guest(requests: Seq<GuestCount>, downvotes: Seq<GuestCount>, bans: Seq<BanEntry>, i: int)
    requires
        0 <= i < bans.len(),
        forall|j: int| i < j < bans.len() ==> (#[trigger] bans[j]).ip@ != bans[i].ip@,
    ensures
        exists|k: int| 0 <= k < merged(requests, downvotes, bans).len()
            && merged(requests, downvotes, bans)[k].ip == bans[i].ip@
            && merged(requests, downvotes, bans)[k].banned
            && merged(requests, downvotes, bans)[k].banned_until == opt_view(bans[i].expires_at),
{
    let base = after_downvotes(after_requests(requests), downvotes);
    lemma_bans_show(base, bans, i);
    let m = merged(requests, downvotes, bans);
    assert(m == after_bans(base, bans));
    let k = choose|k: int| 0 <= k < after_bans(base, bans).len()
        && after_bans(base, bans)[k].ip == bans[i].ip@
        && after_bans(base, bans)[k].banned
        && after_bans(base, bans)[k].banned_until == opt_view(bans[i].expires_at);
    assert(m[k].ip == bans[i].ip@ && m[k].banned && m[k].banned_until == opt_view(bans[i].expires_at));
}

fn same_name(name: &Option<String>) -> (r: Option<String>)
    ensures
        opt_view(r) == opt_view(*name),
{
    match name {
        Some(n) => Some(n.clone()),
        None => None,
    }
}

/// The row for `ip`, made if there is none, and named `name` if it had no name.
fn upsert_row(users: &mut Vec<UserStat>, ip: &String, name: &Option<String>) -> (i: usize)
    requires
        keyed_by_address(old(users)@),
        distinct_addresses(tallies(old(users)@)),
    ensures
        keyed_by_address(final(users)@),
        tallies(final(users)@) == upsert(tallies(old(users)@), ip@, opt_view(*name)),
        i == row_of(tallies(final(users)@), ip@),
        i < final(users)@.len(),
{
    let ghost rows = tallies(users@);
    let mut k: usize = 0;
    while k < users.len()
        invariant
            k <= users@.len(),
            rows == tallies(users@),
            forall|j: int| 0 <= j < k ==> rows[j].ip != ip@,
        ensures
            k <= users@.len(),
            forall|j: int| 0 <= j < k ==> rows[j].ip != ip@,
            k < users@.len() ==> rows[k as int].ip == ip@,
        decreases users@.len() - k,
    {
        if same_text(users[k].id.as_str(), ip.as_str()) {
            break;
        }
        k = k + 1;
    }
    proof {
        lemma_row_of_first(rows, ip@, k as int);
    }
    if k < users.len() {
        if users[k].name.is_none() {
            users[k].name = same_name(name);
            assert(tallies(users@) =~= upsert(rows, ip@, opt_view(*name)));
        }
        proof {
            lemma_row_of_first(tallies(users@), ip@, k as int);
        }
        k
    } else {
        users.push(UserStat {
            id: ip.clone(),
            ip: Some(ip.clone()),
            name: same_name(name),
            requests: 0,
            downvotes: 0,
            banned: false,
            banned_until: None,
        });
        assert(tallies(users@) =~= upsert(rows, ip@, opt_view(*name)));
        proof {
            lemma_row_of_first(tallies(users@), ip@, k as int);
        }
        k
    }
}


/// Per-guest request and downvote counts, merged by address, with a row for every banned
/// address: the latest name seen for an address is kept unless an earlier list named it.
/// Rows come in the order addresses first appear.
pub fn merge_users(requests: &Vec<GuestCount>, downvotes: &Vec<GuestCount>, bans: &Vec<BanEntry>) -> (users: Vec<UserStat>)
    ensures
        tallies(users@) == merged(requests@, downvotes@, bans@),
        keyed_by_address(users@),
        distinct_addresses(tallies(users@)),
{
    let mut users: Vec<UserStat> = Vec::new();
    assert(tallies(users@) =~= Seq::<Tally>::empty());
    let mut n: usize = 0;
    while n < requests.len()
        invariant
            n <= requests@.len(),
            tallies(users@) == after_requests(requests@.take(n as int)),
            keyed_by_address(users@),
            distinct_addresses(tallies(users@)),
        decreases requests@.len() - n,
    {
        let g = &requests[n];
        let ghost before = tallies(users@);
        proof { lemma_apply_distinct(before, g.ip@, opt_view(g.name), Mark::Requests(g.count)); }
        let i = upsert_row(&mut users, &g.ip, &g.name);
        users[i].requests = g.count;
        assert(requests@.take(n + 1).drop_last() =~= requests@.take(n as int));
        assert(tallies(users@) =~= apply(before, g.ip@, opt_view(g.name), Mark::Requests(g.count)));
        n = n + 1;
    }
    assert(requests@.take(requests@.len() as int) =~= requests@);
    let ghost base = tallies(users@);
    n = 0;
    while n < downvotes.len()
        invariant
            n <= downvotes@.len(),
            tallies(users@) == after_downvotes(base, downvotes@.take(n as int)),
            keyed_by_address(users@),
            distinct_addresses(tallies(users@)),
        decreases downvotes@.len() - n,
    {
        let g = &downvotes[n];
        let ghost before = tallies(users@);
        proof { lemma_apply_distinct(before, g.ip@, opt_view(g.name), Mark::Downvotes(g.count)); }
        let i = upsert_row(&mut users, &g.ip, &g.name);
        users[i].downvotes = g.count;
        assert(downvotes@.take(n + 1).drop_last() =~= downvotes@.take(n as int));
        assert(tallies(users@) =~= apply(before, g.ip@, opt_view(g.name), Mark::Downvotes(g.count)));
        n = n + 1;
    }
    assert(downvotes@.take(downvotes@.len() as int) =~= downvotes@);
    let ghost base2 = tallies(users@);
    n = 0;
    while n < bans.len()
        invariant
            n <= bans@.len(),
            tallies(users@) == after_bans(base2, bans@.take(n as int)),
            keyed_by_address(users@),
            distinct_addresses(tallies(users@)),
        decreases bans@.len() - n,
    {
        let b = &bans[n];
        let ghost before = tallies(users@);
        proof { lemma_apply_distinct(before, b.ip@, opt_view(b.name), Mark::Ban(opt_view(b.expires_at))); }
        let i = upsert_row(&mut users, &b.ip, &b.name);
        users[i].banned = true;
        users[i].banned_until = same_name(&b.expires_at);
        assert(bans@.take(n + 1).drop_last() =~= bans@.take(n as int));
        assert(tallies(users@) =~= apply(before, b.ip@, opt_view(b.name), Mark::Ban(opt_view(b.expires_at))));
        n = n + 1;
    }
    assert(bans@.take(bans@.len() as int) =~= bans@);
    users
}


/// Whether row `a` is more active than row `b`: more requests, or as many and more downvotes.
pub open spec fn more_active(a: Tally, b: Tally) -> bool {
    a.requests > b.requests || (a.requests == b.requests && a.downvotes > b.downvotes)
}

/// Where `x` goes among `sorted` from index `i` on: before the first row it is more active
/// than, or at the end.
pub open spec fn slot(sorted: Seq<Tally>, x: Tally, i: int) -> int
    decreases sorted.len() - i,
{
    if i >= sorted.len() {
        sorted.len() as int
    } else if more_active(x, sorted[i]) {
        i
    } else {
        slot(sorted, x, i + 1)
    }
}

/// The rows, most active first; rows alike keep their order (a stable sort on requests,
/// then downvotes, both descending).
pub open spec fn by_activity(rows: Seq<Tally>) -> Seq<Tally>
    decreases rows.len(),
{
    if rows.len() == 0 {
        Seq::empty()
    } else {
        let r = by_activity(rows.drop_last());
        r.insert(slot(r, rows.last(), 0), rows.last())
    }
}

/// No row is more active than one before it.
pub open spec fn activity_ordered(rows: Seq<Tally>) -> bool {
    forall|i: int, j: int| 0 <= i < j < rows.len() ==> !more_active(rows[j], rows[i])
}

proof fn lemma_slot(sorted: Seq<Tally>, x: Tally, i: int)
    requires
        0 <= i <= sorted.len(),
    ensures
        i <= slot(sorted, x, i) <= sorted.len(),
        slot(sorted, x, i) < sorted.len() ==> more_active(x, sorted[slot(sorted, x, i)]),
        forall|k: int| i <= k < slot(sorted, x, i) ==> !more_active(x, sorted[k]),
    decreases sorted.len() - i,
{
    if i < sorted.len() && !more_active(x, sorted[i]) {
        lemma_slot(sorted, x, i + 1);
    }
}

proof fn lemma_by_activity(rows: Seq<Tally>)
    ensures
        by_activity(rows).len() == rows.len(),
        activity_ordered(by_activity(rows)),
        by_activity(rows).to_multiset() == rows.to_multiset(),
    decreases rows.len(),
{
    if rows.len() > 0 {
        let init = rows.drop_last();
        let x = rows.last();
        lemma_by_activity(init);
        let r = by_activity(init);
        let p = slot(r, x, 0);
        lemma_slot(r, x, 0);
        let out = r.insert(p, x);
        r.insert_ensures(p, x);
        assert forall|i: int, j: int| 0 <= i < j < out.len() implies !more_active(out[j], out[i]) by {
            if j < p {
                assert(out[i] == r[i] && out[j] == r[j]);
            } else if j == p {
                assert(out[i] == r[i]);
            } else if i < p {
                assert(out[i] == r[i] && out[j] == r[j - 1]);
            } else if i == p {
                assert(out[j] == r[j - 1]);
                assert(!more_active(r[j - 1], r[p]) || j - 1 == p);
            } else {
                assert(out[i] == r[i - 1] && out[j] == r[j - 1]);
            }
        }
        assert(init.push(x) =~= rows);
        vstd::seq_lib::to_multiset_insert(r, p, x);
        vstd::seq_lib::to_multiset_build(init, x);
    } else {
        assert(rows =~= Seq::<Tally>::empty());
    }
}

/// The user rows come most active first: no row has more requests than one above it, or as
/// many and more downvotes.
pub proof fn user_rows_by_activity_are_ordered(rows: Seq<Tally>)
    ensures
        activity_ordered(by_activity(rows)),
{
    lemma_by_activity(rows);
}

/// Ordering the user rows keeps every row exactly once.
pub proof fn user_rows_by_activity_are_a_permutation(rows: Seq<Tally>)
    ensures
        by_activity(rows).to_multiset() == rows.to_multiset(),
{
    lemma_by_activity(rows);
}

fn more_active_exec(a: &UserStat, b: &UserStat) -> (r: bool)
    ensures
        r == more_active(tally(*a), tally(*b)),
{
    a.requests > b.requests || (a.requests == b.requests && a.downvotes > b.downvotes)
}

/// The rows, most active first (requests, then downvotes, descending), ties in their order.
pub fn sort_by_activity(users: Vec<UserStat>) -> (r: Vec<UserStat>)
    ensures
        tallies(r@) == by_activity(tallies(users@)),
        keyed_by_address(users@) ==> keyed_by_address(r@),
{
    let ghost orig = users@;
    let mut rest = users;
    let mut out: Vec<UserStat> = Vec::new();
    let mut n: usize = 0;
    let total = rest.len();
    assert(tallies(out@) =~= by_activity(tallies(orig).take(0)));
    while rest.len() > 0
        invariant
            n + rest@.len() == orig.len(),
            orig.len() == total,
            rest@ == orig.skip(n as int),
            tallies(out@) == by_activity(tallies(orig).take(n as int)),
            keyed_by_address(orig) ==> keyed_by_address(out@),
        decreases rest@.len(),
    {
        let u = rest.remove(0);
        assert(u == orig[n as int]);
        let ghost sorted = tallies(out@);
        let mut k: usize = 0;
        while k < out.len() && !more_active_exec(&u, &out[k])
            invariant
                k <= out@.len(),
                sorted == tallies(out@),
                slot(sorted, tally(u), 0) == slot(sorted, tally(u), k as int),
            decreases out@.len() - k,
        {
            k = k + 1;
        }
        assert(slot(sorted, tally(u), k as int) == k);
        out.insert(k, u);
        proof {
            let t = tallies(orig).take(n as int + 1);
            assert(t.drop_last() =~= tallies(orig).take(n as int));
            assert(t.last() == tally(u));
            assert(tallies(out@) =~= sorted.insert(k as int, tally(u)));
            if keyed_by_address(orig) {
                assert forall|i: int| 0 <= i < out@.len() implies
                    ((#[trigger] out@[i]).ip matches Some(a) && a@ == out@[i].id@) by {
                    if i == k {
                        assert(out@[i] == orig[n as int]);
                    }
                }
            }
        }
        n = n + 1;
        assert(rest@ =~= orig.skip(n as int));
    }
    assert(tallies(orig).take(n as int) =~= tallies(orig));
    out
}


/// The opaque key a guest sees instead of an address: the first eight hex digits of the
/// SHA-1 of its UTF-8 bytes.
pub open spec fn guest_key(ip: Seq<char>) -> Seq<char> {
    hex(sha1_digest(vstd::utf8::encode_utf8(ip))).take(8)
}

/// `after` is `before` as a guest may see it: keyed by the digest of its address, with the
/// address and who is blocked left out.
pub open spec fn redacted(before: UserStat, after: UserStat) -> bool {
    &&& after.id@ == guest_key(before.id@)
    &&& after.ip is None
    &&& opt_view(after.name) == opt_view(before.name)
    &&& after.requests == before.requests
    &&& after.downvotes == before.downvotes
    &&& !after.banned
    &&& after.banned_until is None
}

/// Strips what a guest has no business seeing, other guests' addresses and who is blocked,
/// keying each row by an opaque digest instead.
pub fn redact(users: Vec<UserStat>) -> (r: Vec<UserStat>)
    ensures
        r@.len() == users@.len(),
        forall|i: int| 0 <= i < r@.len() ==> redacted(users@[i], #[trigger] r@[i]),
{
    let ghost orig = users@;
    let total = users.len();
    let mut rest = users;
    let mut out: Vec<UserStat> = Vec::new();
    while rest.len() > 0
        invariant
            out@.len() + rest@.len() == orig.len(),
            orig.len() == total,
            rest@ == orig.skip(out@.len() as int),
            forall|i: int| 0 <= i < out@.len() ==> redacted(orig[i], #[trigger] out@[i]),
        decreases rest@.len(),
    {
        let ghost n = out@.len();
        let u = rest.remove(0);
        assert(u == orig[n as int]);
        let mut key = sha1_hex(u.id.as_str().as_bytes());
        key.truncate(8);
        let id = string_of(key.as_slice());
        out.push(UserStat {
            id,
            ip: None,
            name: u.name,
            requests: u.requests,
            downvotes: u.downvotes,
            banned: false,
            banned_until: None,
        });
        assert(rest@ =~= orig.skip(out@.len() as int));
    }
    out
}

/// The stats' user rows: merged by address, most active first; for a guest, redacted.
pub fn user_stats(requests: &Vec<GuestCount>, downvotes: &Vec<GuestCount>, bans: &Vec<BanEntry>, for_admin: bool) -> (r: Vec<UserStat>)
    ensures
        for_admin ==> tallies(r@) == by_activity(merged(requests@, downvotes@, bans@))
            && keyed_by_address(r@),
        !for_admin ==> exists|rows: Seq<UserStat>|
            tallies(rows) == by_activity(merged(requests@, downvotes@, bans@))
            && rows.len() == r@.len()
            && forall|i: int| 0 <= i < r@.len() ==> redacted(rows[i], #[trigger] r@[i]),
{
    let users = merge_users(requests, downvotes, bans);
    let sorted = sort_by_activity(users);
    if for_admin {
        sorted
    } else {
        let ghost rows = sorted@;
        let r = redact(sorted);
        assert(tallies(rows) == by_activity(merged(requests@, downvotes@, bans@)));
        r
    }
}


/// The guests' view lists the same guests as the admin's, in the same order, with the same
/// names and counts: each guest row is the admin row redacted (keyed by the digest of the
/// address, with the address and who is blocked left out). Here `admin` and `guest` are any
/// two lists `user_stats` may return for the same logs, with and without `for_admin`.
pub proof fn guest_view_is_the_admin_view_redacted(requests: Seq<GuestCount>, downvotes: Seq<GuestCount>, bans: Seq<BanEntry>, admin: Seq<UserStat>, guest: Seq<UserStat>)
    requires
        tallies(admin) == by_activity(merged(requests, downvotes, bans)),
        exists|rows: Seq<UserStat>|
            tallies(rows) == by_activity(merged(requests, downvotes, bans))
            && rows.len() == guest.len()
            && forall|i: int| 0 <= i < guest.len() ==> redacted(rows[i], #[trigger] guest[i]),
    ensures
        guest.len() == admin.len(),
        forall|i: int| 0 <= i < guest.len() ==> redacted(admin[i], #[trigger] guest[i]),
{
    let rows = choose|rows: Seq<UserStat>|
        tallies(rows) == by_activity(merged(requests, downvotes, bans))
        && rows.len() == guest.len()
        && forall|i: int| 0 <= i < guest.len() ==> redacted(rows[i], #[trigger] guest[i]);
    assert(tallies(rows).len() == tallies(admin).len());
    assert forall|i: int| 0 <= i < guest.len() implies redacted(admin[i], #[trigger] guest[i]) by {
        assert(redacted(rows[i], guest[i]));
        assert(tallies(rows)[i] == tallies(admin)[i]);
        assert(tally(rows[i]) == tally(admin[i]));
    }
}

/// A name as logged: trimmed, and none when that leaves nothing.
pub fn clean_name(name: Option<&str>) -> (r: Option<&str>)
    ensures
        match name {
            Some(n) if js_trim(n@).len() > 0 => r matches Some(t) && t@ == js_trim(n@),
            _ => r is None,
        },
{
    match name {
        None => None,
        Some(n) => {
            let t = trim(n);
            if t.is_empty() {
                None
            } else {
                Some(t)
            }
        },
    }
}

/// How a play's source is written in the `source` column.
pub open spec fn source_word(source: PlaySource) -> Seq<char> {
    match source {
        PlaySource::Guest => "guest"@,
        PlaySource::Standby => "standby"@,
        PlaySource::Random => "random"@,
    }
}

/// How a play's source is written in the `source` column.
pub fn source_name(source: PlaySource) -> (r: &'static str)
    ensures
        r@ == source_word(source),
{
    match source {
        PlaySource::Guest => "guest",
        PlaySource::Standby => "standby",
        PlaySource::Random => "random",
    }
}

/// A `source` column read back: a guest's play unless it names standby or random.
pub open spec fn source_of_word(name: Seq<char>) -> PlaySource {
    if name == source_word(PlaySource::Standby) {
        PlaySource::Standby
    } else if name == source_word(PlaySource::Random) {
        PlaySource::Random
    } else {
        PlaySource::Guest
    }
}

/// A `source` column read back: a guest's play unless it names standby or random.
pub fn source_from_name(name: &str) -> (r: PlaySource)
    ensures
        r == source_of_word(name@),
{
    if same_text(name, "standby") {
        PlaySource::Standby
    } else if same_text(name, "random") {
        PlaySource::Random
    } else {
        PlaySource::Guest
    }
}

/// Every play source reads back from its column as itself.
pub proof fn play_sources_read_back_as_written(source: PlaySource)
    ensures
        source_of_word(source_word(source)) == source,
{
    reveal_strlit("guest");
    reveal_strlit("standby");
    reveal_strlit("random");
    assert("guest"@ != "standby"@ && "guest"@ != "random"@ && "standby"@ != "random"@) by {
        assert("guest"@[0] != "standby"@[0]);
        assert("guest"@[0] != "random"@[0]);
        assert("standby"@[0] != "random"@[0]);
    }
}

} // verus!
