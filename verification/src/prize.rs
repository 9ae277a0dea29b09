//! Splitting the pot over a ranking: tie groups pool the percentages of the
//! places they take, and what is left after the first round is shared out by
//! percentage among the places that hold votes.

use vstd::prelude::*;
use crate::types::{Payment, Tally};

verus! {

/// The percentages of the places `lo..hi`; places beyond the schedule give
/// nothing.
pub open spec fn share_sum(s: Seq<u32>, lo: int, hi: int) -> nat
    decreases hi - lo,
{
    if lo >= hi {
        0
    } else {
        share_sum(s, lo, hi - 1) + if 0 <= hi - 1 < s.len() {
            s[hi - 1] as nat
        } else {
            0
        }
    }
}

/// A schedule hands out at most the whole pot.
pub open spec fn schedule_ok(s: Seq<u32>) -> bool {
    share_sum(s, 0, s.len() as int) <= 100
}

/// The first index at or after `i` whose votes differ from those at
/// `start`; the length if there is none.
pub open spec fn group_end(r: Seq<Tally>, start: int, i: int) -> int
    decreases r.len() - i,
{
    if start < 0 || i < 0 || start >= r.len() || i >= r.len() || r[i].votes != r[start].votes {
        i
    } else {
        group_end(r, start, i + 1)
    }
}

/// `percent` hundredths of the pot, rounded down.
pub open spec fn share_of(pot: u64, percent: nat) -> nat {
    pot as nat * percent / 100
}

/// `amount` to each of the places `start..end`; nothing if the amount is 0.
pub open spec fn group_payments(r: Seq<Tally>, start: int, end: int, amount: nat) -> Seq<Payment> {
    if amount == 0 || end <= start {
        Seq::empty()
    } else {
        Seq::new(
            (end - start) as nat,
            |k: int|
                Payment {
                    recipient: r[start + k].address,
                    artist: r[start + k].artist,
                    amount: amount as u64,
                },
        )
    }
}

/// The first round for the ranking `r` from place `start` on. A tie group
/// pools the percentages of its places and splits them evenly. The round
/// ends at a group without votes, at a group whose pooled percentage is 0,
/// and when the schedule is used up.
pub open spec fn primary_from(r: Seq<Tally>, sched: Seq<u32>, pot: u64, start: int) -> Seq<Payment>
    decreases r.len() - start,
{
    if start < 0 || start >= r.len() || r[start].votes == 0 {
        Seq::empty()
    } else {
        let end = group_end(r, start, start + 1);
        let combined = share_sum(sched, start, end);
        if combined == 0 {
            Seq::empty()
        } else {
            let each = share_of(pot, combined / ((end - start) as nat));
            let group = group_payments(r, start, end, each);
            if end >= sched.len() {
                group
            } else {
                proof {
                    lemma_group_end(r, start, start + 1);
                }
                group + primary_from(r, sched, pot, end)
            }
        }
    }
}

/// The first index at or after `i` without votes; the length if there is none.
pub open spec fn voted_prefix(r: Seq<Tally>, i: int) -> int
    decreases r.len() - i,
{
    if i < 0 || i >= r.len() || r[i].votes == 0 {
        i
    } else {
        voted_prefix(r, i + 1)
    }
}

/// How many places share the leftover: the leading places with votes, but
/// no more than the schedule has.
pub open spec fn winners_count(r: Seq<Tally>, sched: Seq<u32>) -> int {
    let v = voted_prefix(r, 0);
    if v <= sched.len() {
        v
    } else {
        sched.len() as int
    }
}

/// `percent` parts out of `total_share` of the leftover, rounded down.
pub open spec fn leftover_share(leftover: u64, percent: u32, total_share: nat) -> nat {
    leftover as nat * percent as nat / total_share
}

/// The second round for the places before `n`: each gets its part of the
/// leftover, and a part of 0 is no payment.
pub open spec fn leftover_upto(
    r: Seq<Tally>,
    sched: Seq<u32>,
    leftover: u64,
    total_share: nat,
    n: int,
) -> Seq<Payment>
    decreases n,
{
    if n <= 0 {
        Seq::empty()
    } else {
        let before = leftover_upto(r, sched, leftover, total_share, n - 1);
        let part = leftover_share(leftover, sched[n - 1], total_share);
        if part > 0 {
            before.push(
                Payment {
                    recipient: r[n - 1].address,
                    artist: r[n - 1].artist,
                    amount: part as u64,
                },
            )
        } else {
            before
        }
    }
}

/// The second round: the leftover goes to the places that share it, each by
/// its percentage out of theirs together.
pub open spec fn leftover_plan(r: Seq<Tally>, sched: Seq<u32>, leftover: u64) -> Seq<Payment> {
    let n = winners_count(r, sched);
    let total_share = share_sum(sched, 0, n);
    if leftover == 0 || total_share == 0 {
        Seq::empty()
    } else {
        leftover_upto(r, sched, leftover, total_share, n)
    }
}

/// What the first `n` payments come to where the transfer succeeded. A
/// payment without a recorded outcome counts as failed.
pub open spec fn paid_upto(ps: Seq<Payment>, ok: Seq<bool>, n: int) -> nat
    decreases n,
{
    if n <= 0 {
        0
    } else {
        paid_upto(ps, ok, n - 1) + if n - 1 < ps.len() && n - 1 < ok.len() && ok[n - 1] {
            ps[n - 1].amount as nat
        } else {
            0
        }
    }
}

/// What the payments come to where the transfer succeeded.
pub open spec fn paid(ps: Seq<Payment>, ok: Seq<bool>) -> nat {
    paid_upto(ps, ok, ps.len() as int)
}

/// What the first `n` payments come to.
pub open spec fn total_upto(ps: Seq<Payment>, n: int) -> nat
    decreases n,
{
    if n <= 0 {
        0
    } else {
        total_upto(ps, n - 1) + if n - 1 < ps.len() {
            ps[n - 1].amount as nat
        } else {
            0
        }
    }
}

/// What the payments come to.
pub open spec fn total(ps: Seq<Payment>) -> nat {
    total_upto(ps, ps.len() as int)
}

/// A tie group ends behind its last entry with the same votes and in front
/// of the first entry with other votes.
pub proof fn lemma_group_end(r: Seq<Tally>, start: int, i: int)
    requires
        0 <= start < i <= r.len(),
    ensures
        i <= group_end(r, start, i) <= r.len(),
        forall|k: int| i <= k < group_end(r, start, i) ==> r[k].votes == r[start].votes,
        group_end(r, start, i) < r.len() ==> r[group_end(r, start, i)].votes != r[start].votes,
    decreases r.len() - i,
{
    if i < r.len() && r[i].votes == r[start].votes {
        lemma_group_end(r, start, i + 1);
    }
}

/// The percentages of a stretch of places are those of its two parts.
pub proof fn lemma_share_sum_split(s: Seq<u32>, lo: int, mid: int, hi: int)
    requires
        lo <= mid <= hi,
    ensures
        share_sum(s, lo, hi) == share_sum(s, lo, mid) + share_sum(s, mid, hi),
    decreases hi - mid,
{
    if mid < hi {
        lemma_share_sum_split(s, lo, mid, hi - 1);
    }
}

/// Places beyond the schedule add nothing.
pub proof fn lemma_share_sum_clip(s: Seq<u32>, lo: int, hi: int)
    requires
        s.len() <= hi,
    ensures
        share_sum(s, lo, hi) == share_sum(s, lo, s.len() as int),
    decreases hi - s.len(),
{
    if s.len() < hi {
        lemma_share_sum_clip(s, lo, hi - 1);
    }
}

/// No stretch of places holds more than the whole schedule.
pub proof fn lemma_share_sum_bound(s: Seq<u32>, lo: int, hi: int)
    requires
        0 <= lo,
    ensures
        share_sum(s, lo, hi) <= share_sum(s, 0, s.len() as int),
{
    let n = s.len() as int;
    if lo < hi {
        if hi <= n {
            lemma_share_sum_split(s, 0, lo, hi);
            lemma_share_sum_split(s, 0, hi, n);
        } else {
            lemma_share_sum_clip(s, lo, hi);
            if lo <= n {
                lemma_share_sum_split(s, 0, lo, n);
            }
        }
    }
}

/// Two lists that agree on their first `n` payments come to the same there.
pub proof fn lemma_total_upto_same(a: Seq<Payment>, b: Seq<Payment>, n: int)
    requires
        n <= a.len(),
        n <= b.len(),
        forall|i: int| 0 <= i < n ==> a[i] == b[i],
    ensures
        total_upto(a, n) == total_upto(b, n),
    decreases n,
{
    if n > 0 {
        lemma_total_upto_same(a, b, n - 1);
    }
}

/// One more payment adds its amount.
pub proof fn lemma_total_push(a: Seq<Payment>, p: Payment)
    ensures
        total(a.push(p)) == total(a) + p.amount,
{
    lemma_total_upto_same(a, a.push(p), a.len() as int);
}

/// Two lists in a row come to the sum of both.
pub proof fn lemma_total_concat(a: Seq<Payment>, b: Seq<Payment>)
    ensures
        total(a + b) == total(a) + total(b),
    decreases b.len(),
{
    if b.len() == 0 {
        assert(a + b =~= a);
    } else {
        lemma_total_concat(a, b.drop_last());
        assert(a + b =~= (a + b.drop_last()).push(b.last()));
        assert(b =~= b.drop_last().push(b.last()));
        lemma_total_push(a + b.drop_last(), b.last());
        lemma_total_push(b.drop_last(), b.last());
    }
}

/// `n` payments of one amount come to `n` times the amount.
pub proof fn lemma_total_uniform(ps: Seq<Payment>, amount: u64, n: int)
    requires
        0 <= n <= ps.len(),
        forall|i: int| 0 <= i < n ==> ps[i].amount == amount,
    ensures
        total_upto(ps, n) == n * amount,
    decreases n,
{
    if n > 0 {
        lemma_total_uniform(ps, amount, n - 1);
        assert((n - 1) * amount + amount == n * amount) by (nonlinear_arith);
    } else {
        assert(n * amount == 0) by (nonlinear_arith)
            requires
                n == 0,
        ;
    }
}

/// What was paid grows with the payments looked at and never exceeds what
/// they come to.
pub proof fn lemma_paid_upto_bounds(ps: Seq<Payment>, ok: Seq<bool>, i: int, j: int)
    requires
        i <= j,
    ensures
        paid_upto(ps, ok, i) <= paid_upto(ps, ok, j) <= total_upto(ps, j),
    decreases j,
{
    if j > 0 {
        if i < j {
            lemma_paid_upto_bounds(ps, ok, i, j - 1);
        } else {
            lemma_paid_upto_bounds(ps, ok, i - 1, j - 1);
        }
    }
}

/// The leading places with votes end in front of the first place without.
pub proof fn lemma_voted_prefix(r: Seq<Tally>, i: int)
    requires
        0 <= i <= r.len(),
    ensures
        i <= voted_prefix(r, i) <= r.len(),
        forall|k: int| i <= k < voted_prefix(r, i) ==> r[k].votes > 0,
        voted_prefix(r, i) < r.len() ==> r[voted_prefix(r, i)].votes == 0,
    decreases r.len() - i,
{
    if i < r.len() && r[i].votes != 0 {
        lemma_voted_prefix(r, i + 1);
    }
}

/// Where the tie group that begins at `start` ends.
fn group_end_at(r: &Vec<Tally>, start: usize) -> (end: usize)
    requires
        start < r.len(),
    ensures
        end == group_end(r@, start as int, start + 1),
        start < end <= r.len(),
{
    let mut end: usize = start + 1;
    while end < r.len() && r[end].votes == r[start].votes
        invariant
            start < end <= r.len(),
            group_end(r@, start as int, start + 1) == group_end(r@, start as int, end as int),
        decreases r.len() - end,
    {
        end += 1;
    }
    end
}

/// The percentages of the places `lo..hi`, added up.
fn pooled_share(sched: &Vec<u32>, lo: usize, hi: usize) -> (sum: u64)
    requires
        schedule_ok(sched@),
        lo <= hi,
    ensures
        sum == share_sum(sched@, lo as int, hi as int),
        sum <= 100,
{
    let mut sum: u64 = 0;
    let mut j: usize = lo;
    while j < hi
        invariant
            lo <= j <= hi,
            schedule_ok(sched@),
            sum == share_sum(sched@, lo as int, j as int),
            sum <= 100,
        decreases hi - j,
    {
        proof {
            lemma_share_sum_bound(sched@, lo as int, j + 1);
        }
        if j < sched.len() {
            sum += sched[j] as u64;
        }
        j += 1;
    }
    sum
}

/// `percent` hundredths of `pot`, rounded down.
fn portion(pot: u64, percent: u64) -> (amount: u64)
    requires
        percent <= 100,
    ensures
        amount == share_of(pot, percent as nat),
        amount <= pot,
{
    assert(pot * percent <= pot * 100 && pot * percent / 100 <= pot) by (nonlinear_arith)
        requires
            percent <= 100,
    ;
    let wide: u128 = (pot as u128) * (percent as u128);
    (wide / 100) as u64
}

/// The payments of the first round for the ranking `r`, in the order in
/// which they are to be attempted.
pub fn primary_payments(r: &Vec<Tally>, sched: &Vec<u32>, pot: u64) -> (out: Vec<Payment>)
    requires
        schedule_ok(sched@),
    ensures
        out@ == primary_from(r@, sched@, pot, 0),
{
    let mut out: Vec<Payment> = Vec::new();
    let mut start: usize = 0;
    let ghost mut rest = primary_from(r@, sched@, pot, 0);
    while start < r.len()
        invariant
            start <= r.len(),
            schedule_ok(sched@),
            primary_from(r@, sched@, pot, 0) =~= out@ + rest,
            start < r.len() ==> rest == primary_from(r@, sched@, pot, start as int),
            start >= r.len() ==> rest =~= Seq::<Payment>::empty(),
        decreases r.len() - start,
    {
        if r[start].votes == 0 {
            start = r.len();
        } else {
            let end = group_end_at(r, start);
            let combined = pooled_share(sched, start, end);
            if combined == 0 {
                start = r.len();
            } else {
                let each = portion(pot, combined / ((end - start) as u64));
                let ghost before = out@;
                let mut k: usize = start;
                while each > 0 && k < end
                    invariant
                        start <= k <= end <= r.len(),
                        out@ =~= before + group_payments(r@, start as int, k as int, each as nat),
                    decreases end - k,
                {
                    out.push(
                        Payment {
                            recipient: r[k].address.clone(),
                            artist: r[k].artist.clone(),
                            amount: each,
                        },
                    );
                    k += 1;
                }
                assert(out@ =~= before + group_payments(
                    r@,
                    start as int,
                    end as int,
                    each as nat,
                ));
                if end >= sched.len() {
                    start = r.len();
                    proof {
                        rest = Seq::empty();
                    }
                } else {
                    start = end;
                    proof {
                        rest = primary_from(r@, sched@, pot, end as int);
                    }
                }
            }
        }
    }
    out
}

/// The payments of the second round, in the order in which they are to be
/// attempted.
pub fn leftover_payments(r: &Vec<Tally>, sched: &Vec<u32>, leftover: u64) -> (out: Vec<Payment>)
    requires
        schedule_ok(sched@),
    ensures
        out@ == leftover_plan(r@, sched@, leftover),
{
    let mut n: usize = 0;
    while n < r.len() && n < sched.len() && r[n].votes > 0
        invariant
            n <= r.len(),
            n <= sched.len(),
            voted_prefix(r@, 0) == voted_prefix(r@, n as int),
        decreases r.len() - n,
    {
        n += 1;
    }
    proof {
        lemma_voted_prefix(r@, n as int);
    }
    assert(n == winners_count(r@, sched@));
    let total_share = pooled_share(sched, 0, n);
    let mut out: Vec<Payment> = Vec::new();
    if leftover == 0 || total_share == 0 {
        return out;
    }
    let mut i: usize = 0;
    while i < n
        invariant
            i <= n <= r.len(),
            n <= sched.len(),
            0 < total_share <= 100,
            total_share == share_sum(sched@, 0, n as int),
            out@ == leftover_upto(r@, sched@, leftover, total_share as nat, i as int),
        decreases n - i,
    {
        let percent = sched[i];
        proof {
            lemma_share_sum_split(sched@, 0, i + 1, n as int);
            assert(leftover * percent <= leftover * 100 && leftover * percent / (
            total_share as int) <= leftover) by (nonlinear_arith)
                requires
                    0 < total_share <= 100,
                    percent <= total_share,
            ;
        }
        let wide: u128 = (leftover as u128) * (percent as u128);
        let part = (wide / (total_share as u128)) as u64;
        if part > 0 {
            out.push(
                Payment {
                    recipient: r[i].address.clone(),
                    artist: r[i].artist.clone(),
                    amount: part,
                },
            );
        }
        i += 1;
    }
    out
}

/// What the payments came to, counting those whose transfer succeeded.
/// `ok[i]` tells of payment `i`; one without an outcome counts as failed.
pub fn paid_amount(ps: &Vec<Payment>, ok: &Vec<bool>) -> (sum: u64)
    requires
        total(ps@) <= u64::MAX,
    ensures
        sum == paid(ps@, ok@),
{
    let mut sum: u64 = 0;
    let mut i: usize = 0;
    while i < ps.len()
        invariant
            i <= ps.len(),
            total(ps@) <= u64::MAX,
            sum == paid_upto(ps@, ok@, i as int),
        decreases ps.len() - i,
    {
        proof {
            lemma_paid_upto_bounds(ps@, ok@, i + 1, ps.len() as int);
        }
        if i < ok.len() && ok[i] {
            sum += ps[i].amount;
        }
        i += 1;
    }
    sum
}

/// The first round never hands out more than the percentages it used: a
/// hundred times its total is at most the pot times the schedule from
/// `start` on.
pub proof fn lemma_primary_within(r: Seq<Tally>, sched: Seq<u32>, pot: u64, start: int)
    requires
        schedule_ok(sched),
        0 <= start,
    ensures
        total(primary_from(r, sched, pot, start)) * 100 <= pot * share_sum(
            sched,
            start,
            sched.len() as int,
        ),
    decreases r.len() - start,
{
    let m = sched.len() as int;
    assert(pot * share_sum(sched, start, m) >= 0) by (nonlinear_arith);
    if start < r.len() && r[start].votes != 0 {
        let end = group_end(r, start, start + 1);
        let combined = share_sum(sched, start, end);
        lemma_group_end(r, start, start + 1);
        lemma_share_sum_bound(sched, start, end);
        if combined != 0 {
            let k = (end - start) as nat;
            let per = combined / k;
            let each = share_of(pot, per);
            let group = group_payments(r, start, end, each);
            assert(per <= 100 && k * per <= combined) by (nonlinear_arith)
                requires
                    per == combined / k,
                    k > 0,
                    combined <= 100,
            ;
            assert(each <= pot && each * 100 <= pot * per) by (nonlinear_arith)
                requires
                    each == pot as nat * per / 100,
                    per <= 100,
            ;
            if each > 0 {
                lemma_total_uniform(group, each as u64, k as int);
            }
            assert(total(group) == k * each) by (nonlinear_arith)
                requires
                    each > 0 ==> total(group) == k * each,
                    each == 0 ==> total(group) == 0,
            ;
            assert(total(group) * 100 <= pot * combined) by (nonlinear_arith)
                requires
                    total(group) == k * each,
                    each * 100 <= pot * per,
                    k * per <= combined,
            ;
            if end >= m {
                lemma_share_sum_clip(sched, start, end);
            } else {
                let rest = primary_from(r, sched, pot, end);
                lemma_primary_within(r, sched, pot, end);
                lemma_total_concat(group, rest);
                lemma_share_sum_split(sched, start, end, m);
                assert((total(group) + total(rest)) * 100 <= pot * share_sum(sched, start, m))
                    by (nonlinear_arith)
                    requires
                        total(group) * 100 <= pot * combined,
                        total(rest) * 100 <= pot * share_sum(sched, end, m),
                        share_sum(sched, start, m) == combined + share_sum(sched, end, m),
                ;
            }
        }
    }
}

/// The first round pays out at most the pot.
pub proof fn lemma_primary_total(r: Seq<Tally>, sched: Seq<u32>, pot: u64)
    requires
        schedule_ok(sched),
    ensures
        total(primary_from(r, sched, pot, 0)) <= pot,
{
    lemma_primary_within(r, sched, pot, 0);
    let t = total(primary_from(r, sched, pot, 0));
    let s = share_sum(sched, 0, sched.len() as int);
    assert(t <= pot) by (nonlinear_arith)
        requires
            t * 100 <= pot * s,
            s <= 100,
    ;
}

/// The second round up to place `n` hands out no more than the places'
/// part of the leftover.
pub proof fn lemma_leftover_within(
    r: Seq<Tally>,
    sched: Seq<u32>,
    leftover: u64,
    total_share: nat,
    n: int,
    count: int,
)
    requires
        0 <= n <= count <= sched.len(),
        total_share == share_sum(sched, 0, count),
        total_share > 0,
    ensures
        total(leftover_upto(r, sched, leftover, total_share, n)) * total_share <= leftover
            * share_sum(sched, 0, n),
    decreases n,
{
    if n > 0 {
        let before = leftover_upto(r, sched, leftover, total_share, n - 1);
        let percent = sched[n - 1];
        let part = leftover_share(leftover, percent, total_share);
        lemma_leftover_within(r, sched, leftover, total_share, n - 1, count);
        lemma_share_sum_split(sched, 0, n, count);
        assert(part <= leftover && part * total_share <= leftover * percent) by (nonlinear_arith)
            requires
                part == leftover as nat * percent as nat / total_share,
                percent <= total_share,
                total_share > 0,
        ;
        let now = leftover_upto(r, sched, leftover, total_share, n);
        if part > 0 {
            lemma_total_push(before, now.last());
        }
        assert(total(now) == total(before) + part);
        assert(total(now) * total_share <= leftover * share_sum(sched, 0, n)) by (nonlinear_arith)
            requires
                total(now) == total(before) + part,
                total(before) * total_share <= leftover * share_sum(sched, 0, n - 1),
                part * total_share <= leftover * percent,
                share_sum(sched, 0, n) == share_sum(sched, 0, n - 1) + percent,
        ;
    } else {
        assert(0 * total_share <= leftover * share_sum(sched, 0, n)) by (nonlinear_arith)
            requires
                share_sum(sched, 0, n) == 0,
        ;
    }
}

/// The second round pays out at most the leftover.
pub proof fn lemma_leftover_total(r: Seq<Tally>, sched: Seq<u32>, leftover: u64)
    ensures
        total(leftover_plan(r, sched, leftover)) <= leftover,
{
    let n = winners_count(r, sched);
    let total_share = share_sum(sched, 0, n);
    lemma_voted_prefix(r, 0);
    if leftover != 0 && total_share != 0 {
        lemma_leftover_within(r, sched, leftover, total_share, n, n);
        let t = total(leftover_plan(r, sched, leftover));
        assert(t <= leftover) by (nonlinear_arith)
            requires
                t * total_share <= leftover * total_share,
                total_share > 0,
        ;
    }
}

/// Whether `p` goes to a place of the ranking that holds votes.
pub open spec fn pays_voted(r: Seq<Tally>, p: Payment) -> bool {
    exists|i: int|
        0 <= i < r.len() && (#[trigger] r[i]).votes > 0 && p.recipient == r[i].address && p.artist
            == r[i].artist
}

/// Whether every payment goes to a place of the ranking that holds votes.
pub open spec fn all_pay_voted(r: Seq<Tally>, ps: Seq<Payment>) -> bool {
    forall|k: int| 0 <= k < ps.len() ==> pays_voted(r, #[trigger] ps[k])
}

/// An artist without votes gets nothing in the first round.
pub proof fn lemma_primary_pays_voted(r: Seq<Tally>, sched: Seq<u32>, pot: u64, start: int)
    requires
        0 <= start,
    ensures
        all_pay_voted(r, primary_from(r, sched, pot, start)),
    decreases r.len() - start,
{
    if start < r.len() && r[start].votes != 0 {
        let end = group_end(r, start, start + 1);
        let combined = share_sum(sched, start, end);
        lemma_group_end(r, start, start + 1);
        if combined != 0 {
            let each = share_of(pot, combined / ((end - start) as nat));
            let group = group_payments(r, start, end, each);
            assert forall|k: int| 0 <= k < group.len() implies pays_voted(r, #[trigger] group[k]) by {
                let i = start + k;
                assert(r[i].votes > 0 && group[k].recipient == r[i].address && group[k].artist
                    == r[i].artist);
            }
            if end < sched.len() {
                let rest = primary_from(r, sched, pot, end);
                lemma_primary_pays_voted(r, sched, pot, end);
                let both = group + rest;
                assert forall|k: int| 0 <= k < both.len() implies pays_voted(
                    r,
                    #[trigger] both[k],
                ) by {
                    if k < group.len() {
                        assert(both[k] == group[k]);
                    } else {
                        assert(both[k] == rest[k - group.len()]);
                    }
                }
            }
        }
    }
}

/// An artist without votes gets nothing in the second round.
pub proof fn lemma_leftover_pays_voted(
    r: Seq<Tally>,
    sched: Seq<u32>,
    leftover: u64,
    total_share: nat,
    n: int,
)
    requires
        0 <= n <= winners_count(r, sched),
    ensures
        all_pay_voted(r, leftover_upto(r, sched, leftover, total_share, n)),
    decreases n,
{
    if n > 0 {
        let before = leftover_upto(r, sched, leftover, total_share, n - 1);
        let now = leftover_upto(r, sched, leftover, total_share, n);
        lemma_leftover_pays_voted(r, sched, leftover, total_share, n - 1);
        lemma_voted_prefix(r, 0);
        assert forall|k: int| 0 <= k < now.len() implies pays_voted(r, #[trigger] now[k]) by {
            if k < before.len() {
                assert(now[k] == before[k]);
            } else {
                let i = n - 1;
                assert(r[i].votes > 0 && now[k].recipient == r[i].address && now[k].artist
                    == r[i].artist);
            }
        }
    }
}

} // verus!
