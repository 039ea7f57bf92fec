//! Laws of the store: proved statements that relate the queue and presence
//! operations to one another, beyond each function's own contract.

use vstd::prelude::*;

use crate::model::ClientView;
use crate::model::CommandView;
use crate::presence::is_recent;
use crate::presence::recent_clients;
use crate::queue::done_for;
use crate::queue::enqueued;
use crate::queue::is_done_within;
use crate::queue::is_pending_for;
use crate::queue::is_update_match;
use crate::queue::lemma_match_idx_from;
use crate::queue::match_idx;
use crate::queue::pending_for;
use crate::queue::reconcile_one;
use crate::queue::reconciled;

verus! {

/// Law: the pending list for `ip` holds exactly the commands of `cmds` that
/// belong to `ip` and have no output — every entry of it is such a command,
/// and every such command appears in it. It never holds a command of another
/// client.
pub proof fn lemma_pending_exact(cmds: Seq<CommandView>, ip: Seq<char>)
    ensures
        forall|q: int|
            0 <= q < pending_for(cmds, ip).len() ==> is_pending_for(
                #[trigger] pending_for(cmds, ip)[q],
                ip,
            ),
        forall|q: int|
            0 <= q < pending_for(cmds, ip).len() ==> cmds.contains(
                #[trigger] pending_for(cmds, ip)[q],
            ),
        forall|i: int|
            0 <= i < cmds.len() && is_pending_for(#[trigger] cmds[i], ip) ==> pending_for(
                cmds,
                ip,
            ).contains(cmds[i]),
    decreases cmds.len(),
{
    if cmds.len() > 0 {
        let prior = pending_for(cmds.drop_last(), ip);
        let p = pending_for(cmds, ip);
        lemma_pending_exact(cmds.drop_last(), ip);
        assert forall|q: int| 0 <= q < p.len() implies cmds.contains(p[q]) by {
            if q < prior.len() {
                let w = choose|w: int|
                    0 <= w < cmds.drop_last().len() && cmds.drop_last()[w] == prior[q];
                assert(cmds[w] == p[q]);
            } else {
                assert(cmds[cmds.len() - 1] == p[q]);
            }
        }
        assert forall|i: int| 0 <= i < cmds.len() && is_pending_for(cmds[i], ip) implies p.contains(
            cmds[i],
        ) by {
            if i < cmds.len() - 1 {
                assert(cmds.drop_last()[i] == cmds[i]);
                let w = choose|w: int| 0 <= w < prior.len() && prior[w] == cmds[i];
                assert(p[w] == cmds[i]);
            } else {
                assert(p[p.len() - 1] == cmds[i]);
            }
        }
    }
}

/// Law: the done list for `ip` holds exactly the commands of `cmds` that
/// belong to `ip`, carry an output, and are still within the retention
/// window measured from their creation time.
pub proof fn lemma_done_exact(cmds: Seq<CommandView>, ip: Seq<char>, now: i64, window: i64)
    ensures
        forall|q: int|
            0 <= q < done_for(cmds, ip, now, window).len() ==> is_done_within(
                #[trigger] done_for(cmds, ip, now, window)[q],
                ip,
                now,
                window,
            ),
        forall|q: int|
            0 <= q < done_for(cmds, ip, now, window).len() ==> cmds.contains(
                #[trigger] done_for(cmds, ip, now, window)[q],
            ),
        forall|i: int|
            0 <= i < cmds.len() && is_done_within(#[trigger] cmds[i], ip, now, window) ==> done_for(
                cmds,
                ip,
                now,
                window,
            ).contains(cmds[i]),
    decreases cmds.len(),
{
    if cmds.len() > 0 {
        let prior = done_for(cmds.drop_last(), ip, now, window);
        let p = done_for(cmds, ip, now, window);
        lemma_done_exact(cmds.drop_last(), ip, now, window);
        assert forall|q: int| 0 <= q < p.len() implies cmds.contains(p[q]) by {
            if q < prior.len() {
                let w = choose|w: int|
                    0 <= w < cmds.drop_last().len() && cmds.drop_last()[w] == prior[q];
                assert(cmds[w] == p[q]);
            } else {
                assert(cmds[cmds.len() - 1] == p[q]);
            }
        }
        assert forall|i: int|
            0 <= i < cmds.len() && is_done_within(cmds[i], ip, now, window) implies p.contains(
            cmds[i],
        ) by {
            if i < cmds.len() - 1 {
                assert(cmds.drop_last()[i] == cmds[i]);
                let w = choose|w: int| 0 <= w < prior.len() && prior[w] == cmds[i];
                assert(p[w] == cmds[i]);
            } else {
                assert(p[p.len() - 1] == cmds[i]);
            }
        }
    }
}

/// Law: the recent list holds exactly the clients whose last-seen time lies
/// within the window of `now`; no client record is removed by listing.
pub proof fn lemma_recent_exact(cs: Seq<ClientView>, now: i64, window: i64)
    ensures
        forall|q: int|
            0 <= q < recent_clients(cs, now, window).len() ==> is_recent(
                #[trigger] recent_clients(cs, now, window)[q],
                now,
                window,
            ),
        forall|q: int|
            0 <= q < recent_clients(cs, now, window).len() ==> cs.contains(
                #[trigger] recent_clients(cs, now, window)[q],
            ),
        forall|i: int|
            0 <= i < cs.len() && is_recent(#[trigger] cs[i], now, window) ==> recent_clients(
                cs,
                now,
                window,
            ).contains(cs[i]),
    decreases cs.len(),
{
    if cs.len() > 0 {
        let prior = recent_clients(cs.drop_last(), now, window);
        let p = recent_clients(cs, now, window);
        lemma_recent_exact(cs.drop_last(), now, window);
        assert forall|q: int| 0 <= q < p.len() implies cs.contains(p[q]) by {
            if q < prior.len() {
                let w = choose|w: int|
                    0 <= w < cs.drop_last().len() && cs.drop_last()[w] == prior[q];
                assert(cs[w] == p[q]);
            } else {
                assert(cs[cs.len() - 1] == p[q]);
            }
        }
        assert forall|i: int| 0 <= i < cs.len() && is_recent(cs[i], now, window) implies p.contains(
            cs[i],
        ) by {
            if i < cs.len() - 1 {
                assert(cs.drop_last()[i] == cs[i]);
                let w = choose|w: int| 0 <= w < prior.len() && prior[w] == cs[i];
                assert(p[w] == cs[i]);
            } else {
                assert(p[p.len() - 1] == cs[i]);
            }
        }
    }
}

/// Law: enqueueing a command and then listing the pending commands of that
/// client yields the old pending list with exactly the fresh command
/// appended, its output absent.
pub proof fn lemma_enqueue_then_pending(
    cmds: Seq<CommandView>,
    ip: Seq<char>,
    text: Seq<char>,
    now: i64,
)
    ensures
        pending_for(enqueued(cmds, ip, text, now), ip) == pending_for(cmds, ip).push(
            CommandView { ip: ip, command: text, date: now, output: None },
        ),
{
    assert(enqueued(cmds, ip, text, now).drop_last() =~= cmds);
}

/// Law: enqueueing a command whose text is not yet pending for the client
/// makes the pending list carry that text exactly once, with output absent.
pub proof fn lemma_enqueue_new_text_once(
    cmds: Seq<CommandView>,
    ip: Seq<char>,
    text: Seq<char>,
    now: i64,
)
    requires
        forall|q: int|
            0 <= q < pending_for(cmds, ip).len() ==> (#[trigger] pending_for(cmds, ip)[q]).command
                != text,
    ensures
        ({
            let p = pending_for(enqueued(cmds, ip, text, now), ip);
            &&& 0 < p.len()
            &&& p.last() == CommandView { ip: ip, command: text, date: now, output: None }
            &&& forall|q: int| 0 <= q < p.len() - 1 ==> (#[trigger] p[q]).command != text
        }),
{
    lemma_enqueue_then_pending(cmds, ip, text, now);
}

/// Law: a result update that matches exactly one pending command completes
/// it — afterwards no pending command of that client carries the update's
/// creation time and text, and the done list within the retention window
/// carries the command with the reported output.
pub proof fn lemma_reconcile_completes(
    cmds: Seq<CommandView>,
    ip: Seq<char>,
    k: int,
    text: Seq<char>,
    t: i64,
    out: Seq<char>,
    now: i64,
    window: i64,
)
    requires
        0 <= k < cmds.len(),
        is_update_match(cmds[k], ip, t, text),
        forall|j: int|
            0 <= j < cmds.len() && j != k ==> !is_update_match(#[trigger] cmds[j], ip, t, text),
        now - t <= window,
    ensures
        ({
            let done = CommandView { ip: ip, command: text, date: t, output: Some(out) };
            let after = reconcile_one(cmds, ip, done);
            &&& after == cmds.update(k, done)
            &&& forall|q: int|
                0 <= q < pending_for(after, ip).len() ==> !((#[trigger] pending_for(after, ip)[q]).date
                    == t && pending_for(after, ip)[q].command == text)
            &&& done_for(after, ip, now, window).contains(done)
        }),
{
    let done = CommandView { ip: ip, command: text, date: t, output: Some(out) };
    let after = reconcile_one(cmds, ip, done);
    lemma_match_idx_from(cmds, ip, t, text, 0);
    let r = match_idx(cmds, ip, t, text);
    assert(r == k);
    assert(after =~= cmds.update(k, done));
    lemma_pending_exact(after, ip);
    let p = pending_for(after, ip);
    assert forall|q: int| 0 <= q < p.len() implies !(p[q].date == t && p[q].command == text) by {
        if p[q].date == t && p[q].command == text {
            assert(after.contains(p[q]));
            let i = choose|i: int| 0 <= i < after.len() && after[i] == p[q];
            assert(is_update_match(after[i], ip, t, text));
            if i != k {
                assert(after[i] == cmds[i]);
            }
        }
    }
    lemma_done_exact(after, ip, now, window);
    assert(is_done_within(after[k], ip, now, window));
}

/// Law: a result update with no matching pending command leaves the command
/// list unchanged, and the rest of its batch still applies exactly as if the
/// update had not been sent.
pub proof fn lemma_reconcile_mismatch_skipped(
    cmds: Seq<CommandView>,
    ip: Seq<char>,
    ups: Seq<CommandView>,
)
    requires
        0 < ups.len(),
        forall|j: int|
            0 <= j < cmds.len() ==> !is_update_match(
                #[trigger] cmds[j],
                ip,
                ups[0].date,
                ups[0].command,
            ),
    ensures
        reconcile_one(cmds, ip, ups[0]) == cmds,
        reconciled(cmds, ip, ups) == reconciled(cmds, ip, ups.drop_first()),
    decreases ups.len(),
{
    lemma_match_idx_from(cmds, ip, ups[0].date, ups[0].command, 0);
    assert(match_idx(cmds, ip, ups[0].date, ups[0].command) == -1);
    if ups.len() == 1 {
        assert(ups.drop_last().len() == 0);
        assert(reconciled(cmds, ip, ups.drop_last()) == cmds);
        assert(ups.last() == ups[0]);
        assert(reconciled(cmds, ip, ups) == reconcile_one(cmds, ip, ups[0]));
        assert(ups.drop_first().len() == 0);
        assert(reconciled(cmds, ip, ups.drop_first()) == cmds);
    } else {
        let head = ups.drop_last();
        let tail = ups.drop_first();
        assert(head[0] == ups[0]);
        lemma_reconcile_mismatch_skipped(cmds, ip, head);
        assert(head.drop_first() =~= tail.drop_last());
        assert(tail.last() == ups.last());
        assert(reconciled(cmds, ip, ups) == reconcile_one(
            reconciled(cmds, ip, head.drop_first()),
            ip,
            ups.last(),
        ));
        assert(reconciled(cmds, ip, tail) == reconcile_one(
            reconciled(cmds, ip, tail.drop_last()),
            ip,
            tail.last(),
        ));
    }
}

/// Law: two enqueues applied in sequence to the same snapshot both persist —
/// every command already stored is kept in place, and the list ends with the
/// two fresh pending commands in order. Neither enqueue is lost.
pub proof fn lemma_two_enqueues_both_persist(
    cmds: Seq<CommandView>,
    ip1: Seq<char>,
    text1: Seq<char>,
    t1: i64,
    ip2: Seq<char>,
    text2: Seq<char>,
    t2: i64,
)
    ensures
        ({
            let after = enqueued(enqueued(cmds, ip1, text1, t1), ip2, text2, t2);
            &&& after.len() == cmds.len() + 2
            &&& forall|i: int| 0 <= i < cmds.len() ==> after[i] == cmds[i]
            &&& after[cmds.len() as int] == CommandView {
                ip: ip1,
                command: text1,
                date: t1,
                output: None,
            }
            &&& after[cmds.len() as int + 1] == CommandView {
                ip: ip2,
                command: text2,
                date: t2,
                output: None,
            }
        }),
{
}

} // verus!
