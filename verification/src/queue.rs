//! The command queue: enqueueing commands, listing pending and
//! recently-completed commands per client, and reconciling result updates
//! against pending entries.

use vstd::prelude::*;

use crate::model::Command;
use crate::model::CommandView;
use crate::model::Config;

verus! {

/// Default retention window for `get_commands_done_for_ip`, in seconds: a
/// completed command is surfaced for this long after its creation time.
pub const DONE_WINDOW_SECS: i64 = 1800;

/// Whether `c` is a pending command of the client `ip`.
pub open spec fn is_pending_for(c: CommandView, ip: Seq<char>) -> bool {
    c.ip == ip && c.output is None
}

/// The pending commands of `ip`, in insertion order: exactly the subsequence
/// of `cmds` whose entries satisfy `is_pending_for`.
pub open spec fn pending_for(cmds: Seq<CommandView>, ip: Seq<char>) -> Seq<CommandView>
    decreases cmds.len(),
{
    if cmds.len() == 0 {
        Seq::empty()
    } else {
        let prior = pending_for(cmds.drop_last(), ip);
        if is_pending_for(cmds.last(), ip) {
            prior.push(cmds.last())
        } else {
            prior
        }
    }
}

/// Whether `c` is a completed command of `ip` that is still within the
/// retention window at `now`, measured from its creation time.
pub open spec fn is_done_within(c: CommandView, ip: Seq<char>, now: i64, window: i64) -> bool {
    c.ip == ip && c.output is Some && now - c.date <= window
}

/// The completed commands of `ip` still within the window, in storage order.
pub open spec fn done_for(cmds: Seq<CommandView>, ip: Seq<char>, now: i64, window: i64) -> Seq<
    CommandView,
>
    decreases cmds.len(),
{
    if cmds.len() == 0 {
        Seq::empty()
    } else {
        let prior = done_for(cmds.drop_last(), ip, now, window);
        if is_done_within(cmds.last(), ip, now, window) {
            prior.push(cmds.last())
        } else {
            prior
        }
    }
}

/// The command list after enqueueing `text` for `ip` at `now`: a fresh
/// pending command is appended and nothing else changes.
pub open spec fn enqueued(cmds: Seq<CommandView>, ip: Seq<char>, text: Seq<char>, now: i64) -> Seq<
    CommandView,
> {
    cmds.push(CommandView { ip: ip, command: text, date: now, output: None })
}

/// Whether `c` is a pending command of `ip` that a result update carrying
/// creation time `date` and command text `text` matches.
pub open spec fn is_update_match(c: CommandView, ip: Seq<char>, date: i64, text: Seq<char>) -> bool {
    c.ip == ip && c.output is None && c.date == date && c.command == text
}

/// First index at or after `i` of a pending command of `ip` matching
/// (`date`, `text`); -1 if there is none.
pub open spec fn match_idx_from(
    cmds: Seq<CommandView>,
    ip: Seq<char>,
    date: i64,
    text: Seq<char>,
    i: int,
) -> int
    decreases cmds.len() - i,
{
    if i < 0 || i >= cmds.len() {
        -1
    } else if is_update_match(cmds[i], ip, date, text) {
        i
    } else {
        match_idx_from(cmds, ip, date, text, i + 1)
    }
}

/// First index of a pending command of `ip` matching (`date`, `text`); -1 if
/// there is none.
pub open spec fn match_idx(cmds: Seq<CommandView>, ip: Seq<char>, date: i64, text: Seq<char>) -> int {
    match_idx_from(cmds, ip, date, text, 0)
}

/// The command list after one result update `u`: the first matching pending
/// command of `ip` takes over the update's output; with no match nothing
/// changes. A completion is the only transition, and it happens at most once
/// per command, since a matched entry must still be pending.
pub open spec fn reconcile_one(cmds: Seq<CommandView>, ip: Seq<char>, u: CommandView) -> Seq<
    CommandView,
> {
    let k = match_idx(cmds, ip, u.date, u.command);
    if k == -1 {
        cmds
    } else {
        cmds.update(
            k,
            CommandView {
                ip: cmds[k].ip,
                command: cmds[k].command,
                date: cmds[k].date,
                output: u.output,
            },
        )
    }
}

/// The command list after a whole batch of result updates, applied one by one
/// in batch order, best-effort: an update without a match is skipped.
pub open spec fn reconciled(cmds: Seq<CommandView>, ip: Seq<char>, ups: Seq<CommandView>) -> Seq<
    CommandView,
>
    decreases ups.len(),
{
    if ups.len() == 0 {
        cmds
    } else {
        reconcile_one(reconciled(cmds, ip, ups.drop_last()), ip, ups.last())
    }
}

/// The updates of a batch that found no matching pending command at the
/// moment they were processed, in batch order.
pub open spec fn mismatched(cmds: Seq<CommandView>, ip: Seq<char>, ups: Seq<CommandView>) -> Seq<
    CommandView,
>
    decreases ups.len(),
{
    if ups.len() == 0 {
        Seq::empty()
    } else {
        let prior = mismatched(cmds, ip, ups.drop_last());
        let cur = reconciled(cmds, ip, ups.drop_last());
        if match_idx(cur, ip, ups.last().date, ups.last().command) == -1 {
            prior.push(ups.last())
        } else {
            prior
        }
    }
}

/// What `match_idx_from` finds: either no entry at or after `i` matches, or
/// the result is the first matching index.
pub proof fn lemma_match_idx_from(
    cmds: Seq<CommandView>,
    ip: Seq<char>,
    date: i64,
    text: Seq<char>,
    i: int,
)
    requires
        0 <= i <= cmds.len(),
    ensures
        ({
            let r = match_idx_from(cmds, ip, date, text, i);
            &&& r == -1 ==> forall|j: int|
                i <= j < cmds.len() ==> !is_update_match(#[trigger] cmds[j], ip, date, text)
            &&& r != -1 ==> i <= r < cmds.len() && is_update_match(cmds[r], ip, date, text) && (
            forall|j: int| i <= j < r ==> !is_update_match(#[trigger] cmds[j], ip, date, text))
        }),
    decreases cmds.len() - i,
{
    if i < cmds.len() && !is_update_match(cmds[i], ip, date, text) {
        lemma_match_idx_from(cmds, ip, date, text, i + 1);
    }
}

/// Enqueue: append a fresh pending command for `ip` with text `command`,
/// created at `now`. The client list is untouched.
pub fn add_command_for_ip(config: &mut Config, ip: String, command: String, now: i64)
    ensures
        final(config).commands.deep_view() == enqueued(
            old(config).commands.deep_view(),
            ip.deep_view(),
            command.deep_view(),
            now,
        ),
        final(config).clients == old(config).clients,
{
    let ghost cmds0 = config.commands.deep_view();
    let ghost ipv = ip.deep_view();
    let ghost textv = command.deep_view();
    config.commands.push(Command { ip: ip, command: command, date: now, output: None });
    proof {
        assert(config.commands.deep_view() =~= enqueued(cmds0, ipv, textv, now));
    }
}

/// The pending commands of `ip`, in insertion order.
pub fn get_commands_queue_for_ip(config: &Config, ip: &String) -> (r: Vec<Command>)
    ensures
        r.deep_view() == pending_for(config.commands.deep_view(), ip.deep_view()),
{
    let ghost cmds = config.commands.deep_view();
    let ghost ipv = ip.deep_view();
    let mut r: Vec<Command> = Vec::new();
    let mut i: usize = 0;
    while i < config.commands.len()
        invariant
            0 <= i <= config.commands.len(),
            ipv == ip.deep_view(),
            cmds == config.commands.deep_view(),
            cmds.len() == config.commands.len(),
            r.deep_view() == pending_for(cmds.take(i as int), ipv),
        decreases config.commands.len() - i,
    {
        let c = &config.commands[i];
        if c.output.is_none() && c.ip.eq(ip) {
            r.push(c.clone());
        }
        proof {
            assert(cmds.take(i + 1).drop_last() =~= cmds.take(i as int));
            assert(cmds.take(i + 1).last() == cmds[i as int]);
            if is_pending_for(cmds[i as int], ipv) {
                assert(r.deep_view() =~= pending_for(cmds.take(i as int), ipv).push(
                    cmds[i as int],
                ));
            }
        }
        i += 1;
    }
    proof {
        assert(cmds.take(cmds.len() as int) =~= cmds);
    }
    r
}

/// The completed commands of `ip` still within `window` seconds of `now`,
/// measured from each command's creation time, in storage order.
pub fn get_commands_done_for_ip(config: &Config, ip: &String, now: i64, window: i64) -> (r: Vec<
    Command,
>)
    ensures
        r.deep_view() == done_for(config.commands.deep_view(), ip.deep_view(), now, window),
{
    let ghost cmds = config.commands.deep_view();
    let ghost ipv = ip.deep_view();
    let mut r: Vec<Command> = Vec::new();
    let mut i: usize = 0;
    while i < config.commands.len()
        invariant
            0 <= i <= config.commands.len(),
            ipv == ip.deep_view(),
            cmds == config.commands.deep_view(),
            cmds.len() == config.commands.len(),
            r.deep_view() == done_for(cmds.take(i as int), ipv, now, window),
        decreases config.commands.len() - i,
    {
        let c = &config.commands[i];
        if c.output.is_some() && c.ip.eq(ip) && (now as i128) - (c.date as i128) <= (
        window as i128) {
            r.push(c.clone());
        }
        proof {
            assert(cmds.take(i + 1).drop_last() =~= cmds.take(i as int));
            assert(cmds.take(i + 1).last() == cmds[i as int]);
            if is_done_within(cmds[i as int], ipv, now, window) {
                assert(r.deep_view() =~= done_for(cmds.take(i as int), ipv, now, window).push(
                    cmds[i as int],
                ));
            }
        }
        i += 1;
    }
    proof {
        assert(cmds.take(cmds.len() as int) =~= cmds);
    }
    r
}

/// First position of a pending command of `ip` that a result update carrying
/// (`date`, `text`) matches.
fn find_update_match(commands: &Vec<Command>, ip: &String, date: i64, text: &String) -> (r: Option<
    usize,
>)
    ensures
        ({
            let k = match_idx(commands.deep_view(), ip.deep_view(), date, text.deep_view());
            match r {
                Some(j) => k == j as int,
                None => k == -1,
            }
        }),
{
    let ghost cmds = commands.deep_view();
    let ghost ipv = ip.deep_view();
    let ghost textv = text.deep_view();
    let mut j: usize = 0;
    while j < commands.len()
        invariant
            0 <= j <= commands.len(),
            ipv == ip.deep_view(),
            textv == text.deep_view(),
            cmds == commands.deep_view(),
            cmds.len() == commands.len(),
            match_idx(cmds, ipv, date, textv) == match_idx_from(cmds, ipv, date, textv, j as int),
        decreases commands.len() - j,
    {
        let c = &commands[j];
        if c.output.is_none() && c.ip.eq(ip) && c.date == date && c.command.eq(text) {
            return Some(j);
        }
        proof {
            assert(!is_update_match(cmds[j as int], ipv, date, textv));
        }
        j += 1;
    }
    None
}

/// Reconcile a batch of result updates for `ip`, best-effort: each update
/// completes the first pending command it matches; one without a match is
/// skipped and handed back for reporting, without stopping the rest of the
/// batch. The client list is untouched.
pub fn update_commands_for_ip(config: &mut Config, ip: &String, command_updates: &Vec<Command>) -> (misses: Vec<Command>)
    ensures
        final(config).commands.deep_view() == reconciled(
            old(config).commands.deep_view(),
            ip.deep_view(),
            command_updates.deep_view(),
        ),
        final(config).clients == old(config).clients,
        misses.deep_view() == mismatched(
            old(config).commands.deep_view(),
            ip.deep_view(),
            command_updates.deep_view(),
        ),
{
    let ghost cmds0 = old(config).commands.deep_view();
    let ghost ipv = ip.deep_view();
    let ghost upsv = command_updates.deep_view();
    let mut misses: Vec<Command> = Vec::new();
    let mut u: usize = 0;
    while u < command_updates.len()
        invariant
            0 <= u <= command_updates.len(),
            ipv == ip.deep_view(),
            upsv == command_updates.deep_view(),
            upsv.len() == command_updates.len(),
            cmds0 == old(config).commands.deep_view(),
            config.clients == old(config).clients,
            config.commands.deep_view() == reconciled(cmds0, ipv, upsv.take(u as int)),
            misses.deep_view() == mismatched(cmds0, ipv, upsv.take(u as int)),
        decreases command_updates.len() - u,
    {
        let ghost cur = config.commands.deep_view();
        let upd = &command_updates[u];
        proof {
            assert(upd.deep_view() == upsv[u as int]);
        }
        match find_update_match(&config.commands, ip, upd.date, &upd.command) {
            Some(j) => {
                proof {
                    lemma_match_idx_from(cur, ipv, upd.date, upd.command.deep_view(), 0);
                }
                config.commands[j].output = match &upd.output {
                    Some(s) => Some(s.clone()),
                    None => None,
                };
                proof {
                    assert(config.commands.deep_view() =~= reconcile_one(
                        cur,
                        ipv,
                        upsv[u as int],
                    ));
                }
            },
            None => {
                misses.push(upd.clone());
                proof {
                    assert(config.commands.deep_view() == reconcile_one(cur, ipv, upsv[u as int]));
                    assert(misses.deep_view() =~= mismatched(cmds0, ipv, upsv.take(u as int)).push(
                        upsv[u as int],
                    ));
                }
            },
        }
        proof {
            assert(upsv.take(u + 1).drop_last() =~= upsv.take(u as int));
            assert(upsv.take(u + 1).last() == upsv[u as int]);
        }
        u += 1;
    }
    proof {
        assert(upsv.take(upsv.len() as int) =~= upsv);
    }
    misses
}

} // verus!
