//! The ping/pong polling protocol: token-checked handlers that compose
//! presence tracking and the command queue. A ping fetches the caller's
//! pending commands and signals liveness; a pong reports results.

use vstd::prelude::*;

use crate::clock;
use crate::model::Command;
use crate::model::Config;
use crate::model::Ping;
use crate::model::Pong;
use crate::presence::add_or_update_client;
use crate::presence::touched;
use crate::queue::get_commands_queue_for_ip;
use crate::queue::mismatched;
use crate::queue::pending_for;
use crate::queue::reconciled;
use crate::queue::update_commands_for_ip;

verus! {

/// A rejected request: the supplied token did not match the configured
/// shared secret. No state is mutated on this outcome.
#[derive(Clone, Copy, PartialEq, Eq, Structural, Debug)]
pub struct AuthError;

/// Whether `token` matches the configured shared secret exactly.
pub fn is_token_valid(token: &String, expected: &String) -> (r: bool)
    ensures
        r == (token@ == expected@),
{
    token.eq(expected)
}

/// Ping from `ip` at time `now`: with a valid token, bump the client's
/// last-seen time and hand back its pending commands; with an invalid one,
/// reject and change nothing. Polling again before any pong returns the same
/// pending list: nothing marks a command as dispatched.
pub fn ping(config: &mut Config, ip: &String, req: &Ping, expected_token: &String, now: i64) -> (r:
    Result<Vec<Command>, AuthError>)
    ensures
        req.token@ != expected_token@ ==> r is Err && *final(config) == *old(config),
        req.token@ == expected_token@ ==> {
            &&& r is Ok
            &&& r->Ok_0.deep_view() == pending_for(
                old(config).commands.deep_view(),
                ip.deep_view(),
            )
            &&& final(config).clients.deep_view() == touched(
                old(config).clients.deep_view(),
                ip.deep_view(),
                now,
            )
            &&& final(config).commands == old(config).commands
        },
{
    if !is_token_valid(&req.token, expected_token) {
        return Err(AuthError);
    }
    let cmds = get_commands_queue_for_ip(config, ip);
    add_or_update_client(config, ip, now);
    Ok(cmds)
}

/// Pong from `ip` at time `now`: with a valid token, bump the client's
/// last-seen time, reconcile the reported results against its pending
/// commands, and hand back the updates that found no match; with an invalid
/// token, reject and change nothing.
pub fn pong(config: &mut Config, ip: &String, req: &Pong, expected_token: &String, now: i64) -> (r:
    Result<Vec<Command>, AuthError>)
    ensures
        req.token@ != expected_token@ ==> r is Err && *final(config) == *old(config),
        req.token@ == expected_token@ ==> {
            &&& r is Ok
            &&& r->Ok_0.deep_view() == mismatched(
                old(config).commands.deep_view(),
                ip.deep_view(),
                req.commands.deep_view(),
            )
            &&& final(config).clients.deep_view() == touched(
                old(config).clients.deep_view(),
                ip.deep_view(),
                now,
            )
            &&& final(config).commands.deep_view() == reconciled(
                old(config).commands.deep_view(),
                ip.deep_view(),
                req.commands.deep_view(),
            )
        },
{
    if !is_token_valid(&req.token, expected_token) {
        return Err(AuthError);
    }
    add_or_update_client(config, ip, now);
    let misses = update_commands_for_ip(config, ip, &req.commands);
    Ok(misses)
}

/// Ping at the current wall-clock time: whatever instant the clock hands
/// back, the outcome is that of `ping` at that instant.
pub fn ping_now(config: &mut Config, ip: &String, req: &Ping, expected_token: &String) -> (r:
    Result<Vec<Command>, AuthError>)
    ensures
        req.token@ != expected_token@ ==> r is Err && *final(config) == *old(config),
        req.token@ == expected_token@ ==> {
            &&& r is Ok
            &&& r->Ok_0.deep_view() == pending_for(
                old(config).commands.deep_view(),
                ip.deep_view(),
            )
            &&& exists|now: i64|
                final(config).clients.deep_view() == touched(
                    old(config).clients.deep_view(),
                    ip.deep_view(),
                    now,
                )
            &&& final(config).commands == old(config).commands
        },
{
    let now = clock::now_timestamp();
    ping(config, ip, req, expected_token, now)
}

/// Pong at the current wall-clock time: whatever instant the clock hands
/// back, the outcome is that of `pong` at that instant.
pub fn pong_now(config: &mut Config, ip: &String, req: &Pong, expected_token: &String) -> (r:
    Result<Vec<Command>, AuthError>)
    ensures
        req.token@ != expected_token@ ==> r is Err && *final(config) == *old(config),
        req.token@ == expected_token@ ==> {
            &&& r is Ok
            &&& r->Ok_0.deep_view() == mismatched(
                old(config).commands.deep_view(),
                ip.deep_view(),
                req.commands.deep_view(),
            )
            &&& exists|now: i64|
                final(config).clients.deep_view() == touched(
                    old(config).clients.deep_view(),
                    ip.deep_view(),
                    now,
                )
            &&& final(config).commands.deep_view() == reconciled(
                old(config).commands.deep_view(),
                ip.deep_view(),
                req.commands.deep_view(),
            )
        },
{
    let now = clock::now_timestamp();
    pong(config, ip, req, expected_token, now)
}

} // verus!
