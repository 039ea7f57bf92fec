//! Presence tracking: upserting a client's last-seen time and listing the
//! clients seen within a freshness window.

use vstd::prelude::*;

use crate::model::Client;
use crate::model::ClientView;
use crate::model::Config;

verus! {

/// Default freshness window for `get_recent_clients`, in seconds.
pub const RECENT_WINDOW_SECS: i64 = 60;

/// Whether a client last seen at `c.date` still counts as recent at `now`.
pub open spec fn is_recent(c: ClientView, now: i64, window: i64) -> bool {
    now - c.date <= window
}

/// The clients recent at `now`, in storage order: exactly the subsequence of
/// `cs` whose entries satisfy `is_recent`.
pub open spec fn recent_clients(cs: Seq<ClientView>, now: i64, window: i64) -> Seq<ClientView>
    decreases cs.len(),
{
    if cs.len() == 0 {
        Seq::empty()
    } else {
        let prior = recent_clients(cs.drop_last(), now, window);
        if is_recent(cs.last(), now, window) {
            prior.push(cs.last())
        } else {
            prior
        }
    }
}

/// First index at or after `i` whose client has identity `ip`; -1 if none.
pub open spec fn client_idx_from(cs: Seq<ClientView>, ip: Seq<char>, i: int) -> int
    decreases cs.len() - i,
{
    if i < 0 || i >= cs.len() {
        -1
    } else if cs[i].ip == ip {
        i
    } else {
        client_idx_from(cs, ip, i + 1)
    }
}

/// First index whose client has identity `ip`; -1 if none.
pub open spec fn client_idx(cs: Seq<ClientView>, ip: Seq<char>) -> int {
    client_idx_from(cs, ip, 0)
}

/// The client list after an upsert of `ip` at `now`: the first record with
/// that identity gets its last-seen time set to `now`; if there is none, a
/// fresh record is appended. No record is ever removed.
pub open spec fn touched(cs: Seq<ClientView>, ip: Seq<char>, now: i64) -> Seq<ClientView> {
    let k = client_idx(cs, ip);
    if k == -1 {
        cs.push(ClientView { ip: ip, date: now })
    } else {
        cs.update(k, ClientView { ip: cs[k].ip, date: now })
    }
}

/// What `client_idx_from` finds: either no entry at or after `i` has identity
/// `ip`, or the result is the first such index.
pub proof fn lemma_client_idx_from(cs: Seq<ClientView>, ip: Seq<char>, i: int)
    requires
        0 <= i <= cs.len(),
    ensures
        ({
            let r = client_idx_from(cs, ip, i);
            &&& r == -1 ==> forall|j: int| i <= j < cs.len() ==> cs[j].ip != ip
            &&& r != -1 ==> i <= r < cs.len() && cs[r].ip == ip && (forall|j: int|
                i <= j < r ==> cs[j].ip != ip)
        }),
    decreases cs.len() - i,
{
    if i < cs.len() && cs[i].ip != ip {
        lemma_client_idx_from(cs, ip, i + 1);
    }
}

/// One client record per identity: no two entries share an ip.
pub open spec fn clients_unique(cs: Seq<ClientView>) -> bool {
    forall|i: int, j: int| 0 <= i < j < cs.len() ==> (#[trigger] cs[i]).ip != (#[trigger] cs[j]).ip
}

/// Law: an upsert keeps the client list free of duplicate identities — a
/// record is only appended when no record with that ip exists yet.
pub proof fn lemma_touched_preserves_unique(cs: Seq<ClientView>, ip: Seq<char>, now: i64)
    requires
        clients_unique(cs),
    ensures
        clients_unique(touched(cs, ip, now)),
{
    lemma_client_idx_from(cs, ip, 0);
}

/// Upsert: bump the last-seen time of the client with identity `ip`, or add a
/// fresh record for it. The command list is untouched.
pub fn add_or_update_client(config: &mut Config, ip: &String, now: i64)
    ensures
        final(config).clients.deep_view() == touched(
            old(config).clients.deep_view(),
            ip.deep_view(),
            now,
        ),
        final(config).commands == old(config).commands,
{
    let ghost cs = old(config).clients.deep_view();
    let ghost ipv = ip.deep_view();
    let mut i: usize = 0;
    while i < config.clients.len()
        invariant
            0 <= i <= config.clients.len(),
            *config == *old(config),
            ipv == ip.deep_view(),
            cs == config.clients.deep_view(),
            cs.len() == config.clients.len(),
            client_idx(cs, ipv) == client_idx_from(cs, ipv, i as int),
        decreases config.clients.len() - i,
    {
        let hit = config.clients[i].ip.eq(ip);
        proof {
            assert(hit == (cs[i as int].ip == ipv));
        }
        if hit {
            proof {
                lemma_client_idx_from(cs, ipv, 0);
            }
            config.clients[i].date = now;
            proof {
                assert(config.clients.deep_view() =~= touched(cs, ipv, now));
            }
            return;
        }
        i += 1;
    }
    proof {
        lemma_client_idx_from(cs, ipv, 0);
    }
    config.clients.push(Client { ip: ip.clone(), date: now });
    proof {
        assert(config.clients.deep_view() =~= touched(cs, ipv, now));
    }
}

/// The clients seen within `window` seconds of `now`, in storage order.
pub fn get_recent_clients(config: &Config, now: i64, window: i64) -> (r: Vec<Client>)
    ensures
        r.deep_view() == recent_clients(config.clients.deep_view(), now, window),
{
    let ghost cs = config.clients.deep_view();
    let mut r: Vec<Client> = Vec::new();
    let mut i: usize = 0;
    while i < config.clients.len()
        invariant
            0 <= i <= config.clients.len(),
            cs == config.clients.deep_view(),
            cs.len() == config.clients.len(),
            r.deep_view() == recent_clients(cs.take(i as int), now, window),
        decreases config.clients.len() - i,
    {
        let c = &config.clients[i];
        if (now as i128) - (c.date as i128) <= (window as i128) {
            r.push(c.clone());
        }
        proof {
            assert(cs.take(i + 1).drop_last() =~= cs.take(i as int));
            assert(cs.take(i + 1).last() == cs[i as int]);
            if is_recent(cs[i as int], now, window) {
                assert(r.deep_view() =~= recent_clients(cs.take(i as int), now, window).push(
                    cs[i as int],
                ));
            }
        }
        i += 1;
    }
    proof {
        assert(cs.take(cs.len() as int) =~= cs);
    }
    r
}

} // verus!
