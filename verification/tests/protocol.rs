//! Tests of the ping/pong protocol handlers: token checking and the
//! end-to-end poll/report exchange.

use remote_core::add_command_for_ip;
use remote_core::get_commands_done_for_ip;
use remote_core::get_commands_queue_for_ip;
use remote_core::is_token_valid;
use remote_core::ping;
use remote_core::ping_now;
use remote_core::pong;
use remote_core::pong_now;
use remote_core::Command;
use remote_core::Config;
use remote_core::Ping;
use remote_core::Pong;
use remote_core::DONE_WINDOW_SECS;

fn empty_config() -> Config {
    Config { clients: Vec::new(), commands: Vec::new() }
}

#[test]
fn token_check_is_exact_match() {
    assert!(is_token_valid(&"secret".to_string(), &"secret".to_string()));
    assert!(!is_token_valid(&"Secret".to_string(), &"secret".to_string()));
    assert!(!is_token_valid(&"".to_string(), &"secret".to_string()));
}

#[test]
fn unauthorized_ping_mutates_nothing() {
    let mut config = empty_config();
    let ip = "10.0.0.5".to_string();
    let token = "expected".to_string();
    let req = Ping { token: "wrong".to_string() };
    let r = ping(&mut config, &ip, &req, &token, 100);
    assert!(r.is_err());
    assert!(config.clients.is_empty());
    assert!(config.commands.is_empty());
}

#[test]
fn unauthorized_pong_mutates_nothing() {
    let mut config = empty_config();
    let ip = "10.0.0.5".to_string();
    let token = "expected".to_string();
    add_command_for_ip(&mut config, ip.clone(), "ls".to_string(), 50);
    let update = Command {
        ip: ip.clone(),
        command: "ls".to_string(),
        date: 50,
        output: Some("a\n".to_string()),
    };
    let req = Pong { token: "wrong".to_string(), commands: vec![update] };
    let r = pong(&mut config, &ip, &req, &token, 100);
    assert!(r.is_err());
    assert!(config.clients.is_empty());
    assert!(config.commands[0].output.is_none());
}

#[test]
fn ping_touches_client_and_returns_pending() {
    let mut config = empty_config();
    let ip = "10.0.0.5".to_string();
    let token = "secret".to_string();
    add_command_for_ip(&mut config, ip.clone(), "echo hi".to_string(), 200);

    let r = ping(&mut config, &ip, &Ping { token: token.clone() }, &token, 250);
    let pending = r.expect("valid token");
    assert_eq!(pending.len(), 1);
    assert_eq!(pending[0].command, "echo hi");
    assert_eq!(config.clients.len(), 1);
    assert_eq!(config.clients[0].ip, ip);
    assert_eq!(config.clients[0].date, 250);
}

#[test]
fn repeated_ping_returns_same_pending_list() {
    let mut config = empty_config();
    let ip = "10.0.0.5".to_string();
    let token = "secret".to_string();
    add_command_for_ip(&mut config, ip.clone(), "echo hi".to_string(), 200);

    let first = ping(&mut config, &ip, &Ping { token: token.clone() }, &token, 210).unwrap();
    let second = ping(&mut config, &ip, &Ping { token: token.clone() }, &token, 220).unwrap();
    assert_eq!(first.len(), 1);
    assert_eq!(second.len(), 1);
    assert_eq!(first[0].command, second[0].command);
    assert_eq!(first[0].date, second[0].date);
}

#[test]
fn end_to_end_ping_enqueue_ping_pong() {
    let mut config = empty_config();
    let ip = "10.0.0.5".to_string();
    let token = "secret".to_string();

    let first = ping(&mut config, &ip, &Ping { token: token.clone() }, &token, 1000).unwrap();
    assert!(first.is_empty());

    add_command_for_ip(&mut config, ip.clone(), "echo hi".to_string(), 1005);

    let second = ping(&mut config, &ip, &Ping { token: token.clone() }, &token, 1010).unwrap();
    assert_eq!(second.len(), 1);
    assert_eq!(second[0].ip, ip);
    assert_eq!(second[0].command, "echo hi");
    assert!(second[0].output.is_none());

    let mut report = second;
    report[0].output = Some("hi\n".to_string());
    let misses = pong(
        &mut config,
        &ip,
        &Pong { token: token.clone(), commands: report },
        &token,
        1020,
    )
    .unwrap();
    assert!(misses.is_empty());

    let third = ping(&mut config, &ip, &Ping { token: token.clone() }, &token, 1030).unwrap();
    assert!(third.is_empty());
    let done = get_commands_done_for_ip(&config, &ip, 1030, DONE_WINDOW_SECS);
    assert_eq!(done.len(), 1);
    assert_eq!(done[0].output.as_deref(), Some("hi\n"));
}

#[test]
fn ping_now_touches_client_at_wall_clock_time() {
    let mut config = empty_config();
    let ip = "10.0.0.9".to_string();
    let token = "secret".to_string();
    let r = ping_now(&mut config, &ip, &Ping { token: token.clone() }, &token);
    assert!(r.unwrap().is_empty());
    assert_eq!(config.clients.len(), 1);
    assert_eq!(config.clients[0].ip, ip);
    assert!(config.clients[0].date > 0);
}

#[test]
fn pong_now_reconciles_reported_results() {
    let mut config = empty_config();
    let ip = "10.0.0.9".to_string();
    let token = "secret".to_string();
    add_command_for_ip(&mut config, ip.clone(), "hostname".to_string(), 100);
    let update = Command {
        ip: ip.clone(),
        command: "hostname".to_string(),
        date: 100,
        output: Some("box\n".to_string()),
    };
    let misses = pong_now(
        &mut config,
        &ip,
        &Pong { token: token.clone(), commands: vec![update] },
        &token,
    )
    .unwrap();
    assert!(misses.is_empty());
    assert!(get_commands_queue_for_ip(&config, &ip).is_empty());
    assert_eq!(config.commands[0].output.as_deref(), Some("box\n"));
}

#[test]
fn pong_reports_unmatched_updates() {
    let mut config = empty_config();
    let ip = "10.0.0.5".to_string();
    let token = "secret".to_string();
    let stray = Command {
        ip: ip.clone(),
        command: "ghost".to_string(),
        date: 5,
        output: Some("boo".to_string()),
    };
    let misses = pong(
        &mut config,
        &ip,
        &Pong { token: token.clone(), commands: vec![stray] },
        &token,
        10,
    )
    .unwrap();
    assert_eq!(misses.len(), 1);
    assert_eq!(misses[0].command, "ghost");
    assert_eq!(config.clients.len(), 1);
    assert!(config.commands.is_empty());
}
