use battletris::sync::{decide, BotAction, SyncState};

/// One bazaar visit against a model of the server: the local prediction enters
/// `lead` ticks before the server does, a leave sent before the server entered
/// is eaten, acks arrive `ack_latency` ticks after a send and keyframes bring
/// the local bazaar flag in line `kf_latency` ticks after entry. Ok once the
/// server has entered and left and the bot plays again.
fn run_bazaar_visit(
    decide_fn: impl Fn(&SyncState) -> BotAction,
    lead: u64,
    ack_latency: u64,
    kf_latency: u64,
) -> Result<(), String> {
    let mut seq: u64 = 3;
    let mut last_sent: u64 = seq;
    let mut bought = false;
    let mut acked: u64 = seq;
    let mut auth_baz = false;
    let mut local_baz = true;
    let mut server_entered = false;
    let mut server_left = false;
    let mut pending_leave: Option<(u64, bool)> = None;
    let mut last_send_tick: u64 = 0;
    const MAX_TICKS: u64 = 5_000;
    for tick in 0..MAX_TICKS {
        if tick >= lead && !server_entered {
            auth_baz = true;
            server_entered = true;
        }
        if tick >= last_send_tick + ack_latency {
            acked = last_sent;
        }
        if let Some((ls, effective)) = pending_leave {
            if acked >= ls && effective && auth_baz {
                auth_baz = false;
                server_left = true;
            }
        }
        if server_entered && tick >= lead + kf_latency {
            local_baz = auth_baz;
        }
        if !auth_baz {
            bought = false;
        }
        let action = decide_fn(&SyncState {
            done: false,
            idle_timed_out: false,
            acked,
            last_sent,
            auth_baz,
            opp_baz: false,
            local_baz,
            bought,
        });
        match action {
            BotAction::Play if server_entered && server_left => return Ok(()),
            BotAction::Play => {}
            BotAction::Shop => {
                if !auth_baz {
                    return Err(format!("HAZARD at tick {tick}: leave sent before the server entered the bazaar"));
                }
                seq += 4;
                last_sent = seq;
                pending_leave = Some((seq, true));
                bought = true;
                local_baz = false;
                last_send_tick = tick;
            }
            BotAction::WaitAck | BotAction::WaitBazaar => {}
            BotAction::End => return Err(format!("unexpected End at tick {tick}")),
        }
    }
    Err(format!(
        "FREEZE: the bazaar visit never resolved (entered={server_entered}, left={server_left}, lead={lead}, \
         ack_latency={ack_latency}, kf_latency={kf_latency})"
    ))
}

/// A policy that leaves on the local prediction alone (no server agreement).
fn decide_buggy_local_leave(s: &SyncState) -> BotAction {
    if s.done || s.idle_timed_out {
        BotAction::End
    } else if s.acked < s.last_sent {
        BotAction::WaitAck
    } else if s.local_baz && !s.bought {
        BotAction::Shop
    } else if s.auth_baz || s.opp_baz || s.local_baz {
        BotAction::WaitBazaar
    } else {
        BotAction::Play
    }
}

#[test]
fn p5_harness_has_teeth_buggy_policy_trips_hazard() {
    let r = run_bazaar_visit(decide_buggy_local_leave, 8, 4, 4);
    assert!(r.is_err(), "buggy local-leave policy slipped past the hazard guard; the model has no teeth");
}

#[test]
fn fresh_bout_with_high_seq_is_not_deadlocked() {
    let s = SyncState {
        done: false,
        idle_timed_out: false,
        acked: 0,
        last_sent: 0,
        auth_baz: false,
        opp_baz: false,
        local_baz: false,
        bought: false,
    };
    assert_eq!(decide(&s), BotAction::Play, "fresh bout must be free to act");
}

#[test]
fn the_bot_always_escapes_the_bazaar() {
    for lead in [0u64, 1, 7, 40, 119] {
        for ack_latency in [0u64, 1, 5, 60, 199] {
            for kf_latency in [0u64, 2, 30, 199] {
                let r = run_bazaar_visit(|s: &SyncState| decide(s), lead, ack_latency, kf_latency);
                assert!(r.is_ok(), "{}", r.unwrap_err());
            }
        }
    }
}
