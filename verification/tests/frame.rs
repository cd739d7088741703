use battletris::frame::{read_frame, BotState, Frame};

#[test]
fn a_challenge_names_the_challenger() {
    match read_frame(r#"{"type":"challenged","from":"alice"}"#) {
        Frame::Challenged { from } => assert_eq!(from, "alice"),
        other => panic!("unexpected {other:?}"),
    }
    match read_frame(r#"{"type":"challenged"}"#) {
        Frame::Challenged { from } => assert_eq!(from, ""),
        other => panic!("unexpected {other:?}"),
    }
}

#[test]
fn a_match_start_reads_seed_opponent_and_rating_with_defaults() {
    match read_frame(r#"{"type":"matchStart","seed":77,"opponent":"bob","opp_elo":1450}"#) {
        Frame::MatchStart { seed, opponent, opp_elo } => {
            assert_eq!((seed, opponent.as_str(), opp_elo), (77, "bob", 1450));
        }
        other => panic!("unexpected {other:?}"),
    }
    match read_frame(r#"{"type":"matchStart"}"#) {
        Frame::MatchStart { seed, opponent, opp_elo } => {
            assert_eq!((seed, opponent.as_str(), opp_elo), (0, "?", 1000));
        }
        other => panic!("unexpected {other:?}"),
    }
}

#[test]
fn a_roster_keeps_named_players() {
    let text = r#"{"type":"players","players":[{"name":"a","status":"available","bot":true},{"status":"available"},{"name":"c","status":"playing"}]}"#;
    match read_frame(text) {
        Frame::Players(Some(l)) => {
            assert_eq!(l.len(), 2);
            assert_eq!((l[0].name.as_str(), l[0].available, l[0].bot), ("a", true, true));
            assert_eq!((l[1].name.as_str(), l[1].available, l[1].bot), ("c", false, false));
        }
        other => panic!("unexpected {other:?}"),
    }
    assert!(matches!(read_frame(r#"{"type":"players"}"#), Frame::Players(None)));
}

#[test]
fn garbage_and_unknown_frames_are_other() {
    assert!(matches!(read_frame("not json"), Frame::Other));
    assert!(matches!(read_frame(r#"{"type":"chat"}"#), Frame::Other));
    assert!(matches!(read_frame(r#"[1,2]"#), Frame::Other));
}

#[test]
fn a_snapshot_updates_the_bout() {
    let text = r#"{"type":"snapshot","ack":9,"result":0,"you":{"in_bazaar":true},"opp":{"in_bazaar":false},"keyframe":[1,2,300,"x"],"spy_board":[-2,5,5]}"#;
    let snap = match read_frame(text) {
        Frame::Snapshot(s) => s,
        other => panic!("unexpected {other:?}"),
    };
    assert_eq!(snap.ack, Some(9));
    assert!(snap.you_bazaar && !snap.opp_bazaar);
    assert_eq!(snap.keyframe, Some(vec![1, 2, 44]));
    assert_eq!(snap.spy_board, Some(vec![-2, 5, 5]));
    let mut st = BotState::new();
    st.idle_ticks = 40;
    st.bazaar_bought = true;
    st.on_snapshot(&snap, 1, 3, 300);
    assert_eq!(st.idle_ticks, 0);
    assert_eq!(st.acked, 9);
    assert!(!st.done);
    assert!(st.in_bazaar && st.bazaar_bought);
    assert_eq!(st.spy_fresh, 300);
    assert!(st.opp_high);

    let later = match read_frame(r#"{"type":"snapshot","result":1}"#) {
        Frame::Snapshot(s) => s,
        other => panic!("unexpected {other:?}"),
    };
    st.on_snapshot(&later, 1, 3, 300);
    assert_eq!(st.acked, 9, "no ack keeps the last one");
    assert!(st.done);
    assert!(!st.in_bazaar && !st.bazaar_bought);
    assert!(st.opp_high, "no spy board keeps the reading");
}
