use kvm_common::{ReplayError, ReplayWindow};

#[test]
fn test_replay_window_out_of_order_and_too_old() {
    let mut window = ReplayWindow::new();

    // Initial packet 10
    assert!(window.check_and_update(10).is_ok());

    // Replay of 10
    assert_eq!(window.check_and_update(10), Err(ReplayError::Replayed));

    // Advance to 15
    assert!(window.check_and_update(15).is_ok());

    // Out-of-order arrivals within window: 12, 14, 11
    assert!(window.check_and_update(12).is_ok());
    assert!(window.check_and_update(14).is_ok());
    assert!(window.check_and_update(11).is_ok());

    // Replays of out-of-order packets
    assert_eq!(window.check_and_update(12), Err(ReplayError::Replayed));
    assert_eq!(window.check_and_update(14), Err(ReplayError::Replayed));

    // Jump ahead by 150
    assert!(window.check_and_update(165).is_ok());

    // Packet 13 was never received, but now is too old (> 128 packets behind 165)
    assert_eq!(window.check_and_update(13), Err(ReplayError::TooOld));

    // Packet 164 is within window
    assert!(window.check_and_update(164).is_ok());
    assert_eq!(window.check_and_update(164), Err(ReplayError::Replayed));
}

#[test]
fn window_edges() {
    let mut w = ReplayWindow::default();
    assert!(w.check_and_update(1000).is_ok());
    // 127 below is the oldest number still inside the window.
    assert!(w.check_and_update(873).is_ok());
    assert_eq!(w.check_and_update(872), Err(ReplayError::TooOld));
    // Advancing by 127 keeps 1000 as seen; by 128 more it falls out.
    assert!(w.check_and_update(1127).is_ok());
    assert_eq!(w.check_and_update(1000), Err(ReplayError::Replayed));
    assert!(w.check_and_update(1255).is_ok());
    // A jump of 128 or more forgets the whole window.
    assert!(w.check_and_update(1128).is_ok());
    assert_eq!(w.check_and_update(1127), Err(ReplayError::TooOld));
    assert_eq!(w.check_and_update(1000), Err(ReplayError::TooOld));
    // The largest number works too.
    assert!(w.check_and_update(u64::MAX).is_ok());
    assert_eq!(w.check_and_update(u64::MAX), Err(ReplayError::Replayed));
}

#[test]
fn reset_forgets_everything() {
    let mut w = ReplayWindow::new();
    assert!(w.check_and_update(500).is_ok());
    w.reset();
    assert!(w.check_and_update(500).is_ok());
    assert!(w.check_and_update(3).is_err());
}

#[test]
fn accepted_numbers_are_never_accepted_again() {
    let mut w = ReplayWindow::new();
    let seqs: Vec<u64> = vec![5, 9, 7, 300, 299, 6, 420, 419, 300, 9];
    let mut accepted: Vec<u64> = Vec::new();
    for s in seqs {
        if w.check_and_update(s).is_ok() {
            assert!(!accepted.contains(&s));
            accepted.push(s);
        }
    }
    for s in accepted {
        assert!(w.check_and_update(s).is_err());
    }
}

#[test]
fn replay_messages() {
    assert_eq!(ReplayError::TooOld.message(), "Packet sequence number is too old");
    assert_eq!(ReplayError::Replayed.message(), "Packet sequence number already received (replay detected)");
}

/// The answer owed to `seq` by a window whose accepted numbers are `history`.
fn answer_from_history(history: &[u64], seq: u64) -> Result<(), ReplayError> {
    let highest = match history.iter().max() {
        None => return Ok(()),
        Some(&m) => m,
    };
    if seq > highest || (highest - seq < 128 && !history.contains(&seq)) {
        Ok(())
    } else if highest - seq >= 128 {
        Err(ReplayError::TooOld)
    } else {
        Err(ReplayError::Replayed)
    }
}

#[test]
fn window_answers_from_accepted_history() {
    let mut window = ReplayWindow::new();
    let mut history: Vec<u64> = Vec::new();
    let mut x: u64 = 12345;
    for _ in 0..3000 {
        x = x.wrapping_mul(6364136223846793005).wrapping_add(1442695040888963407);
        let seq = 1000 + (x >> 33) % 600;
        let expected = answer_from_history(&history, seq);
        let got = window.check_and_update(seq);
        assert_eq!(got, expected, "seq {}", seq);
        if got.is_ok() {
            history.push(seq);
        }
    }
    window.reset();
    history.clear();
    for seq in [5u64, 300, 173, 172, 300, 299, 5] {
        let expected = answer_from_history(&history, seq);
        let got = window.check_and_update(seq);
        assert_eq!(got, expected, "seq {}", seq);
        if got.is_ok() {
            history.push(seq);
        }
    }
}
