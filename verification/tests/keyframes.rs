use battletris::wire::{words_from_bytes, words_to_bytes};
use battletris::cell::Cell;
use battletris::keyframe::{Keyframe, Score};
use battletris::piece::{Piece, PieceKind};
use battletris::weapons::WeaponToken;

fn sample() -> Keyframe {
    let mut frame = [0i32; 22];
    for (i, f) in frame.iter_mut().enumerate() {
        *f = i as i32 * 3 - 7;
    }
    frame[13] = 1;
    let mut piece = Piece::construct(PieceKind::Wall, 4, -2, 1);
    piece.cells[7][7] = Some(Cell::die(6));
    let mut board = vec![0i32; 10 * 28 * 4];
    board[0] = 3;
    board[1] = 1;
    Keyframe {
        frame,
        score: Score { score: 5, op_score: -6, lines: 7, op_lines: 8, funds: 900, op_funds: 10 },
        rng: u64::MAX - 3,
        keep_bits: [0x3FE0_0000_0000_0000; 19],
        hap_on: 2,
        broken: true,
        old_piece: 13,
        counts: [1; 34],
        remaining: [4; 34],
        arsenal: [-1; 20],
        piece: Some(piece),
        pending: vec![WeaponToken::Bottle, WeaponToken::Gimp],
        board,
        board_active: [0; 34],
        board_upside: true,
        board_computer: false,
        board_idiot: true,
        board_reason: 2,
    }
}

#[test]
fn keyframe_words_read_back_exactly() {
    let k = sample();
    let words = k.encode();
    assert_eq!(words[0], 1);
    let back = Keyframe::decode(&words, 10 * 28 * 4).expect("well formed");
    assert_eq!(back.encode(), words);
    assert_eq!(back.score, k.score);
    assert_eq!(back.rng, k.rng);
    assert_eq!(back.pending, k.pending);
    assert_eq!(back.piece.unwrap().cells, k.piece.unwrap().cells);
}

#[test]
fn keyframe_without_a_piece_reads_back() {
    let mut k = sample();
    k.piece = None;
    let words = k.encode();
    assert_eq!(words.len(), 141 + 1 + 2 + 1120 + 38);
    let back = Keyframe::decode(&words, 1120).expect("well formed");
    assert!(back.piece.is_none());
    assert_eq!(back.encode(), words);
}

#[test]
fn malformed_keyframes_are_rejected() {
    let words = sample().encode();
    assert!(Keyframe::decode(&[], 1120).is_none());
    assert!(Keyframe::decode(&words[..words.len() - 1], 1120).is_none());
    let mut wrong_ver = words.clone();
    wrong_ver[0] = 999;
    assert!(Keyframe::decode(&wrong_ver, 1120).is_none());
    let mut trailing = words.clone();
    trailing.push(123);
    assert!(Keyframe::decode(&trailing, 1120).is_none());
    let mut bad_phase = words.clone();
    bad_phase[14] = 3;
    assert!(Keyframe::decode(&bad_phase, 1120).is_none());
    let mut bad_rot = words.clone();
    bad_rot[145] = 5;
    assert!(Keyframe::decode(&bad_rot, 1120).is_none());
    assert!(Keyframe::decode(&words, 1000).is_none());
}

#[test]
fn nonzero_flags_read_as_set() {
    let mut words = sample().encode();
    words[50] = 7;
    let back = Keyframe::decode(&words, 1120).expect("well formed");
    assert!(back.broken);
}

#[test]
fn words_go_on_the_wire_little_endian() {
    let bytes = words_to_bytes(&[1, -1, 0x0102_0304_0506_0708]);
    assert_eq!(bytes.len(), 24);
    assert_eq!(&bytes[0..8], &[1, 0, 0, 0, 0, 0, 0, 0]);
    assert_eq!(&bytes[8..16], &[255; 8]);
    assert_eq!(&bytes[16..24], &[8, 7, 6, 5, 4, 3, 2, 1]);
}

#[test]
fn wire_bytes_read_back_as_the_words() {
    let words = vec![0, 7, -7, i64::MAX, i64::MIN, 1 << 40];
    assert_eq!(words_from_bytes(&words_to_bytes(&words)), Some(words));
    assert_eq!(words_from_bytes(&[]), Some(Vec::new()));
    assert_eq!(words_from_bytes(&[1, 2, 3]), None);
    assert_eq!(words_from_bytes(&[0x10, 0, 0, 0, 0, 0, 0, 0x80]), Some(vec![i64::MIN + 0x10]));
}
