use lucky_chess::chess_move::{Move, MoveFlags};
use lucky_chess::params::EVAL_NONE;
use lucky_chess::square::Sq;
use lucky_chess::transposition::{TTEntry, TTFlag, TranspositionTable};

#[test]
fn test_store_and_probe() {
    let mut tt = TranspositionTable::new(1);
    let mov = Move::new(Sq::E2, Sq::E4, MoveFlags::DoublePawn);
    let entry = TTEntry::new(mov, 150, 140, 6, TTFlag::Exact);
    tt.store(0x1234_5678_9ABC_DEF0, entry, 2);

    let probed = tt
        .probe(0x1234_5678_9ABC_DEF0, 2)
        .expect("Entry must be found");
    assert_eq!(probed.value, 150);
    assert_eq!(probed.eval, 140);
    assert_eq!(probed.depth, 6);
    assert_eq!(probed.mov, mov);
    assert_eq!(probed.flag(), TTFlag::Exact);

    assert!(tt.probe(0x9999_8888, 2).is_none());
}

#[test]
fn test_mate_score_adjustment() {
    let mut tt = TranspositionTable::new(1);
    let mate_score = 29_500;
    let entry = TTEntry::new(Move::none(), mate_score, EVAL_NONE, 8, TTFlag::Exact);
    tt.store(0xCAFE_BABE, entry, 4);

    let entry_ply4 = tt.probe(0xCAFE_BABE, 4).unwrap();
    assert_eq!(entry_ply4.value, mate_score);

    let entry_ply2 = tt.probe(0xCAFE_BABE, 2).unwrap();
    assert_eq!(entry_ply2.value, mate_score + 2);
}

#[test]
fn test_move_and_eval_preservation() {
    let mut tt = TranspositionTable::new(1);
    let hash = 0xABCD_EF01_2345;
    let mov = Move::new(Sq::E2, Sq::E4, MoveFlags::DoublePawn);

    let entry1 = TTEntry::new(mov, 100, 35, 4, TTFlag::Exact);
    tt.store(hash, entry1, 0);
    let entry = tt.probe(hash, 0).unwrap();
    assert_eq!(entry.mov, mov);
    assert_eq!(entry.eval, 35);

    let entry2 = TTEntry::new(Move::none(), 80, EVAL_NONE, 5, TTFlag::UpperBound);
    tt.store(hash, entry2, 0);
    let entry = tt.probe(hash, 0).unwrap();
    assert_eq!(entry.mov, mov);
    assert_eq!(entry.eval, 35);
    assert_eq!(entry.depth, 5);
    assert_eq!(entry.flag(), TTFlag::UpperBound);
}

#[test]
fn test_hashfull_and_aging() {
    let mut tt = TranspositionTable::new(1);
    assert_eq!(tt.hashfull(), 0);

    let mov = Move::new(Sq::E2, Sq::E4, MoveFlags::DoublePawn);
    for i in 0..4000 {
        let entry = TTEntry::new(mov, 100, 50, 4, TTFlag::Exact);
        tt.store((i as u64).wrapping_mul(0x9E37_79B9_7F4A_7C15), entry, 0);
    }
    assert!(tt.hashfull() > 0);

    tt.new_search();
    assert_eq!(tt.hashfull(), 0);
}

#[test]
fn test_entry_packing_roundtrip() {
    let mov = Move::new(Sq::A1, Sq::H8, MoveFlags::Capture);
    let entry = TTEntry::new_with_age(mov, -1500, 320, 12, TTFlag::LowerBound, 42);
    let bits = entry.to_bits();
    let unpacked = TTEntry::from_bits(bits);

    assert_eq!(unpacked.mov, mov);
    assert_eq!(unpacked.value, -1500);
    assert_eq!(unpacked.eval, 320);
    assert_eq!(unpacked.depth, 12);
    assert_eq!(unpacked.flag(), TTFlag::LowerBound);
    assert_eq!(unpacked.age(), 42);
}
