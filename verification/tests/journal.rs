use vault_core::journal::{plan_replay, Journal, OpKind, Record, RecoveryAction, ReplayStep};

fn rec(op: OpKind) -> Record {
    Record { op, folder: "D/Photos".into(), container: "D/Photos.fvlt".into(), staging: "D/Photos.fvlt.tmp".into() }
}

#[test]
fn record_path_is_hex_uuid_in_journal_dir() {
    let j = Journal::new("C:/data/journal".into());
    let mut uuid = [0u8; 16];
    uuid[0] = 0xAB;
    uuid[15] = 0x01;
    assert_eq!(j.record_path(&uuid), "C:/data/journal/ab000000000000000000000000000001.jrec");
    let j2 = Journal::new("dir\\".into());
    assert_eq!(j2.record_path(&[0xFF; 16]), "dir\\ffffffffffffffffffffffffffffffff.jrec");
    assert_eq!(j2.dir(), "dir\\");
}

#[test]
fn staging_present_means_roll_back_only() {
    for (folder, container) in [(true, true), (true, false), (false, true), (false, false)] {
        assert_eq!(
            plan_replay(&rec(OpKind::Lock), true, folder, container),
            ReplayStep::RollBack {
                staging: "D/Photos.fvlt.tmp".into(),
                staging_is_dir: false,
                action: RecoveryAction::RolledBackLock("D/Photos.fvlt.tmp".into()),
            }
        );
        assert_eq!(
            plan_replay(&rec(OpKind::Unlock), true, folder, container),
            ReplayStep::RollBack {
                staging: "D/Photos.fvlt.tmp".into(),
                staging_is_dir: true,
                action: RecoveryAction::RolledBackUnlock("D/Photos.fvlt.tmp".into()),
            }
        );
    }
}

#[test]
fn both_copies_after_rename_finish_the_step() {
    assert_eq!(
        plan_replay(&rec(OpKind::Lock), false, true, true),
        ReplayStep::FinishLock {
            container: "D/Photos.fvlt".into(),
            folder: "D/Photos".into(),
            action: RecoveryAction::FinishedLock("D/Photos".into()),
        }
    );
    assert_eq!(
        plan_replay(&rec(OpKind::Unlock), false, true, true),
        ReplayStep::FinishUnlock {
            container: "D/Photos.fvlt".into(),
            action: RecoveryAction::FinishedUnlock("D/Photos.fvlt".into()),
        }
    );
}

#[test]
fn one_copy_left_means_nothing_to_do() {
    for op in [OpKind::Lock, OpKind::Unlock] {
        assert_eq!(plan_replay(&rec(op), false, true, false), ReplayStep::Nothing);
        assert_eq!(plan_replay(&rec(op), false, false, true), ReplayStep::Nothing);
        assert_eq!(plan_replay(&rec(op), false, false, false), ReplayStep::Nothing);
    }
}
