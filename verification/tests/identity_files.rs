use gitlawb_node::identity::heartbeat::{beat_next, beat_op, claim_heartbeat, BeatEvent, BeatPhase};
use gitlawb_node::identity::listing::{
    list_adoptable_quarantines, list_publish_markers, list_recovery_claimables,
    list_recovery_claims, list_sibling_quarantines, list_stale_files, DirEntry,
};
use gitlawb_node::identity::load::{is_key_content_error, is_missing_file, LoadError};
use gitlawb_node::identity::names::{
    claim_nonce, file_name, key_stem, publishing_prefix, quarantined_prefix, recovering_prefix,
    superseded_prefix, temp_prefix,
};
use gitlawb_node::identity::ops::{
    elapsed, FileRef, IoError, IoKind, KeyOp, Reply, CLAIM_BEAT, CLAIM_BEAT_GRANULE,
    CLAIM_SWEEP_MIN_AGE, KEY_TEMP_ATTEMPTS, SUPERSEDED_RETENTION,
};
use gitlawb_node::identity::report::octal_string;
use gitlawb_node::identity::supersede::{
    supersede_next, supersede_op, supersede_quarantine, SiblingPhase, SiblingSupersede,
    SupersedeEnd, SupersedeNext,
};
use gitlawb_node::identity::sweep::{remove_listed, Sweep, SweepPhase};

const NOW: i128 = 1_000_000_000_000_000_000;
const STEM: &str = "identity.pem";

fn entry(id: u64, name: &str, age: i128) -> DirEntry {
    DirEntry {
        id,
        name: Some(name.to_string()),
        modified: Some(NOW - age),
    }
}

fn io(kind: IoKind) -> IoError {
    IoError { kind, id: 0 }
}

#[test]
fn prefixes_tell_the_classes_apart() {
    let prefixes = [
        publishing_prefix(STEM),
        recovering_prefix(STEM),
        quarantined_prefix(STEM),
        superseded_prefix(STEM),
        temp_prefix(STEM),
    ];
    assert_eq!(prefixes[0], ".identity.pem.publishing.");
    assert_eq!(prefixes[1], ".identity.pem.recovering.");
    assert_eq!(prefixes[2], ".identity.pem.quarantined.");
    assert_eq!(prefixes[3], ".identity.pem.superseded.");
    assert_eq!(prefixes[4], ".identity.pem.tmp.");
    for a in &prefixes {
        assert_eq!(prefixes.iter().filter(|b| a.starts_with(b.as_str())).count(), 1);
    }
}

#[test]
fn files_are_named_by_process_and_number() {
    let name = |f| file_name(STEM, 12, 0xab, f);
    assert_eq!(name(FileRef::Final), Some("identity.pem".to_string()));
    assert_eq!(name(FileRef::Temp(3)), Some(".identity.pem.tmp.12.3".to_string()));
    assert_eq!(
        name(FileRef::Marker(0)),
        Some(".identity.pem.publishing.12.0".to_string())
    );
    assert_eq!(
        name(FileRef::Claim(10)),
        Some(".identity.pem.recovering.12.000000ab.10".to_string())
    );
    assert_eq!(
        name(FileRef::Quarantine(1)),
        Some(".identity.pem.quarantined.12.1".to_string())
    );
    assert_eq!(
        name(FileRef::Superseded(1)),
        Some(".identity.pem.superseded.12.1".to_string())
    );
    assert_eq!(name(FileRef::Listed(1)), None);
    assert_ne!(name(FileRef::Temp(1)), name(FileRef::Temp(2)));
    assert_ne!(
        file_name(STEM, 12, 1, FileRef::Claim(0)),
        file_name(STEM, 12, 2, FileRef::Claim(0))
    );
    assert_eq!(key_stem(Some("k".to_string())), "k");
    assert_eq!(key_stem(None), "identity.pem");
}

#[test]
fn nonces_mix_the_time_and_an_address() {
    assert_eq!(claim_nonce(0, 0), 0);
    assert_eq!(claim_nonce(0x1111_2222_3333_4444, 0x0000_0000_0000_0001), 0x2222_6667);
    assert_eq!(claim_nonce(5, 5), 0);
}

#[test]
fn markers_are_listed_by_name_whatever_their_age() {
    let entries = vec![
        entry(1, ".identity.pem.publishing.9.1", 0),
        entry(2, "identity.pem", 0),
        entry(3, ".identity.pem.publishing.10.0", 1_000_000_000_000),
        entry(4, ".identity.pem.recovering.1", 0),
        DirEntry {
            id: 5,
            name: None,
            modified: None,
        },
    ];
    assert_eq!(list_publish_markers(STEM, &entries), vec![3, 1]);
}

#[test]
fn only_orphaned_claims_can_be_claimed() {
    let age = CLAIM_SWEEP_MIN_AGE as i128;
    let entries = vec![
        entry(1, ".identity.pem.recovering.b", age),
        entry(2, ".identity.pem.recovering.a", age - 1),
        entry(3, ".identity.pem.publishing.1.0", 0),
        entry(4, ".identity.pem.recovering.c", -5),
        DirEntry {
            id: 5,
            name: Some(".identity.pem.recovering.d".to_string()),
            modified: None,
        },
        entry(6, ".identity.pem.tmp.1.0", age),
    ];
    assert_eq!(list_recovery_claimables(STEM, &entries, NOW), vec![3, 1]);
    assert_eq!(list_recovery_claims(STEM, &entries), vec![1, 2, 4, 5]);
}

#[test]
fn young_quarantines_are_adopted_newest_first() {
    let age = CLAIM_SWEEP_MIN_AGE as i128;
    let entries = vec![
        entry(1, ".identity.pem.quarantined.1.0", 300),
        entry(2, ".identity.pem.quarantined.1.1", 100),
        entry(3, ".identity.pem.quarantined.1.2", age),
        entry(4, ".identity.pem.superseded.1.0", 0),
        entry(5, ".identity.pem.quarantined.1.3", -50),
        DirEntry {
            id: 6,
            name: Some(".identity.pem.quarantined.1.4".to_string()),
            modified: None,
        },
    ];
    assert_eq!(list_adoptable_quarantines(STEM, &entries, NOW), vec![5, 2, 1]);
    assert_eq!(
        list_sibling_quarantines(
            STEM,
            &entries,
            NOW,
            &".identity.pem.quarantined.1.1".to_string()
        ),
        vec![1, 5]
    );
}

#[test]
fn a_sweep_takes_stale_files_only() {
    let claim = CLAIM_SWEEP_MIN_AGE as i128;
    let kept = SUPERSEDED_RETENTION as i128;
    let entries = vec![
        entry(1, ".identity.pem.publishing.1.0", 0),
        entry(2, ".identity.pem.recovering.1", claim),
        entry(3, ".identity.pem.recovering.2", claim - 1),
        entry(4, ".identity.pem.superseded.1.0", kept),
        entry(5, ".identity.pem.superseded.1.1", kept - 1),
        entry(6, ".identity.pem.quarantined.1.0", kept),
        entry(7, ".identity.pem.quarantined.1.1", 0),
        entry(8, ".identity.pem.tmp.1.0", kept),
        entry(9, "identity.pem", kept),
    ];
    assert_eq!(list_stale_files(STEM, &entries, NOW), vec![1, 2, 4, 6]);
}

#[test]
fn superseding_tries_free_names() {
    let mut phase = supersede_quarantine(FileRef::Quarantine(7));
    assert!(matches!(
        supersede_op(phase),
        KeyOp::Exists(FileRef::Superseded(0))
    ));
    let mut next = supersede_next(phase, &Reply::Present(true));
    for n in 1..3 {
        phase = match next {
            SupersedeNext::Go(p) => p,
            SupersedeNext::End(_) => panic!("names are left"),
        };
        assert!(matches!(supersede_op(phase), KeyOp::Exists(FileRef::Superseded(m)) if m == n));
        next = supersede_next(phase, &Reply::Present(n < 2));
    }
    phase = match next {
        SupersedeNext::Go(p) => p,
        SupersedeNext::End(_) => panic!("the name is free"),
    };
    assert!(matches!(
        supersede_op(phase),
        KeyOp::Rename(FileRef::Quarantine(7), FileRef::Superseded(2))
    ));
    assert_eq!(
        supersede_next(phase, &Reply::Done),
        SupersedeNext::End(SupersedeEnd::Moved(2))
    );
    assert_eq!(
        supersede_next(phase, &Reply::Failed(io(IoKind::NotFound))),
        SupersedeNext::End(SupersedeEnd::Gone)
    );
}

#[test]
fn superseding_gives_up_when_all_names_are_taken() {
    let mut phase = supersede_quarantine(FileRef::Listed(1));
    let mut tried = 0;
    loop {
        tried += 1;
        match supersede_next(phase, &Reply::Present(true)) {
            SupersedeNext::Go(p) => phase = p,
            SupersedeNext::End(end) => {
                assert_eq!(end, SupersedeEnd::Kept);
                break;
            }
        }
    }
    assert_eq!(tried, KEY_TEMP_ATTEMPTS);
}

#[test]
fn siblings_without_a_key_are_left() {
    let mut s = SiblingSupersede::supersede_sibling_quarantines(FileRef::Quarantine(0));
    assert!(matches!(
        s.op(),
        KeyOp::ListSiblings(FileRef::Quarantine(0))
    ));
    s.step(Reply::Ids(vec![4, 5]));
    assert!(matches!(s.op(), KeyOp::ReadKey(FileRef::Listed(4))));
    s.step(Reply::BadKey(0));
    assert!(matches!(s.op(), KeyOp::ReadKey(FileRef::Listed(5))));
    s.step(Reply::Key(9));
    assert!(matches!(s.op(), KeyOp::Exists(FileRef::Superseded(0))));
    s.step(Reply::Present(false));
    s.step(Reply::Done);
    assert_eq!(s.phase, SiblingPhase::Finished);
    assert_eq!(SiblingSupersede::idle().phase, SiblingPhase::Finished);
}

#[test]
fn a_sweep_stops_where_the_key_is_not_durable() {
    let mut sweep = Sweep::sweep_stale_markers();
    assert!(matches!(sweep.op(), KeyOp::SyncFinal));
    sweep.step(Reply::Done);
    assert!(matches!(sweep.op(), KeyOp::SyncDir));
    sweep.step(Reply::Failed(io(IoKind::Other)));
    assert_eq!(sweep.phase, SweepPhase::Finished);
    assert_eq!(Sweep::idle().phase, SweepPhase::Finished);
    assert!(matches!(remove_listed(&vec![3, 4]), KeyOp::RemoveListed(v) if v == vec![3, 4]));
}

#[test]
fn a_heartbeat_refreshes_every_claim_in_each_beat() {
    let claims = vec![8, 9];
    let mut phase = claim_heartbeat();
    let mut slept = 0;
    while let Some(KeyOp::Pause(t)) = {
        phase = beat_next(phase, BeatEvent::Stop(false), 2);
        beat_op(phase, &claims)
    } {
        assert_eq!(t, CLAIM_BEAT_GRANULE);
        slept += t;
        phase = beat_next(phase, BeatEvent::Done, 2);
    }
    assert_eq!(slept, CLAIM_BEAT);
    assert!(matches!(beat_op(phase, &claims), Some(KeyOp::StampClaim(8))));
    phase = beat_next(phase, BeatEvent::Failed, 2);
    assert!(matches!(beat_op(phase, &claims), Some(KeyOp::AppendClaim(8))));
    phase = beat_next(phase, BeatEvent::Failed, 2);
    phase = beat_next(phase, BeatEvent::Stop(false), 2);
    assert!(matches!(beat_op(phase, &claims), Some(KeyOp::StampClaim(9))));
    phase = beat_next(phase, BeatEvent::Done, 2);
    phase = beat_next(phase, BeatEvent::Stop(true), 2);
    assert_eq!(phase, BeatPhase::Stopped);
    assert_eq!(beat_next(phase, BeatEvent::Stop(false), 2), BeatPhase::Stopped);
}

#[test]
fn load_errors_are_told_apart() {
    assert!(is_key_content_error(&LoadError::Content(0)));
    assert!(!is_key_content_error(&LoadError::Mode(0o644)));
    assert!(!is_key_content_error(&LoadError::Read(io(IoKind::Other))));
    assert!(is_missing_file(&LoadError::Read(io(IoKind::NotFound))));
    assert!(is_missing_file(&LoadError::Stat(io(IoKind::NotFound))));
    assert!(!is_missing_file(&LoadError::Stat(io(IoKind::Other))));
    assert!(!is_missing_file(&LoadError::Content(0)));
}

#[test]
fn replies_are_read() {
    assert_eq!(Reply::Failed(io(IoKind::Other)).error(), Some(io(IoKind::Other)));
    assert_eq!(Reply::Done.error(), None);
    assert!(Reply::Present(true).present());
    assert!(!Reply::Present(false).present());
    assert_eq!(Reply::Ids(vec![1]).into_ids(), vec![1]);
    assert!(Reply::Failed(io(IoKind::Other)).into_ids().is_empty());
    assert_eq!(elapsed(3, 10), 7);
    assert_eq!(elapsed(10, 3), 0);
}

#[test]
fn modes_are_written_in_octal() {
    assert_eq!(octal_string(0), "0");
    assert_eq!(octal_string(0o644), "644");
    assert_eq!(octal_string(0o400), "400");
}
