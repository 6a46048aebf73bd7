use mirakc_core::models::{Eid, Nid, ProgramId, ServiceId, Sid, TunerUserPriority};
use mirakc_core::recording::RecordId;

const JS_NUMBER_MAX_SAFE_INTEGER: u64 = (1u64 << 53) - 1;

#[test]
fn test_tuner_user_priority() {
    assert_eq!(TunerUserPriority::default(), 0.into());
    assert_eq!(TunerUserPriority::from(128), 128.into());
    assert_eq!(TunerUserPriority::from(129), 128.into());
    assert_eq!(TunerUserPriority::from(-128), (-128).into());
    assert_eq!(TunerUserPriority::from(-129), (-128).into());

    assert!(TunerUserPriority::from(128).is_grab());
}

#[test]
fn test_service_id() {
    let nid: Nid = 1.into();
    let sid: Sid = 2.into();
    let id = ServiceId::new(nid, sid);
    assert_eq!(ServiceId::from(1_00002u64), id);
    assert_eq!(nid, id.nid());
    assert_eq!(sid, id.sid());

    assert!(ServiceId::new(u16::MAX.into(), u16::MAX.into()).value() <= JS_NUMBER_MAX_SAFE_INTEGER);
}

#[test]
fn test_program_id() {
    let nid: Nid = 1.into();
    let sid: Sid = 2.into();
    let eid: Eid = 3.into();
    let id = ProgramId::new(nid, sid, eid);
    assert_eq!(ProgramId::from(1_00002_00003u64), id);
    assert_eq!(nid, id.nid());
    assert_eq!(sid, id.sid());
    assert_eq!(eid, id.eid());

    assert!(
        ProgramId::new(u16::MAX.into(), u16::MAX.into(), u16::MAX.into()).value()
            <= JS_NUMBER_MAX_SAFE_INTEGER
    );
}

#[test]
fn test_record_id() {
    assert_eq!(RecordId::new(0, 0).value(), "00000000000000000000000000000000");
}

#[test]
fn test_save_data_rename_fails() {
    // A file that can be written but not renamed cannot be set up portably.
}
