use esp_hal_async::time_driver::{AlarmAction, AlarmHandle, AlarmState, EmbassyTimer, ALARM_COUNT, TIMESTAMP_UNSET};

fn fire_value(action: AlarmAction<u32>) -> Option<u32> {
    match action {
        AlarmAction::Fire(c) => Some(c),
        AlarmAction::Arm { .. } => None,
    }
}

#[test]
fn new_alarm_state_is_unset() {
    let s: AlarmState<u32> = AlarmState::new();
    assert_eq!(s.timestamp, u64::MAX);
    assert_eq!(s.timestamp, TIMESTAMP_UNSET);
    assert!(s.callback.is_none());
    assert!(!s.allocated);
}

#[test]
fn init_has_three_free_slots() {
    let t: EmbassyTimer<u32> = EmbassyTimer::init();
    assert_eq!(t.alarms.len(), ALARM_COUNT);
    assert_eq!(ALARM_COUNT, 3);
    for a in &t.alarms {
        assert!(!a.allocated);
        assert!(a.callback.is_none());
        assert_eq!(a.timestamp, u64::MAX);
    }
}

#[test]
fn fourth_allocation_is_unavailable() {
    let mut t: EmbassyTimer<u32> = EmbassyTimer::init();
    assert_eq!(t.allocate_alarm(), Some(AlarmHandle { id: 0 }));
    assert_eq!(t.allocate_alarm(), Some(AlarmHandle { id: 1 }));
    assert_eq!(t.allocate_alarm(), Some(AlarmHandle { id: 2 }));
    assert_eq!(t.allocate_alarm(), None);
    assert_eq!(t.allocate_alarm(), None);
    assert!(t.alarms.iter().all(|a| a.allocated));
}

#[test]
fn handles_are_not_reused_after_use() {
    let mut t: EmbassyTimer<u32> = EmbassyTimer::init();
    let h0 = t.allocate_alarm().unwrap();
    t.set_alarm_callback(h0, 7);
    assert_eq!(fire_value(t.set_alarm(h0, 5, 10)), Some(7));
    let h1 = t.allocate_alarm().unwrap();
    assert_eq!(h1.id(), 1);
    assert_ne!(h0, h1);
}

#[test]
fn scenario_immediate_fire_on_handle_one() {
    let mut t: EmbassyTimer<u32> = EmbassyTimer::init();
    let handles: Vec<AlarmHandle> = (0..3).map(|_| t.allocate_alarm().unwrap()).collect();
    assert_eq!(handles.iter().map(|h| h.id()).collect::<Vec<u8>>(), vec![0, 1, 2]);
    assert!(t.allocate_alarm().is_none());
    t.set_alarm_callback(handles[1], 0xC);
    let now: u64 = 1000;
    let mut invoked = 0;
    if let AlarmAction::Fire(c) = t.set_alarm(handles[1], now - 1, now) {
        assert_eq!(c, 0xC);
        invoked += 1;
    }
    assert_eq!(invoked, 1);
    // nothing was armed
    assert_eq!(t.alarms[1].timestamp, u64::MAX);
}

#[test]
fn deadline_equal_to_now_fires_at_once() {
    let mut t: EmbassyTimer<u32> = EmbassyTimer::init();
    let h = t.allocate_alarm().unwrap();
    t.set_alarm_callback(h, 3);
    assert_eq!(fire_value(t.set_alarm(h, 50, 50)), Some(3));
}

#[test]
fn immediate_fire_uses_last_stored_callback() {
    let mut t: EmbassyTimer<u32> = EmbassyTimer::init();
    let h = t.allocate_alarm().unwrap();
    t.set_alarm_callback(h, 1);
    t.set_alarm_callback(h, 2);
    assert_eq!(fire_value(t.set_alarm(h, 0, 0)), Some(2));
}

#[test]
fn future_deadline_arms_own_channel() {
    let mut t: EmbassyTimer<u32> = EmbassyTimer::init();
    let _h0 = t.allocate_alarm().unwrap();
    let h1 = t.allocate_alarm().unwrap();
    t.set_alarm_callback(h1, 11);
    match t.set_alarm(h1, 500, 100) {
        AlarmAction::Arm { channel, target } => {
            assert_eq!(channel, 1);
            assert_eq!(target, 500);
        }
        AlarmAction::Fire(_) => panic!("fired before the deadline"),
    }
    assert_eq!(t.alarms[1].timestamp, 500);
    assert_eq!(t.on_interrupt(1), 11);
}

#[test]
fn interrupt_invokes_only_its_channel() {
    let mut t: EmbassyTimer<u32> = EmbassyTimer::init();
    let hs: Vec<AlarmHandle> = (0..3).map(|_| t.allocate_alarm().unwrap()).collect();
    for (i, h) in hs.iter().enumerate() {
        t.set_alarm_callback(*h, 100 + i as u32);
        assert!(fire_value(t.set_alarm(*h, 1000 + i as u64, 10)).is_none());
    }
    assert_eq!(t.on_interrupt(0), 100);
    assert_eq!(t.on_interrupt(2), 102);
    assert_eq!(t.on_interrupt(1), 101);
}
