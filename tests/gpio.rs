use esp_hal_async::gpio::{AsyncPin, Event, PinFuture, PinWakerTable, WaitPoll, PIN_COUNT};

fn pin_waker_ids(table: &PinWakerTable<u32>) -> Vec<Option<u32>> {
    table.slots.iter().map(|s| s.waker).collect()
}

#[test]
fn new_table_is_idle() {
    let t: PinWakerTable<u32> = PinWakerTable::new(PIN_COUNT);
    assert_eq!(t.slots.len(), 26);
    assert!(t.slots.iter().all(|s| !s.listening && s.waker.is_none() && s.event.is_none()));
}

#[test]
fn wait_configures_event_and_enables() {
    let mut t: PinWakerTable<u32> = PinWakerTable::new(PIN_COUNT);
    let pins = [AsyncPin(1), AsyncPin(2), AsyncPin(3), AsyncPin(4), AsyncPin(5)];
    let f = pins[0].wait_for_high(&mut t);
    assert_eq!(f.pin, 1);
    pins[1].wait_for_low(&mut t);
    pins[2].wait_for_rising_edge(&mut t);
    pins[3].wait_for_falling_edge(&mut t);
    pins[4].wait_for_any_edge(&mut t);
    let events: Vec<Option<Event>> = t.slots[1..6].iter().map(|s| s.event).collect();
    assert_eq!(
        events,
        vec![
            Some(Event::HighLevel),
            Some(Event::LowLevel),
            Some(Event::RisingEdge),
            Some(Event::FallingEdge),
            Some(Event::AnyEdge)
        ]
    );
    assert!(t.slots[1..6].iter().all(|s| s.listening));
    assert!(!t.slots[0].listening);
}

#[test]
fn poll_while_armed_is_pending_and_registers() {
    let mut t: PinWakerTable<u32> = PinWakerTable::new(PIN_COUNT);
    let f = AsyncPin(9).wait_for_falling_edge(&mut t);
    assert_eq!(f.poll(&mut t, 1), WaitPoll::Pending);
    assert_eq!(t.slots[9].waker, Some(1));
    // a later poll replaces the registration
    assert_eq!(f.poll(&mut t, 2), WaitPoll::Pending);
    assert_eq!(t.slots[9].waker, Some(2));
}

#[test]
fn dispatch_wakes_pins_five_and_twelve() {
    let mut t: PinWakerTable<u32> = PinWakerTable::new(PIN_COUNT);
    let mut futures = Vec::new();
    for pin in [3u8, 5, 12, 20] {
        let f = AsyncPin(pin).wait_for_any_edge(&mut t);
        assert_eq!(f.poll(&mut t, 100 + pin as u32), WaitPoll::Pending);
        futures.push(f);
    }
    let pending: u32 = (1 << 5) | (1 << 12);
    let wakes = t.on_interrupt(pending);
    let got: Vec<(u8, Option<u32>)> = wakes.iter().map(|w| (w.pin, w.waker)).collect();
    assert_eq!(got, vec![(5, Some(105)), (12, Some(112))]);
    assert!(!t.slots[5].listening && !t.slots[12].listening);
    assert!(t.slots[3].listening && t.slots[20].listening);
    assert_eq!(t.slots[3].waker, Some(103));
    assert_eq!(t.slots[20].waker, Some(120));
    assert_eq!(t.slots[5].waker, None);
    assert_eq!(t.slots[12].waker, None);
}

#[test]
fn scenario_rising_edge_on_pin_three() {
    let mut t: PinWakerTable<u32> = PinWakerTable::new(PIN_COUNT);
    for pin in 0..PIN_COUNT as u8 {
        if pin != 3 {
            AsyncPin(pin).wait_for_high(&mut t);
        }
    }
    let f = AsyncPin(3).wait_for_rising_edge(&mut t);
    assert_eq!(f.poll(&mut t, 3), WaitPoll::Pending);
    let wakes = t.on_interrupt(0b1000);
    assert_eq!(wakes.len(), 1);
    assert_eq!(wakes[0].pin, 3);
    assert_eq!(wakes[0].waker, Some(3));
    assert!(!t.slots[3].listening);
    for (i, s) in t.slots.iter().enumerate() {
        if i != 3 {
            assert!(s.listening);
        }
    }
    assert_eq!(f.poll(&mut t, 3), WaitPoll::Ready);
}

#[test]
fn poll_after_fire_is_ready_without_wake() {
    let mut t: PinWakerTable<u32> = PinWakerTable::new(PIN_COUNT);
    let f = AsyncPin(7).wait_for_rising_edge(&mut t);
    // the event fires before the task ever polled: nobody to wake
    let wakes = t.on_interrupt(1 << 7);
    assert_eq!(wakes.len(), 1);
    assert_eq!(wakes[0].waker, None);
    assert_eq!(f.poll(&mut t, 77), WaitPoll::Ready);
}

#[test]
fn repeated_edges_coalesce() {
    let mut t: PinWakerTable<u32> = PinWakerTable::new(PIN_COUNT);
    let f = AsyncPin(4).wait_for_any_edge(&mut t);
    assert_eq!(f.poll(&mut t, 4), WaitPoll::Pending);
    let first = t.on_interrupt(1 << 4);
    let second = t.on_interrupt(1 << 4);
    let delivered = first.iter().chain(second.iter()).filter(|w| w.waker.is_some()).count();
    assert_eq!(delivered, 1);
    assert_eq!(f.poll(&mut t, 4), WaitPoll::Ready);
}

#[test]
fn dispatch_orders_wakes_ascending() {
    let mut t: PinWakerTable<u32> = PinWakerTable::new(32);
    for pin in 0..32u8 {
        let f = AsyncPin(pin).wait_for_low(&mut t);
        f.poll(&mut t, pin as u32);
    }
    let wakes = t.on_interrupt(0x8000_0001 | (1 << 17));
    let pins: Vec<u8> = wakes.iter().map(|w| w.pin).collect();
    assert_eq!(pins, vec![0, 17, 31]);
    assert_eq!(pin_waker_ids(&t)[17], None);
    assert_eq!(pin_waker_ids(&t)[16], Some(16));
}

#[test]
fn empty_snapshot_wakes_nothing() {
    let mut t: PinWakerTable<u32> = PinWakerTable::new(PIN_COUNT);
    AsyncPin(2).wait_for_high(&mut t);
    assert!(t.on_interrupt(0).is_empty());
    assert!(t.slots[2].listening);
}

#[test]
fn pin_future_new_keeps_pin() {
    assert_eq!(PinFuture::new(25).pin, 25);
}
