use cybergrape::hardware_data_manager::{HardwareDataManager, Update};
use cybergrape::hdm::Hdm;
use cybergrape::update_accumulator::{UpdateAccumulator, BUFFER_SIZE};

fn update(src: u64, dst: u64, azm: f64, elv: f64) -> Update {
    Update {
        src,
        dst,
        azm: azm.to_bits(),
        elv: elv.to_bits(),
    }
}

fn mean(bits: &[u64]) -> f64 {
    let sum: f64 = bits.iter().map(|b| f64::from_bits(*b)).sum();
    sum / bits.len() as f64
}

#[test]
fn buffer_hands_out_in_arrival_order() {
    let mut hdm = Hdm::new();
    hdm.add_update(update(1, 2, 0.25, 0.5));
    hdm.add_update(update(3, 4, 0.75, 1.0));
    let first = hdm.next_update().unwrap();
    assert_eq!(first.src, 1);
    let second = hdm.next_update().unwrap();
    assert_eq!(second.src, 3);
    assert!(hdm.next_update().is_none());
}

#[test]
fn clear_empties_the_buffer() {
    let mut hdm = Hdm::new();
    hdm.add_update(update(1, 2, 0.25, 0.5));
    hdm.add_update(update(1, 2, 0.5, 0.25));
    hdm.clear();
    assert!(hdm.next_update().is_none());
}

#[test]
fn windowing_retains_the_last_buffer_size_updates() {
    let mut hdm = Hdm::new();
    // one more update than the window retains, all for one pair
    for i in 1..=(BUFFER_SIZE as u64 + 1) {
        hdm.add_update(update(7, 9, i as f64, -(i as f64)));
    }
    let mut acc = UpdateAccumulator::new(hdm);
    let snaps = acc.get_status();
    assert_eq!(snaps.len(), 1);
    let snap = &snaps[0];
    assert_eq!(snap.src, 7);
    assert_eq!(snap.dst, 9);
    assert_eq!(snap.azms.len(), BUFFER_SIZE);

    // the buffer drains in arrival order, so the window keeps the most
    // recent five arrivals and evicts the oldest; the snapshot lists the
    // retained values most recent first
    let azms: Vec<f64> = snap.azms.iter().map(|b| f64::from_bits(*b)).collect();
    assert_eq!(azms, vec![6.0, 5.0, 4.0, 3.0, 2.0]);

    // the returned mean ranges over exactly those retained values
    assert_eq!(mean(&snap.azms), 4.0);
    assert_eq!(mean(&snap.elvs), -4.0);
}

#[test]
fn each_pair_gets_its_own_window() {
    let mut hdm = Hdm::new();
    hdm.add_update(update(1, 10, 0.5, 0.0));
    hdm.add_update(update(2, 20, 1.5, 0.0));
    hdm.add_update(update(1, 10, 1.0, 0.0));
    let mut acc = UpdateAccumulator::new(hdm);
    let snaps = acc.get_status();
    assert_eq!(snaps.len(), 2);
    // windows appear in order of first sighting: the pair seen first while
    // draining in arrival order gets the first window
    assert_eq!(snaps[0].src, 1);
    assert_eq!(snaps[0].dst, 10);
    assert_eq!(snaps[0].azms.len(), 2);
    assert_eq!(mean(&snaps[0].azms), 0.75);
    assert_eq!(snaps[1].src, 2);
    assert_eq!(snaps[1].dst, 20);
    assert_eq!(mean(&snaps[1].azms), 1.5);
}

#[test]
fn second_poll_sees_no_new_data_but_keeps_windows() {
    let mut hdm = Hdm::new();
    hdm.add_update(update(1, 10, 0.5, 0.25));
    let mut acc = UpdateAccumulator::new(hdm);
    let first = acc.get_status();
    assert_eq!(first.len(), 1);
    let second = acc.get_status();
    assert_eq!(second.len(), 1);
    assert_eq!(first[0], second[0]);
}
