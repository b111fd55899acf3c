use cybergrape::hardware_data_manager::Update;
use cybergrape::sphericalizer::{
    Sphericalizer, SphericalizerError, TagReading, BACK_ANTENNA, FRONT_ANTENNA,
};

fn reading(src: u64, dst: u64, azm: f64, elv: f64) -> Update {
    Update {
        src,
        dst,
        azm: azm.to_bits(),
        elv: elv.to_bits(),
    }
}

#[test]
fn too_small_snapshot_is_not_ready() {
    let sph = Sphericalizer::new(vec![(1.0f32.to_bits(), 2.0f32.to_bits())]);
    let r = sph.query(vec![reading(BACK_ANTENNA, 5, 0.5, 0.25)]);
    assert_eq!(r, Ok(None));
}

#[test]
fn too_large_snapshot_is_not_ready() {
    let sph = Sphericalizer::new(vec![(1.0f32.to_bits(), 2.0f32.to_bits())]);
    let r = sph.query(vec![
        reading(BACK_ANTENNA, 5, 0.5, 0.25),
        reading(FRONT_ANTENNA, 5, -0.5, 0.25),
        reading(BACK_ANTENNA, 6, 0.5, 0.25),
    ]);
    assert_eq!(r, Ok(None));
}

#[test]
fn one_tag_resolves_with_negative_front_azimuth() {
    let gain = 0.8f32.to_bits();
    let range = 3.5f32.to_bits();
    let sph = Sphericalizer::new(vec![(gain, range)]);
    let rs = sph
        .query(vec![
            reading(FRONT_ANTENNA, 5, -0.25, 0.0),
            reading(BACK_ANTENNA, 5, 0.5, 0.125),
        ])
        .unwrap()
        .unwrap();
    assert_eq!(
        rs,
        vec![TagReading {
            azm: 0.5f64.to_bits(),
            elv: 0.125f64.to_bits(),
            flip: false,
            gain,
            range,
        }]
    );
}

#[test]
fn positive_front_azimuth_flips_the_reading() {
    let gain = 1.0f32.to_bits();
    let range = 1.0f32.to_bits();
    let sph = Sphericalizer::new(vec![(gain, range)]);
    let rs = sph
        .query(vec![
            reading(BACK_ANTENNA, 5, -0.5, 0.0),
            reading(FRONT_ANTENNA, 5, 0.25, 0.0),
        ])
        .unwrap()
        .unwrap();
    assert!(rs[0].flip);
    assert_eq!(rs[0].azm, (-0.5f64).to_bits());
}

#[test]
fn zero_front_azimuth_does_not_flip() {
    let sph = Sphericalizer::new(vec![(0, 0)]);
    let rs = sph
        .query(vec![
            reading(BACK_ANTENNA, 5, 0.5, 0.0),
            reading(FRONT_ANTENNA, 5, 0.0, 0.0),
        ])
        .unwrap()
        .unwrap();
    assert!(!rs[0].flip);
}

#[test]
fn tags_pair_up_by_id_after_sorting() {
    let gain_a = 0.1f32.to_bits();
    let range_a = 0.2f32.to_bits();
    let gain_b = 0.3f32.to_bits();
    let range_b = 0.4f32.to_bits();
    let sph = Sphericalizer::new(vec![(gain_a, range_a), (gain_b, range_b)]);
    // deliver the four readings thoroughly shuffled
    let rs = sph
        .query(vec![
            reading(FRONT_ANTENNA, 20, 0.5, 0.0),
            reading(BACK_ANTENNA, 10, 0.125, 0.25),
            reading(FRONT_ANTENNA, 10, -0.5, 0.0),
            reading(BACK_ANTENNA, 20, 0.375, 0.5),
        ])
        .unwrap()
        .unwrap();
    assert_eq!(rs.len(), 2);
    // tag 10 gets the first setting, tag 20 the second
    assert_eq!(rs[0].azm, 0.125f64.to_bits());
    assert_eq!(rs[0].gain, gain_a);
    assert!(!rs[0].flip);
    assert_eq!(rs[1].azm, 0.375f64.to_bits());
    assert_eq!(rs[1].range, range_b);
    assert!(rs[1].flip);
}

#[test]
fn missing_back_antenna_is_a_configuration_error() {
    let sph = Sphericalizer::new(vec![(0, 0)]);
    let err = sph
        .query(vec![
            reading(FRONT_ANTENNA, 5, 0.5, 0.0),
            reading(FRONT_ANTENNA, 5, 0.25, 0.0),
        ])
        .unwrap_err();
    assert_eq!(err, SphericalizerError::MissingBackAntenna);
}

#[test]
fn missing_front_antenna_is_a_configuration_error() {
    let sph = Sphericalizer::new(vec![(0, 0)]);
    let err = sph
        .query(vec![
            reading(BACK_ANTENNA, 5, 0.5, 0.0),
            reading(BACK_ANTENNA, 5, 0.25, 0.0),
        ])
        .unwrap_err();
    assert_eq!(err, SphericalizerError::MissingFrontAntenna);
}
