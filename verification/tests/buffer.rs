use cybergrape::saf::BufferMetadata;
use cybergrape::time_domain_buffer::TDBufMeta;

#[test]
fn test_buf_init() {
    let buf = TDBufMeta::new(2);
    assert_eq!(buf.num_tags(), 2);
    let update = [
        BufferMetadata {
            azimuth: 90.0f32.to_bits(),
            elevation: 0.0f32.to_bits(),
            range: 1.0f32.to_bits(),
            gain: 1.0f32.to_bits(),
        },
        BufferMetadata {
            azimuth: 45.0f32.to_bits(),
            elevation: 45.0f32.to_bits(),
            range: 1.0f32.to_bits(),
            gain: 1.0f32.to_bits(),
        },
    ];
    let mut buf = TDBufMeta::new(2);
    buf.add(update.to_vec());
    let data = buf.dump();
    assert_eq!(data.len(), 1);
    assert_eq!(data[0].len(), 2);
}

#[test]
fn rows_come_back_in_order() {
    let row = |x: f32| {
        vec![BufferMetadata {
            azimuth: x.to_bits(),
            elevation: 0,
            range: 0,
            gain: 0,
        }]
    };
    let mut buf = TDBufMeta::new(1);
    buf.add(row(1.0));
    buf.add(row(2.0));
    buf.add(row(3.0));
    let rows = buf.dump();
    assert_eq!(rows.len(), 3);
    assert_eq!(f32::from_bits(rows[0][0].azimuth), 1.0);
    assert_eq!(f32::from_bits(rows[2][0].azimuth), 3.0);
}
