use cybergrape::spatial_data_format::{
    GrapeFile, GrapeFileBuilder, GrapeFileError, GrapeTag, Resampled,
};
use rand::distributions::{Distribution, Uniform};

const A_FLOAT: f32 = 12.078_431;

fn bits(xs: &[f32]) -> Vec<u32> {
    xs.iter().map(|x| x.to_bits()).collect()
}

fn floats(xs: &[u32]) -> Vec<f32> {
    xs.iter().map(|b| f32::from_bits(*b)).collect()
}

/// The numeric kernel of decimation: each output sample is the mean of one
/// chunk.
fn mean_kernel(chunks: &[Vec<u32>]) -> Vec<f32> {
    chunks
        .iter()
        .map(|c| {
            let sum: f32 = c.iter().map(|b| f32::from_bits(*b)).sum();
            sum / c.len() as f32
        })
        .collect()
}

/// The numeric kernel of interpolation: each consecutive pair yields
/// `factor` linearly interpolated points.
fn lerp_kernel(segments: &[(u32, u32)], factor: u64) -> Vec<f32> {
    let mut out = Vec::new();
    for (a, b) in segments {
        let a = f32::from_bits(*a);
        let b = f32::from_bits(*b);
        let step = (b - a) / factor as f32;
        for i in 0..factor {
            out.push(a + i as f32 * step);
        }
    }
    out
}

#[test]
fn write_and_read_cursor() {
    let data = GrapeFile::builder()
        .set_samplerate(1000)
        .add_stream(&bits(&[A_FLOAT; 4]), GrapeTag::X)
        .add_stream(&bits(&[A_FLOAT; 4]), GrapeTag::Y)
        .build()
        .unwrap();

    let buf = data.to_bytes();
    let read_data = GrapeFile::from_bytes(&buf).unwrap();
    assert_eq!(data, read_data);
}

#[test]
fn native_sample_rate_read() {
    let stream_data = vec![
        (GrapeTag::X, bits(&[A_FLOAT; 4])),
        (GrapeTag::Y, bits(&[A_FLOAT; 4])),
    ];

    let data = GrapeFile::builder()
        .set_samplerate(1000)
        .add_stream(&stream_data[0].1, stream_data[0].0)
        .add_stream(&stream_data[1].1, stream_data[1].0)
        .build()
        .unwrap();

    let (sr, streams) = data.streams_native_sample_rate();
    assert_eq!(1000, sr);
    assert_eq!(stream_data, streams);
}

#[test]
fn quantize_read() {
    let data = GrapeFile::builder()
        .set_samplerate(1000)
        .add_stream(&bits(&[A_FLOAT; 4]), GrapeTag::X)
        .add_stream(&bits(&[A_FLOAT; 4]), GrapeTag::Y)
        .build()
        .unwrap();

    match data.streams_with_sample_rate(500).unwrap() {
        Resampled::Decimated(streams) => {
            assert_eq!(streams.len(), 2);
            assert_eq!(streams[0].0, GrapeTag::X);
            assert_eq!(streams[1].0, GrapeTag::Y);
            assert_eq!(mean_kernel(&streams[0].1), vec![A_FLOAT; 2]);
            assert_eq!(mean_kernel(&streams[1].1), vec![A_FLOAT; 2]);
        },
        _ => panic!("a lower rate must decimate"),
    }
}

#[test]
fn interpolate_same() {
    let data = GrapeFile::builder()
        .set_samplerate(1000)
        .add_stream(&bits(&[A_FLOAT; 4]), GrapeTag::X)
        .add_stream(&bits(&[A_FLOAT; 4]), GrapeTag::Y)
        .build()
        .unwrap();

    match data.streams_with_sample_rate(2000).unwrap() {
        Resampled::Interpolated(factor, streams) => {
            assert_eq!(factor, 2);
            assert_eq!(streams.len(), 2);
            assert_eq!(lerp_kernel(&streams[0].1, factor), vec![A_FLOAT; 6]);
            assert_eq!(lerp_kernel(&streams[1].1, factor), vec![A_FLOAT; 6]);
        },
        _ => panic!("a higher rate must interpolate"),
    }
}

#[test]
fn interpolate_range() {
    let stream_data = vec![0.0f32, 0.2, 0.8];

    let data = GrapeFile::builder()
        .set_samplerate(5)
        .add_stream(&bits(&stream_data), GrapeTag::Yaw)
        .build()
        .unwrap();

    match data.streams_with_sample_rate(10).unwrap() {
        Resampled::Interpolated(factor, streams) => {
            assert_eq!(factor, 2);
            assert_eq!(streams.len(), 1);
            assert_eq!(streams[0].0, GrapeTag::Yaw);
            assert_eq!(lerp_kernel(&streams[0].1, factor), vec![0.0, 0.1, 0.2, 0.5]);
        },
        _ => panic!("a higher rate must interpolate"),
    }
}

#[test]
fn read_from_empty() {
    let data = GrapeFile::builder().build().unwrap();

    let (_, streams1) = data.streams_native_sample_rate();
    assert!(streams1.is_empty());

    match data.streams_with_sample_rate(10).unwrap() {
        Resampled::Decimated(streams) => assert!(streams.is_empty()),
        _ => panic!("a lower rate must decimate"),
    }
    match data.streams_with_sample_rate(10000).unwrap() {
        Resampled::Interpolated(_, streams) => assert!(streams.is_empty()),
        _ => panic!("a higher rate must interpolate"),
    }
}

#[test]
fn long_write_read() {
    let rng = rand::thread_rng();
    let dist = Uniform::new(-100.0f32, 100.0);
    let v: Vec<u32> = dist.sample_iter(rng).take(1000000).map(|x| x.to_bits()).collect();
    let data = GrapeFile::builder()
        .set_samplerate(1000)
        .add_stream(&v, GrapeTag::X)
        .add_stream(&v, GrapeTag::Y)
        .build()
        .unwrap();

    let buf = data.to_bytes();
    let read_data = GrapeFile::from_bytes(&buf).unwrap();
    assert_eq!(data, read_data);
}

#[test]
fn write_read_255_streams() {
    let rng = rand::thread_rng();
    let dist = Uniform::new(-100.0f32, 100.0);
    let v: Vec<u32> = dist.sample_iter(rng).take(100).map(|x| x.to_bits()).collect();
    let mut builder = GrapeFile::builder();

    for _ in 0..256 {
        builder = builder.add_stream(&v, GrapeTag::Roll);
    }

    let data = builder.set_samplerate(1000).build().unwrap();

    let buf = data.to_bytes();
    let read_data = GrapeFile::from_bytes(&buf).unwrap();
    assert_eq!(data, read_data);
}

#[test]
fn header_text_is_canonical() {
    let data = GrapeFile::builder()
        .set_samplerate(1000)
        .add_stream(&bits(&[1.0]), GrapeTag::X)
        .add_stream(&bits(&[2.0]), GrapeTag::Y)
        .build()
        .unwrap();
    let buf = data.to_bytes();
    let delim = buf.iter().position(|b| *b == 0xFF).unwrap();
    assert_eq!(&buf[..delim], b"(n_streams:2,sample_rate:1000,tags:[X,Y])");
    assert_eq!(buf.len(), delim + 1 + 2 * 4);
}

#[test]
fn unequal_stream_lengths_fail_strict_build() {
    let err = GrapeFile::builder()
        .add_stream(&bits(&[1.0, 2.0]), GrapeTag::X)
        .add_stream(&bits(&[1.0]), GrapeTag::Y)
        .build()
        .unwrap_err();
    assert_eq!(err, GrapeFileError::UnequalSampleBufferLengths);
}

#[test]
fn build_truncate_cuts_to_shortest() {
    let file = GrapeFile::builder()
        .add_stream(&bits(&[1.0, 2.0, 3.0]), GrapeTag::X)
        .add_stream(&bits(&[10.0]), GrapeTag::Y)
        .build_truncate();
    let (_, streams) = file.streams_native_sample_rate();
    assert_eq!(floats(&streams[0].1), vec![1.0]);
    assert_eq!(floats(&streams[1].1), vec![10.0]);
}

#[test]
fn build_extend_pads_with_last_value() {
    let file = GrapeFile::builder()
        .add_stream(&bits(&[1.0, 2.0, 3.0]), GrapeTag::X)
        .add_stream(&bits(&[10.0]), GrapeTag::Y)
        .add_stream(&bits(&[]), GrapeTag::Z)
        .build_extend();
    let (_, streams) = file.streams_native_sample_rate();
    assert_eq!(floats(&streams[0].1), vec![1.0, 2.0, 3.0]);
    assert_eq!(floats(&streams[1].1), vec![10.0, 10.0, 10.0]);
    assert_eq!(floats(&streams[2].1), vec![0.0, 0.0, 0.0]);
}

#[test]
fn clear_streams_empties_the_builder() {
    let file = GrapeFileBuilder::default()
        .add_stream(&bits(&[1.0]), GrapeTag::X)
        .clear_streams()
        .build()
        .unwrap();
    let (sr, streams) = file.streams_native_sample_rate();
    assert_eq!(sr, 1000);
    assert!(streams.is_empty());
}

#[test]
fn missing_delimiter_is_reported() {
    let err = GrapeFile::from_bytes(b"(n_streams:0,sample_rate:1000,tags:[])").unwrap_err();
    assert_eq!(err, GrapeFileError::NoDelimiter);
}

#[test]
fn ragged_sample_tail_is_reported() {
    let mut buf = Vec::new();
    buf.extend_from_slice(b"(n_streams:1,sample_rate:1000,tags:[X])");
    buf.push(0xFF);
    buf.extend_from_slice(&[0, 0, 0]);
    let err = GrapeFile::from_bytes(&buf).unwrap_err();
    assert_eq!(err, GrapeFileError::TryInto);
}

#[test]
fn bad_header_is_reported() {
    let mut buf = Vec::new();
    buf.extend_from_slice(b"(streams:1,rate:1000,tags:[X])");
    buf.push(0xFF);
    let err = GrapeFile::from_bytes(&buf).unwrap_err();
    assert_eq!(err, GrapeFileError::Header);

    // a header that misstates its own stream count is no header at all
    let mut buf = Vec::new();
    buf.extend_from_slice(b"(n_streams:3,sample_rate:1000,tags:[X])");
    buf.push(0xFF);
    let err = GrapeFile::from_bytes(&buf).unwrap_err();
    assert_eq!(err, GrapeFileError::Header);
}

#[test]
fn decimation_keeps_a_constant_stream_constant() {
    let data = GrapeFile::builder()
        .set_samplerate(15)
        .add_stream(&bits(&[1.0; 7]), GrapeTag::Range)
        .build()
        .unwrap();
    match data.streams_with_sample_rate(5).unwrap() {
        Resampled::Decimated(streams) => {
            // factor 3 over 7 samples: two full chunks and a final short one
            assert_eq!(streams[0].1.len(), 3);
            assert_eq!(streams[0].1[2].len(), 1);
            assert_eq!(mean_kernel(&streams[0].1), vec![1.0, 1.0, 1.0]);
        },
        _ => panic!("a lower rate must decimate"),
    }
}

#[test]
fn every_tag_kind_round_trips() {
    let tags = [
        GrapeTag::X,
        GrapeTag::Y,
        GrapeTag::Z,
        GrapeTag::Azimuth,
        GrapeTag::Elevation,
        GrapeTag::Range,
        GrapeTag::Pitch,
        GrapeTag::Yaw,
        GrapeTag::Roll,
    ];
    let mut builder = GrapeFile::builder().set_samplerate(48000);
    for tag in tags {
        builder = builder.add_stream(&bits(&[0.25, -0.5]), tag);
    }
    let data = builder.build().unwrap();
    let read_data = GrapeFile::from_bytes(&data.to_bytes()).unwrap();
    assert_eq!(data, read_data);
}

#[test]
fn inexact_rate_ratios_are_rejected() {
    let data = GrapeFile::builder()
        .set_samplerate(1000)
        .add_stream(&bits(&[1.0, 2.0]), GrapeTag::X)
        .build()
        .unwrap();
    // 1000/600 and 1500/1000 are not whole, and a rate of zero divides nothing
    assert_eq!(
        data.streams_with_sample_rate(600).unwrap_err(),
        GrapeFileError::UnsupportedRateRatio
    );
    assert_eq!(
        data.streams_with_sample_rate(1500).unwrap_err(),
        GrapeFileError::UnsupportedRateRatio
    );
    assert_eq!(
        data.streams_with_sample_rate(0).unwrap_err(),
        GrapeFileError::UnsupportedRateRatio
    );
    assert!(matches!(
        data.streams_with_sample_rate(1000),
        Ok(Resampled::Same(_))
    ));
}

#[test]
fn partial_frame_is_reported() {
    // a header announcing two streams over a single four-byte sample
    let mut buf = Vec::new();
    buf.extend_from_slice(b"(n_streams:2,sample_rate:1000,tags:[X,Y])");
    buf.push(0xFF);
    buf.extend_from_slice(&[0, 0, 0, 0]);
    let err = GrapeFile::from_bytes(&buf).unwrap_err();
    assert_eq!(err, GrapeFileError::PartialFrame);
}
