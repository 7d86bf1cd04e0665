//! Reading and writing of MP4 containers.

use dji_telemetry_export::mp4::builder::{build, TrackSpec};
use dji_telemetry_export::mp4::{
    box_step, find_boxes, find_moov, large_box_step, mp4_time, parse_moov, read_movie, top_level_boxes,
    BoxHeader, BoxStep, Mp4Error, MP4_EPOCH_OFFSET,
};

#[test]
fn parses_synthetic_file_with_interleaved_chunks() {
    let video: Vec<Vec<u8>> = (0..7).map(|i| vec![i as u8; 100 + i]).collect();
    let meta: Vec<Vec<u8>> = (0..7).map(|i| vec![0xA0 + i as u8; 10 + i]).collect();
    let file = build(
        &[
            TrackSpec {
                fourcc: b"hvc1",
                handler_type: b"vide",
                handler_name: "VideoHandler",
                timescale: 30000,
                sample_delta: 1001,
                samples: &video,
                chunk_size: 3,
            },
            TrackSpec {
                fourcc: b"djmd",
                handler_type: b"meta",
                handler_name: "DJI meta",
                timescale: 30000,
                sample_delta: 1001,
                samples: &meta,
                chunk_size: 2,
            },
        ],
        MP4_EPOCH_OFFSET as u64 + 1_789_000_000,
    );
    let movie = read_movie(&file).unwrap();
    assert_eq!(movie.tracks.len(), 2);
    assert_eq!(movie.creation_time.unwrap().timestamp(), 1_789_000_000);
    let track = movie.find_track("djmd").unwrap();
    assert_eq!(track.handler_name, "DJI meta");
    assert_eq!(track.handler_type, "meta");
    assert_eq!(track.sample_count(), 7);
    let times: Vec<f64> = track
        .ticks
        .iter()
        .map(|t| *t as f64 / f64::from(track.timescale))
        .collect();
    assert!((times[1] - 1001.0 / 30000.0).abs() < 1e-9);
    for (i, expected) in meta.iter().enumerate() {
        assert_eq!(&track.read_sample(&file, i).unwrap(), expected);
    }
    let video_track = movie.find_track("hvc1").unwrap();
    for (i, expected) in video.iter().enumerate() {
        assert_eq!(&video_track.read_sample(&file, i).unwrap(), expected);
    }
}

#[test]
fn missing_moov_is_reported() {
    assert!(matches!(read_movie(b"\0\0\0\x08free"), Err(Mp4Error::NoMoov)));
}

fn one_track(samples: &[Vec<u8>], chunk_size: usize, created: u64) -> Vec<u8> {
    build(
        &[TrackSpec {
            fourcc: b"djmd",
            handler_type: b"meta",
            handler_name: "DJI meta",
            timescale: 1000,
            sample_delta: 40,
            samples,
            chunk_size,
        }],
        created,
    )
}

#[test]
fn boxes_of_a_file_are_listed() {
    let file = one_track(&[vec![1, 2, 3]], 1, 0);
    let boxes = top_level_boxes(&file).unwrap();
    let kinds: Vec<String> = boxes.iter().map(|b| b.kind_str()).collect();
    assert!(kinds.contains(&"moov".to_string()), "{kinds:?}");
    assert!(kinds.contains(&"mdat".to_string()), "{kinds:?}");
    assert_eq!(boxes[0].offset, 0);
    let total: u64 = boxes.iter().map(|b| b.size).sum();
    assert_eq!(total, file.len() as u64);

    let moov = find_moov(&boxes).unwrap();
    let from = moov.payload_offset() as usize;
    let to = from + moov.payload_len() as usize;
    let movie = parse_moov(&file[from..to]).unwrap();
    assert_eq!(movie.tracks.len(), 1);
    assert_eq!(movie.tracks[0].fourcc, "djmd");
}

#[test]
fn box_headers_step_by_step() {
    match box_step(0, 24, b"\0\0\0\x10free") {
        BoxStep::Found(b) => {
            assert_eq!(b.kind_str(), "free");
            assert_eq!((b.offset, b.header_len, b.size), (0, 8, 16));
            assert_eq!((b.payload_offset(), b.payload_len()), (8, 8));
        }
        other => panic!("unexpected {other:?}"),
    }
    // A size of 0 reaches to the end of the file.
    match box_step(4, 24, b"\0\0\0\0mdat") {
        BoxStep::Found(b) => assert_eq!(b.size, 20),
        other => panic!("unexpected {other:?}"),
    }
    // A size of 1 stands for a large one.
    assert!(matches!(box_step(0, 24, b"\0\0\0\x01mdat"), BoxStep::ReadLargeSize));
    match large_box_step(0, 24, b"\0\0\0\x01mdat", &[0, 0, 0, 0, 0, 0, 0, 24]) {
        BoxStep::Found(b) => assert_eq!((b.header_len, b.size), (16, 24)),
        other => panic!("unexpected {other:?}"),
    }
    // A box that reaches beyond the file is damaged.
    assert!(matches!(box_step(0, 24, b"\0\0\0\x19mdat"), BoxStep::Stop));
    assert!(matches!(box_step(0, 24, b"\0\0\0\x07mdat"), BoxStep::Stop));
}

#[test]
fn errors_have_texts() {
    assert_eq!(
        read_movie(b"").unwrap_err().message(),
        "not an MP4/MOV file: no `moov` box found"
    );
    // A large size that is cut off.
    let cut = b"\0\0\0\x01mdat\0\0".to_vec();
    let error = top_level_boxes(&cut).unwrap_err();
    assert!(matches!(error, Mp4Error::UnexpectedEof));
    assert_eq!(error.message(), "I/O error: failed to fill whole buffer");
    assert_eq!(
        Mp4Error::Malformed("no stsd").message(),
        "malformed MP4: no stsd"
    );
}

#[test]
fn a_broken_table_is_malformed() {
    let cases: [(&[u8], usize, &str); 4] = [
        (b"stsz", 12, "malformed MP4: short stsz table"),
        (b"co64", 8, "malformed MP4: short co64"),
        (b"stsc", 8, "malformed MP4: short stsc"),
        (b"stts", 8, "malformed MP4: short stts"),
    ];
    for (kind, count_at, expected) in cases {
        let mut file = one_track(&[vec![1, 2, 3]], 1, 0);
        let at = file.windows(4).position(|w| w == kind).unwrap();
        // More entries than the table has.
        file[at + count_at..at + count_at + 4].copy_from_slice(&[0, 0, 0xff, 0xff]);
        assert_eq!(read_movie(&file).unwrap_err().message(), expected);
    }
}

#[test]
fn a_huge_moov_is_not_read() {
    let moov = BoxHeader {
        kind: *b"moov",
        offset: 0,
        header_len: 8,
        size: 0x2000_0009,
    };
    assert_eq!(
        find_moov(&[moov]).unwrap_err().message(),
        "malformed MP4: moov box is unreasonably large"
    );
    let largest = BoxHeader {
        size: 0x2000_0008,
        ..moov
    };
    assert_eq!(find_moov(&[largest]).unwrap().payload_len(), 0x2000_0000);
}

#[test]
fn samples_read_back_in_any_chunking() {
    let samples: Vec<Vec<u8>> = (0..9u8).map(|i| vec![i; 3 + usize::from(i)]).collect();
    for chunk_size in [1, 2, 4, 9, 20] {
        let file = one_track(&samples, chunk_size, 0);
        let movie = read_movie(&file).unwrap();
        assert!(movie.creation_time.is_none());
        let track = movie.find_track("djmd").unwrap();
        assert_eq!(track.sizes, vec![3, 4, 5, 6, 7, 8, 9, 10, 11]);
        assert_eq!(track.ticks, (0..9).map(|i| i * 40).collect::<Vec<u64>>());
        for (i, s) in samples.iter().enumerate() {
            assert_eq!(track.read_sample(&file, i).as_ref(), Some(s));
        }
        // Without the end of the file the last sample is not whole.
        let end = track.offsets[8] as usize + 10;
        assert_eq!(track.read_sample(&file[..end], 8), None);
        assert!(movie.find_track("hvc1").is_none());
    }
}

#[test]
fn times_count_from_1904() {
    assert!(mp4_time(0).is_none());
    let t = mp4_time(MP4_EPOCH_OFFSET as u64 + 5).unwrap();
    assert_eq!(t.timestamp(), 5);
    let t = mp4_time(1).unwrap();
    assert_eq!(t.timestamp(), 1 - MP4_EPOCH_OFFSET);
}

#[test]
fn a_damaged_tail_does_no_harm() {
    let samples = vec![vec![1, 2, 3], vec![4]];
    let mut file = one_track(&samples, 1, 0);
    let boxes = top_level_boxes(&file).unwrap().len();
    file.extend_from_slice(b"\0\0\xff\xffmdat and then nothing");
    assert_eq!(top_level_boxes(&file).unwrap().len(), boxes);
    let movie = read_movie(&file).unwrap();
    let track = movie.find_track("djmd").unwrap();
    assert_eq!(track.read_sample(&file, 1).unwrap(), samples[1]);
}

#[test]
fn headers_tell_where_boxes_lie() {
    let mut file = b"\0\0\0\x0cfree....".to_vec();
    file.extend_from_slice(b"\0\0\0\x01mdat\0\0\0\0\0\0\0\x12ab");
    file.extend_from_slice(b"\0\0\0\0moovxyz");
    let boxes = top_level_boxes(&file).unwrap();
    let told: Vec<(String, u64, u64, u64)> = boxes
        .iter()
        .map(|b| (b.kind_str(), b.offset, b.header_len, b.size))
        .collect();
    assert_eq!(
        told,
        vec![
            ("free".to_string(), 0, 8, 12),
            ("mdat".to_string(), 12, 16, 18),
            ("moov".to_string(), 30, 8, 11),
        ]
    );
    assert_eq!(find_moov(&boxes).unwrap(), boxes[2]);
    // A damaged tail ends the list.
    file[33] = 200;
    assert_eq!(top_level_boxes(&file).unwrap(), boxes[..2].to_vec());
}

#[test]
fn paths_lead_into_boxes() {
    let code = |k: &[u8; 4]| u32::from_be_bytes(*k);
    let file = one_track(&[vec![1, 2, 3]], 1, 0);
    let n = file.len();
    assert_eq!(find_boxes(&file, &[], 3, n), vec![(3, n)]);
    let moov = find_boxes(&file, &[code(b"moov")], 0, n);
    assert_eq!(moov.len(), 1);
    let far = [code(b"moov"), code(b"trak"), code(b"mdia"), code(b"hdlr")];
    let whole = find_boxes(&file, &far, 0, n);
    assert_eq!(whole.len(), 1);
    assert_eq!(find_boxes(&file, &far[1..], moov[0].0, moov[0].1), whole);
    let (s, e) = whole[0];
    assert!(file[s..e].windows(8).any(|w| w == b"DJI meta"));
    assert!(find_boxes(&file, &[code(b"trak")], 0, n).is_empty());
}

#[test]
fn samples_lie_within_the_file() {
    let samples: Vec<Vec<u8>> = (0..5).map(|i| vec![i as u8; i + 1]).collect();
    let file = one_track(&samples, 2, 0);
    let movie = read_movie(&file).unwrap();
    let track = &movie.tracks[0];
    assert_eq!(track.sample_count(), 5);
    for (i, s) in samples.iter().enumerate() {
        assert!(track.offsets[i] + u64::from(track.sizes[i]) <= file.len() as u64);
        assert_eq!(track.read_sample(&file, i).as_ref(), Some(s));
    }
    assert!(track.ticks.windows(2).all(|w| w[0] <= w[1]));
    assert!(track.read_sample(&file[..30], 4).is_none());
}

#[test]
fn chunks_may_be_larger_than_their_track() {
    let samples: Vec<Vec<u8>> = (0..4).map(|i| vec![i as u8; 3]).collect();
    for chunk_size in [4, 5, usize::MAX] {
        let file = one_track(&samples, chunk_size, 0);
        let movie = read_movie(&file).unwrap();
        assert_eq!(movie.tracks[0].sample_count(), 4);
        for (i, s) in samples.iter().enumerate() {
            assert_eq!(movie.tracks[0].read_sample(&file, i).as_ref(), Some(s));
        }
    }
    let empty = read_movie(&one_track(&[], 0, 0)).unwrap();
    assert_eq!(empty.tracks[0].sample_count(), 0);
}
