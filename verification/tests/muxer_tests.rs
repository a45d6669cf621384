use clipsave::download::muxer::{
    adjust_co64, adjust_stco, extract_child_box, find_box, insert_trak_into_moov, merge_video_audio, parse_mp4_boxes,
    try_merge_video_audio, Mp4Box,
};

#[test]
fn test_parse_mp4_boxes_minimal() {
    let data: Vec<u8> = vec![0, 0, 0, 12, b'f', b't', b'y', b'p', b'i', b's', b'o', b'm'];
    let boxes = parse_mp4_boxes(&data).unwrap();
    assert_eq!(boxes.len(), 1);
    assert_eq!(&boxes[0].box_type, b"ftyp");
    assert_eq!(boxes[0].size, 12);
}

#[test]
fn test_find_box() {
    let boxes = vec![
        Mp4Box { box_type: *b"ftyp", offset: 0, size: 12, data_offset: 8, data_size: 4 },
        Mp4Box { box_type: *b"moov", offset: 12, size: 100, data_offset: 20, data_size: 92 },
    ];
    assert!(find_box(&boxes, b"ftyp").is_some());
    assert!(find_box(&boxes, b"moov").is_some());
    assert!(find_box(&boxes, b"mdat").is_none());
}

#[test]
fn test_insert_trak_into_moov() {
    let moov_data = vec![
        0, 0, 0, 24, b'm', b'o', b'o', b'v', 0, 0, 0, 16, b'm', b'v', b'h', b'd', 0, 0, 0, 0, 0, 0, 0, 0,
    ];
    let audio_trak = vec![0, 0, 0, 12, b't', b'r', b'a', b'k', 1, 2, 3, 4];
    let result = insert_trak_into_moov(&moov_data, &audio_trak);
    let new_size = u32::from_be_bytes([result[0], result[1], result[2], result[3]]);
    assert_eq!(new_size, 36);
    assert_eq!(&result[4..8], b"moov");
}

#[test]
fn test_adjust_stco() {
    let mut data = vec![0, 0, 0, 20, b's', b't', b'c', b'o', 0, 0, 0, 0, 0, 0, 0, 1, 0, 0, 0, 100];
    adjust_stco(&mut data, 50);
    let new_offset = u32::from_be_bytes([data[16], data[17], data[18], data[19]]);
    assert_eq!(new_offset, 150);
}

#[test]
fn test_adjust_co64_negative_delta() {
    let mut data = vec![
        0, 0, 0, 24, b'c', b'o', b'6', b'4', 0, 0, 0, 0, 0, 0, 0, 1, 0, 0, 0, 0, 0, 0, 1, 0,
    ];
    adjust_co64(&mut data, -16);
    let v = u64::from_be_bytes([data[16], data[17], data[18], data[19], data[20], data[21], data[22], data[23]]);
    assert_eq!(v, 240);
}

#[test]
fn test_parse_zero_size_box_runs_to_end() {
    let data: Vec<u8> = vec![0, 0, 0, 12, b'f', b't', b'y', b'p', b'i', b's', b'o', b'm', 0, 0, 0, 0, b'f', b'r', b'e', b'e'];
    let boxes = parse_mp4_boxes(&data).unwrap();
    assert_eq!(boxes.len(), 2);
    assert_eq!(&boxes[1].box_type, b"free");
    assert_eq!(boxes[1].size, 8);
    let truncated: Vec<u8> = vec![0, 0, 0, 40, b'm', b'o', b'o', b'v', 1, 2];
    assert!(parse_mp4_boxes(&truncated).unwrap().is_empty());
}

fn mp4_box(kind: &[u8; 4], payload: &[u8]) -> Vec<u8> {
    let mut v = ((payload.len() + 8) as u32).to_be_bytes().to_vec();
    v.extend_from_slice(kind);
    v.extend_from_slice(payload);
    v
}

fn track(kind: &[u8; 4]) -> Vec<u8> {
    let stco = mp4_box(b"stco", &[0, 0, 0, 0, 0, 0, 0, 1, 0, 0, 0, 40]);
    let stbl = mp4_box(b"stbl", &stco);
    let minf = mp4_box(b"minf", &stbl);
    let mdia = mp4_box(b"mdia", &minf);
    let mut trak_payload = mdia;
    trak_payload.extend_from_slice(kind);
    mp4_box(b"trak", &trak_payload)
}

#[test]
fn test_merge_requires_moov_and_mdat() {
    let only_ftyp = mp4_box(b"ftyp", b"isom");
    assert!(merge_video_audio(&only_ftyp, &only_ftyp).is_err());
    assert!(matches!(try_merge_video_audio(&only_ftyp, &only_ftyp), Some(Err(_))));
}

#[test]
fn test_merge_joins_tracks_and_media() {
    let ftyp = mp4_box(b"ftyp", b"isom");
    let vmoov = mp4_box(b"moov", &track(b"vide"));
    let vmdat = mp4_box(b"mdat", &[1, 2, 3, 4]);
    let amoov = mp4_box(b"moov", &track(b"soun"));
    let amdat = mp4_box(b"mdat", &[9, 9]);
    let mut video = ftyp.clone();
    video.extend_from_slice(&vmoov);
    video.extend_from_slice(&vmdat);
    let mut audio = ftyp.clone();
    audio.extend_from_slice(&amoov);
    audio.extend_from_slice(&amdat);
    let out = merge_video_audio(&video, &audio).unwrap();
    let boxes = parse_mp4_boxes(&out).unwrap();
    let kinds: Vec<[u8; 4]> = boxes.iter().map(|b| b.box_type).collect();
    assert_eq!(kinds, vec![*b"ftyp", *b"moov", *b"mdat"]);
    let mdat = boxes.iter().find(|b| &b.box_type == b"mdat").unwrap();
    assert_eq!(&out[mdat.data_offset..mdat.data_offset + mdat.data_size], &[1, 2, 3, 4, 9, 9]);
    let moov = boxes.iter().find(|b| &b.box_type == b"moov").unwrap();
    assert_eq!(moov.size, vmoov.len() + track(b"soun").len());
}

#[test]
fn test_inserted_trak_is_found() {
    let mut moov: Vec<u8> = vec![0, 0, 0, 24, b'm', b'o', b'o', b'v'];
    moov.extend_from_slice(&[0, 0, 0, 16, b'm', b'v', b'h', b'd', 1, 2, 3, 4, 5, 6, 7, 8]);
    let trak: Vec<u8> = vec![0, 0, 0, 12, b't', b'r', b'a', b'k', 9, 9, 9, 9];
    let merged = insert_trak_into_moov(&moov, &trak);
    assert_eq!(merged.len(), 36);
    assert_eq!(&merged[0..4], &[0, 0, 0, 36]);
    assert_eq!(extract_child_box(&merged, b"trak"), Some(trak));
}
