use import_videos::media::mp4::{
    read_creation_time, read_gpmd_index, read_gpmd_payload, read_hilights, Mp4Error, MAC_EPOCH_OFFSET_SECS,
};

/// Assembles one box: 4-byte BE size + 4-byte fourcc + payload.
fn make_box(fourcc: &[u8; 4], payload: &[u8]) -> Vec<u8> {
    let mut buf = Vec::with_capacity(8 + payload.len());
    buf.extend_from_slice(&((8 + payload.len()) as u32).to_be_bytes());
    buf.extend_from_slice(fourcc);
    buf.extend_from_slice(payload);
    buf
}

/// The 64-bit extended-size form (`size == 1` then an 8-byte size).
fn make_box_64(fourcc: &[u8; 4], payload: &[u8]) -> Vec<u8> {
    let mut buf = Vec::with_capacity(16 + payload.len());
    buf.extend_from_slice(&1u32.to_be_bytes());
    buf.extend_from_slice(fourcc);
    buf.extend_from_slice(&((16 + payload.len()) as u64).to_be_bytes());
    buf.extend_from_slice(payload);
    buf
}

fn make_container(fourcc: &[u8; 4], children: &[Vec<u8>]) -> Vec<u8> {
    make_box(fourcc, &children.concat())
}

fn hmmt_payload(offsets: &[u32]) -> Vec<u8> {
    let mut payload = Vec::with_capacity(4 + offsets.len() * 4);
    payload.extend_from_slice(&(offsets.len() as u32).to_be_bytes());
    for offset in offsets {
        payload.extend_from_slice(&offset.to_be_bytes());
    }
    payload
}

fn mvhd_v0(creation_time: u32) -> Vec<u8> {
    let mut payload = vec![0u8; 4];
    payload.extend_from_slice(&creation_time.to_be_bytes());
    make_box(b"mvhd", &payload)
}

fn mvhd_v1(creation_time: u64) -> Vec<u8> {
    let mut payload = vec![1u8, 0, 0, 0];
    payload.extend_from_slice(&creation_time.to_be_bytes());
    make_box(b"mvhd", &payload)
}

#[test]
fn markers_parsed_from_hmmt() {
    let hmmt = make_box(b"HMMT", &hmmt_payload(&[5000, 73000]));
    let udta = make_container(b"udta", &[hmmt]);
    let moov = make_container(b"moov", &[udta]);
    let markers = read_hilights(&moov).unwrap();
    assert_eq!(markers, vec![5000, 73000]);
}

#[test]
fn no_hmmt_box_means_no_markers() {
    let udta = make_container(b"udta", &[]);
    let moov = make_container(b"moov", &[udta]);
    assert_eq!(read_hilights(&moov).unwrap(), Vec::<u32>::new());
}

#[test]
fn zero_count_means_no_markers() {
    let hmmt = make_box(b"HMMT", &hmmt_payload(&[]));
    let udta = make_container(b"udta", &[hmmt]);
    let moov = make_container(b"moov", &[udta]);
    assert_eq!(read_hilights(&moov).unwrap(), Vec::<u32>::new());
}

#[test]
fn missing_moov_means_no_markers() {
    let ftyp = make_box(b"ftyp", b"isom");
    assert_eq!(read_hilights(&ftyp).unwrap(), Vec::<u32>::new());
}

#[test]
fn mvhd_version_0_creation_time() {
    let moov = make_container(b"moov", &[mvhd_v0(3_155_673_600)]);
    let ts = read_creation_time(&moov).unwrap();
    assert_eq!(ts, 3_155_673_600 - MAC_EPOCH_OFFSET_SECS);
    assert_eq!(ts, 1_072_828_800);
}

#[test]
fn mvhd_version_1_creation_time() {
    let moov = make_container(b"moov", &[mvhd_v1(3_155_673_600)]);
    let ts = read_creation_time(&moov).unwrap();
    assert_eq!(ts, 3_155_673_600 - MAC_EPOCH_OFFSET_SECS);
}

#[test]
fn extended_64_bit_box_size_is_handled() {
    let mvhd = mvhd_v0(3_155_673_600);
    let moov = make_box_64(b"moov", &mvhd);
    let ts = read_creation_time(&moov).unwrap();
    assert_eq!(ts, 3_155_673_600 - MAC_EPOCH_OFFSET_SECS);
}

#[test]
fn missing_mvhd_is_an_error() {
    let moov = make_container(b"moov", &[]);
    assert!(matches!(read_creation_time(&moov), Err(Mp4Error::BoxNotFound(ref name)) if name == "mvhd"));
}

#[test]
fn truncated_input_fails_without_panic() {
    let mut bytes = 5000u32.to_be_bytes().to_vec();
    bytes.extend_from_slice(b"moov");
    bytes.extend_from_slice(b"short");
    assert!(read_hilights(&bytes).is_err());
}

#[test]
fn mp4_garbage_input_fails_without_panic() {
    assert!(read_hilights(&[0xFF; 3]).is_err());
    assert!(read_creation_time(&[0xFF; 3]).is_err());
}

#[test]
fn creation_time_before_the_timestamp_range_is_refused() {
    // A 64-bit creation time far past year 9999 cannot be a timestamp.
    let moov = make_container(b"moov", &[mvhd_v1(u64::MAX / 2)]);
    assert!(matches!(read_creation_time(&moov), Err(Mp4Error::Malformed(_))));
}

fn hdlr(handler_type: &[u8; 4]) -> Vec<u8> {
    let mut payload = vec![0u8; 8];
    payload.extend_from_slice(handler_type);
    payload.extend_from_slice(&[0u8; 12]);
    make_box(b"hdlr", &payload)
}

fn stsd(format: &[u8; 4]) -> Vec<u8> {
    let mut entry = Vec::new();
    entry.extend_from_slice(&16u32.to_be_bytes());
    entry.extend_from_slice(format);
    entry.extend_from_slice(&[0u8; 8]);
    let mut payload = vec![0u8; 4];
    payload.extend_from_slice(&1u32.to_be_bytes());
    payload.extend_from_slice(&entry);
    make_box(b"stsd", &payload)
}

fn mdhd(timescale: u32) -> Vec<u8> {
    let mut payload = vec![0u8; 4];
    payload.extend_from_slice(&[0u8; 4]);
    payload.extend_from_slice(&[0u8; 4]);
    payload.extend_from_slice(&timescale.to_be_bytes());
    payload.extend_from_slice(&[0u8; 4]);
    make_box(b"mdhd", &payload)
}

fn stsz(sizes: &[u32]) -> Vec<u8> {
    let mut payload = vec![0u8; 4];
    payload.extend_from_slice(&0u32.to_be_bytes());
    payload.extend_from_slice(&(sizes.len() as u32).to_be_bytes());
    for size in sizes {
        payload.extend_from_slice(&size.to_be_bytes());
    }
    make_box(b"stsz", &payload)
}

fn stsc(entries: &[(u32, u32, u32)]) -> Vec<u8> {
    let mut payload = vec![0u8; 4];
    payload.extend_from_slice(&(entries.len() as u32).to_be_bytes());
    for (first_chunk, samples_per_chunk, sdi) in entries {
        payload.extend_from_slice(&first_chunk.to_be_bytes());
        payload.extend_from_slice(&samples_per_chunk.to_be_bytes());
        payload.extend_from_slice(&sdi.to_be_bytes());
    }
    make_box(b"stsc", &payload)
}

fn stco(offsets: &[u32]) -> Vec<u8> {
    let mut payload = vec![0u8; 4];
    payload.extend_from_slice(&(offsets.len() as u32).to_be_bytes());
    for offset in offsets {
        payload.extend_from_slice(&offset.to_be_bytes());
    }
    make_box(b"stco", &payload)
}

fn stts(entries: &[(u32, u32)]) -> Vec<u8> {
    let mut payload = vec![0u8; 4];
    payload.extend_from_slice(&(entries.len() as u32).to_be_bytes());
    for (count, delta) in entries {
        payload.extend_from_slice(&count.to_be_bytes());
        payload.extend_from_slice(&delta.to_be_bytes());
    }
    make_box(b"stts", &payload)
}

fn gpmd_trak(timescale: u32, sizes: &[u32], stsc_entries: &[(u32, u32, u32)], offsets: &[u32]) -> Vec<u8> {
    let stbl = make_container(
        b"stbl",
        &[
            stsd(b"gpmd"),
            stsz(sizes),
            stsc(stsc_entries),
            stco(offsets),
            stts(&[(sizes.len() as u32, timescale / sizes.len().max(1) as u32)]),
        ],
    );
    let minf = make_container(b"minf", &[stbl]);
    let mdia = make_container(b"mdia", &[hdlr(b"meta"), mdhd(timescale), minf]);
    make_container(b"trak", &[mdia])
}

fn other_trak(handler_type: &[u8; 4], stsd_format: &[u8; 4]) -> Vec<u8> {
    let stbl = make_container(b"stbl", &[stsd(stsd_format)]);
    let minf = make_container(b"minf", &[stbl]);
    let mdia = make_container(b"mdia", &[hdlr(handler_type), mdhd(1000), minf]);
    make_container(b"trak", &[mdia])
}

#[test]
fn gpmd_track_found_among_other_tracks() {
    let video = other_trak(b"vide", b"avc1");
    let audio = other_trak(b"soun", b"mp4a");
    let other_meta = other_trak(b"meta", b"fdsc");
    let gpmd = gpmd_trak(1000, &[10, 12], &[(1, 1, 1)], &[100, 200]);
    let moov = make_container(b"moov", &[video, audio, other_meta, gpmd]);
    let index = read_gpmd_index(&moov).unwrap().unwrap();
    assert_eq!(index.samples.len(), 2);
}

#[test]
fn file_without_gpmd_track_yields_none() {
    let video = other_trak(b"vide", b"avc1");
    let moov = make_container(b"moov", &[video]);
    assert!(read_gpmd_index(&moov).unwrap().is_none());
}

#[test]
fn index_built_from_sample_tables_across_multiple_chunks() {
    let stbl = make_container(
        b"stbl",
        &[
            stsd(b"gpmd"),
            stsz(&[10, 20, 30]),
            stsc(&[(1, 2, 1), (2, 1, 1)]),
            stco(&[1000, 2000]),
            stts(&[(3, 1000)]),
        ],
    );
    let minf = make_container(b"minf", &[stbl]);
    let mdia = make_container(b"mdia", &[hdlr(b"meta"), mdhd(1000), minf]);
    let trak = make_container(b"trak", &[mdia]);
    let moov = make_container(b"moov", &[trak]);
    let index = read_gpmd_index(&moov).unwrap().unwrap();
    let time_s = |i: usize| index.samples[i].start_units as f64 / index.timescale as f64;
    assert_eq!(index.samples.len(), 3);
    assert_eq!(index.samples[0].offset, 1000);
    assert_eq!(index.samples[0].size, 10);
    assert_eq!(time_s(0), 0.0);
    assert_eq!(index.samples[1].offset, 1010);
    assert_eq!(time_s(1), 1.0);
    assert_eq!(index.samples[2].offset, 2000, "chunk 2's sample starts at its own chunk offset");
    assert_eq!(time_s(2), 2.0);
}

#[test]
fn corrupt_sample_table_fails_cleanly() {
    let stbl = make_container(
        b"stbl",
        &[stsd(b"gpmd"), stsz(&[10, 20, 30]), stsc(&[(1, 1, 1)]), stco(&[1000]), stts(&[(3, 1000)])],
    );
    let minf = make_container(b"minf", &[stbl]);
    let mdia = make_container(b"mdia", &[hdlr(b"meta"), mdhd(1000), minf]);
    let trak = make_container(b"trak", &[mdia]);
    let moov = make_container(b"moov", &[trak]);
    assert!(read_gpmd_index(&moov).is_err());
}

#[test]
fn payload_read_at_indexed_offset() {
    const SENTINEL: u32 = 0xAB19_2F03;
    let stbl = make_container(
        b"stbl",
        &[stsd(b"gpmd"), stsz(&[5]), stsc(&[(1, 1, 1)]), stco(&[SENTINEL]), stts(&[(1, 1000)])],
    );
    let minf = make_container(b"minf", &[stbl]);
    let mdia = make_container(b"mdia", &[hdlr(b"meta"), mdhd(1000), minf]);
    let trak = make_container(b"trak", &[mdia]);
    let mut moov_bytes = make_container(b"moov", &[trak]);
    let payload = b"hello";
    let payload_offset = moov_bytes.len() as u32;
    moov_bytes.extend_from_slice(payload);
    let marker = SENTINEL.to_be_bytes();
    let pos = moov_bytes.windows(4).position(|w| w == marker).expect("stco sentinel not found");
    moov_bytes[pos..pos + 4].copy_from_slice(&payload_offset.to_be_bytes());
    let index = read_gpmd_index(&moov_bytes).unwrap().unwrap();
    assert_eq!(index.samples.len(), 1);
    let bytes = read_gpmd_payload(&moov_bytes, &index.samples[0]).unwrap();
    assert_eq!(bytes, payload);
}

#[test]
fn payload_past_the_end_is_an_error() {
    let sample = import_videos::media::mp4::GpmdSample { offset: 10, size: 5, start_units: 0, duration_units: 1 };
    assert!(read_gpmd_payload(&[0u8; 12], &sample).is_err());
}
