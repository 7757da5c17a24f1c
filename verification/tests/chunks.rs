use switch_usb_host::packet::CommandPacket;
use switch_usb_host::tinfoil::download_frames;
use switch_usb_host::writer::{write_next_chunk, ChunkStatus};
use switch_usb_host::CHUNK_SIZE;

const CHUNK: usize = CHUNK_SIZE as usize;

#[test]
fn short_source_ends_immediately() {
    let data: Vec<u8> = (0..200u8).map(|b| b).collect();
    let mut pos = 0usize;
    let mut out: Vec<u8> = Vec::new();
    assert_eq!(write_next_chunk(&data, &mut pos, &mut out), ChunkStatus::End);
    assert_eq!(pos, 200);
    assert_eq!(out, data);
}

#[test]
fn exact_chunk_is_remaining_then_empty_end() {
    // A source of exactly one chunk: one full frame reports Remaining,
    // then an empty frame reports End; all bytes were written.
    let data: Vec<u8> = vec![7u8; CHUNK];
    let mut pos = 0usize;
    let mut out: Vec<u8> = Vec::new();
    assert_eq!(write_next_chunk(&data, &mut pos, &mut out), ChunkStatus::Remaining);
    assert_eq!(out.len(), CHUNK);
    assert_eq!(write_next_chunk(&data, &mut pos, &mut out), ChunkStatus::End);
    assert_eq!(out.len(), CHUNK);
    assert_eq!(out, data);
}

#[test]
fn long_source_statuses_and_total() {
    // N = CHUNK + 5: the run is Remaining then End, and the total number
    // of bytes written is N.
    let data: Vec<u8> = vec![9u8; CHUNK + 5];
    let mut pos = 0usize;
    let mut out: Vec<u8> = Vec::new();
    let mut statuses = Vec::new();
    loop {
        let st = write_next_chunk(&data, &mut pos, &mut out);
        let done = st == ChunkStatus::End;
        statuses.push(st);
        if done {
            break;
        }
    }
    assert_eq!(statuses, vec![ChunkStatus::Remaining, ChunkStatus::End]);
    assert_eq!(out, data);
}

#[test]
fn download_frames_header_then_chunks() {
    // A download of CHUNK + 3 bytes: two frames, each opened by a header
    // announcing a full chunk; the payloads reassemble the source.
    let mut data: Vec<u8> = vec![1u8; CHUNK];
    data.extend_from_slice(&[2, 3, 4]);
    let framed = download_frames(&data);
    assert_eq!(framed.len(), 32 + CHUNK + 32 + 3);
    let h1 = CommandPacket::from_raw(&framed[0..32]).expect("first header");
    assert_eq!(h1.cmd, 1);
    assert_eq!(h1.size, CHUNK_SIZE);
    let h2 = CommandPacket::from_raw(&framed[32 + CHUNK..64 + CHUNK]).expect("second header");
    assert_eq!(h2.size, CHUNK_SIZE);
    let mut payload = framed[32..32 + CHUNK].to_vec();
    payload.extend_from_slice(&framed[64 + CHUNK..]);
    assert_eq!(payload, data);
}

#[test]
fn download_frames_of_a_short_range() {
    // The scenario range 100..200 of a 300-byte file: one short frame
    // carrying exactly those 100 bytes.
    let file: Vec<u8> = (0..300u16).map(|b| (b % 251) as u8).collect();
    let range = file[100..200].to_vec();
    let framed = download_frames(&range);
    assert_eq!(framed.len(), 132);
    let h = CommandPacket::from_raw(&framed[0..32]).expect("framed");
    assert_eq!(h.cmd, 1);
    assert_eq!(h.size, CHUNK_SIZE);
    assert_eq!(&framed[32..], &file[100..200]);
}
