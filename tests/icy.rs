use radio_streamer::icy::{IcyMuxer, ICY_METADATA_INTERVAL};

/// Takes the metadata blocks out of a muxed stream.
fn strip(out: &[u8], interval: usize) -> Vec<u8> {
    let mut payload = Vec::new();
    let mut i = 0;
    let mut since = 0;
    while i < out.len() {
        if since == interval {
            let n = out[i] as usize * 16;
            i += 1 + n;
            since = 0;
        } else {
            payload.push(out[i]);
            since += 1;
            i += 1;
        }
    }
    payload
}

fn audio(n: usize) -> Vec<u8> {
    (0..n).map(|i| (i * 7 % 256) as u8).collect()
}

#[test]
fn stripping_blocks_gives_the_plain_stream() {
    let mut m = IcyMuxer::new();
    m.send_track_title("Artist - Song");
    let input = audio(3 * ICY_METADATA_INTERVAL + 100);
    let mut out = Vec::new();
    for chunk in input.chunks(1000) {
        let piece = m.handle_bytes(&chunk.to_vec());
        out.extend_from_slice(&piece);
        if out.len() > 20_000 {
            m.send_track_title("Next");
        }
    }
    assert_eq!(strip(&out, ICY_METADATA_INTERVAL), input);
}

#[test]
fn title_block_layout() {
    let mut m = IcyMuxer::with_interval(4);
    m.send_track_title("ab");
    let out = m.handle_bytes(&vec![1, 2, 3, 4, 5]);
    // "StreamTitle='ab';" is 17 bytes: 2 units of 16
    let text = b"StreamTitle='ab';";
    assert_eq!(&out[..4], &[1, 2, 3, 4]);
    assert_eq!(out[4], 2);
    assert_eq!(&out[5..22], text);
    assert!(out[22..37].iter().all(|b| *b == 0));
    assert_eq!(&out[37..], &[5]);
    assert_eq!(m.since_block, 1);
}

#[test]
fn block_without_new_title_is_one_zero_byte() {
    let mut m = IcyMuxer::with_interval(3);
    let out = m.handle_bytes(&vec![9, 9, 9, 8, 8, 8, 7]);
    assert_eq!(out, vec![9, 9, 9, 0, 8, 8, 8, 0, 7]);
    assert!(m.pending.is_none());
}

#[test]
fn blocks_fall_every_interval_across_calls() {
    let mut m = IcyMuxer::with_interval(5);
    let a = m.handle_bytes(&vec![1, 1, 1]);
    let b = m.handle_bytes(&vec![2, 2, 2, 2]);
    assert_eq!(a, vec![1, 1, 1]);
    assert_eq!(b, vec![2, 2, 0, 2, 2]);
    assert_eq!(m.since_block, 2);
}

#[test]
fn long_titles_are_cut_to_one_block() {
    let mut m = IcyMuxer::with_interval(1);
    let long = "x".repeat(5000);
    m.send_track_title(&long);
    let out = m.handle_bytes(&vec![0]);
    assert_eq!(out[1], 255);
    assert_eq!(out.len(), 1 + 1 + 255 * 16);
    assert_eq!(&out[out.len() - 2..], b"';");
}
