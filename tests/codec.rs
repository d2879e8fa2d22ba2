use radio_streamer::codec::{
    decimal_string, decoder_args, decoder_exit_error, encoder_args, parse_packet_line,
    seconds_string, PacketInfo, TimingHints,
};
use radio_streamer::formats::OutputFormat;

const LINE: &str = "muxer <- type:audio pkt_pts:288639 pkt_pts_time:6.01331 pkt_dts:288639 pkt_dts_time:6.01331 size:17836";

#[test]
fn packet_line_is_read() {
    assert_eq!(
        parse_packet_line(LINE),
        Some(PacketInfo { pts: 6_013, dts: 6_013, size: 17_836 })
    );
}

#[test]
fn packet_report_is_found_inside_a_longer_line() {
    let line = format!("[out#0/s16le] {} extra", LINE);
    assert_eq!(parse_packet_line(&line).map(|p| p.size), Some(17_836));
    let line = "muxer <- type:audio pkt_pts:1 pkt_pts_time:0.5 pkt_dts:1 pkt_dts_time:0.25 size:4";
    assert_eq!(parse_packet_line(line), Some(PacketInfo { pts: 500, dts: 250, size: 4 }));
}

#[test]
fn other_lines_report_nothing() {
    assert_eq!(parse_packet_line(""), None);
    assert_eq!(parse_packet_line("demuxer -> ist_index:0 type:audio"), None);
    assert_eq!(parse_packet_line("muxer <- type:audio pkt_pts:1 pkt_pts_time:6 pkt_dts:1 pkt_dts_time:6.0 size:1"), None);
    assert_eq!(parse_packet_line("muxer <- type:video pkt_pts:1 pkt_pts_time:6.0 pkt_dts:1 pkt_dts_time:6.0 size:1"), None);
}

#[test]
fn timing_hints_inherit_the_last_report() {
    let mut h = TimingHints::new();
    assert_eq!(h.current(), (0, 0));
    h.observe_line(LINE);
    assert_eq!(h.current(), (6_013, 6_013));
    h.observe_line("size=  12kB time=00:00:06.01");
    assert_eq!(h.current(), (6_013, 6_013));
}

#[test]
fn decoder_exit_codes() {
    assert_eq!(decoder_exit_error(Some(0), false), None);
    assert_eq!(decoder_exit_error(Some(1), false), Some(1));
    assert_eq!(decoder_exit_error(Some(1), true), None);
    assert_eq!(decoder_exit_error(Some(255), true), Some(255));
    assert_eq!(decoder_exit_error(None, false), None);
}

#[test]
fn numbers_are_written_for_the_toolchain() {
    assert_eq!(decimal_string(0), "0");
    assert_eq!(decimal_string(48_000), "48000");
    assert_eq!(seconds_string(1_500), "1.5000");
    assert_eq!(seconds_string(0), "0.0000");
    assert_eq!(seconds_string(65_007), "65.0070");
}

#[test]
fn decoder_command_line() {
    let args = decoder_args("http://x/a.mp3", 2_500);
    let expected = [
        "-debug_ts", "-v", "info", "-nostats", "-hide_banner", "-ss", "2.5000", "-i",
        "http://x/a.mp3", "-vn", "-codec:a", "pcm_s16le", "-ar", "48000", "-ac", "2", "-f",
        "s16le", "-",
    ];
    assert_eq!(args, expected);
}

#[test]
fn encoder_command_line() {
    let args = encoder_args(OutputFormat::Aack128);
    let tail: Vec<&str> = args[22..].iter().map(|s| s.as_str()).collect();
    assert_eq!(tail, ["-b:a", "128k", "-codec:a", "aac", "-f", "adts", "-"]);
    let args = encoder_args(OutputFormat::Mp3k256);
    assert_eq!(args[23], "256k");
    assert_eq!(args[25], "libmp3lame");
    assert_eq!(args[27], "mp3");
    assert_eq!(args.len(), 29);
}
