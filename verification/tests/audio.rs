use jukebox::audio::{
    aac_object_type, chosen_device, device_list, he_aac_message, is_he_aac, open_device_index, opus_channels,
    resolve_device, song_progress, trim_packet, Ending,
};
use jukebox::mp4::{delay_from_text, priming_frames};
use jukebox::types::AudioDevice;

fn bx(kind: &[u8; 4], payload: &[u8]) -> Vec<u8> {
    let mut out = ((payload.len() + 8) as u32).to_be_bytes().to_vec();
    out.extend_from_slice(kind);
    out.extend_from_slice(payload);
    out
}

fn sound_track(timescale: u32, media_times: &[i32]) -> Vec<u8> {
    let mut hdlr = vec![0u8; 8];
    hdlr.extend_from_slice(b"soun");
    hdlr.extend_from_slice(&[0u8; 12]);
    let mut mdhd = vec![0u8; 12];
    mdhd.extend_from_slice(&timescale.to_be_bytes());
    mdhd.extend_from_slice(&[0u8; 8]);
    let mdia = [bx(b"hdlr", &hdlr), bx(b"mdhd", &mdhd)].concat();
    let mut elst = vec![0u8; 4];
    elst.extend_from_slice(&(media_times.len() as u32).to_be_bytes());
    for t in media_times {
        elst.extend_from_slice(&1000u32.to_be_bytes());
        elst.extend_from_slice(&t.to_be_bytes());
        elst.extend_from_slice(&0x0001_0000u32.to_be_bytes());
    }
    let edts = bx(b"elst", &elst);
    bx(b"trak", &[bx(b"mdia", &mdia), bx(b"edts", &edts)].concat())
}

#[test]
fn edit_lists_give_the_priming() {
    let file = [bx(b"ftyp", b"M4A "), bx(b"moov", &sound_track(44_100, &[-1, 2112]))].concat();
    assert_eq!(priming_frames(&file, 44_100), Some(2112));
    assert_eq!(priming_frames(&file, 48_000), Some(2112 * 48_000 / 44_100));
    let none = [bx(b"moov", &sound_track(44_100, &[0]))].concat();
    assert_eq!(priming_frames(&none, 44_100), None);
    assert_eq!(priming_frames(b"not an mp4", 44_100), None);
}

#[test]
fn itunes_tags_give_the_priming_when_there_is_no_edit() {
    let mut name = vec![0u8; 4];
    name.extend_from_slice(b"iTunSMPB");
    let mut data = vec![0u8; 8];
    data.extend_from_slice(b" 00000000 00000840 000001C0 0000000000A2C980");
    let item = bx(b"----", &[bx(b"mean", b"\0\0\0\0com.apple.iTunes"), bx(b"name", &name), bx(b"data", &data)].concat());
    let ilst = bx(b"ilst", &item);
    let mut meta = vec![0u8; 4];
    meta.extend_from_slice(&ilst);
    let udta = bx(b"udta", &bx(b"meta", &meta));
    let file = bx(b"moov", &udta);
    assert_eq!(priming_frames(&file, 44_100), Some(0x840));
}

#[test]
fn delays_are_read_from_the_second_hex_field() {
    assert_eq!(delay_from_text(" 00000000 00000840 000001C0"), Some(0x840));
    assert_eq!(delay_from_text("0 +ff"), Some(255));
    assert_eq!(delay_from_text("0 0"), None);
    assert_eq!(delay_from_text("0 xyz"), None);
    assert_eq!(delay_from_text("only"), None);
    assert_eq!(delay_from_text("0 10000000000000000"), None);
}

#[test]
fn aac_object_types_and_he_aac() {
    assert_eq!(aac_object_type(&[0x12, 0x10]), Some(2));
    assert_eq!(aac_object_type(&[0x2b, 0x92]), Some(5));
    assert_eq!(aac_object_type(&[0xf8, 0xa0]), Some(37));
    assert_eq!(aac_object_type(&[0xf8]), None);
    assert_eq!(aac_object_type(&[]), None);
    assert!(!is_he_aac(false, Some(2), 44_100));
    assert!(is_he_aac(false, Some(5), 44_100));
    assert!(is_he_aac(false, Some(29), 44_100));
    assert!(is_he_aac(true, Some(2), 44_100));
    assert!(is_he_aac(false, None, 24_000));
    assert_eq!(he_aac_message(), "HE-AAC isn't supported: it would play muffled, at half its bandwidth");
    assert_eq!(opus_channels(2), Ok(2));
    assert_eq!(opus_channels(6), Err("6-channel Opus isn't supported".to_string()));
}

#[test]
fn packets_lose_their_padding_and_what_precedes_a_seek() {
    let t = trim_packet(1024, 100, 24, 0, None, 0);
    assert_eq!((t.start, t.end, t.seek_target, t.skip_frames), (100, 1000, None, 0));
    let t = trim_packet(1024, 0, 0, 4096, Some(4500), 0);
    assert_eq!((t.start, t.end, t.seek_target), (404, 1024, None));
    let t = trim_packet(1024, 0, 0, 0, Some(5000), 0);
    assert_eq!((t.start, t.end, t.seek_target), (1024, 1024, Some(5000)), "the whole packet precedes the target");
    let t = trim_packet(1024, 0, 0, 0, None, 3000);
    assert_eq!((t.start, t.skip_frames), (1024, 1976));
    let t = trim_packet(10, 20, 0, 0, None, 0);
    assert_eq!((t.start, t.end), (10, 10));
}

#[test]
fn songs_start_once_and_end_when_the_output_runs_dry() {
    assert!(matches!(song_progress(false, 0, false), (false, false, Ending::Playing)));
    assert!(matches!(song_progress(false, 10, false), (true, true, Ending::Playing)));
    assert!(matches!(song_progress(true, 10, false), (true, false, Ending::Playing)));
    assert!(matches!(song_progress(true, 10, true), (true, false, Ending::Ended)));
    assert!(matches!(song_progress(false, 10, true), (true, true, Ending::Ended)));
    assert!(matches!(song_progress(false, 0, true), (false, false, Ending::NoAudio)));
}

fn device(id: &str, label: &str) -> AudioDevice {
    AudioDevice { device_id: id.to_string(), label: label.to_string() }
}

#[test]
fn devices_are_chosen_by_id_or_label() {
    assert_eq!(chosen_device(Some("default".into())), None);
    assert_eq!(chosen_device(Some(String::new())), None);
    assert_eq!(chosen_device(None), None);
    assert_eq!(chosen_device(Some("hw:1".into())).as_deref(), Some("hw:1"));
    let devices = vec![device("hw:0", "Speakers"), device("hw:1", "USB DAC")];
    assert_eq!(resolve_device("hw:1", &devices), "hw:1");
    assert_eq!(resolve_device("USB DAC", &devices), "hw:1");
    assert_eq!(resolve_device("Unknown", &devices), "Unknown");
    let list = device_list(Some("Speakers".into()), devices.clone());
    assert_eq!(list[0], device("default", "Default - Speakers"));
    assert_eq!(&list[1..], &devices[..]);
    assert_eq!(device_list(None, Vec::new()), vec![device("default", "Default")]);
}

#[test]
fn the_first_connected_device_asked_for_is_opened() {
    let ids = vec!["a".to_string(), "b".to_string(), "b".to_string()];
    assert_eq!(open_device_index(&ids, &vec![false, true, true], None), Ok(1));
    assert_eq!(open_device_index(&ids, &vec![true, false, true], Some("b")), Ok(2));
    assert_eq!(open_device_index(&ids, &vec![true, false, false], Some("b")), Err("no output device b".to_string()));
    assert_eq!(open_device_index(&ids, &vec![false, false, false], None), Err("no output device".to_string()));
}
