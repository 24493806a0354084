//! The audio engine's decisions: which streams it refuses, how much of each decoded packet
//! is heard (gapless trimming and sample-accurate seeks), which output device a setting
//! means, and what a song's progress tells the queue. Decoding and the device itself run
//! around these.

use vstd::prelude::*;

use crate::text::{chars_of, push_str, same_text, string_of, texts, u64_decimal, decimal};
use crate::types::AudioDevice;

verus! {

/// The AudioSpecificConfig's object type: 2 is AAC-LC, 5 HE-AAC (SBR), 29 HE-AAC v2 (PS).
/// Types from 32 up are escaped: 31 in the first five bits, then six more bits.
pub open spec fn object_type_of(extra: Seq<u8>) -> Option<u8> {
    if extra.len() == 0 {
        None
    } else if extra[0] / 8 == 31 {
        if extra.len() < 2 {
            None
        } else {
            Some((32 + (extra[0] % 8) * 8 + extra[1] / 32) as u8)
        }
    } else {
        Some((extra[0] / 8) as u8)
    }
}

/// The AudioSpecificConfig's object type.
pub fn aac_object_type(extra: &[u8]) -> (r: Option<u8>)
    ensures
        r == object_type_of(extra@),
{
    if extra.len() == 0 {
        return None;
    }
    let first = extra[0];
    let object_type = first / 8;
    if object_type == 31 {
        if extra.len() < 2 {
            return None;
        }
        let second = extra[1];
        Some(32 + (first % 8) * 8 + second / 32)
    } else {
        Some(object_type)
    }
}

/// Whether an AAC stream is HE-AAC, which would decode only its core layer, at half the
/// bandwidth: signalled by its profile or object type (5 or 29), or implied by a rate of
/// 24 kHz or below, as real files usually signal the extra layer implicitly.
pub fn is_he_aac(profile_is_he: bool, object_type: Option<u8>, rate: u32) -> (r: bool)
    ensures
        r == (profile_is_he || object_type == Some(5u8) || object_type == Some(29u8) || rate <= 24000),
{
    profile_is_he || object_type == Some(5u8) || object_type == Some(29u8) || rate <= 24000
}

/// Why an HE-AAC stream is refused.
pub open spec fn he_aac_refusal() -> Seq<char> {
    "HE-AAC isn't supported: it would play muffled, at half its bandwidth"@
}

/// Why an HE-AAC stream is refused.
pub fn he_aac_message() -> (r: String)
    ensures
        r@ == he_aac_refusal(),
{
    let v = chars_of("HE-AAC isn't supported: it would play muffled, at half its bandwidth");
    string_of(v.as_slice())
}

/// The channel count libopus decodes a stream with: mono or stereo; more is refused.
pub fn opus_channels(channels: usize) -> (r: Result<usize, String>)
    ensures
        channels == 1 || channels == 2 ==> r == Ok::<usize, String>(channels),
        !(channels == 1 || channels == 2) ==> (r matches Err(m)
            && m@ == decimal(channels as nat) + "-channel Opus isn't supported"@),
{
    if channels == 1 || channels == 2 {
        Ok(channels)
    } else {
        let mut m = u64_decimal(channels as u64);
        push_str(&mut m, "-channel Opus isn't supported");
        Err(string_of(m.as_slice()))
    }
}

/// What is heard of a decoded packet: the frames from `start` to `end`, and what is still
/// owed to a seek and to the head.
pub struct Trimmed {
    pub start: u64,
    pub end: u64,
    pub seek_target: Option<u64>,
    pub skip_frames: u64,
}

/// `a - b`, or 0 below 0.
pub open spec fn sat_sub(a: int, b: int) -> int {
    if a > b { a - b } else { 0 }
}

/// What is heard of a packet of `frames` frames: first the encoder delay (`trim_start`)
/// and padding (`trim_end`) the packet carries are dropped; then, after a seek, whatever it
/// holds from before the target frame (the packet starts at frame `pts_frames` of the
/// stream); then whatever is still owed (`skip_frames`: a declared head, or the tail of an
/// Opus seek). The seek is done once a packet has frames left after it.
pub open spec fn trimmed(frames: u64, trim_start: u64, trim_end: u64, pts_frames: u64, seek_target: Option<u64>, skip_frames: u64) -> (int, int, Option<u64>, int) {
    let end = sat_sub(frames as int, trim_end as int);
    let start = if trim_start < end { trim_start as int } else { end };
    let (s2, target2) = match seek_target {
        Some(t) => {
            let have = end - start;
            let wanted = sat_sub(t as int, pts_frames + start);
            let drop = if wanted < have { wanted } else { have };
            (start + drop, if end - (start + drop) > 0 { None } else { seek_target })
        },
        None => (start, None::<u64>),
    };
    let have2 = end - s2;
    let drop2 = if skip_frames < have2 { skip_frames as int } else { have2 };
    (s2 + drop2, end, target2, skip_frames - drop2)
}

/// Gapless playback and sample-accurate seeking: which frames of a decoded packet are
/// heard, and what is owed afterwards.
pub fn trim_packet(frames: u64, trim_start: u64, trim_end: u64, pts_frames: u64, seek_target: Option<u64>, skip_frames: u64) -> (r: Trimmed)
    ensures
        (r.start as int, r.end as int, r.seek_target, r.skip_frames as int)
            == trimmed(frames, trim_start, trim_end, pts_frames, seek_target, skip_frames),
        r.start <= r.end <= frames,
{
    let end: u64 = if frames > trim_end { frames - trim_end } else { 0 };
    let mut start: u64 = if trim_start < end { trim_start } else { end };
    let mut target = seek_target;
    if let Some(t) = seek_target {
        let have = end - start;
        let packet_start: u128 = pts_frames as u128 + start as u128;
        let wanted: u128 = if (t as u128) > packet_start { t as u128 - packet_start } else { 0 };
        let drop: u64 = if wanted < have as u128 { wanted as u64 } else { have };
        start = start + drop;
        if end - start > 0 {
            target = None;
        }
    } else {
        target = None;
    }
    let have2 = end - start;
    let drop2 = if skip_frames < have2 { skip_frames } else { have2 };
    Trimmed { start: start + drop2, end, seek_target: target, skip_frames: skip_frames - drop2 }
}

/// Trimming never hears more than the packet holds, nor drops more owed frames than are
/// owed, and owes no less than before, less what it dropped.
pub proof fn trimming_stays_within_the_packet(frames: u64, trim_start: u64, trim_end: u64, pts_frames: u64, seek_target: Option<u64>, skip_frames: u64)
    ensures
        ({
            let (start, end, _, skip) = trimmed(frames, trim_start, trim_end, pts_frames, seek_target, skip_frames);
            &&& 0 <= start <= end <= frames
            &&& end == sat_sub(frames as int, trim_end as int)
            &&& 0 <= skip <= skip_frames
            &&& (skip > 0 ==> start == end)
        }),
{
}

/// The id the admin panel lists the system default under.
pub open spec fn default_device_id() -> Seq<char> {
    "default"@
}

/// The device a setting asks for: `None`, following the system default, for an empty
/// setting or the default's id.
pub fn chosen_device(setting: Option<String>) -> (r: Option<String>)
    ensures
        match setting {
            Some(s) if s@.len() > 0 && s@ != default_device_id() => r == Some(s),
            _ => r is None,
        },
{
    match setting {
        Some(s) => if s.as_str().is_empty() || same_text(s.as_str(), "default") { None } else { Some(s) },
        None => None,
    }
}

/// The device ids of a device list.
pub open spec fn ids_of(devices: Seq<AudioDevice>) -> Seq<Seq<char>> {
    devices.map_values(|d: AudioDevice| d.device_id@)
}

/// The id of the first device with label `label` from the `k`th on, if any.
pub open spec fn id_by_label(devices: Seq<AudioDevice>, label: Seq<char>, k: int) -> Option<Seq<char>>
    decreases devices.len() - k,
{
    if k >= devices.len() || k < 0 {
        None
    } else if devices[k].label@ == label {
        Some(devices[k].device_id@)
    } else {
        id_by_label(devices, label, k + 1)
    }
}

/// The device a setting names: a device id, as the admin panel saves it, or else a
/// device's label, as someone editing the file would write it. Unknown, it is tried as an
/// id.
pub open spec fn wanted_id(wanted: Seq<char>, devices: Seq<AudioDevice>) -> Seq<char> {
    if ids_of(devices).contains(wanted) {
        wanted
    } else {
        match id_by_label(devices, wanted, 0) {
            Some(id) => id,
            None => wanted,
        }
    }
}

/// The device id a setting names, given the devices there are.
pub fn resolve_device(wanted: &str, devices: &Vec<AudioDevice>) -> (r: String)
    ensures
        r@ == wanted_id(wanted@, devices@),
{
    let mut k: usize = 0;
    while k < devices.len()
        invariant
            k <= devices@.len(),
            forall|j: int| 0 <= j < k ==> devices@[j].device_id@ != wanted@,
        decreases devices@.len() - k,
    {
        if same_text(devices[k].device_id.as_str(), wanted) {
            assert(ids_of(devices@)[k as int] == wanted@);
            return crate::text::owned(wanted);
        }
        k = k + 1;
    }
    assert(!ids_of(devices@).contains(wanted@)) by {
        assert forall|j: int| 0 <= j < ids_of(devices@).len() implies ids_of(devices@)[j] != wanted@ by {
            assert(ids_of(devices@)[j] == devices@[j].device_id@);
        }
    }
    let mut k: usize = 0;
    while k < devices.len()
        invariant
            k <= devices@.len(),
            id_by_label(devices@, wanted@, 0) == id_by_label(devices@, wanted@, k as int),
            !ids_of(devices@).contains(wanted@),
        decreases devices@.len() - k,
    {
        if same_text(devices[k].label.as_str(), wanted) {
            return devices[k].device_id.clone();
        }
        k = k + 1;
    }
    crate::text::owned(wanted)
}

/// The admin panel's device list: the system default first, labelled with its name when
/// there is one, then every device.
pub open spec fn listed_devices(default_name: Option<Seq<char>>, devices: Seq<AudioDevice>) -> Seq<(Seq<char>, Seq<char>)> {
    seq![(default_device_id(), match default_name {
        Some(n) => "Default - "@ + n,
        None => "Default"@,
    })] + devices.map_values(|d: AudioDevice| (d.device_id@, d.label@))
}

/// The devices' ids and labels.
pub open spec fn devices_view(devices: Seq<AudioDevice>) -> Seq<(Seq<char>, Seq<char>)> {
    devices.map_values(|d: AudioDevice| (d.device_id@, d.label@))
}

/// The admin panel's device list.
pub fn device_list(default_name: Option<String>, devices: Vec<AudioDevice>) -> (r: Vec<AudioDevice>)
    ensures
        devices_view(r@) == listed_devices(match default_name { Some(n) => Some(n@), None => None }, devices@),
{
    let label = match default_name {
        Some(n) => {
            let mut m = chars_of("Default - ");
            push_str(&mut m, n.as_str());
            string_of(m.as_slice())
        },
        None => crate::text::owned("Default"),
    };
    let mut out: Vec<AudioDevice> = Vec::new();
    out.push(AudioDevice { device_id: crate::text::owned("default"), label });
    let ghost head = devices_view(out@);
    let mut rest = devices;
    let ghost all = rest@;
    let mut n: usize = 0;
    let total = rest.len();
    while rest.len() > 0
        invariant
            n + rest@.len() == all.len(),
            all.len() == total,
            rest@ == all.skip(n as int),
            devices_view(out@) == head + devices_view(all.take(n as int)),
        decreases rest@.len(),
    {
        let d = rest.remove(0);
        assert(d == all[n as int]);
        let ghost before = out@;
        out.push(d);
        assert(devices_view(out@) =~= devices_view(before).push((d.device_id@, d.label@)));
        assert(devices_view(all.take(n as int + 1)) =~= devices_view(all.take(n as int)).push((d.device_id@, d.label@)));
        n = n + 1;
        assert(rest@ =~= all.skip(n as int));
    }
    assert(all.take(n as int) =~= all);
    out
}

/// Where a song stands once its progress is looked at.
pub enum Ending {
    /// Still playing, or waiting for audio.
    Playing,
    /// It played to its end.
    Ended,
    /// The file ran out without any audio coming out: as good as unplayable.
    NoAudio,
}

/// What the output's progress means for the song: audio reaching the output starts it,
/// once; the output running dry at the end of the file ends it, or fails it if nothing was
/// ever heard. Returns whether it has started, whether it started just now, and how it
/// stands.
pub fn song_progress(started: bool, frames_played: u64, drained: bool) -> (r: (bool, bool, Ending))
    ensures
        r.0 == (started || frames_played > 0),
        r.1 == (!started && frames_played > 0),
        !drained ==> r.2 is Playing,
        drained && r.0 ==> r.2 is Ended,
        drained && !r.0 ==> r.2 is NoAudio,
{
    let now = started || frames_played > 0;
    let just = !started && frames_played > 0;
    let ending = if !drained { Ending::Playing } else if now { Ending::Ended } else { Ending::NoAudio };
    (now, just, ending)
}

/// The first device from the `k`th on that is connected and, when `wanted` names one, has
/// that id.
pub open spec fn first_open_device(ids: Seq<Seq<char>>, connected: Seq<bool>, wanted: Option<Seq<char>>, k: int) -> Option<int>
    decreases ids.len() - k,
{
    if k < 0 || k >= ids.len() {
        None
    } else if connected[k] && match wanted {
        Some(w) => ids[k] == w,
        None => true,
    } {
        Some(k)
    } else {
        first_open_device(ids, connected, wanted, k + 1)
    }
}

/// Why no device could be opened: `no output device`, with the id asked for.
pub open spec fn no_device_message(wanted: Option<Seq<char>>) -> Seq<char> {
    match wanted {
        Some(w) => "no output device "@ + w,
        None => "no output device"@,
    }
}

/// Which of the devices (their ids, and whether each is plugged in) to open: the first
/// connected one with the id asked for, or the first connected one when none is asked for;
/// else why there is none.
pub fn open_device_index(ids: &Vec<String>, connected: &Vec<bool>, wanted: Option<&str>) -> (r: Result<usize, String>)
    requires
        ids@.len() == connected@.len(),
    ensures
        ({
            let w = match wanted { Some(w) => Some(w@), None => None };
            match first_open_device(texts(ids@), connected@, w, 0) {
                Some(i) => r == Ok::<usize, String>(i as usize),
                None => r matches Err(m) && m@ == no_device_message(w),
            }
        }),
{
    let ghost w = match wanted { Some(w) => Some(w@), None => None };
    let ghost t = texts(ids@);
    let mut k: usize = 0;
    while k < ids.len()
        invariant
            k <= ids@.len(),
            ids@.len() == connected@.len(),
            t == texts(ids@),
            w == (match wanted { Some(w) => Some(w@), None => None::<Seq<char>> }),
            first_open_device(t, connected@, w, 0) == first_open_device(t, connected@, w, k as int),
        decreases ids@.len() - k,
    {
        let matches = match wanted {
            Some(id) => same_text(ids[k].as_str(), id),
            None => true,
        };
        assert(t[k as int] == ids@[k as int]@);
        if connected[k] && matches {
            return Ok(k);
        }
        k = k + 1;
    }
    match wanted {
        Some(id) => {
            let mut m = chars_of("no output device ");
            push_str(&mut m, id);
            Err(string_of(m.as_slice()))
        },
        None => Err(string_of(chars_of("no output device").as_slice())),
    }
}

/// An open output device. Dropping it stops the device.
pub trait Output {
    /// Frames per second the device plays.
    fn rate(&self) -> u32;
    /// Samples per frame.
    fn channels(&self) -> usize;
    /// The device's id, as the device list gives it.
    fn device_id(&self) -> &str;
}

} // verus!
