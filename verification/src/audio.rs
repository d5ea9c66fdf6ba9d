//! Engine sound: the WAV container of the thrust loop and when the loop is heard;
//! which background-music file is used.

use vstd::prelude::*;

use crate::game_flow::AppState;

verus! {

/// Little-endian 16-bit encoding of `x` (taken modulo 2^16).
pub open spec fn le16(x: nat) -> Seq<u8> {
    seq![(x % 256) as u8, ((x / 256) % 256) as u8]
}

/// Little-endian 32-bit encoding of `x` (taken modulo 2^32).
pub open spec fn le32(x: nat) -> Seq<u8> {
    seq![
        (x % 256) as u8,
        ((x / 256) % 256) as u8,
        ((x / 65536) % 256) as u8,
        ((x / 16777216) % 256) as u8,
    ]
}

/// The two's-complement bit pattern of a sample.
pub open spec fn sample_bits(s: i16) -> nat {
    if s < 0 {
        (s + 65536) as nat
    } else {
        s as nat
    }
}

/// Samples as 16-bit little-endian PCM.
pub open spec fn pcm_bytes(samples: Seq<i16>) -> Seq<u8>
    decreases samples.len(),
{
    if samples.len() == 0 {
        Seq::<u8>::empty()
    } else {
        pcm_bytes(samples.drop_last()) + le16(sample_bits(samples.last()))
    }
}

/// The header of a mono 16-bit PCM WAV file holding `data_len` bytes of samples.
pub open spec fn wav_header(sample_rate: nat, data_len: nat) -> Seq<u8> {
    seq![0x52u8, 0x49, 0x46, 0x46]  // "RIFF"
     + le32(36 + data_len) + seq![0x57u8, 0x41, 0x56, 0x45]  // "WAVE"
     + seq![0x66u8, 0x6d, 0x74, 0x20]  // "fmt "
     + le32(16) + le16(1)  // PCM
     + le16(1)  // mono
     + le32(sample_rate) + le32(sample_rate * 2)  // byte rate
     + le16(2)  // block align
     + le16(16)  // bits per sample
     + seq![0x64u8, 0x61, 0x74, 0x61]  // "data"
     + le32(data_len)
}

/// A mono 16-bit PCM WAV file with the given samples.
pub open spec fn wav_file(sample_rate: nat, samples: Seq<i16>) -> Seq<u8> {
    wav_header(sample_rate, 2 * samples.len()) + pcm_bytes(samples)
}

fn push_le16(out: &mut Vec<u8>, x: u16)
    ensures
        final(out)@ == old(out)@ + le16(x as nat),
{
    out.push((x % 256) as u8);
    out.push(((x / 256) % 256) as u8);
    assert(final(out)@ =~= old(out)@ + le16(x as nat));
}

fn push_le32(out: &mut Vec<u8>, x: u32)
    ensures
        final(out)@ == old(out)@ + le32(x as nat),
{
    out.push((x % 256) as u8);
    out.push(((x / 256) % 256) as u8);
    out.push(((x / 65536) % 256) as u8);
    out.push(((x / 16777216) % 256) as u8);
    assert(final(out)@ =~= old(out)@ + le32(x as nat));
}

fn push_tag(out: &mut Vec<u8>, a: u8, b: u8, c: u8, d: u8)
    ensures
        final(out)@ == old(out)@ + seq![a, b, c, d],
{
    out.push(a);
    out.push(b);
    out.push(c);
    out.push(d);
    assert(final(out)@ =~= old(out)@ + seq![a, b, c, d]);
}

/// Frames samples as a mono 16-bit PCM WAV file at `sample_rate` samples per second.
pub fn wav_from_samples(sample_rate: u32, samples: &[i16]) -> (r: Vec<u8>)
    requires
        2 * samples@.len() + 36 <= u32::MAX,
        2 * sample_rate <= u32::MAX,
    ensures
        r@ == wav_file(sample_rate as nat, samples@),
{
    let data_len = samples.len() * 2;
    let mut out: Vec<u8> = Vec::new();
    push_tag(&mut out, 0x52, 0x49, 0x46, 0x46);
    push_le32(&mut out, 36u32 + data_len as u32);
    push_tag(&mut out, 0x57, 0x41, 0x56, 0x45);
    push_tag(&mut out, 0x66, 0x6d, 0x74, 0x20);
    push_le32(&mut out, 16);
    push_le16(&mut out, 1);
    push_le16(&mut out, 1);
    push_le32(&mut out, sample_rate);
    let byte_rate = sample_rate * 2;
    push_le32(&mut out, byte_rate);
    push_le16(&mut out, 2);
    push_le16(&mut out, 16);
    push_tag(&mut out, 0x64, 0x61, 0x74, 0x61);
    push_le32(&mut out, data_len as u32);
    let ghost header = out@;
    assert(header =~= wav_header(sample_rate as nat, 2 * samples@.len()));
    let mut i: usize = 0;
    assert(samples@.take(0) =~= Seq::<i16>::empty());
    assert(out@ =~= header + pcm_bytes(samples@.take(0)));
    while i < samples.len()
        invariant
            i <= samples@.len(),
            out@ == header + pcm_bytes(samples@.take(i as int)),
        decreases samples@.len() - i,
    {
        let s = samples[i];
        let bits: u16 = if s < 0 {
            (s as i32 + 65536) as u16
        } else {
            s as u16
        };
        push_le16(&mut out, bits);
        assert(samples@.take(i + 1).drop_last() =~= samples@.take(i as int));
        assert(samples@.take(i + 1).last() == s);
        assert(out@ =~= header + pcm_bytes(samples@.take(i + 1)));
        i = i + 1;
    }
    assert(samples@.take(samples@.len() as int) =~= samples@);
    out
}

/// What the thrust loop does this frame.
#[derive(Clone, Copy, Debug, PartialEq, Eq, Structural)]
pub enum ThrustSoundAction {
    /// Volume to zero and pause the loop.
    Mute,
    /// Volume to zero, the loop keeps its play state.
    Idle,
    /// Volume to the thrust level; `resume` asks to restart a paused loop.
    Thrust { resume: bool },
}

/// The thrust loop is heard only while playing, with a ship that has fuel and fires at
/// least one thruster.
pub fn thrust_sound_action(
    state: AppState,
    ship_present: bool,
    has_fuel: bool,
    main_pressed: bool,
    left_pressed: bool,
    right_pressed: bool,
    sink_paused: bool,
) -> (r: ThrustSoundAction)
    ensures
        state != AppState::Playing || !ship_present ==> r == ThrustSoundAction::Mute,
        state == AppState::Playing && ship_present ==> {
            let thrust = has_fuel && (main_pressed || left_pressed || right_pressed);
            &&& thrust ==> r == (ThrustSoundAction::Thrust { resume: sink_paused })
            &&& !thrust ==> r == ThrustSoundAction::Idle
        },
{
    if state != AppState::Playing {
        return ThrustSoundAction::Mute;
    }
    if !ship_present {
        return ThrustSoundAction::Mute;
    }
    let mut thrust = false;
    if has_fuel {
        thrust = thrust || main_pressed;
        thrust = thrust || left_pressed;
        thrust = thrust || right_pressed;
    }
    if thrust {
        ThrustSoundAction::Thrust { resume: sink_paused }
    } else {
        ThrustSoundAction::Idle
    }
}

/// The background-music asset to load: OGG preferred, else MP3, else none.
pub fn bgm_asset_path(ogg_present: bool, mp3_present: bool) -> (r: Option<&'static str>)
    ensures
        ogg_present ==> r == Some("music/bgm.ogg"),
        !ogg_present && mp3_present ==> r == Some("music/bgm.mp3"),
        !ogg_present && !mp3_present ==> r is None,
{
    if ogg_present {
        return Some("music/bgm.ogg");
    }
    if mp3_present {
        return Some("music/bgm.mp3");
    }
    None
}

} // verus!
