//! The prompt sound that marks the start and end of a voice recording: its
//! style, and how long the volume ducking waits for it, read from the sound's
//! WAV data.
use vstd::prelude::*;

verus! {

#[derive(Debug, Clone, Copy, PartialEq, Eq, Structural)]
pub enum PromptSoundStyle {
    WaterDrop1,
    WaterDrop2,
    NoSound,
}

/// The duration assumed when a sound's length cannot be read.
pub const FALLBACK_PROMPT_DURATION_MS: u64 = 500;

/// Extra time for Bluetooth outputs to wake up.
pub const BLUETOOTH_PRIMER_MS: u64 = 80;

/// Extra time after the sound ends.
pub const PROMPT_TAIL_MS: u64 = 50;

impl PromptSoundStyle {
    /// The style a stored name denotes (`from_str_opt`): `water1` or
    /// `waterDrop1`, `water2` or `waterDrop2`; anything else is silence.
    pub fn from_str_opt(s: &str) -> (r: Self)
        ensures
            r == (if s@ == "water1"@ || s@ == "waterDrop1"@ {
                PromptSoundStyle::WaterDrop1
            } else if s@ == "water2"@ || s@ == "waterDrop2"@ {
                PromptSoundStyle::WaterDrop2
            } else {
                PromptSoundStyle::NoSound
            }),
    {
        let c = crate::text::chars_of(s);
        if crate::text::eq_chars(c.as_slice(), crate::text::chars_of("water1").as_slice())
            || crate::text::eq_chars(c.as_slice(), crate::text::chars_of("waterDrop1").as_slice()) {
            PromptSoundStyle::WaterDrop1
        } else if crate::text::eq_chars(c.as_slice(), crate::text::chars_of("water2").as_slice())
            || crate::text::eq_chars(c.as_slice(), crate::text::chars_of("waterDrop2").as_slice()) {
            PromptSoundStyle::WaterDrop2
        } else {
            PromptSoundStyle::NoSound
        }
    }

    /// The style's name in the sidecar's commands (`as_sidecar_token`).
    pub fn as_sidecar_token(&self) -> (t: &'static str)
        ensures
            t@ == (match self {
                PromptSoundStyle::WaterDrop1 => "water1"@,
                PromptSoundStyle::WaterDrop2 => "water2"@,
                PromptSoundStyle::NoSound => "none"@,
            }),
    {
        match self {
            PromptSoundStyle::WaterDrop1 => "water1",
            PromptSoundStyle::WaterDrop2 => "water2",
            PromptSoundStyle::NoSound => "none",
        }
    }

    /// Whether the style plays nothing.
    pub fn is_silent(&self) -> (b: bool)
        ensures
            b == (*self == PromptSoundStyle::NoSound),
    {
        match self {
            PromptSoundStyle::NoSound => true,
            _ => false,
        }
    }

    /// How long ducking waits before lowering the volume
    /// (`start_ducking_delay_ms`), given the two sounds' WAV data.
    pub fn start_ducking_delay_ms(&self, water_drop_1: &[u8], water_drop_2: &[u8]) -> (ms: u64)
        requires
            water_drop_1@.len() <= isize::MAX,
            water_drop_2@.len() <= isize::MAX,
        ensures
            ms == (match self {
                PromptSoundStyle::WaterDrop1 => ducking_delay(water_drop_1@),
                PromptSoundStyle::WaterDrop2 => ducking_delay(water_drop_2@),
                PromptSoundStyle::NoSound => 0,
            }),
    {
        match self {
            PromptSoundStyle::WaterDrop1 => prompt_ducking_delay_ms(water_drop_1),
            PromptSoundStyle::WaterDrop2 => prompt_ducking_delay_ms(water_drop_2),
            PromptSoundStyle::NoSound => 0,
        }
    }
}

/// The little-endian 32-bit number at `i`.
pub open spec fn le_u32(b: Seq<u8>, i: int) -> u32 {
    (b[i] as int + 256 * (b[i + 1] as int) + 65536 * (b[i + 2] as int) + 16777216 * (b[i + 3] as int)) as u32
}

/// The four bytes at `i` spell the tag.
pub open spec fn tag_at(b: Seq<u8>, i: int, tag: Seq<u8>) -> bool {
    b[i] == tag[0] && b[i + 1] == tag[1] && b[i + 2] == tag[2] && b[i + 3] == tag[3]
}

pub open spec fn riff_tag() -> Seq<u8> {
    seq![0x52u8, 0x49u8, 0x46u8, 0x46u8]
}

pub open spec fn wave_tag() -> Seq<u8> {
    seq![0x57u8, 0x41u8, 0x56u8, 0x45u8]
}

pub open spec fn fmt_tag() -> Seq<u8> {
    seq![0x66u8, 0x6du8, 0x74u8, 0x20u8]
}

pub open spec fn data_tag() -> Seq<u8> {
    seq![0x64u8, 0x61u8, 0x74u8, 0x61u8]
}

/// The walk over the chunks from `offset`: the byte rate of the `fmt ` chunk
/// and the size of the `data` chunk, as far as found, or `None` when a chunk
/// runs past the end.
pub open spec fn chunk_walk(wav: Seq<u8>, offset: int, rate: Option<u32>, size: Option<u32>) -> Option<(Option<u32>, Option<u32>)>
    decreases wav.len() + 1 - offset,
{
    if offset < 0 || offset + 8 > wav.len() {
        Some((rate, size))
    } else {
        let n = le_u32(wav, offset + 4);
        let end = offset + 8 + n;
        if end > usize::MAX || end > wav.len() {
            None
        } else {
            let is_fmt = tag_at(wav, offset, fmt_tag()) && n >= 16;
            let rate2 = if is_fmt {
                Some(le_u32(wav, offset + 16))
            } else {
                rate
            };
            let size2 = if !is_fmt && tag_at(wav, offset, data_tag()) {
                Some(n)
            } else {
                size
            };
            if rate2 is Some && size2 is Some {
                Some((rate2, size2))
            } else {
                chunk_walk(wav, end + (n % 2) as int, rate2, size2)
            }
        }
    }
}

/// `x / d` rounded up (`u64::div_ceil`).
pub open spec fn div_ceil(x: nat, d: nat) -> nat {
    if x % d == 0 {
        x / d
    } else {
        x / d + 1
    }
}

/// The duration of a WAV sound in whole milliseconds, rounded up
/// (`wav_duration_ms`): the `data` size over the `fmt ` byte rate; none when
/// the data is not RIFF/WAVE, a chunk runs past the end, a chunk is missing,
/// or the byte rate is zero.
pub open spec fn wav_duration(wav: Seq<u8>) -> Option<u64> {
    if wav.len() < 12 || !tag_at(wav, 0, riff_tag()) || !tag_at(wav, 8, wave_tag()) {
        None
    } else {
        match chunk_walk(wav, 12, None, None) {
            Some((Some(rate), Some(size))) => if rate == 0 {
                None
            } else {
                Some(div_ceil((size as nat) * 1000, rate as nat) as u64)
            },
            _ => None,
        }
    }
}

/// How long ducking waits for a sound: its duration (or the fallback), plus
/// the Bluetooth primer and the tail.
pub open spec fn ducking_delay(wav: Seq<u8>) -> u64 {
    (match wav_duration(wav) {
        Some(d) => d,
        None => 500u64,
    } + 80 + 50) as u64
}

fn le_u32_exec(b: &[u8], i: usize) -> (v: u32)
    requires
        i + 4 <= b@.len(),
    ensures
        v == le_u32(b@, i as int),
{
    let v = b[i] as u32 + 256 * (b[i + 1] as u32) + 65536 * (b[i + 2] as u32) + 16777216 * (b[i + 3] as u32);
    v
}

fn tag_at_exec(b: &[u8], i: usize, t: [u8; 4]) -> (r: bool)
    requires
        i + 4 <= b@.len(),
    ensures
        r == tag_at(b@, i as int, seq![t[0], t[1], t[2], t[3]]),
{
    b[i] == t[0] && b[i + 1] == t[1] && b[i + 2] == t[2] && b[i + 3] == t[3]
}

/// Reads a WAV sound's duration (`wav_duration_ms`).
pub fn wav_duration_ms(wav: &[u8]) -> (r: Option<u64>)
    requires
        wav@.len() <= isize::MAX,
    ensures
        r == wav_duration(wav@),
{
    let n = wav.len();
    if n < 12 || !tag_at_exec(wav, 0, [0x52u8, 0x49u8, 0x46u8, 0x46u8]) || !tag_at_exec(
        wav,
        8,
        [0x57u8, 0x41u8, 0x56u8, 0x45u8],
    ) {
        proof {
            assert(riff_tag() =~= seq![0x52u8, 0x49u8, 0x46u8, 0x46u8]);
            assert(wave_tag() =~= seq![0x57u8, 0x41u8, 0x56u8, 0x45u8]);
        }
        return None;
    }
    proof {
        assert(riff_tag() =~= seq![0x52u8, 0x49u8, 0x46u8, 0x46u8]);
        assert(wave_tag() =~= seq![0x57u8, 0x41u8, 0x56u8, 0x45u8]);
        assert(fmt_tag() =~= seq![0x66u8, 0x6du8, 0x74u8, 0x20u8]);
        assert(data_tag() =~= seq![0x64u8, 0x61u8, 0x74u8, 0x61u8]);
    }
    let mut offset: usize = 12;
    let mut rate: Option<u32> = None;
    let mut size: Option<u32> = None;
    let mut done = false;
    while !done && offset + 8 <= n
        invariant
            n == wav@.len() <= isize::MAX,
            offset <= n + 1,
            fmt_tag() =~= seq![0x66u8, 0x6du8, 0x74u8, 0x20u8],
            data_tag() =~= seq![0x64u8, 0x61u8, 0x74u8, 0x61u8],
            !done ==> chunk_walk(wav@, 12, None, None) == chunk_walk(wav@, offset as int, rate, size),
            done ==> chunk_walk(wav@, 12, None, None) == Some((rate, size)),
        decreases n + 1 - offset + (if done { 0int } else { 1int }),
    {
        let chunk_size = le_u32_exec(wav, offset + 4);
        let chunk_start = offset + 8;
        if chunk_size as usize > n - chunk_start {
            return None;
        }
        let chunk_end = chunk_start + chunk_size as usize;
        let is_fmt = tag_at_exec(wav, offset, [0x66u8, 0x6du8, 0x74u8, 0x20u8]) && chunk_size >= 16;
        if is_fmt {
            rate = Some(le_u32_exec(wav, chunk_start + 8));
        } else if tag_at_exec(wav, offset, [0x64u8, 0x61u8, 0x74u8, 0x61u8]) {
            size = Some(chunk_size);
        }
        if rate.is_some() && size.is_some() {
            done = true;
        } else {
            offset = chunk_end + (chunk_size % 2) as usize;
        }
    }
    let r = match rate {
        Some(r) => r,
        None => {
            return None;
        },
    };
    if r == 0 {
        return None;
    }
    let s = match size {
        Some(s) => s,
        None => {
            return None;
        },
    };
    let x = s as u64 * 1000;
    let q = x / r as u64;
    if x % r as u64 == 0 {
        Some(q)
    } else {
        Some(q + 1)
    }
}

/// How long ducking waits for a sound (`prompt_ducking_delay_ms`).
pub fn prompt_ducking_delay_ms(wav: &[u8]) -> (ms: u64)
    requires
        wav@.len() <= isize::MAX,
    ensures
        ms == ducking_delay(wav@),
{
    let d = match wav_duration_ms(wav) {
        Some(d) => d,
        None => FALLBACK_PROMPT_DURATION_MS,
    };
    proof {
        lemma_duration_bound(wav@);
    }
    d + BLUETOOTH_PRIMER_MS + PROMPT_TAIL_MS
}

proof fn lemma_duration_bound(wav: Seq<u8>)
    ensures
        wav_duration(wav) matches Some(d) ==> d <= 4294967295000u64,
{
    match wav_duration(wav) {
        Some(d) => {
            match chunk_walk(wav, 12, None, None) {
                Some((Some(rate), Some(size))) => {
                    let x = (size as nat) * 1000;
                    assert(x <= 4294967295000);
                    assert(x / (rate as nat) <= x) by (nonlinear_arith)
                        requires
                            rate >= 1,
                    ;
                    assert(div_ceil(x, rate as nat) <= x) by (nonlinear_arith)
                        requires
                            rate >= 1,
                    ;
                },
                _ => {},
            }
        },
        None => {},
    }
}

/// The share of the volume kept while recording:
/// a percentage of 0 to 100 is applied; any other leaves the volume alone.
pub fn volume_ducking_percent(target_percent: i16) -> (r: Option<i16>)
    ensures
        r == (if 0 <= target_percent <= 100 {
            Some(target_percent)
        } else {
            None::<i16>
        }),
{
    if 0 <= target_percent && target_percent <= 100 {
        Some(target_percent)
    } else {
        None
    }
}

} // verus!
