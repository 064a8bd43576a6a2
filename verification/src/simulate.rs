//! Synthetic capture sources: a moving bright square over a dark background,
//! and a pulsing tone.
//!
//! What they show is decided here; when a frame or a chunk is due is the
//! caller's concern.
use crate::audio::{self, AudioCaps, AudioChunk, AudioConfig, AudioMode, ChunkClock};
use crate::error::CaptureError;
use crate::text;
use crate::time::Timestamp;
use crate::video::{self, PixelFormat, VideoCaps, VideoConfig, VideoMode};
use bytes::Bytes;
use vstd::prelude::*;
use vstd::string::*;

verus! {

/// Seconds for which the simulated tone is on, and then off, so that the level
/// visibly rises and falls.
pub const TONE_PULSE_SECS: u64 = 2;

/// Brightness of the background.
pub const BACKGROUND: u8 = 24;

/// Brightness of the moving square.
pub const FOREGROUND: u8 = 230;

/// The message for a simulated video configuration that cannot be honored.
pub open spec fn video_refusal(cfg: VideoConfig) -> Seq<char> {
    "simulated video needs nonzero dimensions and fps, got "@ + text::decimal(cfg.width as nat)
        + "x"@ + text::decimal(cfg.height as nat) + "@"@ + text::decimal(cfg.fps as nat)
}

/// Checks a configuration for the simulated video source and gives the one
/// mode it captures in: exactly the requested one, as packed RGB.
pub fn open_video(cfg: &VideoConfig) -> (r: Result<VideoCaps, CaptureError>)
    ensures
        match r {
            Ok(caps) => {
                &&& cfg.width != 0 && cfg.height != 0 && cfg.fps != 0
                &&& caps.modes@ == seq![
                    VideoMode {
                        width: cfg.width,
                        height: cfg.height,
                        fps: cfg.fps,
                        format: PixelFormat::Rgb24,
                    },
                ]
            },
            Err(e) => {
                &&& cfg.width == 0 || cfg.height == 0 || cfg.fps == 0
                &&& e matches CaptureError::UnsupportedConfig(m)
                &&& m@ == video_refusal(*cfg)
            },
        },
{
    if cfg.width == 0 || cfg.height == 0 || cfg.fps == 0 {
        let mut m = "simulated video needs nonzero dimensions and fps, got ".to_owned();
        text::push_decimal(&mut m, cfg.width as u128);
        m.append("x");
        text::push_decimal(&mut m, cfg.height as u128);
        m.append("@");
        text::push_decimal(&mut m, cfg.fps as u128);
        return Err(CaptureError::UnsupportedConfig(m));
    }
    let mut modes: Vec<VideoMode> = Vec::new();
    modes.push(
        VideoMode {
            width: cfg.width,
            height: cfg.height,
            fps: cfg.fps,
            format: PixelFormat::Rgb24,
        },
    );
    Ok(VideoCaps { modes })
}

/// The message for a simulated audio configuration that cannot be honored.
pub open spec fn audio_refusal(cfg: AudioConfig) -> Seq<char> {
    "simulated audio needs nonzero rate/channels/chunk, got "@ + text::decimal(
        cfg.sample_rate as nat,
    ) + " Hz, "@ + text::decimal(cfg.channels as nat) + " ch, "@ + text::decimal(
        cfg.chunk_frames as nat,
    ) + " frames"@
}

/// Checks a configuration for the simulated audio source and gives the one
/// mode it captures in: exactly the requested one.
pub fn open_audio(cfg: &AudioConfig) -> (r: Result<AudioCaps, CaptureError>)
    ensures
        match r {
            Ok(caps) => {
                &&& cfg.sample_rate != 0 && cfg.channels != 0 && cfg.chunk_frames != 0
                &&& caps.modes@ == seq![
                    AudioMode {
                        channels: cfg.channels,
                        min_sample_rate: cfg.sample_rate,
                        max_sample_rate: cfg.sample_rate,
                    },
                ]
            },
            Err(e) => {
                &&& cfg.sample_rate == 0 || cfg.channels == 0 || cfg.chunk_frames == 0
                &&& e matches CaptureError::UnsupportedConfig(m)
                &&& m@ == audio_refusal(*cfg)
            },
        },
{
    if cfg.sample_rate == 0 || cfg.channels == 0 || cfg.chunk_frames == 0 {
        let mut m = "simulated audio needs nonzero rate/channels/chunk, got ".to_owned();
        text::push_decimal(&mut m, cfg.sample_rate as u128);
        m.append(" Hz, ");
        text::push_decimal(&mut m, cfg.channels as u128);
        m.append(" ch, ");
        text::push_decimal(&mut m, cfg.chunk_frames as u128);
        m.append(" frames");
        return Err(CaptureError::UnsupportedConfig(m));
    }
    let mut modes: Vec<AudioMode> = Vec::new();
    modes.push(
        AudioMode {
            channels: cfg.channels,
            min_sample_rate: cfg.sample_rate,
            max_sample_rate: cfg.sample_rate,
        },
    );
    Ok(AudioCaps { modes })
}

/// Whether the tone is on at sample frame `n`: it is on for one pulse, off for
/// the next, and starts on.
pub open spec fn audible_at(n: nat, sample_rate: nat) -> bool {
    let pulse = TONE_PULSE_SECS as nat * sample_rate;
    (n / (if pulse == 0 {
        1
    } else {
        pulse
    })) % 2 == 0
}

/// Whether the tone is on at sample frame `n`.
pub fn is_audible(n: u64, sample_rate: u32) -> (b: bool)
    ensures
        b == audible_at(n as nat, sample_rate as nat),
{
    let pulse: u64 = TONE_PULSE_SECS * sample_rate as u64;
    let frames: u64 = if pulse == 0 {
        1
    } else {
        pulse
    };
    (n / frames) % 2 == 0
}

/// The tone of every frame of the next chunk: `tone` where the tone is on,
/// silence where it is off, with the same value on every channel.
///
/// `tone` holds one value per frame; `first` is the index of the chunk's first
/// frame in the stream.
pub fn pulse<T: Copy>(tone: &[T], silence: T, first: u64, sample_rate: u32) -> (values: Vec<T>)
    requires
        first + tone@.len() <= u64::MAX,
    ensures
        values@.len() == tone@.len(),
        forall|i: int|
            0 <= i < tone@.len() ==> #[trigger] values@[i] == (if audible_at(
                (first + i) as nat,
                sample_rate as nat,
            ) {
                tone@[i]
            } else {
                silence
            }),
{
    let mut values: Vec<T> = Vec::with_capacity(tone.len());
    let mut i: usize = 0;
    while i < tone.len()
        invariant
            i <= tone@.len(),
            first + tone@.len() <= u64::MAX,
            values@.len() == i,
            forall|j: int|
                0 <= j < i ==> #[trigger] values@[j] == (if audible_at(
                    (first + j) as nat,
                    sample_rate as nat,
                ) {
                    tone@[j]
                } else {
                    silence
                }),
        decreases tone@.len() - i,
    {
        if is_audible(first + i as u64, sample_rate) {
            values.push(tone[i]);
        } else {
            values.push(silence);
        }
        i = i + 1;
    }
    values
}

/// The simulated audio stream: chunks of exactly the configured rate, channel
/// count and size, stamped from the moment the stream began.
#[derive(Debug)]
pub struct ToneStream {
    clock: ChunkClock,
    sample_rate: u32,
    channels: u16,
    chunk_frames: usize,
}

impl ToneStream {
    /// The clock that stamps the chunks.
    pub closed spec fn clock(&self) -> ChunkClock {
        self.clock
    }

    /// Sample rate of every chunk.
    pub closed spec fn rate(&self) -> u32 {
        self.sample_rate
    }

    /// Channels of every chunk.
    pub closed spec fn channels(&self) -> u16 {
        self.channels
    }

    /// Frames of every chunk.
    pub closed spec fn chunk_frames(&self) -> nat {
        self.chunk_frames as nat
    }

    /// The clock goes by the stream's rate and chunk size.
    pub open spec fn well_formed(&self) -> bool {
        &&& self.clock().rate() == self.rate()
        &&& self.clock().step() == self.chunk_frames()
    }

    /// Whether the next chunk can be stamped and held in memory.
    pub open spec fn can_advance(&self) -> bool {
        &&& self.clock().can_advance()
        &&& self.chunk_frames() * self.channels() <= usize::MAX
    }

    /// Whether the stream turns one chunk's `tone` into `chunk` and goes on as
    /// `after`: every channel of a frame has the frame's tone, or `silence`
    /// where the tone is off.
    pub open spec fn emits<T>(
        &self,
        tone: Seq<T>,
        silence: T,
        chunk: AudioChunk<T>,
        after: ToneStream,
    ) -> bool {
        &&& self.clock().stamps(chunk.ts, after.clock())
        &&& chunk.sample_rate == self.rate()
        &&& chunk.channels == self.channels()
        &&& chunk.samples@.len() == self.chunk_frames() * self.channels()
        &&& forall|f: int, c: int|
            0 <= f < self.chunk_frames() && 0 <= c < self.channels()
                ==> #[trigger] chunk.samples@[f * self.channels() + c] == (if audible_at(
                (self.clock().emitted() + f) as nat,
                self.rate() as nat,
            ) {
                tone[f]
            } else {
                silence
            })
        &&& after.rate() == self.rate()
        &&& after.channels() == self.channels()
        &&& after.chunk_frames() == self.chunk_frames()
    }

    /// Begins a stream at `anchor`.
    pub fn start(cfg: &AudioConfig, anchor: Timestamp) -> (stream: ToneStream)
        ensures
            stream.well_formed(),
            stream.clock().anchor() == anchor@,
            stream.clock().emitted() == 0,
            stream.rate() == cfg.sample_rate,
            stream.channels() == cfg.channels,
            stream.chunk_frames() == cfg.chunk_frames,
    {
        ToneStream {
            clock: ChunkClock::start(anchor, cfg.sample_rate, cfg.chunk_frames as u64),
            sample_rate: cfg.sample_rate,
            channels: cfg.channels,
            chunk_frames: cfg.chunk_frames,
        }
    }

    /// The index in the stream of the next chunk's first frame.
    pub fn next_frame(&self) -> (n: u64)
        ensures
            n == self.clock().emitted(),
    {
        self.clock.frames()
    }

    /// Whether another chunk can be made.
    pub fn has_next(&self) -> (b: bool)
        ensures
            b == self.can_advance(),
    {
        let samples: u128 = self.chunk_frames as u128;
        proof {
            assert(samples * self.channels <= usize::MAX * u16::MAX) by (nonlinear_arith)
                requires
                    0 <= samples <= usize::MAX,
                    0 <= self.channels <= u16::MAX,
            ;
        }
        self.clock.has_next() && samples * self.channels as u128 <= usize::MAX as u128
    }

    /// Makes the next chunk out of the tone of its frames.
    pub fn next_chunk<T: Copy>(&mut self, tone: &[T], silence: T) -> (chunk: AudioChunk<T>)
        requires
            old(self).well_formed(),
            old(self).can_advance(),
            tone@.len() == old(self).chunk_frames(),
        ensures
            final(self).well_formed(),
            old(self).emits(tone@, silence, chunk, *final(self)),
    {
        let first: u64 = self.clock.frames();
        let values = pulse(tone, silence, first, self.sample_rate);
        let samples = audio::interleave(values.as_slice(), self.channels as usize);
        let ts = self.clock.next_timestamp();
        AudioChunk {
            ts,
            sample_rate: self.sample_rate,
            channels: self.channels,
            samples: audio::share(samples),
        }
    }
}

/// The side of the square: an eighth of the shorter dimension, at least one.
pub open spec fn square_side(width: nat, height: nat) -> nat {
    let shorter = if width <= height {
        width
    } else {
        height
    };
    if shorter / 8 == 0 {
        1
    } else {
        shorter / 8
    }
}

/// How far the square moves from one frame to the next: half its side, at least
/// one.
pub open spec fn square_step(width: nat, height: nat) -> nat {
    let half = square_side(width, height) / 2;
    if half == 0 {
        1
    } else {
        half
    }
}

/// How many positions the square has along a dimension of a picture that is
/// large enough to move in.
pub open spec fn free_positions(extent: nat, side: nat) -> nat {
    if extent <= side + 1 {
        1
    } else {
        (extent - side) as nat
    }
}

/// How many positions the square has along one dimension of a picture before it
/// wraps. Where it could otherwise not move at all but has room for one step, it
/// takes it.
pub open spec fn square_positions(extent: nat, width: nat, height: nat) -> nat {
    let side = square_side(width, height);
    if free_positions(width, side) == 1 && free_positions(height, side) == 1 && extent == side
        + 1 {
        2
    } else {
        free_positions(extent, side)
    }
}

/// The left edge of the square in frame `index`.
pub open spec fn square_x(width: nat, height: nat, index: nat) -> nat {
    (index * square_step(width, height)) % square_positions(width, width, height)
}

/// The top edge of the square in frame `index`.
pub open spec fn square_y(width: nat, height: nat, index: nat) -> nat {
    (index * square_step(width, height)) % square_positions(height, width, height)
}

/// Whether the pixel at column `x` of row `y` is part of the square in frame
/// `index`.
pub open spec fn in_square(width: nat, height: nat, index: nat, x: int, y: int) -> bool {
    let side = square_side(width, height);
    let x0 = square_x(width, height, index);
    let y0 = square_y(width, height, index);
    x0 <= x < x0 + side && y0 <= y < y0 + side
}

/// The brightness of the pixel at column `x` of row `y` in frame `index`.
pub open spec fn pattern_pixel(width: nat, height: nat, index: nat, x: int, y: int) -> u8 {
    if in_square(width, height, index, x, y) {
        FOREGROUND
    } else {
        BACKGROUND
    }
}

/// The test pattern of frame `index`: gray pixels of three equal bytes, row by
/// row, bright inside the square and dark outside.
pub open spec fn pattern(width: nat, height: nat, index: nat) -> Seq<u8> {
    Seq::new(
        width * height * 3,
        |i: int|
            pattern_pixel(width, height, index, (i / 3) % (width as int), (i / 3) / (width as int)),
    )
}

/// Counts the positions of the square along a dimension of a large picture.
fn count_positions(extent: usize, side: usize) -> (positions: usize)
    ensures
        positions == free_positions(extent as nat, side as nat),
        positions > 0,
{
    if extent <= side || extent - side == 1 {
        1
    } else {
        extent - side
    }
}

/// Where the pixel of a byte lies.
proof fn lemma_pixel_of_byte(i: int, k: int, x: int, y: int, width: int)
    requires
        0 <= x < width,
        0 <= y,
        k == y * width + x,
        3 * k <= i < 3 * k + 3,
    ensures
        (i / 3) % width == x,
        (i / 3) / width == y,
{
    assert(i / 3 == k);
    vstd::arithmetic::div_mod::lemma_fundamental_div_mod_converse(k, width, y, x);
}

/// Draws the test pattern: a dark gray field with a bright square that steps
/// diagonally across the frame, wrapping at the edges.
pub fn render_pattern(width: u32, height: u32, frame_index: u64) -> (data: Bytes)
    requires
        width as nat * height as nat * 3 <= isize::MAX,
        frame_index as nat * square_step(width as nat, height as nat) <= usize::MAX,
    ensures
        video::bytes_contents(data) == pattern(width as nat, height as nat, frame_index as nat),
{
    let w: usize = width as usize;
    let h: usize = height as usize;
    let shorter: usize = if w <= h {
        w
    } else {
        h
    };
    let side: usize = if shorter / 8 == 0 {
        1
    } else {
        shorter / 8
    };
    let step: usize = if side / 2 == 0 {
        1
    } else {
        side / 2
    };
    proof {
        assert(frame_index <= frame_index * step) by (nonlinear_arith)
            requires
                step >= 1,
                frame_index >= 0,
        ;
    }
    let travel: usize = frame_index as usize * step;
    let mut across: usize = count_positions(w, side);
    let mut down: usize = count_positions(h, side);
    if across == 1 && down == 1 {
        if w > side {
            across = 2;
        }
        if h > side {
            down = 2;
        }
    }
    let x0: usize = travel % across;
    let y0: usize = travel % down;

    let ghost full = pattern(width as nat, height as nat, frame_index as nat);
    let mut data: Vec<u8> = Vec::with_capacity(w * h * 3);
    let mut y: usize = 0;
    while y < h
        invariant
            y <= h,
            w == width,
            h == height,
            full == pattern(width as nat, height as nat, frame_index as nat),
            side == square_side(width as nat, height as nat),
            x0 == square_x(width as nat, height as nat, frame_index as nat),
            y0 == square_y(width as nat, height as nat, frame_index as nat),
            data@.len() == y * w * 3,
            forall|i: int| 0 <= i < data@.len() ==> #[trigger] data@[i] == full[i],
        decreases h - y,
    {
        let mut x: usize = 0;
        while x < w
            invariant
                x <= w,
                y < h,
                w == width,
                h == height,
                full == pattern(width as nat, height as nat, frame_index as nat),
                side == square_side(width as nat, height as nat),
                x0 == square_x(width as nat, height as nat, frame_index as nat),
                y0 == square_y(width as nat, height as nat, frame_index as nat),
                data@.len() == (y * w + x) * 3,
                forall|i: int| 0 <= i < data@.len() ==> #[trigger] data@[i] == full[i],
            decreases w - x,
        {
            let inside = x0 <= x && x - x0 < side && y0 <= y && y - y0 < side;
            let level: u8 = if inside {
                FOREGROUND
            } else {
                BACKGROUND
            };
            let ghost k = y * w + x;
            let ghost before = data@;
            data.push(level);
            data.push(level);
            data.push(level);
            proof {
                assert(k < w * h) by (nonlinear_arith)
                    requires
                        k == y * w + x,
                        0 <= x < w,
                        0 <= y < h,
                ;
                assert forall|i: int| 0 <= i < data@.len() implies #[trigger] data@[i]
                    == full[i] by {
                    if i < 3 * k {
                        assert(data@[i] == before[i]);
                    } else {
                        lemma_pixel_of_byte(i, k, x as int, y as int, w as int);
                    }
                }
            }
            x = x + 1;
        }
        proof {
            assert((y + 1) * w == y * w + w) by (nonlinear_arith);
        }
        y = y + 1;
    }
    proof {
        assert(h * w == w * h) by (nonlinear_arith);
        assert(data@ =~= full);
    }
    video::bytes_from_vec(data)
}

/// A position that advances by less than the number of positions changes.
proof fn lemma_step_moves(index: nat, step: nat, positions: nat)
    requires
        0 < step < positions,
    ensures
        (index * step) % positions != ((index + 1) * step) % positions,
{
    lemma_next_position(index, step, positions);
}

/// The bytes of the pattern at a pixel.
proof fn lemma_pattern_at(width: nat, height: nat, index: nat, x: int, y: int)
    requires
        0 <= x < width,
        0 <= y < height,
    ensures
        0 <= 3 * (y * width + x) < pattern(width, height, index).len(),
        pattern(width, height, index)[3 * (y * width + x)] == pattern_pixel(
            width,
            height,
            index,
            x,
            y,
        ),
{
    assert(0 <= y * width + x < width * height) by (nonlinear_arith)
        requires
            0 <= x < width,
            0 <= y < height,
    ;
    lemma_pixel_of_byte(3 * (y * width + x), y * width + x, x, y, width as int);
}

/// The square of every frame lies inside the frame.
proof fn lemma_square_inside(width: nat, height: nat, index: nat)
    requires
        width > 0,
        height > 0,
    ensures
        square_side(width, height) > 0,
        square_x(width, height, index) + square_side(width, height) <= width,
        square_y(width, height, index) + square_side(width, height) <= height,
{
    let travel = (index * square_step(width, height)) as int;
    let side = square_side(width, height);
    vstd::arithmetic::div_mod::lemma_mod_bound(travel, square_positions(width, width, height) as int);
    vstd::arithmetic::div_mod::lemma_mod_bound(travel, square_positions(height, width, height) as int);
}

/// Consecutive frames of the pattern differ. Only a picture of a single pixel
/// leaves the square no room to move.
pub proof fn law_consecutive_frames_differ(width: nat, height: nat, index: nat)
    requires
        width > 0,
        height > 0,
        width > 1 || height > 1,
    ensures
        pattern(width, height, index) != pattern(width, height, index + 1),
{
    let side = square_side(width, height);
    let step = square_step(width, height);
    let a = pattern(width, height, index);
    let b = pattern(width, height, index + 1);
    let x0 = square_x(width, height, index) as int;
    let y0 = square_y(width, height, index) as int;
    let x1 = square_x(width, height, index + 1) as int;
    let y1 = square_y(width, height, index + 1) as int;
    lemma_square_inside(width, height, index);
    lemma_square_inside(width, height, index + 1);
    if square_positions(width, width, height) > 1 {
        assert(step < square_positions(width, width, height));
        lemma_step_moves(index, step, square_positions(width, width, height));
    } else {
        assert(step < square_positions(height, width, height));
        lemma_step_moves(index, step, square_positions(height, width, height));
    }
    assert(x0 != x1 || y0 != y1);
    lemma_pattern_at(width, height, index, x0, y0);
    lemma_pattern_at(width, height, index + 1, x0, y0);
    lemma_pattern_at(width, height, index, x1, y1);
    lemma_pattern_at(width, height, index + 1, x1, y1);
    if x0 < x1 || y0 < y1 {
        assert(a[3 * (y0 * width + x0)] != b[3 * (y0 * width + x0)]);
    } else {
        assert(a[3 * (y1 * width + x1)] != b[3 * (y1 * width + x1)]);
    }
}

/// The pixels of a packed RGB picture whose first byte is that of the square, by
/// number, row by row.
pub open spec fn bright_pixels(data: Seq<u8>) -> Set<int> {
    Set::new(|k: int| 0 <= k && 3 * k < data.len() && data[3 * k] == FOREGROUND)
}

/// The number of the `k`-th pixel of the square of a frame.
spec fn square_pixel(width: nat, height: nat, index: nat, k: int) -> int {
    let side = square_side(width, height) as int;
    (square_y(width, height, index) + k / side) * width + square_x(width, height, index) + k % side
}

/// The pixels of the square are the bright ones, and there are as many of them
/// as the square has room for.
proof fn lemma_square_pixels(width: nat, height: nat, index: nat)
    requires
        width > 0,
        height > 0,
    ensures
        bright_pixels(pattern(width, height, index)).finite(),
        bright_pixels(pattern(width, height, index)).len() == square_side(width, height)
            * square_side(width, height),
{
    let side = square_side(width, height) as int;
    let x0 = square_x(width, height, index) as int;
    let y0 = square_y(width, height, index) as int;
    let w = width as int;
    let data = pattern(width, height, index);
    let numbers = vstd::set_lib::set_int_range(0, side * side);
    let f = |k: int| square_pixel(width, height, index, k);
    lemma_square_inside(width, height, index);
    assert(side * side >= 0) by (nonlinear_arith);
    vstd::set_lib::lemma_int_range(0, side * side);
    assert forall|k: int| 0 <= k < side * side implies {
        &&& 0 <= #[trigger] (k / side) < side
        &&& 0 <= k % side < side
        &&& k == (k / side) * side + k % side
    } by {
        vstd::arithmetic::div_mod::lemma_fundamental_div_mod(k, side);
        vstd::arithmetic::div_mod::lemma_mod_bound(k, side);
        vstd::arithmetic::div_mod::lemma_div_pos_is_pos(k, side);
        vstd::arithmetic::div_mod::lemma_div_by_multiple_is_strongly_ordered(
            k,
            side * side,
            side,
            side,
        );
        vstd::arithmetic::div_mod::lemma_div_multiples_vanish(side, side);
        assert(side * (k / side) == (k / side) * side) by (nonlinear_arith);
    }
    assert forall|k: int| 0 <= k < side * side implies {
        &&& #[trigger] square_pixel(width, height, index, k) % w == x0 + k % side
        &&& square_pixel(width, height, index, k) / w == y0 + k / side
        &&& bright_pixels(data).contains(square_pixel(width, height, index, k))
    } by {
        assert(0 <= k / side < side);
        vstd::arithmetic::div_mod::lemma_fundamental_div_mod_converse(
            square_pixel(width, height, index, k),
            w,
            y0 + k / side,
            x0 + k % side,
        );
        lemma_pattern_at(width, height, index, x0 + k % side, y0 + k / side);
    }
    assert(vstd::relations::injective_on(f, numbers)) by {
        assert forall|j: int, k: int|
            numbers.contains(j) && numbers.contains(k) && #[trigger] f(j) == #[trigger] f(
                k,
            ) implies j == k by {
            assert(square_pixel(width, height, index, j) == square_pixel(width, height, index, k));
            assert(0 <= j / side < side && 0 <= k / side < side);
        }
    }
    assert(numbers.map(f) =~= bright_pixels(data)) by {
        assert forall|p: int| #[trigger] bright_pixels(data).contains(p) implies numbers.map(
            f,
        ).contains(p) by {
            let x = p % w;
            let y = p / w;
            assert((3 * p) / 3 == p);
            assert(in_square(width, height, index, x, y));
            vstd::arithmetic::div_mod::lemma_fundamental_div_mod(p, w);
            assert(w * y == y * w) by (nonlinear_arith);
            let k = (y - y0) * side + (x - x0);
            assert(0 <= k < side * side) by (nonlinear_arith)
                requires
                    k == (y - y0) * side + (x - x0),
                    0 <= y - y0 < side,
                    0 <= x - x0 < side,
            ;
            vstd::arithmetic::div_mod::lemma_fundamental_div_mod_converse(k, side, y - y0, x - x0);
            assert(numbers.contains(k));
            assert(f(k) == p);
        }
        assert forall|p: int| #[trigger] numbers.map(f).contains(p) implies bright_pixels(
            data,
        ).contains(p) by {
            let k = choose|k: int| numbers.contains(k) && p == f(k);
            assert(bright_pixels(data).contains(square_pixel(width, height, index, k)));
        }
    }
    vstd::set_lib::lemma_map_size(numbers, bright_pixels(data), f);
}

/// The pattern has three equal bytes for each pixel. The square lies inside the
/// picture; its pixels are bright, as many as its area, and all others are dark.
pub proof fn law_pattern_shape(width: nat, height: nat, index: nat)
    requires
        width > 0,
        height > 0,
    ensures
        pattern(width, height, index).len() == width * height * 3,
        forall|k: int|
            0 <= k < width * height ==> #[trigger] pattern(width, height, index)[3 * k] == pattern(
                width,
                height,
                index,
            )[3 * k + 1] == pattern(width, height, index)[3 * k + 2],
        square_x(width, height, index) + square_side(width, height) <= width,
        square_y(width, height, index) + square_side(width, height) <= height,
        forall|x: int, y: int|
            0 <= x < width && 0 <= y < height ==> #[trigger] pattern(width, height, index)[3 * (y
                * width + x)] == (if square_x(width, height, index) <= x < square_x(
                width,
                height,
                index,
            ) + square_side(width, height) && square_y(width, height, index) <= y < square_y(
                width,
                height,
                index,
            ) + square_side(width, height) {
                230u8
            } else {
                24u8
            }),
        bright_pixels(pattern(width, height, index)).finite(),
        bright_pixels(pattern(width, height, index)).len() == square_side(width, height)
            * square_side(width, height),
{
    lemma_square_inside(width, height, index);
    lemma_square_pixels(width, height, index);
    assert forall|x: int, y: int| 0 <= x < width && 0 <= y < height implies #[trigger] pattern(
        width,
        height,
        index,
    )[3 * (y * width + x)] == pattern_pixel(width, height, index, x, y) by {
        lemma_pattern_at(width, height, index, x, y);
    }
}

/// Every chunk of a simulated stream has the stream's rate, channels and size,
/// and one value for all channels of a frame: its tone in the first two seconds of
/// every four, and silence in the others. The `k`-th chunk is stamped with
/// the anchor plus the duration of `k` chunks, rounded down once, and at rates
/// up to one frame per nanosecond each chunk is later than those before it.
pub proof fn law_simulated_stream<T>(
    streams: Seq<ToneStream>,
    tones: Seq<Seq<T>>,
    silence: T,
    chunks: Seq<AudioChunk<T>>,
)
    requires
        streams.len() == chunks.len() + 1,
        tones.len() == chunks.len(),
        streams[0].well_formed(),
        streams[0].clock().emitted() == 0,
        forall|i: int|
            0 <= i < chunks.len() ==> (#[trigger] streams[i]).emits(
                tones[i],
                silence,
                chunks[i],
                streams[i + 1],
            ),
    ensures
        forall|k: int|
            0 <= k < chunks.len() ==> {
                &&& (#[trigger] chunks[k]).sample_rate == streams[0].rate()
                &&& chunks[k].channels == streams[0].channels()
                &&& chunks[k].samples@.len() == streams[0].chunk_frames() * streams[0].channels()
                &&& chunks[k].ts@ == streams[0].clock().anchor() + audio::frames_nanos(
                    (k * streams[0].chunk_frames()) as nat,
                    streams[0].rate() as nat,
                )
            },
        forall|k: int, f: int, c: int, d: int|
            0 <= k < chunks.len() && 0 <= f < streams[0].chunk_frames() && 0 <= c
                < streams[0].channels() && 0 <= d < streams[0].channels()
                ==> #[trigger] chunks[k].samples@[f * streams[0].channels() + c]
                == #[trigger] chunks[k].samples@[f * streams[0].channels() + d],
        streams[0].rate() > 0 ==> forall|k: int, f: int, c: int|
            0 <= k < chunks.len() && 0 <= f < streams[0].chunk_frames() && 0 <= c
                < streams[0].channels() ==> #[trigger] chunks[k].samples@[f * streams[0].channels()
                + c] == (if ((k * streams[0].chunk_frames() + f) / (2 * streams[0].rate())) % 2
                == 0 {
                tones[k][f]
            } else {
                silence
            }),
        streams[0].chunk_frames() > 0 && 0 < streams[0].rate() <= 1_000_000_000 ==> forall|
            j: int,
            k: int,
        |
            0 <= j < k < chunks.len() ==> (#[trigger] chunks[j]).ts@ < (#[trigger] chunks[k]).ts@,
{
    let clocks = streams.map_values(|s: ToneStream| s.clock());
    let times = chunks.map_values(|c: AudioChunk<T>| c.ts);
    assert forall|i: int| 0 <= i < times.len() implies (#[trigger] clocks[i]).stamps(
        times[i],
        clocks[i + 1],
    ) by {
        assert(streams[i].emits(tones[i], silence, chunks[i], streams[i + 1]));
    }
    audio::law_stream_times(clocks, times);
    assert forall|k: int| 0 <= k < chunks.len() implies (#[trigger] chunks[k]).ts@ == times[k]@
        && streams[k].rate() == streams[0].rate() && streams[k].channels() == streams[0].channels()
        && streams[k].chunk_frames() == streams[0].chunk_frames() by {
        lemma_stream_config(streams, tones, silence, chunks, k);
        assert(chunks[k].ts == times[k]);
    }
    assert forall|k: int| 0 <= k < chunks.len() implies (#[trigger] streams[k]).emits(
        tones[k],
        silence,
        chunks[k],
        streams[k + 1],
    ) by {}
    assert forall|k: int| 0 <= k < chunks.len() implies (#[trigger] streams[k]).clock().emitted()
        == k * streams[0].chunk_frames() by {
        audio::lemma_frames_stamped(clocks, times, k);
        assert(clocks[k] == streams[k].clock());
    }
    if streams[0].rate() > 0 {
        assert forall|k: int, f: int, c: int|
            0 <= k < chunks.len() && 0 <= f < streams[0].chunk_frames() && 0 <= c
                < streams[0].channels() implies #[trigger] chunks[k].samples@[f
            * streams[0].channels() + c] == (if ((k * streams[0].chunk_frames() + f) / (2
            * streams[0].rate())) % 2 == 0 {
            tones[k][f]
        } else {
            silence
        }) by {
            assert(streams[k].emits(tones[k], silence, chunks[k], streams[k + 1]));
            assert(chunks[k].samples@[f * streams[k].channels() + c] == chunks[k].samples@[f
                * streams[0].channels() + c]);
            assert(0 <= k * streams[0].chunk_frames()) by (nonlinear_arith)
                requires
                    0 <= k,
                    0 <= streams[0].chunk_frames(),
            ;
        }
    }
}

/// A stream keeps its rate, channels and chunk size.
proof fn lemma_stream_config<T>(
    streams: Seq<ToneStream>,
    tones: Seq<Seq<T>>,
    silence: T,
    chunks: Seq<AudioChunk<T>>,
    k: int,
)
    requires
        streams.len() == chunks.len() + 1,
        forall|i: int|
            0 <= i < chunks.len() ==> (#[trigger] streams[i]).emits(
                tones[i],
                silence,
                chunks[i],
                streams[i + 1],
            ),
        0 <= k < chunks.len(),
    ensures
        streams[k].rate() == streams[0].rate(),
        streams[k].channels() == streams[0].channels(),
        streams[k].chunk_frames() == streams[0].chunk_frames(),
    decreases k,
{
    if k > 0 {
        lemma_stream_config(streams, tones, silence, chunks, k - 1);
        assert(streams[k - 1].emits(tones[k - 1], silence, chunks[k - 1], streams[k]));
    }
}

/// The tone starts on and alternates: it is on at a frame exactly when it is
/// off one pulse later.
pub proof fn law_tone_pulses(n: nat, sample_rate: nat)
    requires
        sample_rate > 0,
    ensures
        n < TONE_PULSE_SECS * sample_rate ==> audible_at(n, sample_rate),
        audible_at(n, sample_rate) != audible_at(
            n + TONE_PULSE_SECS as nat * sample_rate,
            sample_rate,
        ),
{
    let pulse = (TONE_PULSE_SECS as nat * sample_rate) as int;
    vstd::arithmetic::div_mod::lemma_hoist_over_denominator(n as int, 1, pulse as nat);
    if n < pulse {
        vstd::arithmetic::div_mod::lemma_basic_div(n as int, pulse);
    }
}

/// Whether a square of `side` that moves by `step` fits the proportions of the
/// pattern: the side is an eighth of the shorter dimension and the step half the
/// side, both rounded down, but neither is less than one.
pub open spec fn proportioned(width: nat, height: nat, side: int, step: int) -> bool {
    &&& side >= 1
    &&& step >= 1
    &&& side == 1 || (8 * side <= width && 8 * side <= height)
    &&& width < 8 * side + 8 || height < 8 * side + 8
    &&& step == 1 || 2 * step <= side
    &&& side < 2 * step + 2
}

/// The side and the step of the square are in proportion, and no others are.
proof fn lemma_proportions(width: nat, height: nat, side: int, step: int)
    requires
        proportioned(width, height, side, step),
    ensures
        side == square_side(width, height),
        step == square_step(width, height),
{
}

/// The bytes of one pixel of the pattern.
proof fn lemma_pattern_bytes(width: nat, height: nat, index: nat, x: int, y: int, c: int)
    requires
        0 <= x < width,
        0 <= y < height,
        0 <= c < 3,
    ensures
        0 <= 3 * (y * width + x) + c < pattern(width, height, index).len(),
        pattern(width, height, index)[3 * (y * width + x) + c] == pattern_pixel(
            width,
            height,
            index,
            x,
            y,
        ),
{
    assert(0 <= y * width + x < width * height) by (nonlinear_arith)
        requires
            0 <= x < width,
            0 <= y < height,
    ;
    lemma_pixel_of_byte(3 * (y * width + x) + c, y * width + x, x, y, width as int);
}

/// Where the square is: it has moved by its step with every frame, to the right
/// and down alike, and starts over at the left or the top when there is no room
/// for it. `across` and `down` are how often it has done so. All three bytes of a
/// pixel in it are 230 and of any other pixel 24.
pub proof fn law_square_position(
    width: nat,
    height: nat,
    index: nat,
    side: int,
    step: int,
    left: int,
    across: int,
    top: int,
    down: int,
    x: int,
    y: int,
    c: int,
)
    requires
        proportioned(width, height, side, step),
        width > side + 1,
        height > side + 1,
        0 <= left < width - side,
        index * step == across * (width - side) + left,
        0 <= top < height - side,
        index * step == down * (height - side) + top,
        0 <= x < width,
        0 <= y < height,
        0 <= c < 3,
    ensures
        pattern(width, height, index).len() == width * height * 3,
        0 <= 3 * (y * width + x) + c < pattern(width, height, index).len(),
        pattern(width, height, index)[3 * (y * width + x) + c] == (if left <= x < left + side && top
            <= y < top + side {
            230u8
        } else {
            24u8
        }),
{
    lemma_proportions(width, height, side, step);
    lemma_pattern_bytes(width, height, index, x, y, c);
    let travel = (index * step) as int;
    vstd::arithmetic::div_mod::lemma_fundamental_div_mod_converse(
        travel,
        width - side,
        across,
        left,
    );
    vstd::arithmetic::div_mod::lemma_fundamental_div_mod_converse(
        travel,
        height - side,
        down,
        top,
    );
}

/// The first frame shows the square in the top left corner.
pub proof fn law_square_starts_in_the_corner(
    width: nat,
    height: nat,
    side: int,
    step: int,
    x: int,
    y: int,
    c: int,
)
    requires
        proportioned(width, height, side, step),
        0 <= x < width,
        0 <= y < height,
        0 <= c < 3,
    ensures
        0 <= 3 * (y * width + x) + c < pattern(width, height, 0).len(),
        pattern(width, height, 0)[3 * (y * width + x) + c] == (if x < side && y < side {
            230u8
        } else {
            24u8
        }),
{
    lemma_proportions(width, height, side, step);
    lemma_pattern_bytes(width, height, 0, x, y, c);
    assert(0 * step == 0);
    vstd::arithmetic::div_mod::lemma_small_mod(0, square_positions(width, width, height));
    vstd::arithmetic::div_mod::lemma_small_mod(0, square_positions(height, width, height));
}

/// The square steps diagonally: where it reaches neither edge, the next frame
/// shows it moved right and down by the same number of pixels.
pub proof fn law_square_steps_diagonally(
    width: nat,
    height: nat,
    index: nat,
    side: int,
    step: int,
    left: int,
    across: int,
    top: int,
    down: int,
    x: int,
    y: int,
)
    requires
        proportioned(width, height, side, step),
        0 <= left,
        left + step + side < width,
        index * step == across * (width - side) + left,
        0 <= top,
        top + step + side < height,
        index * step == down * (height - side) + top,
        0 <= x,
        x + step < width,
        0 <= y,
        y + step < height,
    ensures
        pattern(width, height, index + 1)[3 * ((y + step) * width + (x + step))] == pattern(
            width,
            height,
            index,
        )[3 * (y * width + x)],
{
    assert((index + 1) * step == index * step + step) by (nonlinear_arith);
    law_square_position(
        width,
        height,
        index,
        side,
        step,
        left,
        across,
        top,
        down,
        x,
        y,
        0,
    );
    law_square_position(
        width,
        height,
        index + 1,
        side,
        step,
        left + step,
        across,
        top + step,
        down,
        x + step,
        y + step,
        0,
    );
}

/// The path of the square along either dimension, whatever the picture's size.
/// With more than one position it moves by its step and starts over when there is
/// no room for it. With at most one it stays, unless it could then not move at
/// all: if there is room for one step, it goes back and forth.
pub proof fn law_square_path(width: nat, height: nat, index: nat, side: int, step: int)
    requires
        width > 0,
        height > 0,
        proportioned(width, height, side, step),
    ensures
        side == square_side(width, height),
        square_x(width, height, 0) == 0,
        square_y(width, height, 0) == 0,
        square_x(width, height, index + 1) == next_position(
            square_x(width, height, index) as int,
            step,
            width - side,
            height - side,
        ),
        square_y(width, height, index + 1) == next_position(
            square_y(width, height, index) as int,
            step,
            height - side,
            width - side,
        ),
{
    lemma_proportions(width, height, side, step);
    vstd::arithmetic::div_mod::lemma_small_mod(0, square_positions(width, width, height));
    vstd::arithmetic::div_mod::lemma_small_mod(0, square_positions(height, width, height));
    lemma_next_position(index, step as nat, square_positions(width, width, height));
    lemma_next_position(index, step as nat, square_positions(height, width, height));
}

/// Where a square at `position` is in the next frame, with `room` beyond its side
/// along this dimension and `other` along the other.
pub open spec fn next_position(position: int, step: int, room: int, other: int) -> int {
    if room > 1 {
        if position + step < room {
            position + step
        } else {
            position + step - room
        }
    } else if room == 1 && other <= 1 {
        1 - position
    } else {
        0
    }
}

/// A position advances by the step, and wraps.
proof fn lemma_next_position(index: nat, step: nat, positions: nat)
    requires
        0 < positions,
        0 < step <= positions,
    ensures
        ({
            let before = (index * step) % positions;
            let after = ((index + 1) * step) % positions;
            &&& before + step < positions ==> after == before + step
            &&& before + step >= positions ==> after == before + step - positions
        }),
{
    let a = (index * step) as int;
    let m = positions as int;
    let q = a / m;
    let r = a % m;
    vstd::arithmetic::div_mod::lemma_fundamental_div_mod(a, m);
    assert((index + 1) * step == a + step) by (nonlinear_arith)
        requires
            a == index * step,
    ;
    if r + step < m {
        assert(a + step == q * m + (r + step)) by (nonlinear_arith)
            requires
                a == m * q + r,
        ;
        vstd::arithmetic::div_mod::lemma_fundamental_div_mod_converse(
            a + step,
            m,
            q,
            r + step as int,
        );
    } else {
        assert(a + step == (q + 1) * m + (r + step - m)) by (nonlinear_arith)
            requires
                a == m * q + r,
        ;
        vstd::arithmetic::div_mod::lemma_fundamental_div_mod_converse(
            a + step,
            m,
            q + 1,
            r + step - m,
        );
    }
}

/// The tone is on in every other stretch of two seconds, the first one included.
pub proof fn law_tone_is_on_every_other_pulse(n: nat, sample_rate: nat, pulses: nat)
    requires
        pulses * (2 * sample_rate) <= n < (pulses + 1) * (2 * sample_rate),
    ensures
        audible_at(n, sample_rate) <==> pulses % 2 == 0,
{
    let pulse = 2 * sample_rate;
    assert(pulse > 0 && n - pulses * pulse < pulse) by (nonlinear_arith)
        requires
            pulses * pulse <= n < (pulses + 1) * pulse,
    ;
    vstd::arithmetic::div_mod::lemma_fundamental_div_mod_converse(
        n as int,
        pulse as int,
        pulses as int,
        n - pulses * pulse,
    );
}

/// Without a sample rate the tone is on in every other frame.
pub proof fn law_tone_without_a_rate(n: nat)
    ensures
        audible_at(n, 0) <==> n % 2 == 0,
{
}

/// A stream goes on exactly as long as its clock does and a chunk fits in memory.
pub proof fn law_when_a_stream_can_go_on(stream: ToneStream)
    ensures
        stream.can_advance() <==> stream.clock().can_advance() && stream.chunk_frames()
            * stream.channels() <= usize::MAX,
        stream.well_formed() <==> stream.clock().rate() == stream.rate() && stream.clock().step()
            == stream.chunk_frames(),
{
}

/// What is said of a configuration that cannot be simulated: every number of it.
pub proof fn law_refused_simulations_are_explained(video: VideoConfig, audio: AudioConfig)
    ensures
        video_refusal(video) == "simulated video needs nonzero dimensions and fps, got "@
            + text::decimal(video.width as nat) + "x"@ + text::decimal(video.height as nat) + "@"@
            + text::decimal(video.fps as nat),
        audio_refusal(audio) == "simulated audio needs nonzero rate/channels/chunk, got "@
            + text::decimal(audio.sample_rate as nat) + " Hz, "@ + text::decimal(
            audio.channels as nat,
        ) + " ch, "@ + text::decimal(audio.chunk_frames as nat) + " frames"@,
{
}

} // verus!
