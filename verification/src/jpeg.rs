//! Which JPEG streams the JPEG decoder can be handed.
//!
//! The decoder trusts its input in two places. It lays out each component's
//! rows after the largest horizontal sampling factor met so far, and relies in
//! parts on that being the factor of the first component; a layout that breaks
//! this makes it index out of range. And it multiplies the running sum of a
//! component's DC differences by a quantizer in 32 bits. [`is_decodable`] tells
//! from the headers whether a stream stays clear of both.
//!
//! It is cautious about the second. What the differences add up to shows only
//! when the picture is decoded, so each block is taken to bring the largest
//! difference there is a code for. A sequential picture with one scan and the
//! usual codes, whose largest plane has `n` blocks with the padding, is let
//! through where the quantizer of the DC values, the first entry of its table, is
//! at most `(2^31 - 1029) / (2047 * n)`:
//!
//! | picture, 4:2:0 | quantizer up to |
//! |----------------|-----------------|
//! | 640 by 480     | 218             |
//! | 1280 by 720    | 72              |
//! | 1920 by 1080   | 32              |
//! | 2560 by 1440   | 18              |
//! | 2592 by 1944   | 13              |
//! | 3840 by 2160   | 8               |
//!
//! More scans divide these limits. Pictures beyond them are turned away though
//! the decoder would get most of them right. Progressive pictures are not
//! limited so.
use vstd::prelude::*;

verus! {

/// The byte before every marker code.
pub const MARKER_PREFIX: u8 = 0xff;

/// Marker code of a baseline frame header.
pub const BASELINE_FRAME: u8 = 0xc0;

/// Marker code of an extended sequential frame header.
pub const SEQUENTIAL_FRAME: u8 = 0xc1;

/// Marker code of a progressive frame header.
pub const PROGRESSIVE_FRAME: u8 = 0xc2;

/// Marker code of Huffman tables.
pub const HUFFMAN_TABLES: u8 = 0xc4;

/// Marker code of arithmetic coding conditions.
pub const ARITHMETIC_CODING: u8 = 0xcc;

/// Marker codes of restarts, from the first to the last.
pub const FIRST_RESTART: u8 = 0xd0;

pub const LAST_RESTART: u8 = 0xd7;

/// Marker code of the end of an image.
pub const END_OF_IMAGE: u8 = 0xd9;

/// Marker code of a scan header.
pub const SCAN: u8 = 0xda;

/// Marker code of quantization tables.
pub const QUANTIZATION_TABLES: u8 = 0xdb;

/// Marker code of a deferred number of lines.
pub const NUMBER_OF_LINES: u8 = 0xdc;

/// Marker code of the first application segment.
pub const APPLICATION: u8 = 0xe0;

/// Marker code of the application segment that names a color transform.
pub const COLOR_TRANSFORM: u8 = 0xee;

/// The largest dimension the decoder takes.
pub const MAX_DIMENSION: u64 = 16384;

/// The largest number of bytes the decoder can count.
pub const MAX_STREAM_LEN: u64 = 0x7fff_ffff;

/// The largest category of DC differences in the decoder's own tables, which it
/// falls back on.
pub const DEFAULT_CATEGORY: u64 = 11;

/// The largest product of a DC value and its quantizer that the decoder can
/// still round and shift in 32 bits.
pub const MAX_DC: u64 = 0x7fff_ffff - 1028;

/// The larger of two numbers.
pub open spec fn larger(a: int, b: int) -> int {
    if a >= b {
        a
    } else {
        b
    }
}

/// Where the first marker at or after `at` has its code: the first byte behind
/// a prefix that is neither another prefix nor zero. `last` is the byte before
/// `at`.
pub open spec fn next_marker(data: Seq<u8>, at: int, last: u8) -> Option<int>
    decreases data.len() - at,
{
    if at < 0 || at >= data.len() {
        None
    } else if last == MARKER_PREFIX && data[at] != MARKER_PREFIX && data[at] != 0 {
        Some(at)
    } else {
        next_marker(data, at + 1, data[at])
    }
}

/// A marker found is at or after the place where the search began.
pub proof fn lemma_next_marker(data: Seq<u8>, at: int, last: u8)
    ensures
        next_marker(data, at, last) matches Some(found) ==> at <= found < data.len() && 0 <= found,
    decreases data.len() - at,
{
    if 0 <= at < data.len() && !(last == MARKER_PREFIX && data[at] != MARKER_PREFIX && data[at]
        != 0) {
        lemma_next_marker(data, at + 1, data[at]);
    }
}

/// Whether a marker begins a frame of a kind the decoder knows.
pub open spec fn begins_frame(code: u8) -> bool {
    code == BASELINE_FRAME || code == SEQUENTIAL_FRAME || code == PROGRESSIVE_FRAME
}

/// Whether the decoder gives up at a marker among the headers.
pub open spec fn ends_headers(code: u8) -> bool {
    code == ARITHMETIC_CODING || code == END_OF_IMAGE || code == NUMBER_OF_LINES
}

/// The big-endian number of two bytes at `at`.
pub open spec fn number(data: Seq<u8>, at: int) -> int {
    data[at] * 256 + data[at + 1]
}

/// The length that the segment with its marker code at `at` states.
pub open spec fn stated_len(data: Seq<u8>, at: int) -> int {
    number(data, at + 1)
}

/// How far behind its marker code the decoder reads a segment. It looks for a
/// five-byte signature in an application segment of stated length six, which
/// has room for four bytes.
pub open spec fn segment_len(data: Seq<u8>, at: int) -> int {
    if data[at] == APPLICATION && stated_len(data, at) == 6 {
        7
    } else {
        stated_len(data, at)
    }
}

/// The headers of a stream, each by the place of its marker code.
pub struct Headers {
    /// The frame header.
    pub frame: int,
    /// The first scan header.
    pub scan: int,
    /// All segments before the scan header.
    pub segments: Seq<int>,
}

/// The headers of a stream among the segments from `from` on; `frame` and
/// `segments` are those met before. `None` where the headers do not get as far
/// as a scan or the decoder gives up on them.
pub open spec fn headers(
    data: Seq<u8>,
    from: int,
    frame: Option<int>,
    segments: Seq<int>,
) -> Option<Headers>
    decreases data.len() - from,
{
    match next_marker(data, from, 0) {
        None => None,
        Some(at) => if ends_headers(data[at]) {
            None
        } else if data[at] == SCAN {
            match frame {
                Some(frame) => Some(Headers { frame, scan: at, segments }),
                None => None,
            }
        } else if at + 2 >= data.len() || stated_len(data, at) < 2 {
            None
        } else if begins_frame(data[at]) && frame is Some {
            None
        } else if at + 1 + segment_len(data, at) > data.len() {
            None
        } else {
            proof {
                lemma_next_marker(data, from, 0);
            }
            headers(
                data,
                at + 1 + segment_len(data, at),
                if begins_frame(data[at]) {
                    Some(at)
                } else {
                    frame
                },
                segments.push(at),
            )
        },
    }
}

/// How many components a frame header announces.
pub open spec fn component_count(data: Seq<u8>, frame: int) -> int {
    data[frame + 8] as int
}

/// The horizontal sampling factor of a frame's `i`-th component.
pub open spec fn horizontal_factor(data: Seq<u8>, frame: int, i: int) -> int {
    data[frame + 10 + 3 * i] as int / 16
}

/// The vertical sampling factor of a frame's `i`-th component.
pub open spec fn vertical_factor(data: Seq<u8>, frame: int, i: int) -> int {
    data[frame + 10 + 3 * i] as int % 16
}

/// The number of the quantization table of a frame's `i`-th component.
pub open spec fn table_number(data: Seq<u8>, frame: int, i: int) -> int {
    data[frame + 11 + 3 * i] as int
}

/// Whether the decoder takes a component: its horizontal factor is a power of
/// two, and neither factor is larger than four.
pub open spec fn component_sound(data: Seq<u8>, frame: int, i: int) -> bool {
    let h = horizontal_factor(data, frame, i);
    &&& h == 1 || h == 2 || h == 4
    &&& 1 <= vertical_factor(data, frame, i) <= 4
    &&& table_number(data, frame, i) < 4
}

/// Whether the decoder takes a frame header at all.
pub open spec fn frame_sound(data: Seq<u8>, frame: int) -> bool {
    &&& stated_len(data, frame) >= 8
    &&& stated_len(data, frame) == 8 + 3 * component_count(data, frame)
    &&& data[frame + 3] == 8
    &&& 1 <= number(data, frame + 4) <= MAX_DIMENSION
    &&& 1 <= number(data, frame + 6) <= MAX_DIMENSION
    &&& 1 <= component_count(data, frame) <= 4
    &&& forall|i: int|
        0 <= i < component_count(data, frame) ==> #[trigger] component_sound(data, frame, i)
}

/// The largest horizontal factor of the components up to the `i`-th.
pub open spec fn widest(data: Seq<u8>, frame: int, i: int) -> int
    decreases i,
{
    if i <= 0 {
        horizontal_factor(data, frame, 0)
    } else {
        larger(widest(data, frame, i - 1), horizontal_factor(data, frame, i))
    }
}

/// The largest vertical factor of the components up to the `i`-th.
pub open spec fn tallest(data: Seq<u8>, frame: int, i: int) -> int
    decreases i,
{
    if i <= 0 {
        vertical_factor(data, frame, 0)
    } else {
        larger(tallest(data, frame, i - 1), vertical_factor(data, frame, i))
    }
}

/// The largest horizontal factor of a frame.
pub open spec fn frame_width(data: Seq<u8>, frame: int) -> int {
    widest(data, frame, component_count(data, frame) - 1)
}

/// The largest vertical factor of a frame.
pub open spec fn frame_height(data: Seq<u8>, frame: int) -> int {
    tallest(data, frame, component_count(data, frame) - 1)
}

/// How many units of `factor` blocks, eight samples each, cover an extent.
pub open spec fn units(extent: int, factor: int) -> int {
    (extent + 8 * factor - 1) / (8 * factor)
}

/// How many units of a row the decoder lays the `i`-th component out for, by the
/// widest component up to it.
pub open spec fn columns(data: Seq<u8>, frame: int, i: int) -> int {
    units(number(data, frame + 6), widest(data, frame, i))
}

/// How many units a row of the frame has.
pub open spec fn frame_columns(data: Seq<u8>, frame: int) -> int {
    columns(data, frame, component_count(data, frame) - 1)
}

/// How many rows of units the frame has.
pub open spec fn frame_rows(data: Seq<u8>, frame: int) -> int {
    units(number(data, frame + 4), frame_height(data, frame))
}

/// Whether each row of blocks of the `i`-th component, as the decoder lays it
/// out, either lies within the plane it has for the component or begins behind
/// it, where the decoder stops.
pub open spec fn rows_fit(data: Seq<u8>, frame: int, i: int) -> bool {
    let own = columns(data, frame, i);
    let all = frame_columns(data, frame);
    let v = vertical_factor(data, frame, i);
    let rows = frame_rows(data, frame);
    forall|row: int|
        #![trigger row * own]
        0 <= row < rows ==> row * own >= all * rows || own * (v * row + 1) <= all * v * rows
}

/// Whether the `i`-th component is enlarged in both directions, by way of a
/// scratch row that the decoder makes as long as a row of the first component
/// and that is too short for it.
pub open spec fn scratch_short(data: Seq<u8>, frame: int, i: int) -> bool {
    &&& 2 * horizontal_factor(data, frame, i) == frame_width(data, frame)
    &&& vertical_factor(data, frame, i) == 1
    &&& frame_height(data, frame) == 2
    &&& 2 * horizontal_factor(data, frame, i) * columns(data, frame, i) > horizontal_factor(
        data,
        frame,
        0,
    ) * columns(data, frame, 0)
}

/// Whether the scratch row is too short for any component of a frame.
pub open spec fn any_scratch_short(data: Seq<u8>, frame: int) -> bool {
    exists|i: int|
        0 <= i < component_count(data, frame) && #[trigger] scratch_short(data, frame, i)
}

/// Whether the `i`-th component is enlarged vertically from one row to the next.
pub open spec fn doubles_rows(data: Seq<u8>, frame: int, i: int) -> bool {
    &&& frame_height(data, frame) / vertical_factor(data, frame, i) == 2
    &&& frame_width(data, frame) / horizontal_factor(data, frame, i) <= 2
}

/// Whether any component of a frame is enlarged vertically from one row to the
/// next.
pub open spec fn any_doubles_rows(data: Seq<u8>, frame: int) -> bool {
    exists|i: int|
        0 <= i < component_count(data, frame) && #[trigger] doubles_rows(data, frame, i)
}

/// Whether a segment names a color transform.
pub open spec fn names_transform(data: Seq<u8>, at: int, transform: u8) -> bool {
    data[at] == COLOR_TRANSFORM && at + 14 < data.len() && data[at + 14] == transform
}

/// Whether any segment of the headers names a color transform.
pub open spec fn transform_named(data: Seq<u8>, segments: Seq<int>, transform: u8) -> bool {
    exists|k: int|
        0 <= k < segments.len() && names_transform(data, #[trigger] segments[k], transform)
}

/// How many times a marker code stands behind a prefix from `at` on.
pub open spec fn marker_count(data: Seq<u8>, at: int, code: u8) -> int
    decreases data.len() - at,
{
    if at < 0 || at + 1 >= data.len() {
        0
    } else {
        marker_count(data, at + 1, code) + (if data[at] == MARKER_PREFIX && data[at + 1] == code {
            1int
        } else {
            0
        })
    }
}

/// Whether the decoder stays within its buffers on a sequential frame. It does
/// where the first scan holds every component, since it then needs no planes.
pub open spec fn sequential_fits(data: Seq<u8>, frame: int, scan: int) -> bool {
    ||| data[scan + 3] == component_count(data, frame)
    ||| {
        &&& forall|i: int|
            0 <= i < component_count(data, frame) ==> #[trigger] rows_fit(data, frame, i)
        &&& !any_scratch_short(data, frame)
    }
}

/// Whether the decoder stays within its buffers on a progressive frame. The
/// second color transform makes it look for a third component. Where it
/// takes four components for three, it has no samples of the fourth to
/// enlarge. It does not get as far as enlarging anything where the first
/// component is laid out wider than the frame.
pub open spec fn progressive_fits(data: Seq<u8>, h: Headers) -> bool {
    let count = component_count(data, h.frame);
    &&& !(count < 3 && transform_named(data, h.segments, 2))
    &&& !(count == 4 && any_doubles_rows(data, h.frame) && (transform_named(data, h.segments, 1)
        || marker_count(data, h.scan, COLOR_TRANSFORM) > 0))
    &&& !(columns(data, h.frame, 0) == frame_columns(data, h.frame) && any_scratch_short(
        data,
        h.frame,
    ))
}

/// The largest first entry of the quantization tables with number `table` among
/// the tables from `at` to `end`.
pub open spec fn table_entry(data: Seq<u8>, at: int, end: int, table: int) -> int
    decreases end - at,
{
    let wide = data[at] as int / 16;
    let next = at + 1 + 64 * (wide + 1);
    if at < 0 || wide > 1 || next > end {
        0
    } else {
        larger(
            if data[at] as int % 16 != table {
                0
            } else if wide == 0 {
                data[at + 1] as int
            } else {
                number(data, at + 1)
            },
            table_entry(data, next, end, table),
        )
    }
}

/// The largest first entry of the quantization tables with number `table` in
/// the first `k` segments.
pub open spec fn largest_entry(data: Seq<u8>, segments: Seq<int>, k: int, table: int) -> int
    decreases k,
{
    if k <= 0 {
        0
    } else {
        larger(
            largest_entry(data, segments, k - 1, table),
            if data[segments[k - 1]] == QUANTIZATION_TABLES {
                table_entry(
                    data,
                    segments[k - 1] + 3,
                    segments[k - 1] + 1 + stated_len(data, segments[k - 1]),
                    table,
                )
            } else {
                0
            },
        )
    }
}

/// The sum of the first `k` bytes from `at` on.
pub open spec fn byte_sum(data: Seq<u8>, at: int, k: int) -> int
    decreases k,
{
    if k <= 0 {
        0
    } else {
        byte_sum(data, at, k - 1) + data[at + k - 1]
    }
}

/// The largest of the first `k` bytes from `at` on.
pub open spec fn largest_byte(data: Seq<u8>, at: int, k: int) -> int
    decreases k,
{
    if k <= 0 {
        0
    } else {
        larger(largest_byte(data, at, k - 1), data[at + k - 1] as int)
    }
}

/// The largest category of DC differences in the Huffman tables from `at` to
/// `end`.
pub open spec fn table_category(data: Seq<u8>, at: int, end: int) -> int
    decreases end - at,
{
    let codes = byte_sum(data, at + 1, 16);
    let next = at + 17 + codes;
    if at < 0 || codes < 0 || next > end {
        0
    } else {
        larger(
            if data[at] < 16 {
                largest_byte(data, at + 17, codes)
            } else {
                0
            },
            table_category(data, next, end),
        )
    }
}

/// The largest category of DC differences in the first `k` segments, and at
/// least that of the decoder's own tables.
pub open spec fn largest_category(data: Seq<u8>, segments: Seq<int>, k: int) -> int
    decreases k,
{
    if k <= 0 {
        DEFAULT_CATEGORY as int
    } else {
        larger(
            largest_category(data, segments, k - 1),
            if data[segments[k - 1]] == HUFFMAN_TABLES {
                table_category(
                    data,
                    segments[k - 1] + 3,
                    segments[k - 1] + 1 + stated_len(data, segments[k - 1]),
                )
            } else {
                0
            },
        )
    }
}

/// The largest difference of a category of at least eleven. The decoder refuses
/// tables with categories beyond fifteen.
pub open spec fn largest_difference(category: int) -> int {
    if category <= 11 {
        2047
    } else if category == 12 {
        4095
    } else if category == 13 {
        8191
    } else if category == 14 {
        16383
    } else {
        32767
    }
}

/// Whether a marker is a restart.
pub open spec fn is_restart(code: u8) -> bool {
    FIRST_RESTART <= code <= LAST_RESTART
}

/// The first marker other than a restart at or after `at`.
pub open spec fn scan_end(data: Seq<u8>, at: int) -> Option<int>
    decreases data.len() - at,
{
    match next_marker(data, at, 0) {
        Some(found) => if is_restart(data[found]) {
            proof {
                lemma_next_marker(data, at, 0);
            }
            scan_end(data, found + 1)
        } else {
            Some(found)
        },
        None => None,
    }
}

/// Whether a stream has nothing but the end of the image behind its first scan.
pub open spec fn single_scan(data: Seq<u8>, scan: int) -> bool {
    scan_end(data, scan + 1 + stated_len(data, scan)) matches Some(at) ==> data[at] == END_OF_IMAGE
}

/// How often at most the decoder goes over the blocks of a component.
pub open spec fn passes(data: Seq<u8>, scan: int) -> int {
    if single_scan(data, scan) {
        1
    } else {
        1 + marker_count(data, scan, SCAN)
    }
}

/// The largest DC difference that can occur in a stream. Tables behind the first
/// scan may bring any.
pub open spec fn stream_difference(data: Seq<u8>, h: Headers) -> int {
    if !single_scan(data, h.scan) && marker_count(data, h.scan, HUFFMAN_TABLES) > 0 {
        32767
    } else {
        largest_difference(largest_category(data, h.segments, h.segments.len() as int))
    }
}

/// How many blocks of the `i`-th component the decoder goes over at most at a
/// time.
pub open spec fn block_count(data: Seq<u8>, frame: int, i: int) -> int {
    (horizontal_factor(data, frame, i) * columns(data, frame, i)) * (vertical_factor(
        data,
        frame,
        i,
    ) * frame_rows(data, frame))
}

/// Whether the DC values of the `i`-th component stay within 32 bits when
/// multiplied by their quantizer, whatever their differences are. Restarts do
/// not count: the decoder goes on without one that is missing.
pub open spec fn dc_fits(data: Seq<u8>, h: Headers, i: int) -> bool {
    (passes(data, h.scan) * block_count(data, h.frame, i)) * (stream_difference(data, h)
        * largest_entry(
        data,
        h.segments,
        h.segments.len() as int,
        table_number(data, h.frame, i),
    )) <= MAX_DC
}

/// Whether the decoder can be handed a stream. It can where it gives up on the
/// headers by itself.
pub open spec fn decodable(data: Seq<u8>) -> bool {
    &&& data.len() <= MAX_STREAM_LEN
    &&& match headers(data, 2, None, Seq::empty()) {
        None => true,
        Some(h) => {
            ||| h.scan + 3 >= data.len()
            ||| !frame_sound(data, h.frame)
            ||| if data[h.frame] == PROGRESSIVE_FRAME {
                progressive_fits(data, h)
            } else {
                &&& sequential_fits(data, h.frame, h.scan)
                &&& forall|i: int|
                    0 <= i < component_count(data, h.frame) ==> #[trigger] dc_fits(data, h, i)
            }
        },
    }
}

/// Finds the first marker at or after `from`.
fn find_marker(data: &[u8], from: usize) -> (r: Option<usize>)
    ensures
        match next_marker(data@, from as int, 0) {
            Some(at) => r == Some(at as usize) && from <= at < data@.len(),
            None => r is None,
        },
{
    let mut at: usize = from;
    let mut last: u8 = 0;
    while at < data.len()
        invariant
            from <= at,
            next_marker(data@, at as int, last) == next_marker(data@, from as int, 0),
        decreases data@.len() - at,
    {
        let byte: u8 = data[at];
        if last == MARKER_PREFIX && byte != MARKER_PREFIX && byte != 0 {
            return Some(at);
        }
        last = byte;
        at = at + 1;
    }
    None
}

/// Reads a big-endian number of two bytes.
fn read_number(data: &[u8], at: usize) -> (n: usize)
    requires
        at + 1 < data@.len(),
    ensures
        n == number(data@, at as int),
        n <= 65535,
{
    let len: usize = data.len();
    assert(at < len);
    data[at] as usize * 256 + data[at + 1] as usize
}

/// Places in a stream as numbers.
spec fn places(segments: Seq<usize>) -> Seq<int> {
    segments.map_values(|at: usize| at as int)
}

/// Whether each of some segments ends within the stream.
spec fn within(data: Seq<u8>, segments: Seq<usize>) -> bool {
    forall|k: int|
        0 <= k < segments.len() ==> {
            &&& (#[trigger] segments[k]) + 3 <= data.len()
            &&& segments[k] + 1 + stated_len(data, segments[k] as int) <= data.len()
            &&& stated_len(data, segments[k] as int) >= 2
        }
}

/// Finds the headers.
fn find_headers(data: &[u8]) -> (r: Option<(usize, usize, Vec<usize>)>)
    ensures
        match headers(data@, 2, None, Seq::empty()) {
            Some(h) => {
                &&& r matches Some((frame, scan, segments))
                &&& h == (Headers {
                    frame: frame as int,
                    scan: scan as int,
                    segments: places(segments@),
                })
                &&& frame + 3 <= scan
                &&& frame + 1 + stated_len(data@, frame as int) <= scan < data@.len()
                &&& within(data@, segments@)
            },
            None => r is None,
        },
{
    let mut from: usize = 2;
    let mut frame: Option<usize> = None;
    let mut segments: Vec<usize> = Vec::new();
    assert(places(segments@) =~= Seq::empty());
    loop
        invariant
            headers(data@, 2, None, Seq::empty()) == headers(
                data@,
                from as int,
                match frame {
                    Some(frame) => Some(frame as int),
                    None => None,
                },
                places(segments@),
            ),
            frame matches Some(frame) ==> {
                &&& frame + 3 <= from
                &&& frame + 1 + stated_len(data@, frame as int) <= from
            },
            within(data@, segments@),
        decreases data@.len() + 2 - from,
    {
        let at: usize = match find_marker(data, from) {
            Some(at) => at,
            None => {
                return None;
            },
        };
        let code: u8 = data[at];
        if code == ARITHMETIC_CODING || code == END_OF_IMAGE || code == NUMBER_OF_LINES {
            return None;
        }
        if code == SCAN {
            return match frame {
                Some(frame) => Some((frame, at, segments)),
                None => None,
            };
        }
        if data.len() - at <= 2 {
            return None;
        }
        let stated: usize = read_number(data, at + 1);
        if stated < 2 {
            return None;
        }
        let is_frame = code == BASELINE_FRAME || code == SEQUENTIAL_FRAME || code
            == PROGRESSIVE_FRAME;
        if is_frame {
            if frame.is_some() {
                return None;
            }
            frame = Some(at);
        }
        let len: usize = if code == APPLICATION && stated == 6 {
            7
        } else {
            stated
        };
        if data.len() - at <= len {
            return None;
        }
        let ghost before = segments@;
        segments.push(at);
        assert(places(segments@) =~= places(before).push(at as int));
        from = at + 1 + len;
    }
}

/// Reads the horizontal sampling factor of a component.
fn read_horizontal(data: &[u8], frame: usize, i: usize) -> (h: u64)
    requires
        frame + 10 + 3 * i < data@.len(),
    ensures
        h == horizontal_factor(data@, frame as int, i as int),
{
    let len: usize = data.len();
    assert(frame + 10 + 3 * i < len);
    (data[frame + 10 + 3 * i] / 16) as u64
}

/// Reads the vertical sampling factor of a component.
fn read_vertical(data: &[u8], frame: usize, i: usize) -> (v: u64)
    requires
        frame + 10 + 3 * i < data@.len(),
    ensures
        v == vertical_factor(data@, frame as int, i as int),
{
    let len: usize = data.len();
    assert(frame + 10 + 3 * i < len);
    (data[frame + 10 + 3 * i] % 16) as u64
}

/// Reads the number of a component's quantization table.
fn read_table_number(data: &[u8], frame: usize, i: usize) -> (t: u64)
    requires
        frame + 11 + 3 * i < data@.len(),
    ensures
        t == table_number(data@, frame as int, i as int),
{
    let len: usize = data.len();
    assert(frame + 11 + 3 * i < len);
    data[frame + 11 + 3 * i] as u64
}

/// Whether all of a frame header lies within the stream.
spec fn frame_within(data: Seq<u8>, frame: int) -> bool {
    0 <= frame && frame + 1 + stated_len(data, frame) <= data.len()
}

/// Tells whether the decoder takes a frame header.
fn is_frame_sound(data: &[u8], frame: usize) -> (r: bool)
    requires
        frame + 3 <= data@.len(),
        frame_within(data@, frame as int),
    ensures
        r == frame_sound(data@, frame as int),
{
    let len: usize = data.len();
    assert(frame + 3 <= len);
    let stated: usize = read_number(data, frame + 1);
    if stated < 8 {
        return false;
    }
    let count: usize = data[frame + 8] as usize;
    if stated != 8 + 3 * count || data[frame + 3] != 8 || count < 1 || count > 4 {
        return false;
    }
    let height: u64 = read_number(data, frame + 4) as u64;
    let width: u64 = read_number(data, frame + 6) as u64;
    if height < 1 || height > MAX_DIMENSION || width < 1 || width > MAX_DIMENSION {
        return false;
    }
    let mut i: usize = 0;
    while i < count
        invariant
            i <= count <= 4,
            count == component_count(data@, frame as int),
            frame + 9 + 3 * count <= data@.len(),
            forall|j: int| 0 <= j < i ==> #[trigger] component_sound(data@, frame as int, j),
        decreases count - i,
    {
        let h: u64 = read_horizontal(data, frame, i);
        let v: u64 = read_vertical(data, frame, i);
        let t: u64 = read_table_number(data, frame, i);
        if !(h == 1 || h == 2 || h == 4) || v < 1 || v > 4 || t >= 4 {
            assert(!component_sound(data@, frame as int, i as int));
            return false;
        }
        i = i + 1;
    }
    true
}

/// The factors of a sound frame are between one and four.
proof fn lemma_factors(data: Seq<u8>, frame: int, i: int)
    requires
        frame_sound(data, frame),
        0 <= i < component_count(data, frame),
    ensures
        1 <= horizontal_factor(data, frame, i) <= 4,
        1 <= vertical_factor(data, frame, i) <= 4,
        1 <= widest(data, frame, i) <= 4,
        1 <= tallest(data, frame, i) <= 4,
    decreases i,
{
    assert(component_sound(data, frame, i));
    assert(component_sound(data, frame, 0));
    if i > 0 {
        lemma_factors(data, frame, i - 1);
    }
}

/// A sound extent is covered by a number of units that is neither zero nor large.
proof fn lemma_units(extent: int, factor: int)
    requires
        1 <= extent <= MAX_DIMENSION,
        1 <= factor <= 4,
    ensures
        1 <= units(extent, factor) <= 2048,
{
    assert(1 <= (extent + 8 * factor - 1) / (8 * factor) <= 2048) by (nonlinear_arith)
        requires
            1 <= extent <= 16384,
            1 <= factor <= 4,
    ;
}

/// Counts the units that cover an extent.
fn count_units(extent: u64, factor: u64) -> (n: u64)
    requires
        1 <= extent <= MAX_DIMENSION,
        1 <= factor <= 4,
    ensures
        n == units(extent as int, factor as int),
        1 <= n <= 2048,
{
    proof {
        lemma_units(extent as int, factor as int);
    }
    (extent + 8 * factor - 1) / (8 * factor)
}

/// Finds the largest horizontal factor of the components up to the `i`-th.
fn find_widest(data: &[u8], frame: usize, i: usize) -> (w: u64)
    requires
        frame + 10 + 3 * i < data@.len(),
    ensures
        w == widest(data@, frame as int, i as int),
{
    let mut w: u64 = read_horizontal(data, frame, 0);
    let mut j: usize = 0;
    while j < i
        invariant
            j <= i,
            frame + 10 + 3 * i < data@.len(),
            w == widest(data@, frame as int, j as int),
        decreases i - j,
    {
        j = j + 1;
        let h: u64 = read_horizontal(data, frame, j);
        if h > w {
            w = h;
        }
    }
    w
}

/// Finds the largest vertical factor of the components up to the `i`-th.
fn find_tallest(data: &[u8], frame: usize, i: usize) -> (t: u64)
    requires
        frame + 10 + 3 * i < data@.len(),
    ensures
        t == tallest(data@, frame as int, i as int),
{
    let mut t: u64 = read_vertical(data, frame, 0);
    let mut j: usize = 0;
    while j < i
        invariant
            j <= i,
            frame + 10 + 3 * i < data@.len(),
            t == tallest(data@, frame as int, j as int),
        decreases i - j,
    {
        j = j + 1;
        let v: u64 = read_vertical(data, frame, j);
        if v > t {
            t = v;
        }
    }
    t
}

/// Counts the units of a row of the `i`-th component.
fn count_columns(data: &[u8], frame: usize, i: usize) -> (n: u64)
    requires
        frame_within(data@, frame as int),
        frame_sound(data@, frame as int),
        i < component_count(data@, frame as int),
    ensures
        n == columns(data@, frame as int, i as int),
        1 <= n <= 2048,
{
    proof {
        lemma_factors(data@, frame as int, i as int);
    }
    let len: usize = data.len();
    assert(frame + 9 <= len);
    let width: u64 = read_number(data, frame + 6) as u64;
    count_units(width, find_widest(data, frame, i))
}

/// Counts the rows of units of a frame.
fn count_rows(data: &[u8], frame: usize) -> (n: u64)
    requires
        frame_within(data@, frame as int),
        frame_sound(data@, frame as int),
    ensures
        n == frame_rows(data@, frame as int),
        1 <= n <= 2048,
{
    let len: usize = data.len();
    assert(frame + 9 <= len);
    let count: usize = data[frame + 8] as usize;
    proof {
        lemma_factors(data@, frame as int, count - 1);
    }
    let height: u64 = read_number(data, frame + 4) as u64;
    count_units(height, find_tallest(data, frame, count - 1))
}

/// Tells whether the rows of blocks of the `i`-th component fit.
fn do_rows_fit(data: &[u8], frame: usize, i: usize) -> (r: bool)
    requires
        frame_within(data@, frame as int),
        frame_sound(data@, frame as int),
        i < component_count(data@, frame as int),
    ensures
        r == rows_fit(data@, frame as int, i as int),
{
    proof {
        lemma_factors(data@, frame as int, i as int);
    }
    let len: usize = data.len();
    assert(frame + 9 <= len);
    let count: usize = data[frame + 8] as usize;
    let own: u64 = count_columns(data, frame, i);
    let all: u64 = count_columns(data, frame, count - 1);
    let v: u64 = read_vertical(data, frame, i);
    let rows: u64 = count_rows(data, frame);
    let mut row: u64 = 0;
    while row < rows
        invariant
            row <= rows <= 2048,
            own <= 2048,
            all <= 2048,
            v <= 4,
            forall|k: int|
                #![trigger k * own]
                0 <= k < row ==> k * own >= all * rows || own * (v * k + 1) <= all * v * rows,
        ensures
            row <= rows,
            row == rows ==> forall|k: int|
                #![trigger k * own]
                0 <= k < rows ==> k * own >= all * rows || own * (v * k + 1) <= all * v * rows,
            row < rows ==> !(row * own >= all * rows || own * (v * row + 1) <= all * v * rows),
        decreases rows - row,
    {
        assert(row * own <= 2048 * 2048 && all * rows <= 2048 * 2048 && v * row <= 4 * 2048)
            by (nonlinear_arith)
            requires
                0 <= row <= 2048,
                0 <= own <= 2048,
                0 <= all <= 2048,
                0 <= rows <= 2048,
                0 <= v <= 4,
        ;
        assert(own * (v * row + 1) <= 2048 * 8193 && all * v <= 4 * 2048) by (nonlinear_arith)
            requires
                0 <= v * row <= 4 * 2048,
                0 <= own <= 2048,
                0 <= all <= 2048,
                0 <= v <= 4,
        ;
        assert(all * v * rows <= 4 * 2048 * 2048) by (nonlinear_arith)
            requires
                0 <= all * v <= 4 * 2048,
                0 <= rows <= 2048,
        ;
        if row * own < all * rows && own * (v * row + 1) > all * v * rows {
            break;
        }
        row = row + 1;
    }
    row == rows
}

/// Tells whether the scratch row is too short for any component.
fn is_any_scratch_short(data: &[u8], frame: usize) -> (r: bool)
    requires
        frame_within(data@, frame as int),
        frame_sound(data@, frame as int),
    ensures
        r == any_scratch_short(data@, frame as int),
{
    let len: usize = data.len();
    assert(frame + 9 <= len);
    let count: usize = data[frame + 8] as usize;
    proof {
        lemma_factors(data@, frame as int, 0);
    }
    let across: u64 = find_widest(data, frame, count - 1);
    let down: u64 = find_tallest(data, frame, count - 1);
    let h0: u64 = read_horizontal(data, frame, 0);
    let first: u64 = count_columns(data, frame, 0);
    assert(h0 * first <= 4 * 2048) by (nonlinear_arith)
        requires
            0 <= h0 <= 4,
            0 <= first <= 2048,
    ;
    let mut i: usize = 0;
    while i < count
        invariant
            i <= count <= 4,
            count == component_count(data@, frame as int),
            frame_within(data@, frame as int),
            frame_sound(data@, frame as int),
            across == frame_width(data@, frame as int),
            down == frame_height(data@, frame as int),
            h0 == horizontal_factor(data@, frame as int, 0),
            first == columns(data@, frame as int, 0),
            h0 * first <= 4 * 2048,
            forall|j: int| 0 <= j < i ==> !(#[trigger] scratch_short(data@, frame as int, j)),
        decreases count - i,
    {
        proof {
            lemma_factors(data@, frame as int, i as int);
        }
        let h: u64 = read_horizontal(data, frame, i);
        let v: u64 = read_vertical(data, frame, i);
        let own: u64 = count_columns(data, frame, i);
        assert(0 <= 2 * h * own <= 8 * 2048) by (nonlinear_arith)
            requires
                0 <= h <= 4,
                0 <= own <= 2048,
        ;
        if 2 * h == across && v == 1 && down == 2 && 2 * h * own > h0 * first {
            assert(scratch_short(data@, frame as int, i as int));
            return true;
        }
        i = i + 1;
    }
    false
}

/// Tells whether any component is enlarged vertically from one row to the next.
fn does_any_double_rows(data: &[u8], frame: usize) -> (r: bool)
    requires
        frame_within(data@, frame as int),
        frame_sound(data@, frame as int),
    ensures
        r == any_doubles_rows(data@, frame as int),
{
    let len: usize = data.len();
    assert(frame + 9 <= len);
    let count: usize = data[frame + 8] as usize;
    let across: u64 = find_widest(data, frame, count - 1);
    let down: u64 = find_tallest(data, frame, count - 1);
    let mut i: usize = 0;
    while i < count
        invariant
            i <= count <= 4,
            count == component_count(data@, frame as int),
            frame_within(data@, frame as int),
            frame_sound(data@, frame as int),
            across == frame_width(data@, frame as int),
            down == frame_height(data@, frame as int),
            forall|j: int| 0 <= j < i ==> !(#[trigger] doubles_rows(data@, frame as int, j)),
        decreases count - i,
    {
        proof {
            lemma_factors(data@, frame as int, i as int);
        }
        let h: u64 = read_horizontal(data, frame, i);
        let v: u64 = read_vertical(data, frame, i);
        if down / v == 2 && across / h <= 2 {
            assert(doubles_rows(data@, frame as int, i as int));
            return true;
        }
        i = i + 1;
    }
    false
}

/// Tells whether any segment names a color transform.
fn is_transform_named(data: &[u8], segments: &Vec<usize>, transform: u8) -> (r: bool)
    requires
        within(data@, segments@),
    ensures
        r == transform_named(data@, places(segments@), transform),
{
    let len: usize = data.len();
    let mut k: usize = 0;
    while k < segments.len()
        invariant
            k <= segments@.len(),
            len == data@.len(),
            within(data@, segments@),
            forall|j: int|
                0 <= j < k ==> !names_transform(
                    data@,
                    #[trigger] places(segments@)[j],
                    transform,
                ),
        decreases segments@.len() - k,
    {
        let at: usize = segments[k];
        assert(places(segments@)[k as int] == at);
        if data[at] == COLOR_TRANSFORM && len - at > 14 && data[at + 14] == transform {
            assert(names_transform(data@, places(segments@)[k as int], transform));
            return true;
        }
        k = k + 1;
    }
    false
}

/// Counts how many times a marker code stands behind a prefix from `from` on.
fn count_markers(data: &[u8], from: usize, code: u8) -> (n: usize)
    requires
        from <= data@.len(),
    ensures
        n == marker_count(data@, from as int, code),
        n <= data@.len() - from,
{
    let len: usize = data.len();
    let mut at: usize = from;
    let mut n: usize = 0;
    while len - at > 1
        invariant
            from <= at <= len == data@.len(),
            n <= at - from,
            n + marker_count(data@, at as int, code) == marker_count(data@, from as int, code),
        decreases len - at,
    {
        if data[at] == MARKER_PREFIX && data[at + 1] == code {
            n = n + 1;
        }
        at = at + 1;
    }
    n
}

/// Finds the largest first entry of the tables with a number in a segment.
fn find_table_entry(data: &[u8], from: usize, end: usize, table: u64) -> (e: u64)
    requires
        from <= end <= data@.len(),
    ensures
        e == table_entry(data@, from as int, end as int, table as int),
        e <= 65535,
{
    let len: usize = data.len();
    let mut at: usize = from;
    let mut e: u64 = 0;
    while at < end
        invariant
            from <= at <= end <= len == data@.len(),
            e <= 65535,
            larger(e as int, table_entry(data@, at as int, end as int, table as int)) == larger(
                0,
                table_entry(data@, from as int, end as int, table as int),
            ),
            table_entry(data@, from as int, end as int, table as int) >= 0,
        decreases end - at,
    {
        let wide: usize = (data[at] / 16) as usize;
        if wide > 1 || end - at < 1 + 64 * (wide + 1) {
            return e;
        }
        let next: usize = at + 1 + 64 * (wide + 1);
        if (data[at] % 16) as u64 == table {
            let entry: u64 = if wide == 0 {
                data[at + 1] as u64
            } else {
                read_number(data, at + 1) as u64
            };
            if entry > e {
                e = entry;
            }
        }
        at = next;
    }
    e
}

/// Finds the largest first entry of the tables with a number in the headers.
fn find_largest_entry(data: &[u8], segments: &Vec<usize>, table: u64) -> (e: u64)
    requires
        within(data@, segments@),
    ensures
        e == largest_entry(
            data@,
            places(segments@),
            segments@.len() as int,
            table as int,
        ),
        e <= 65535,
{
    let mut e: u64 = 0;
    let mut k: usize = 0;
    while k < segments.len()
        invariant
            k <= segments@.len(),
            within(data@, segments@),
            e <= 65535,
            e == largest_entry(data@, places(segments@), k as int, table as int),
        decreases segments@.len() - k,
    {
        let at: usize = segments[k];
        assert(places(segments@)[k as int] == at);
        if data[at] == QUANTIZATION_TABLES {
            let stated: usize = read_number(data, at + 1);
            let found: u64 = find_table_entry(data, at + 3, at + 1 + stated, table);
            if found > e {
                e = found;
            }
        }
        k = k + 1;
    }
    e
}

/// Adds up the code counts of a Huffman table.
fn sum_bytes(data: &[u8], at: usize, k: usize) -> (n: usize)
    requires
        k <= 16,
        at + k <= data@.len(),
    ensures
        n == byte_sum(data@, at as int, k as int),
        n <= 255 * k,
{
    let len: usize = data.len();
    let mut n: usize = 0;
    let mut j: usize = 0;
    while j < k
        invariant
            j <= k <= 16,
            at + k <= len == data@.len(),
            n <= 255 * j,
            n == byte_sum(data@, at as int, j as int),
        decreases k - j,
    {
        n = n + data[at + j] as usize;
        j = j + 1;
    }
    n
}

/// Finds the largest of some bytes.
fn find_largest_byte(data: &[u8], at: usize, k: usize) -> (n: u64)
    requires
        at + k <= data@.len(),
    ensures
        n == largest_byte(data@, at as int, k as int),
        n <= 255,
{
    let len: usize = data.len();
    let mut n: u64 = 0;
    let mut j: usize = 0;
    while j < k
        invariant
            j <= k,
            at + k <= len == data@.len(),
            n <= 255,
            n == largest_byte(data@, at as int, j as int),
        decreases k - j,
    {
        let byte: u64 = data[at + j] as u64;
        if byte > n {
            n = byte;
        }
        j = j + 1;
    }
    n
}

/// A sum of bytes is not negative.
proof fn lemma_byte_sum(data: Seq<u8>, at: int, k: int)
    ensures
        byte_sum(data, at, k) >= 0,
    decreases k,
{
    if k > 0 {
        lemma_byte_sum(data, at, k - 1);
    }
}

/// Finds the largest category of DC differences in a segment.
fn find_table_category(data: &[u8], from: usize, end: usize) -> (c: u64)
    requires
        from <= end <= data@.len(),
    ensures
        c == table_category(data@, from as int, end as int),
        c <= 255,
{
    let len: usize = data.len();
    let mut at: usize = from;
    let mut c: u64 = 0;
    proof {
        lemma_byte_sum(data@, end + 1, 16);
    }
    while at < end
        invariant
            from <= at <= end <= len == data@.len(),
            c <= 255,
            larger(c as int, table_category(data@, at as int, end as int)) == larger(
                0,
                table_category(data@, from as int, end as int),
            ),
            byte_sum(data@, end + 1, 16) >= 0,
            table_category(data@, from as int, end as int) >= 0,
        decreases end - at,
    {
        proof {
            lemma_byte_sum(data@, at + 1, 16);
        }
        if end - at < 17 {
            return c;
        }
        let codes: usize = sum_bytes(data, at + 1, 16);
        if end - at - 17 < codes {
            return c;
        }
        if data[at] < 16 {
            let found: u64 = find_largest_byte(data, at + 17, codes);
            if found > c {
                c = found;
            }
        }
        at = at + 17 + codes;
    }
    c
}

/// Finds the largest category of DC differences in the headers.
fn find_largest_category(data: &[u8], segments: &Vec<usize>) -> (c: u64)
    requires
        within(data@, segments@),
    ensures
        c == largest_category(data@, places(segments@), segments@.len() as int),
{
    let mut c: u64 = DEFAULT_CATEGORY;
    let mut k: usize = 0;
    while k < segments.len()
        invariant
            k <= segments@.len(),
            within(data@, segments@),
            c == largest_category(data@, places(segments@), k as int),
        decreases segments@.len() - k,
    {
        let at: usize = segments[k];
        assert(places(segments@)[k as int] == at);
        if data[at] == HUFFMAN_TABLES {
            let stated: usize = read_number(data, at + 1);
            let found: u64 = find_table_category(data, at + 3, at + 1 + stated);
            if found > c {
                c = found;
            }
        }
        k = k + 1;
    }
    c
}

/// Tells whether nothing but the end of the image follows the first scan.
fn is_single_scan(data: &[u8], scan: usize) -> (r: bool)
    requires
        scan + 3 < data@.len(),
    ensures
        r == single_scan(data@, scan as int),
{
    let len: usize = data.len();
    let stated: usize = read_number(data, scan + 1);
    if len - scan < 1 + stated {
        return true;
    }
    let mut at: usize = scan + 1 + stated;
    loop
        invariant
            at <= data@.len(),
            scan_end(data@, at as int) == scan_end(
                data@,
                scan + 1 + stated_len(data@, scan as int),
            ),
        decreases data@.len() - at,
    {
        match find_marker(data, at) {
            Some(found) => {
                let code: u8 = data[found];
                if code < FIRST_RESTART || code > LAST_RESTART {
                    return code == END_OF_IMAGE;
                }
                at = found + 1;
            },
            None => {
                return true;
            },
        }
    }
}

/// Tells whether the DC values of every component stay within 32 bits.
fn do_dc_values_fit(data: &[u8], frame: usize, scan: usize, segments: &Vec<usize>) -> (r: bool)
    requires
        frame_within(data@, frame as int),
        frame_sound(data@, frame as int),
        scan + 3 < data@.len() <= MAX_STREAM_LEN,
        within(data@, segments@),
    ensures
        r == forall|i: int|
            0 <= i < component_count(data@, frame as int) ==> #[trigger] dc_fits(
                data@,
                (Headers {
                    frame: frame as int,
                    scan: scan as int,
                    segments: places(segments@),
                }),
                i,
            ),
{
    let len: usize = data.len();
    assert(frame + 9 <= len);
    let ghost h = Headers {
        frame: frame as int,
        scan: scan as int,
        segments: places(segments@),
    };
    let count: usize = data[frame + 8] as usize;
    let single = is_single_scan(data, scan);
    let passes: u64 = if single {
        1
    } else {
        1 + count_markers(data, scan, SCAN) as u64
    };
    let retabled = !single && count_markers(data, scan, HUFFMAN_TABLES) > 0;
    let category: u64 = find_largest_category(data, segments);
    let difference: u64 = if retabled || category > 14 {
        32767
    } else if category == 14 {
        16383
    } else if category == 13 {
        8191
    } else if category == 12 {
        4095
    } else {
        2047
    };
    let rows: u64 = count_rows(data, frame);
    let mut i: usize = 0;
    while i < count
        invariant
            i <= count <= 4,
            count == component_count(data@, frame as int),
            frame_within(data@, frame as int),
            frame_sound(data@, frame as int),
            within(data@, segments@),
            h == (Headers {
                frame: frame as int,
                scan: scan as int,
                segments: places(segments@),
            }),
            passes == self::passes(data@, scan as int),
            passes <= 0x8000_0000,
            difference == stream_difference(data@, h),
            difference <= 32767,
            rows == frame_rows(data@, frame as int),
            rows <= 2048,
            forall|j: int| 0 <= j < i ==> #[trigger] dc_fits(data@, h, j),
        decreases count - i,
    {
        proof {
            lemma_factors(data@, frame as int, i as int);
        }
        let across: u64 = read_horizontal(data, frame, i);
        let down: u64 = read_vertical(data, frame, i);
        let own: u64 = count_columns(data, frame, i);
        let entry: u64 = find_largest_entry(data, segments, read_table_number(data, frame, i));
        assert(0 <= across * own <= 8192 && 0 <= down * rows <= 8192) by (nonlinear_arith)
            requires
                0 <= across <= 4,
                0 <= own <= 2048,
                0 <= down <= 4,
                0 <= rows <= 2048,
        ;
        let per_row: u64 = across * own;
        let per_column: u64 = down * rows;
        assert(0 <= per_row * per_column <= 0x400_0000) by (nonlinear_arith)
            requires
                0 <= per_row <= 8192,
                0 <= per_column <= 8192,
        ;
        let blocks: u64 = per_row * per_column;
        assert(0 <= passes * blocks <= 0x200_0000_0000_0000) by (nonlinear_arith)
            requires
                0 <= passes <= 0x8000_0000,
                0 <= blocks <= 0x400_0000,
        ;
        assert(0 <= difference * entry <= 0x7fff_ffff) by (nonlinear_arith)
            requires
                0 <= difference <= 32767,
                0 <= entry <= 65535,
        ;
        let visits: u128 = (passes * blocks) as u128;
        let steps: u128 = (difference * entry) as u128;
        assert(0 <= visits * steps <= 0x200_0000_0000_0000 * 0x7fff_ffff) by (nonlinear_arith)
            requires
                0 <= visits <= 0x200_0000_0000_0000,
                0 <= steps <= 0x7fff_ffff,
        ;
        assert((visits * steps <= MAX_DC) == dc_fits(data@, h, i as int));
        if visits * steps > MAX_DC as u128 {
            return false;
        }
        i = i + 1;
    }
    true
}

/// Tells whether the decoder stays within its buffers on a sequential frame.
fn does_sequential_fit(data: &[u8], frame: usize, scan: usize) -> (r: bool)
    requires
        frame_within(data@, frame as int),
        frame_sound(data@, frame as int),
        scan + 3 < data@.len(),
    ensures
        r == sequential_fits(data@, frame as int, scan as int),
{
    let len: usize = data.len();
    assert(frame + 9 <= len);
    let count: usize = data[frame + 8] as usize;
    if data[scan + 3] as usize == count {
        return true;
    }
    let mut i: usize = 0;
    while i < count
        invariant
            i <= count <= 4,
            count == component_count(data@, frame as int),
            frame_within(data@, frame as int),
            frame_sound(data@, frame as int),
            scan + 3 < data@.len(),
            data@[scan + 3] != count,
            forall|j: int| 0 <= j < i ==> #[trigger] rows_fit(data@, frame as int, j),
        decreases count - i,
    {
        if !do_rows_fit(data, frame, i) {
            return false;
        }
        i = i + 1;
    }
    !is_any_scratch_short(data, frame)
}

/// Tells whether the decoder stays within its buffers on a progressive frame.
fn does_progressive_fit(data: &[u8], frame: usize, scan: usize, segments: &Vec<usize>) -> (r: bool)
    requires
        frame_within(data@, frame as int),
        frame_sound(data@, frame as int),
        scan + 3 < data@.len(),
        within(data@, segments@),
    ensures
        r == progressive_fits(
            data@,
            (Headers { frame: frame as int, scan: scan as int, segments: places(segments@) }),
        ),
{
    let len: usize = data.len();
    assert(frame + 9 <= len);
    let count: usize = data[frame + 8] as usize;
    if count < 3 && is_transform_named(data, segments, 2) {
        return false;
    }
    if count == 4 && does_any_double_rows(data, frame) && (is_transform_named(data, segments, 1)
        || count_markers(data, scan, COLOR_TRANSFORM) > 0) {
        return false;
    }
    !(count_columns(data, frame, 0) == count_columns(data, frame, count - 1)
        && is_any_scratch_short(data, frame))
}

/// Tells whether the decoder can be handed a stream.
pub fn is_decodable(data: &[u8]) -> (r: bool)
    ensures
        r == decodable(data@),
{
    if data.len() as u64 > MAX_STREAM_LEN {
        return false;
    }
    let (frame, scan, segments) = match find_headers(data) {
        Some(found) => found,
        None => {
            return true;
        },
    };
    if data.len() - scan <= 3 || !is_frame_sound(data, frame) {
        return true;
    }
    if data[frame] == PROGRESSIVE_FRAME {
        does_progressive_fit(data, frame, scan, &segments)
    } else {
        does_sequential_fit(data, frame, scan) && do_dc_values_fit(data, frame, scan, &segments)
    }
}

/// Whether the `k`-th of some segments, given by the places of their marker codes,
/// is followed directly by the next one, or by the scan header. Only the
/// `frame`-th is a frame header, and none is one at which the decoder gives up.
pub open spec fn followed(data: Seq<u8>, segments: Seq<int>, frame: int, scan: int, k: int) -> bool {
    let at = segments[k];
    let code = data[at];
    let len = data[at + 1] * 256 + data[at + 2];
    &&& at >= 3
    &&& data[at - 1] == 0xff
    &&& code != 0 && code != 0xff && code != 0xcc && code != 0xd9 && code != 0xda && code != 0xdc
    &&& (code == 0xc0 || code == 0xc1 || code == 0xc2) <==> k == frame
    &&& len >= 2
    &&& !(code == 0xe0 && len == 6)
    &&& at + 2 + len == (if k + 1 < segments.len() {
        segments[k + 1]
    } else {
        scan
    })
}

/// Whether a stream is laid out as these segments: one behind the other from its
/// beginning to its first scan header.
pub open spec fn laid_out(data: Seq<u8>, segments: Seq<int>, frame: int, scan: int) -> bool {
    &&& 0 <= frame < segments.len()
    &&& segments[0] == 3
    &&& forall|k: int|
        0 <= k < segments.len() ==> #[trigger] followed(data, segments, frame, scan, k)
    &&& scan + 3 < data.len()
    &&& data[scan - 1] == 0xff
    &&& data[scan] == 0xda
}

/// Segments lie before the scan.
proof fn lemma_before_scan(data: Seq<u8>, segments: Seq<int>, frame: int, scan: int, k: int)
    requires
        laid_out(data, segments, frame, scan),
        0 <= k < segments.len(),
    ensures
        3 <= segments[k],
        segments[k] + 4 <= segments[k] + 2 + number(data, segments[k] + 1) <= scan,
    decreases segments.len() - k,
{
    assert(followed(data, segments, frame, scan, k));
    if k + 1 < segments.len() {
        lemma_before_scan(data, segments, frame, scan, k + 1);
    }
}

/// The headers are walked segment by segment.
proof fn lemma_walk(data: Seq<u8>, segments: Seq<int>, frame: int, scan: int, k: int)
    requires
        laid_out(data, segments, frame, scan),
        0 <= k <= segments.len(),
    ensures
        headers(data, 2, None, Seq::empty()) == headers(
            data,
            (if k < segments.len() {
                segments[k]
            } else {
                scan
            }) - 1,
            if frame < k {
                Some(segments[frame])
            } else {
                None
            },
            segments.take(k),
        ),
    decreases k,
{
    if k == 0 {
        assert(segments.take(0) =~= Seq::empty());
    } else {
        lemma_walk(data, segments, frame, scan, k - 1);
        lemma_before_scan(data, segments, frame, scan, k - 1);
        assert(followed(data, segments, frame, scan, k - 1));
        let at = segments[k - 1];
        reveal_with_fuel(next_marker, 3);
        assert(next_marker(data, at - 1, 0) == Some(at));
        assert(segments.take(k) =~= segments.take(k - 1).push(at));
    }
}

/// The headers of a stream that is laid out as it should be are its segments, its
/// frame header and its first scan header.
pub proof fn law_headers_are_found(data: Seq<u8>, segments: Seq<int>, frame: int, scan: int)
    requires
        laid_out(data, segments, frame, scan),
    ensures
        headers(data, 2, None, Seq::empty()) == Some(
            Headers { frame: segments[frame], scan, segments },
        ),
{
    let n = segments.len() as int;
    lemma_walk(data, segments, frame, scan, n);
    lemma_before_scan(data, segments, frame, scan, n - 1);
    assert(segments.take(n) =~= segments);
    reveal_with_fuel(next_marker, 3);
    assert(next_marker(data, scan - 1, 0) == Some(scan));
}

/// Whether a frame header, with its marker code at `at`, is one the decoder takes
/// and its first component is the widest: eight-bit samples, dimensions up to
/// 16384, one to four components of sampling factors up to four, the horizontal
/// ones powers of two.
pub open spec fn plain_frame(data: Seq<u8>, at: int) -> bool {
    let count = data[at + 8];
    &&& data[at + 1] * 256 + data[at + 2] == 8 + 3 * count
    &&& data[at + 3] == 8
    &&& 1 <= data[at + 4] * 256 + data[at + 5] <= 16384
    &&& 1 <= data[at + 6] * 256 + data[at + 7] <= 16384
    &&& 1 <= count <= 4
    &&& forall|i: int|
        0 <= i < count ==> {
            let factors = #[trigger] data[at + 10 + 3 * i];
            &&& factors / 16 == 1 || factors / 16 == 2 || factors / 16 == 4
            &&& 1 <= factors % 16 <= 4
            &&& factors / 16 <= data[at + 10] / 16
            &&& data[at + 11 + 3 * i] < 4
        }
}

/// A plain frame is sound, and each component is laid out like the first.
proof fn lemma_plain_frame(data: Seq<u8>, at: int, i: int)
    requires
        plain_frame(data, at),
        0 <= i < data[at + 8],
    ensures
        frame_sound(data, at),
        widest(data, at, i) == data[at + 10] as int / 16,
    decreases i,
{
    assert forall|j: int| 0 <= j < component_count(data, at) implies #[trigger] component_sound(
        data,
        at,
        j,
    ) by {
        let factors = data[at + 10 + 3 * j];
    }
    let factors = data[at + 10 + 3 * i];
    if i > 0 {
        lemma_plain_frame(data, at, i - 1);
    } else {
        assert(at + 10 + 3 * 0 == at + 10);
    }
}

/// The largest vertical factor is one that no factor exceeds and some factor is.
proof fn lemma_tallest(data: Seq<u8>, at: int, i: int, tall: int)
    requires
        i >= 0,
        forall|j: int| 0 <= j <= i ==> (#[trigger] data[at + 10 + 3 * j]) as int % 16 <= tall,
    ensures
        tallest(data, at, i) <= tall,
        forall|j: int|
            0 <= j <= i ==> (#[trigger] data[at + 10 + 3 * j]) as int % 16 <= tallest(data, at, i),
    decreases i,
{
    let factors = data[at + 10 + 3 * i];
    assert(factors as int % 16 <= tall);
    if i > 0 {
        lemma_tallest(data, at, i - 1, tall);
    } else {
        assert(at + 10 + 3 * 0 == at + 10);
    }
}

/// A frame whose first component is the widest stays within the decoder's buffers.
proof fn lemma_plain_frame_fits(data: Seq<u8>, at: int, scan: int)
    requires
        plain_frame(data, at),
    ensures
        sequential_fits(data, at, scan),
        !any_scratch_short(data, at),
{
    let count = component_count(data, at);
    lemma_plain_frame(data, at, 0);
    lemma_plain_frame(data, at, count - 1);
    assert(at + 10 + 3 * 0 == at + 10);
    assert forall|i: int| 0 <= i < count implies !(#[trigger] scratch_short(data, at, i)) by {
        lemma_plain_frame(data, at, i);
        let h = horizontal_factor(data, at, i);
        let shared = columns(data, at, 0);
        assert(columns(data, at, i) == shared);
        if 2 * h == horizontal_factor(data, at, 0) {
            assert(2 * h * shared == horizontal_factor(data, at, 0) * shared);
        }
    }
    assert forall|i: int| 0 <= i < count implies #[trigger] rows_fit(data, at, i) by {
        lemma_plain_frame(data, at, i);
        lemma_factors(data, at, i);
        lemma_units(number(data, at + 6), data[at + 10] as int / 16);
        let own = columns(data, at, i);
        let v = vertical_factor(data, at, i);
        let rows = frame_rows(data, at);
        assert forall|row: int|
            #![trigger row * own]
            0 <= row < rows implies row * own >= frame_columns(data, at) * rows || own * (v * row
            + 1) <= frame_columns(data, at) * v * rows by {
            assert(own * (v * row + 1) <= own * v * rows) by (nonlinear_arith)
                requires
                    0 <= own,
                    1 <= v,
                    0 <= row < rows,
            ;
        }
    }
}

/// Every progressive stream of one to three components whose first is the widest,
/// and that names no color transform, is handed to the decoder: at any length up to
/// two gigabytes, of any size, and with any quantizers.
pub proof fn law_progressive_streams_are_decoded(
    data: Seq<u8>,
    segments: Seq<int>,
    frame: int,
    scan: int,
)
    requires
        data.len() < 0x8000_0000,
        laid_out(data, segments, frame, scan),
        data[segments[frame]] == 0xc2,
        plain_frame(data, segments[frame]),
        data[segments[frame] + 8] <= 3,
        forall|k: int| 0 <= k < segments.len() ==> data[#[trigger] segments[k]] != 0xee,
    ensures
        decodable(data),
{
    let at = segments[frame];
    law_headers_are_found(data, segments, frame, scan);
    lemma_plain_frame(data, at, 0);
    lemma_plain_frame_fits(data, at, scan);
}

/// Whether a stream has one scan, with restarts at most, up to the end of the
/// image, whose marker has its prefix at `end`.
pub open spec fn one_scan(data: Seq<u8>, scan: int, end: int) -> bool {
    let begin = scan + 1 + data[scan + 1] * 256 + data[scan + 2];
    &&& begin <= end
    &&& end + 1 < data.len()
    &&& data[end] == 0xff
    &&& data[end + 1] == 0xd9
    &&& forall|p: int|
        begin <= p < end && #[trigger] data[p] == 0xff ==> data[p + 1] == 0 || 0xd0 <= data[p + 1]
            <= 0xd7
}

/// The next marker of a single scan is a restart or the end of the image.
proof fn lemma_markers_of_one_scan(data: Seq<u8>, scan: int, end: int, at: int, last: u8)
    requires
        one_scan(data, scan, end),
        scan >= 0,
        scan + 1 + number(data, scan + 1) <= at <= end + 1,
        last == 0xff && at <= end ==> data[at] == 0 || 0xd0 <= data[at] <= 0xd7,
        at == end + 1 ==> last == 0xff,
    ensures
        next_marker(data, at, last) matches Some(found) && (found == end + 1 || (at <= found < end
            && is_restart(data[found]))),
    decreases end + 1 - at,
{
    if at <= end {
        if last == 0xff && data[at] != 0 {
        } else {
            lemma_markers_of_one_scan(data, scan, end, at + 1, data[at]);
        }
    }
}

/// A single scan ends with the image.
proof fn lemma_end_of_one_scan(data: Seq<u8>, scan: int, end: int, at: int)
    requires
        one_scan(data, scan, end),
        scan >= 0,
        scan + 1 + number(data, scan + 1) <= at <= end,
    ensures
        scan_end(data, at) == Some(end + 1),
    decreases end - at,
{
    lemma_markers_of_one_scan(data, scan, end, at, 0);
    let found = next_marker(data, at, 0)->Some_0;
    if found != end + 1 {
        lemma_end_of_one_scan(data, scan, end, found + 1);
    }
}

/// Whether a segment of Huffman tables holds one table, and the categories in it
/// are at most eleven if it is one of DC differences.
pub open spec fn usual_codes(data: Seq<u8>, at: int) -> bool {
    let codes = data[at + 4] + data[at + 5] + data[at + 6] + data[at + 7] + data[at + 8] + data[at
        + 9] + data[at + 10] + data[at + 11] + data[at + 12] + data[at + 13] + data[at + 14] + data[
    at + 15] + data[at + 16] + data[at + 17] + data[at + 18] + data[at + 19];
    &&& data[at + 1] * 256 + data[at + 2] == 19 + codes
    &&& data[at + 3] < 16 ==> forall|j: int|
        at + 20 <= j < at + 20 + codes ==> #[trigger] data[j] <= 11
}

/// The largest of some bytes is no more than a bound on all of them.
proof fn lemma_largest_byte(data: Seq<u8>, at: int, k: int, bound: int)
    requires
        bound >= 0,
        forall|j: int| at <= j < at + k ==> #[trigger] data[j] <= bound,
    ensures
        largest_byte(data, at, k) <= bound,
    decreases k,
{
    if k > 0 {
        lemma_largest_byte(data, at, k - 1, bound);
    }
}

/// The usual codes have no categories beyond the decoder's own.
proof fn lemma_usual_codes(data: Seq<u8>, at: int)
    requires
        at >= 0,
        usual_codes(data, at),
    ensures
        table_category(data, at + 3, at + 1 + stated_len(data, at)) <= 11,
{
    reveal_with_fuel(byte_sum, 17);
    let codes = byte_sum(data, at + 4, 16);
    let end = at + 1 + stated_len(data, at);
    assert(end == at + 20 + codes);
    lemma_byte_sum(data, end + 1, 16);
    assert(table_category(data, end, end) == 0);
    if data[at + 3] < 16 {
        lemma_largest_byte(data, at + 20, codes, 11);
    }
}

/// The largest category among the usual codes.
proof fn lemma_usual_category(data: Seq<u8>, segments: Seq<int>, k: int)
    requires
        0 <= k <= segments.len(),
        forall|j: int|
            0 <= j < segments.len() && data[#[trigger] segments[j]] == 0xc4 ==> segments[j] >= 0
                && usual_codes(data, segments[j]),
    ensures
        largest_category(data, segments, k) == 11,
    decreases k,
{
    if k > 0 {
        lemma_usual_category(data, segments, k - 1);
        let at = segments[k - 1];
        if data[at] == 0xc4 {
            lemma_usual_codes(data, at);
        }
    }
}

/// Whether each segment of quantization tables holds one table of bytes, and
/// `quantizers` has, for each table number, the largest first entry of the tables
/// with that number.
pub open spec fn first_entries(data: Seq<u8>, segments: Seq<int>, quantizers: Seq<int>) -> bool {
    &&& quantizers.len() == 4
    &&& forall|k: int|
        0 <= k < segments.len() && data[#[trigger] segments[k]] == 0xdb ==> {
            let at = segments[k];
            &&& at >= 0
            &&& data[at + 1] * 256 + data[at + 2] == 67
            &&& data[at + 3] < 4
            &&& data[at + 4] <= quantizers[data[at + 3] as int]
        }
    &&& forall|t: int|
        0 <= t < 4 ==> #[trigger] quantizers[t] == 0 || exists|k: int|
            0 <= k < segments.len() && data[#[trigger] segments[k]] == 0xdb && data[segments[k] + 3]
                == t && data[segments[k] + 4] == quantizers[t]
}

/// The entry of a segment with one table of bytes.
proof fn lemma_single_table(data: Seq<u8>, at: int, t: int)
    requires
        at >= 0,
        data[at + 1] * 256 + data[at + 2] == 67,
        data[at + 3] < 4,
    ensures
        table_entry(data, at + 3, at + 1 + stated_len(data, at), t) == (if data[at + 3] == t {
            data[at + 4] as int
        } else {
            0
        }),
{
    let end = at + 68;
    assert(data[end] as int / 16 >= 0);
    assert(table_entry(data, end, end, t) == 0);
}

/// The largest entry of some tables.
proof fn lemma_largest_entry(
    data: Seq<u8>,
    segments: Seq<int>,
    quantizers: Seq<int>,
    k: int,
    t: int,
)
    requires
        first_entries(data, segments, quantizers),
        0 <= k <= segments.len(),
        0 <= t < 4,
    ensures
        0 <= largest_entry(data, segments, k, t),
        largest_entry(data, segments, k, t) == 0 || largest_entry(data, segments, k, t)
            <= quantizers[t],
        forall|j: int|
            0 <= j < k && data[#[trigger] segments[j]] == 0xdb && data[segments[j] + 3] == t
                ==> data[segments[j] + 4] <= largest_entry(data, segments, k, t),
    decreases k,
{
    if k > 0 {
        lemma_largest_entry(data, segments, quantizers, k - 1, t);
        let at = segments[k - 1];
        if data[at] == 0xdb {
            lemma_single_table(data, at, t);
        }
    }
}

/// A baseline or extended stream of one scan, whose first component is the widest
/// and which has the usual codes, is handed to the decoder exactly when no component can overflow:
/// where its blocks, each with a difference of 2047, times its quantizer leave room
/// for rounding in 31 bits. Its length does not matter up to two gigabytes. A
/// picture is `across` units wide and `down` high, of eight samples for each step
/// of the largest factors.
pub proof fn law_which_sequential_streams_are_decoded(
    data: Seq<u8>,
    segments: Seq<int>,
    frame: int,
    scan: int,
    end: int,
    quantizers: Seq<int>,
    tall: int,
    across: int,
    down: int,
)
    requires
        data.len() < 0x8000_0000,
        laid_out(data, segments, frame, scan),
        data[segments[frame]] != 0xc2,
        plain_frame(data, segments[frame]),
        one_scan(data, scan, end),
        forall|k: int|
            0 <= k < segments.len() && data[#[trigger] segments[k]] == 0xc4 ==> usual_codes(
                data,
                segments[k],
            ),
        first_entries(data, segments, quantizers),
        forall|i: int|
            0 <= i < data[segments[frame] + 8] ==> (#[trigger] data[segments[frame] + 10 + 3
                * i]) as int % 16 <= tall,
        exists|i: int|
            0 <= i < data[segments[frame] + 8] && (#[trigger] data[segments[frame] + 10 + 3
                * i]) as int % 16 == tall,
        ({
            let at = segments[frame];
            let unit = 8 * (data[at + 10] as int / 16);
            &&& (across - 1) * unit < data[at + 6] * 256 + data[at + 7] <= across * unit
            &&& (down - 1) * (8 * tall) < data[at + 4] * 256 + data[at + 5] <= down * (8 * tall)
        }),
    ensures
        decodable(data) <==> forall|i: int|
            0 <= i < data[segments[frame] + 8] ==> {
                let factors = #[trigger] data[segments[frame] + 10 + 3 * i] as int;
                let blocks = ((factors / 16) * across) * ((factors % 16) * down);
                let quantizer = quantizers[data[segments[frame] + 11 + 3 * i] as int];
                blocks * (2047 * quantizer) <= 0x7fff_ffff - 1028
            },
{
    let at = segments[frame];
    let count = component_count(data, at);
    let n = segments.len() as int;
    let h = Headers { frame: at, scan, segments };
    law_headers_are_found(data, segments, frame, scan);
    lemma_before_scan(data, segments, frame, scan, 0);
    assert forall|k: int| 0 <= k < n && data[#[trigger] segments[k]] == 0xc4 implies segments[k]
        >= 0 && usual_codes(data, segments[k]) by {
        lemma_before_scan(data, segments, frame, scan, k);
    }
    lemma_usual_category(data, segments, n);
    lemma_end_of_one_scan(data, scan, end, scan + 1 + number(data, scan + 1));
    assert(passes(data, scan) == 1);
    assert(stream_difference(data, h) == 2047);
    lemma_plain_frame(data, at, 0);
    lemma_plain_frame_fits(data, at, scan);
    lemma_tallest(data, at, count - 1, tall);
    assert(frame_height(data, at) == tall);
    lemma_units_of(number(data, at + 4), tall, down);
    lemma_units_of(number(data, at + 6), data[at + 10] as int / 16, across);
    assert forall|i: int| 0 <= i < count implies #[trigger] dc_fits(data, h, i) == ({
        let factors = data[at + 10 + 3 * i] as int;
        let blocks = ((factors / 16) * across) * ((factors % 16) * down);
        let quantizer = quantizers[data[at + 11 + 3 * i] as int];
        blocks * (2047 * quantizer) <= 0x7fff_ffff - 1028
    }) by {
        let t = table_number(data, at, i);
        let factors = data[at + 10 + 3 * i];
        lemma_plain_frame(data, at, i);
        assert(component_sound(data, at, i));
        lemma_largest_entry(data, segments, quantizers, n, t);
        assert(quantizers[t] == 0 || quantizers[t] > 0);
        assert(largest_entry(data, segments, n, t) == quantizers[t]);
    }
    if decodable(data) {
        assert forall|i: int| 0 <= i < data[at + 8] implies {
            let factors = #[trigger] data[at + 10 + 3 * i] as int;
            let blocks = ((factors / 16) * across) * ((factors % 16) * down);
            let quantizer = quantizers[data[at + 11 + 3 * i] as int];
            blocks * (2047 * quantizer) <= 0x7fff_ffff - 1028
        } by {
            assert(dc_fits(data, h, i));
        }
    } else {
        let i = choose|i: int| 0 <= i < count && !#[trigger] dc_fits(data, h, i);
        let factors = data[at + 10 + 3 * i];
        assert(!dc_fits(data, h, i));
    }
}

/// How many units cover an extent.
proof fn lemma_units_of(extent: int, factor: int, n: int)
    requires
        1 <= factor,
        1 <= extent,
        (n - 1) * (8 * factor) < extent <= n * (8 * factor),
    ensures
        units(extent, factor) == n,
{
    let d = 8 * factor;
    let e = extent + d - 1;
    assert(0 <= e - n * d < d) by (nonlinear_arith)
        requires
            e == extent + d - 1,
            (n - 1) * d < extent <= n * d,
    ;
    vstd::arithmetic::div_mod::lemma_fundamental_div_mod_converse(e, d, n, e - n * d);
}

/// A stream whose frame header the decoder turns down by itself is handed to it,
/// whatever else it holds.
pub proof fn law_unsound_frames_are_left_to_the_decoder(
    data: Seq<u8>,
    segments: Seq<int>,
    frame: int,
    scan: int,
)
    requires
        data.len() < 0x8000_0000,
        laid_out(data, segments, frame, scan),
        ({
            let at = segments[frame];
            ||| data[at + 1] * 256 + data[at + 2] != 8 + 3 * data[at + 8]
            ||| data[at + 3] != 8
            ||| data[at + 4] == 0 && data[at + 5] == 0
            ||| data[at + 4] * 256 + data[at + 5] > 16384
            ||| data[at + 6] == 0 && data[at + 7] == 0
            ||| data[at + 6] * 256 + data[at + 7] > 16384
            ||| data[at + 8] == 0
            ||| data[at + 8] > 4
        }),
    ensures
        decodable(data),
{
    law_headers_are_found(data, segments, frame, scan);
}

/// A stream without headers up to a scan is left to the decoder, and one of two
/// gigabytes or more never is.
pub proof fn law_length_of_streams(data: Seq<u8>)
    ensures
        data.len() >= 0x8000_0000 ==> !decodable(data),
        data.len() < 0x8000_0000 && headers(data, 2, None, Seq::empty()) is None ==> decodable(data),
        data.len() < 4 ==> decodable(data),
{
    reveal_with_fuel(next_marker, 4);
}

/// Whether the `j`-th of some quantization tables, given by their places, is
/// followed directly by the next one, or by their end: it is a byte with the size
/// of the entries and the number of the table, and then 64 entries of one or two
/// bytes.
pub open spec fn table_followed(data: Seq<u8>, tables: Seq<int>, end: int, j: int) -> bool {
    let wide = data[tables[j]] as int / 16;
    &&& tables[j] >= 0
    &&& wide == 0 || wide == 1
    &&& tables[j] + 65 + 64 * wide == (if j + 1 < tables.len() {
        tables[j + 1]
    } else {
        end
    })
}

/// Whether quantization tables lie one behind the other up to an end.
pub open spec fn tables_follow(data: Seq<u8>, tables: Seq<int>, end: int) -> bool {
    forall|j: int| 0 <= j < tables.len() ==> #[trigger] table_followed(data, tables, end, j)
}

/// The first entry of the quantization table at `at`.
pub open spec fn first_entry(data: Seq<u8>, at: int) -> int {
    if data[at] < 16 {
        data[at + 1] as int
    } else {
        data[at + 1] * 256 + data[at + 2]
    }
}

/// Each table of a segment of quantization tables counts for its number, and
/// nothing else does.
pub proof fn law_all_tables_count(data: Seq<u8>, tables: Seq<int>, end: int, number: int)
    requires
        tables.len() > 0,
        tables_follow(data, tables, end),
    ensures
        forall|j: int|
            0 <= j < tables.len() && data[#[trigger] tables[j]] as int % 16 == number
                ==> first_entry(data, tables[j]) <= table_entry(data, tables[0], end, number),
        table_entry(data, tables[0], end, number) == 0 || exists|j: int|
            0 <= j < tables.len() && data[#[trigger] tables[j]] as int % 16 == number && first_entry(
                data,
                tables[j],
            ) == table_entry(data, tables[0], end, number),
    decreases tables.len(),
{
    let at = tables[0];
    let wide = data[at] as int / 16;
    let rest = tables.drop_first();
    let next = at + 65 + 64 * wide;
    assert(table_followed(data, tables, end, 0));
    if rest.len() == 0 {
        assert(data[end] as int / 16 >= 0);
        assert(table_entry(data, end, end, number) == 0);
    } else {
        assert forall|j: int| 0 <= j < rest.len() implies #[trigger] table_followed(
            data,
            rest,
            end,
            j,
        ) by {
            assert(table_followed(data, tables, end, j + 1));
        }
        lemma_tables_end(data, rest, end, 0);
        law_all_tables_count(data, rest, end, number);
        assert(rest[0] == next);
        assert forall|j: int|
            0 <= j < tables.len() && data[#[trigger] tables[j]] as int % 16 == number implies
            first_entry(data, tables[j]) <= table_entry(data, tables[0], end, number) by {
            if j > 0 {
                assert(rest[j - 1] == tables[j]);
            }
        }
        if table_entry(data, next, end, number) == table_entry(data, at, end, number)
            && table_entry(data, at, end, number) != 0 {
            let j = choose|j: int|
                0 <= j < rest.len() && data[#[trigger] rest[j]] as int % 16 == number
                    && first_entry(data, rest[j]) == table_entry(data, next, end, number);
            assert(rest[j] == tables[j + 1]);
        }
    }
}

/// Tables that follow one another begin before their end.
proof fn lemma_tables_end(data: Seq<u8>, tables: Seq<int>, end: int, j: int)
    requires
        tables_follow(data, tables, end),
        0 <= j < tables.len(),
    ensures
        tables[j] < end,
    decreases tables.len() - j,
{
    assert(table_followed(data, tables, end, j));
    if j + 1 < tables.len() {
        lemma_tables_end(data, tables, end, j + 1);
    }
}

/// A segment counts among all.
proof fn lemma_segment_counts(data: Seq<u8>, segments: Seq<int>, n: int, k: int, number: int)
    requires
        0 <= k < n <= segments.len(),
        data[segments[k]] == 0xdb,
    ensures
        largest_entry(data, segments, n, number) >= table_entry(
            data,
            segments[k] + 3,
            segments[k] + 1 + stated_len(data, segments[k]),
            number,
        ),
    decreases n,
{
    if k < n - 1 {
        lemma_segment_counts(data, segments, n - 1, k, number);
    }
}

/// Every marker is counted: at least as many as stand at these places.
pub proof fn law_markers_are_counted(data: Seq<u8>, at: int, code: u8, places: Seq<int>)
    requires
        at >= 0,
        forall|j: int|
            0 <= j < places.len() ==> at <= #[trigger] places[j] && places[j] + 1 < data.len()
                && data[places[j]] == 0xff && data[places[j] + 1] == code,
        forall|i: int, j: int| 0 <= i < j < places.len() ==> places[i] < places[j],
    ensures
        marker_count(data, at, code) >= places.len(),
    decreases data.len() - at,
{
    if places.len() == 0 {
        lemma_count_not_negative(data, at, code);
    } else {
        assert(at <= places[0]);
        if places[0] == at {
            let rest = places.drop_first();
            assert forall|j: int| 0 <= j < rest.len() implies at + 1 <= #[trigger] rest[j] && rest[j]
                + 1 < data.len() && data[rest[j]] == 0xff && data[rest[j] + 1] == code by {
                assert(rest[j] == places[j + 1]);
                assert(places[0] < places[j + 1]);
            }
            assert forall|i: int, j: int| 0 <= i < j < rest.len() implies rest[i] < rest[j] by {
                assert(places[i + 1] < places[j + 1]);
            }
            law_markers_are_counted(data, at + 1, code, rest);
        } else {
            assert forall|j: int| 0 <= j < places.len() implies at + 1 <= #[trigger] places[j] by {
                if j > 0 {
                    assert(places[0] < places[j]);
                }
            }
            law_markers_are_counted(data, at + 1, code, places);
        }
    }
}

proof fn lemma_count_not_negative(data: Seq<u8>, at: int, code: u8)
    ensures
        marker_count(data, at, code) >= 0,
    decreases data.len() - at,
{
    if 0 <= at && at + 1 < data.len() {
        lemma_count_not_negative(data, at + 1, code);
    }
}

/// No component of a sequential stream that is handed to the decoder can overflow:
/// not with any of its quantization tables, even if each of its blocks has a
/// difference of 2047 in every scan. The scans behind the first have their markers
/// at `scans`.
pub proof fn law_decoded_streams_do_not_overflow(
    data: Seq<u8>,
    segments: Seq<int>,
    frame: int,
    scan: int,
    i: int,
    k: int,
    tables: Seq<int>,
    j: int,
    scans: Seq<int>,
    tall: int,
    across: int,
    down: int,
)
    requires
        laid_out(data, segments, frame, scan),
        data[segments[frame]] != 0xc2,
        plain_frame(data, segments[frame]),
        decodable(data),
        0 <= i < data[segments[frame] + 8],
        0 <= k < segments.len(),
        data[segments[k]] == 0xdb,
        tables.len() > 0,
        tables[0] == segments[k] + 3,
        tables_follow(
            data,
            tables,
            segments[k] + 1 + data[segments[k] + 1] * 256 + data[segments[k] + 2],
        ),
        0 <= j < tables.len(),
        data[tables[j]] as int % 16 == data[segments[frame] + 11 + 3 * i],
        scans.len() > 0 ==> !single_scan(data, scan),
        forall|n: int|
            0 <= n < scans.len() ==> scan <= #[trigger] scans[n] && scans[n] + 1 < data.len()
                && data[scans[n]] == 0xff && data[scans[n] + 1] == 0xda,
        forall|m: int, n: int| 0 <= m < n < scans.len() ==> scans[m] < scans[n],
        forall|n: int|
            0 <= n < data[segments[frame] + 8] ==> (#[trigger] data[segments[frame] + 10 + 3
                * n]) as int % 16 <= tall,
        exists|n: int|
            0 <= n < data[segments[frame] + 8] && (#[trigger] data[segments[frame] + 10 + 3
                * n]) as int % 16 == tall,
        ({
            let at = segments[frame];
            let unit = 8 * (data[at + 10] as int / 16);
            &&& (across - 1) * unit < data[at + 6] * 256 + data[at + 7] <= across * unit
            &&& (down - 1) * (8 * tall) < data[at + 4] * 256 + data[at + 5] <= down * (8 * tall)
        }),
    ensures
        ({
            let factors = data[segments[frame] + 10 + 3 * i] as int;
            let blocks = ((factors / 16) * across) * ((factors % 16) * down);
            ((1 + scans.len()) * blocks) * (2047 * first_entry(data, tables[j])) <= 0x7fff_ffff
                - 1028
        }),
{
    let at = segments[frame];
    let n = segments.len() as int;
    let h = Headers { frame: at, scan, segments };
    let t = table_number(data, at, i);
    let factors = data[at + 10 + 3 * i] as int;
    let blocks = ((factors / 16) * across) * ((factors % 16) * down);
    let q = largest_entry(data, segments, n, t);
    let e = first_entry(data, tables[j]);
    assert(block_count(data, at, i) == blocks && blocks >= 0) by {
        lemma_block_count(data, at, i, tall, across, down);
    }
    assert(1 + scans.len() <= passes(data, scan)) by {
        lemma_before_scan(data, segments, frame, scan, 0);
        law_markers_are_counted(data, scan, 0xda, scans);
    }
    assert(0 <= e <= q) by {
        law_all_tables_count(
            data,
            tables,
            segments[k] + 1 + data[segments[k] + 1] * 256 + data[segments[k] + 2],
            t,
        );
        lemma_segment_counts(data, segments, n, k, t);
    }
    assert(dc_fits(data, h, i)) by {
        law_headers_are_found(data, segments, frame, scan);
        lemma_plain_frame(data, at, 0);
    }
    lemma_smaller_product(
        1 + scans.len() as int,
        passes(data, scan),
        blocks,
        2047,
        stream_difference(data, h),
        e,
        q,
    );
}

/// How many blocks a component of a plain frame has.
proof fn lemma_block_count(data: Seq<u8>, at: int, i: int, tall: int, across: int, down: int)
    requires
        plain_frame(data, at),
        0 <= i < data[at + 8],
        forall|n: int|
            0 <= n < data[at + 8] ==> (#[trigger] data[at + 10 + 3 * n]) as int % 16 <= tall,
        exists|n: int|
            0 <= n < data[at + 8] && (#[trigger] data[at + 10 + 3 * n]) as int % 16 == tall,
        (across - 1) * (8 * (data[at + 10] as int / 16)) < number(data, at + 6) <= across * (8 * (
        data[at + 10] as int / 16)),
        (down - 1) * (8 * tall) < number(data, at + 4) <= down * (8 * tall),
    ensures
        ({
            let factors = data[at + 10 + 3 * i] as int;
            let blocks = ((factors / 16) * across) * ((factors % 16) * down);
            block_count(data, at, i) == blocks && blocks >= 0
        }),
{
    let count = component_count(data, at);
    let wide = data[at + 10] as int / 16;
    let factors = data[at + 10 + 3 * i] as int;
    lemma_plain_frame(data, at, i);
    lemma_factors(data, at, i);
    lemma_factors(data, at, count - 1);
    lemma_tallest(data, at, count - 1, tall);
    assert(frame_height(data, at) == tall);
    lemma_units_of(number(data, at + 4), tall, down);
    lemma_units_of(number(data, at + 6), wide, across);
    lemma_units(number(data, at + 4), tall);
    lemma_units(number(data, at + 6), wide);
    let (h, v) = (factors / 16, factors % 16);
    assert((h * across) * (v * down) >= 0) by (nonlinear_arith)
        requires
            h >= 0,
            v >= 0,
            across >= 1,
            down >= 1,
    ;
}

/// Smaller factors make a smaller product.
proof fn lemma_smaller_product(a: int, b: int, n: int, c: int, d: int, e: int, f: int)
    requires
        0 <= a <= b,
        0 <= n,
        0 <= c <= d,
        0 <= e <= f,
    ensures
        (a * n) * (c * e) <= (b * n) * (d * f),
{
    assert(0 <= a * n <= b * n) by (nonlinear_arith)
        requires
            0 <= a <= b,
            0 <= n,
    ;
    assert(0 <= c * e <= d * f) by (nonlinear_arith)
        requires
            0 <= c <= d,
            0 <= e <= f,
    ;
    let (x, y, z, w) = (a * n, b * n, c * e, d * f);
    assert(x * z <= y * w) by (nonlinear_arith)
        requires
            0 <= x <= y,
            0 <= z <= w,
    ;
}

} // verus!
