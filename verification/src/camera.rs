//! The decisions of the camera backend: which device and format to ask for,
//! what the device can do, and how its capture thread reacts to each read.
use crate::error::CaptureError;
use crate::text;
use crate::video::{PixelFormat, VideoCaps, VideoConfig, VideoMode};
use vstd::prelude::*;
use vstd::string::*;

verus! {

/// Consecutive read failures tolerated before the capture thread gives up
/// (the camera was unplugged, for example).
pub const MAX_CONSECUTIVE_ERRORS: u32 = 30;

/// A frame format as a camera driver names it.
#[derive(Debug, Clone, Copy, PartialEq, Eq, Structural)]
pub enum WireFormat {
    Mjpeg,
    Yuyv,
    Nv12,
    Gray,
    RawRgb,
    /// A format the pipeline does not understand.
    Other,
}

/// One capture mode as a camera driver reports it.
#[derive(Debug, Clone, Copy, PartialEq, Eq, Structural)]
pub struct CameraMode {
    pub width: u32,
    pub height: u32,
    pub fps: u32,
    pub format: WireFormat,
}

/// Which camera to open.
#[derive(Debug, Clone, PartialEq, Eq)]
pub enum CameraSelector {
    Index(u32),
    Name(String),
}

/// A format to ask a camera for.
#[derive(Debug, Clone, Copy, PartialEq, Eq, Structural)]
pub enum FormatRequest {
    /// The mode closest to this one.
    Closest(CameraMode),
    /// Whatever the device offers at its highest frame rate.
    HighestFrameRate,
}

/// The pixel format of a wire format.
pub open spec fn pixel_format_of(format: WireFormat) -> Option<PixelFormat> {
    match format {
        WireFormat::Mjpeg => Some(PixelFormat::Mjpeg),
        WireFormat::Yuyv => Some(PixelFormat::Yuyv),
        WireFormat::Nv12 => Some(PixelFormat::Nv12),
        WireFormat::Gray => Some(PixelFormat::Luma8),
        WireFormat::RawRgb => Some(PixelFormat::Rgb24),
        WireFormat::Other => None,
    }
}

/// Translates a wire format into a pixel format; `None` for formats the
/// pipeline does not understand.
pub fn map_frame_format(format: WireFormat) -> (r: Option<PixelFormat>)
    ensures
        r == pixel_format_of(format),
{
    match format {
        WireFormat::Mjpeg => Some(PixelFormat::Mjpeg),
        WireFormat::Yuyv => Some(PixelFormat::Yuyv),
        WireFormat::Nv12 => Some(PixelFormat::Nv12),
        WireFormat::Gray => Some(PixelFormat::Luma8),
        WireFormat::RawRgb => Some(PixelFormat::Rgb24),
        WireFormat::Other => None,
    }
}

/// Whether a selector is what a configured device asks for.
pub open spec fn selects(device: Option<Seq<char>>, selector: CameraSelector) -> bool {
    match device {
        None => selector == CameraSelector::Index(0),
        Some(name) => match text::bounded_value(name, u32::MAX as nat) {
            Some(n) => selector matches CameraSelector::Index(i) && i == n,
            None => selector matches CameraSelector::Name(s) && s@ == name,
        },
    }
}

/// Reads a device selector: a number that fits a `u32` is an index, any other
/// text a device name, and no selector means the first camera.
pub fn camera_selector(device: &Option<String>) -> (selector: CameraSelector)
    ensures
        selects(
            match device {
                Some(name) => Some(name@),
                None => None,
            },
            selector,
        ),
        match device {
            None => selector == CameraSelector::Index(0),
            Some(name) => match text::bounded_value(name@, u32::MAX as nat) {
                Some(n) => selector matches CameraSelector::Index(i) && i == n,
                None => selector matches CameraSelector::Name(s) && s@ == name@,
            },
        },
{
    match device {
        None => CameraSelector::Index(0),
        Some(name) => match text::parse_u32(name.as_str()) {
            Some(n) => CameraSelector::Index(n),
            None => CameraSelector::Name(name.clone()),
        },
    }
}

impl CameraSelector {
    /// The device as messages name it: its index in decimal, or its name.
    pub open spec fn label(&self) -> Seq<char> {
        match self {
            CameraSelector::Index(index) => text::decimal(*index as nat),
            CameraSelector::Name(name) => name@,
        }
    }

    /// Renders the device as messages name it.
    pub fn label_text(&self) -> (s: String)
        ensures
            s@ == self.label(),
    {
        match self {
            CameraSelector::Index(index) => text::decimal_text(*index as u128),
            CameraSelector::Name(name) => name.clone(),
        }
    }
}

/// The mode of `cfg` in a given format.
pub open spec fn requested_mode(cfg: VideoConfig, format: WireFormat) -> CameraMode {
    CameraMode { width: cfg.width, height: cfg.height, fps: cfg.fps, format }
}

/// What to ask a camera for, in order, until it accepts: the closest MJPEG
/// mode, the closest YUYV mode, and then its highest frame rate.
pub open spec fn open_order(cfg: VideoConfig) -> Seq<FormatRequest> {
    seq![
        FormatRequest::Closest(requested_mode(cfg, WireFormat::Mjpeg)),
        FormatRequest::Closest(requested_mode(cfg, WireFormat::Yuyv)),
        FormatRequest::HighestFrameRate,
    ]
}

/// Lists what to ask a camera for.
pub fn open_requests(cfg: &VideoConfig) -> (requests: Vec<FormatRequest>)
    ensures
        requests@ == open_order(*cfg),
{
    let mut requests: Vec<FormatRequest> = Vec::new();
    requests.push(
        FormatRequest::Closest(
            CameraMode {
                width: cfg.width,
                height: cfg.height,
                fps: cfg.fps,
                format: WireFormat::Mjpeg,
            },
        ),
    );
    requests.push(
        FormatRequest::Closest(
            CameraMode {
                width: cfg.width,
                height: cfg.height,
                fps: cfg.fps,
                format: WireFormat::Yuyv,
            },
        ),
    );
    requests.push(FormatRequest::HighestFrameRate);
    assert(requests@ =~= open_order(*cfg));
    requests
}

/// The message when a camera accepts none of the requests.
pub open spec fn failure_text(device: Seq<char>, last_error: Option<Seq<char>>) -> Seq<char> {
    "could not open camera "@ + device + ": "@ + (match last_error {
        Some(reason) => reason,
        None => "no formats accepted"@,
    })
}

/// The error when a camera accepts none of the requests: the device as it was
/// selected and what it said last.
pub fn open_failure(device: &CameraSelector, last_error: Option<String>) -> (e: CaptureError)
    ensures
        e matches CaptureError::DeviceNotFound(m) && m@ == failure_text(
            device.label(),
            match last_error {
                Some(reason) => Some(reason@),
                None => None,
            },
        ),
{
    let mut m = "could not open camera ".to_owned();
    let label = device.label_text();
    m.append(label.as_str());
    m.append(": ");
    match last_error {
        Some(reason) => m.append(reason.as_str()),
        None => m.append("no formats accepted"),
    }
    CaptureError::DeviceNotFound(m)
}

/// The attempts to open a camera: each request in turn until the camera accepts
/// one.
#[derive(Debug)]
pub struct OpenAttempts {
    requests: Vec<FormatRequest>,
    tried: usize,
    last_error: Option<String>,
}

impl OpenAttempts {
    /// All requests, in order.
    pub closed spec fn requests(&self) -> Seq<FormatRequest> {
        self.requests@
    }

    /// How many requests the camera has turned down.
    pub closed spec fn tried(&self) -> nat {
        self.tried as nat
    }

    /// What the camera said last.
    pub closed spec fn last_error(&self) -> Option<Seq<char>> {
        match self.last_error {
            Some(reason) => Some(reason@),
            None => None,
        }
    }

    /// The request to make next, if any is left.
    pub open spec fn request(&self) -> Option<FormatRequest> {
        if self.tried() < self.requests().len() {
            Some(self.requests()[self.tried() as int])
        } else {
            None
        }
    }

    /// Whether turning a request down for this reason leaves the attempts as
    /// `after`.
    pub open spec fn is_refused(&self, reason: Seq<char>, after: OpenAttempts) -> bool {
        &&& after.requests() == self.requests()
        &&& after.tried() == self.tried() + 1
        &&& after.last_error() == Some(reason)
    }

    /// Attempts that have not begun.
    pub fn new(cfg: &VideoConfig) -> (attempts: OpenAttempts)
        ensures
            attempts.requests() == open_order(*cfg),
            attempts.tried() == 0,
            attempts.last_error() is None,
    {
        OpenAttempts { requests: open_requests(cfg), tried: 0, last_error: None }
    }

    /// The next request to make; `None` when the camera has turned down all.
    pub fn next_request(&self) -> (r: Option<FormatRequest>)
        ensures
            r == self.request(),
            r == (if self.tried() < self.requests().len() {
                Some(self.requests()[self.tried() as int])
            } else {
                None
            }),
    {
        if self.tried < self.requests.len() {
            Some(self.requests[self.tried])
        } else {
            None
        }
    }

    /// The camera turned the next request down.
    pub fn on_refused(&mut self, reason: String)
        requires
            old(self).tried() < old(self).requests().len(),
        ensures
            old(self).is_refused(reason@, *final(self)),
            final(self).requests() == old(self).requests(),
            final(self).tried() == old(self).tried() + 1,
            final(self).last_error() == Some(reason@),
    {
        if self.tried < self.requests.len() {
            self.tried = self.tried + 1;
        }
        self.last_error = Some(reason);
    }

    /// The error when the camera has turned down all requests: the device as it
    /// was selected and what it said last.
    pub fn failure(self, device: &CameraSelector) -> (e: CaptureError)
        ensures
            e matches CaptureError::DeviceNotFound(m) && m@ == failure_text(
                device.label(),
                self.last_error(),
            ),
    {
        open_failure(device, self.last_error)
    }
}

/// A driver mode in capture-layer terms, if its format is understood.
pub open spec fn mapped_mode(mode: CameraMode) -> Option<VideoMode> {
    match pixel_format_of(mode.format) {
        Some(format) => Some(
            VideoMode { width: mode.width, height: mode.height, fps: mode.fps, format },
        ),
        None => None,
    }
}

/// The understood modes among `modes`, in order.
pub open spec fn mapped_modes(modes: Seq<CameraMode>) -> Seq<VideoMode>
    decreases modes.len(),
{
    if modes.len() == 0 {
        Seq::empty()
    } else {
        let earlier = mapped_modes(modes.drop_last());
        match mapped_mode(modes.last()) {
            Some(mode) => earlier.push(mode),
            None => earlier,
        }
    }
}

/// The modes a camera reports: the understood ones among those it enumerated,
/// or, if there are none, the one it currently runs in.
pub open spec fn camera_modes(enumerated: Option<Seq<CameraMode>>, current: CameraMode) -> Seq<
    VideoMode,
> {
    let listed = match enumerated {
        Some(modes) => mapped_modes(modes),
        None => Seq::empty(),
    };
    if listed.len() == 0 {
        mapped_modes(seq![current])
    } else {
        listed
    }
}

/// The view of an optional list.
pub open spec fn listed_view(enumerated: Option<Vec<CameraMode>>) -> Option<Seq<CameraMode>> {
    match enumerated {
        Some(modes) => Some(modes@),
        None => None,
    }
}

/// Maps the device's supported formats into capture-layer terms.
///
/// `enumerated` is `None` when the device could not be asked. Falls back to the
/// currently negotiated format when there is nothing to list: a source that is
/// producing frames must never report zero capabilities.
pub fn probe_caps(enumerated: Option<Vec<CameraMode>>, current: CameraMode) -> (caps: VideoCaps)
    ensures
        caps.modes@ == camera_modes(
            match enumerated {
                Some(modes) => Some(modes@),
                None => None,
            },
            current,
        ),
        caps.modes@ == camera_modes(listed_view(enumerated), current),
{
    let mut modes: Vec<VideoMode> = Vec::new();
    match &enumerated {
        Some(listed) => {
            let mut i: usize = 0;
            assert(listed@.take(0) =~= Seq::<CameraMode>::empty());
            while i < listed.len()
                invariant
                    i <= listed@.len(),
                    modes@ == mapped_modes(listed@.take(i as int)),
                decreases listed@.len() - i,
            {
                let mode = listed[i];
                proof {
                    assert(listed@.take(i + 1).drop_last() =~= listed@.take(i as int));
                }
                match map_frame_format(mode.format) {
                    Some(format) => {
                        modes.push(
                            VideoMode {
                                width: mode.width,
                                height: mode.height,
                                fps: mode.fps,
                                format,
                            },
                        );
                    },
                    None => {},
                }
                i = i + 1;
            }
            assert(listed@.take(listed@.len() as int) =~= listed@);
        },
        None => {},
    }
    if modes.len() == 0 {
        proof {
            assert(seq![current].drop_last() =~= Seq::<CameraMode>::empty());
            assert(mapped_modes(seq![current].drop_last()) =~= Seq::<VideoMode>::empty());
        }
        match map_frame_format(current.format) {
            Some(format) => {
                modes.push(
                    VideoMode {
                        width: current.width,
                        height: current.height,
                        fps: current.fps,
                        format,
                    },
                );
            },
            None => {},
        }
    }
    VideoCaps { modes }
}

/// What to do with a frame that was read.
#[derive(Debug, Clone, Copy, PartialEq, Eq, Structural)]
pub enum FrameAction {
    /// Publish it in this format.
    Publish(PixelFormat),
    /// Drop it; its format is not understood. `warn` is set the first time.
    Drop { warn: bool },
}

/// What to do after a failed read.
#[derive(Debug, Clone, Copy, PartialEq, Eq, Structural)]
pub enum ErrorAction {
    /// Wait a little and read again.
    Retry,
    /// Stop capturing.
    GiveUp,
}

/// The state of a capture thread between reads.
#[derive(Debug)]
pub struct CaptureHealth {
    consecutive_errors: u32,
    warned_unmapped: bool,
}

impl CaptureHealth {
    /// Reads that failed since the last one that succeeded.
    pub closed spec fn errors(&self) -> nat {
        self.consecutive_errors as nat
    }

    /// Whether a frame in an unknown format was already warned about.
    pub closed spec fn warned(&self) -> bool {
        self.warned_unmapped
    }

    /// Whether a failed read leads to this action and leaves the thread as `after`.
    pub open spec fn fails(&self, action: ErrorAction, after: CaptureHealth) -> bool {
        &&& after.errors() == self.errors() + 1
        &&& after.warned() == self.warned()
        &&& action is GiveUp <==> after.errors() == MAX_CONSECUTIVE_ERRORS
    }

    /// Whether a frame in this format leads to this action and leaves the thread as
    /// `after`.
    pub open spec fn reads(
        &self,
        format: WireFormat,
        action: FrameAction,
        after: CaptureHealth,
    ) -> bool {
        &&& after.errors() == 0
        &&& after.warned() == (self.warned() || format is Other)
        &&& match action {
            FrameAction::Publish(pixel_format) => pixel_format_of(format) == Some(pixel_format),
            FrameAction::Drop { warn } => format is Other && warn == !self.warned(),
        }
    }

    /// A thread that has not read anything yet.
    pub fn new() -> (health: CaptureHealth)
        ensures
            health.errors() == 0,
            health.errors() == errors_after(Seq::empty()),
            !health.warned(),
    {
        CaptureHealth { consecutive_errors: 0, warned_unmapped: false }
    }

    /// A frame was read: the failure count starts over, and the frame is
    /// published if its format is understood.
    pub fn on_frame(&mut self, format: WireFormat) -> (action: FrameAction)
        ensures
            old(self).reads(format, action, *final(self)),
            final(self).errors() == 0,
            forall|reads: Seq<bool>|
                old(self).errors() == errors_after(reads) ==> final(self).errors() == errors_after(
                    #[trigger] reads.push(true),
                ),
            match pixel_format_of(format) {
                Some(pixel_format) => {
                    &&& action == FrameAction::Publish(pixel_format)
                    &&& final(self).warned() == old(self).warned()
                },
                None => {
                    &&& action == (FrameAction::Drop { warn: !old(self).warned() })
                    &&& final(self).warned()
                },
            },
    {
        self.consecutive_errors = 0;
        match map_frame_format(format) {
            Some(pixel_format) => FrameAction::Publish(pixel_format),
            None => {
                let warn = !self.warned_unmapped;
                self.warned_unmapped = true;
                FrameAction::Drop { warn }
            },
        }
    }

    /// A read failed: give up on reaching the tolerated number of failures in a
    /// row.
    pub fn on_error(&mut self) -> (action: ErrorAction)
        requires
            old(self).errors() < MAX_CONSECUTIVE_ERRORS,
        ensures
            old(self).fails(action, *final(self)),
            final(self).errors() == old(self).errors() + 1,
            forall|reads: Seq<bool>|
                old(self).errors() == errors_after(reads) ==> final(self).errors() == errors_after(
                    #[trigger] reads.push(false),
                ),
            final(self).warned() == old(self).warned(),
            action == (if final(self).errors() == MAX_CONSECUTIVE_ERRORS {
                ErrorAction::GiveUp
            } else {
                ErrorAction::Retry
            }),
    {
        self.consecutive_errors = self.consecutive_errors + 1;
        assert forall|reads: Seq<bool>|
            old(self).errors() == errors_after(reads) implies self.errors() == errors_after(
            #[trigger] reads.push(false),
        ) by {
            assert(reads.push(false).drop_last() =~= reads);
        }
        if self.consecutive_errors >= MAX_CONSECUTIVE_ERRORS {
            ErrorAction::GiveUp
        } else {
            ErrorAction::Retry
        }
    }
}

/// The failure count after a history of reads, each one a success (`true`) or a
/// failure.
pub open spec fn errors_after(reads: Seq<bool>) -> nat
    decreases reads.len(),
{
    if reads.len() == 0 || reads.last() {
        0
    } else {
        errors_after(reads.drop_last()) + 1
    }
}

/// The failure count reaches the limit exactly when the last reads, that many,
/// all failed: successes in between always start it over.
pub proof fn law_gives_up_after_a_run_of_failures(reads: Seq<bool>)
    ensures
        errors_after(reads) >= MAX_CONSECUTIVE_ERRORS <==> {
            &&& reads.len() >= MAX_CONSECUTIVE_ERRORS
            &&& forall|i: int|
                reads.len() - MAX_CONSECUTIVE_ERRORS <= i < reads.len() ==> !#[trigger] reads[i]
        },
{
    lemma_errors_are_trailing(reads, MAX_CONSECUTIVE_ERRORS as nat);
}

proof fn lemma_errors_are_trailing(reads: Seq<bool>, n: nat)
    ensures
        errors_after(reads) >= n <==> {
            &&& reads.len() >= n
            &&& forall|i: int| reads.len() - n <= i < reads.len() ==> !#[trigger] reads[i]
        },
    decreases reads.len(),
{
    if n == 0 {
    } else if reads.len() == 0 {
    } else if reads.last() {
        assert(reads[reads.len() - 1]);
    } else {
        let shorter = reads.drop_last();
        let m = (n - 1) as nat;
        lemma_errors_are_trailing(shorter, m);
        if errors_after(reads) >= n {
            assert forall|i: int| reads.len() - n <= i < reads.len() implies !#[trigger] reads[i] by {
                if i < reads.len() - 1 {
                    assert(!shorter[i]);
                }
            }
        } else if reads.len() >= n {
            let i = choose|i: int| shorter.len() - m <= i < shorter.len() && #[trigger] shorter[i];
            assert(reads[i]);
        }
    }
}

/// A camera that runs in an understood format never reports zero modes.
pub proof fn law_running_camera_has_a_mode(
    enumerated: Option<Seq<CameraMode>>,
    current: CameraMode,
)
    requires
        pixel_format_of(current.format) is Some,
    ensures
        camera_modes(enumerated, current).len() > 0,
{
    assert(seq![current].drop_last() =~= Seq::<CameraMode>::empty());
}

/// A single mode is mapped by itself.
proof fn lemma_single_mode(mode: CameraMode)
    ensures
        mapped_modes(seq![mode]) == (match mapped_mode(mode) {
            Some(mapped) => seq![mapped],
            None => seq![],
        }),
{
    let one = seq![mode];
    assert(one.drop_last() =~= Seq::<CameraMode>::empty());
    assert(mapped_modes(one.drop_last()) =~= Seq::<VideoMode>::empty());
    assert(mapped_modes(one) =~= match mapped_mode(mode) {
        Some(mapped) => seq![mapped],
        None => seq![],
    });
}

/// Every wire format but an unknown one has the pixel format of its name.
pub proof fn law_formats_keep_their_names(format: WireFormat)
    ensures
        pixel_format_of(format) is None <==> format is Other,
        pixel_format_of(format) matches Some(pixel_format) ==> match format {
            WireFormat::Mjpeg => pixel_format is Mjpeg,
            WireFormat::Yuyv => pixel_format is Yuyv,
            WireFormat::Nv12 => pixel_format is Nv12,
            WireFormat::Gray => pixel_format is Luma8,
            WireFormat::RawRgb => pixel_format is Rgb24,
            WireFormat::Other => false,
        },
{
}

/// Where a camera lists formats that are all understood, each mode is reported
/// in its place with its own size, frame rate and format, whatever the camera
/// currently runs in.
pub proof fn law_listed_modes_are_reported(listed: Seq<CameraMode>, current: CameraMode)
    requires
        listed.len() > 0,
        forall|i: int| 0 <= i < listed.len() ==> !((#[trigger] listed[i]).format is Other),
    ensures
        camera_modes(Some(listed), current).len() == listed.len(),
        forall|i: int|
            0 <= i < listed.len() ==> {
                let mode = #[trigger] camera_modes(Some(listed), current)[i];
                &&& mode.width == listed[i].width
                &&& mode.height == listed[i].height
                &&& mode.fps == listed[i].fps
                &&& match listed[i].format {
                    WireFormat::Mjpeg => mode.format is Mjpeg,
                    WireFormat::Yuyv => mode.format is Yuyv,
                    WireFormat::Nv12 => mode.format is Nv12,
                    WireFormat::Gray => mode.format is Luma8,
                    WireFormat::RawRgb => mode.format is Rgb24,
                    WireFormat::Other => false,
                }
            },
{
    lemma_understood_modes(listed);
}

/// Modes that are all understood are mapped one by one.
proof fn lemma_understood_modes(listed: Seq<CameraMode>)
    requires
        forall|i: int| 0 <= i < listed.len() ==> !((#[trigger] listed[i]).format is Other),
    ensures
        mapped_modes(listed).len() == listed.len(),
        forall|i: int|
            0 <= i < listed.len() ==> mapped_mode(listed[i]) == Some(
                #[trigger] mapped_modes(listed)[i],
            ),
    decreases listed.len(),
{
    if listed.len() > 0 {
        let shorter = listed.drop_last();
        assert forall|i: int| 0 <= i < shorter.len() implies !((
        #[trigger] shorter[i]).format is Other) by {
            assert(shorter[i] == listed[i]);
        }
        lemma_understood_modes(shorter);
        assert(!(listed[listed.len() - 1].format is Other));
        assert forall|i: int| 0 <= i < listed.len() implies mapped_mode(listed[i]) == Some(
            #[trigger] mapped_modes(listed)[i],
        ) by {
            if i < shorter.len() {
                assert(mapped_mode(shorter[i]) == Some(mapped_modes(shorter)[i]));
            }
        }
    }
}

/// Modes are mapped run by run.
proof fn lemma_mapped_runs(first: Seq<CameraMode>, second: Seq<CameraMode>)
    ensures
        mapped_modes(first + second) == mapped_modes(first) + mapped_modes(second),
    decreases second.len(),
{
    let all = first + second;
    if second.len() == 0 {
        assert(all =~= first);
        assert(mapped_modes(first) + mapped_modes(second) =~= mapped_modes(first));
    } else {
        assert(all.drop_last() =~= first + second.drop_last());
        assert(all.last() == second.last());
        lemma_mapped_runs(first, second.drop_last());
        assert(mapped_modes(all) =~= mapped_modes(first) + mapped_modes(second));
    }
}

/// A listed mode in an unknown format makes no difference.
pub proof fn law_unknown_modes_are_left_out(
    before: Seq<CameraMode>,
    unknown: CameraMode,
    after: Seq<CameraMode>,
    current: CameraMode,
)
    requires
        unknown.format is Other,
    ensures
        camera_modes(Some(before + seq![unknown] + after), current) == camera_modes(
            Some(before + after),
            current,
        ),
{
    let one = seq![unknown];
    lemma_single_mode(unknown);
    lemma_mapped_runs(before, one);
    lemma_mapped_runs(before + one, after);
    lemma_mapped_runs(before, after);
    assert(mapped_modes(before) + mapped_modes(one) =~= mapped_modes(before));
}

/// Where at least one listed format is understood, what is reported does not
/// depend on what the camera currently runs in.
pub proof fn law_listed_modes_come_first(
    listed: Seq<CameraMode>,
    i: int,
    current: CameraMode,
    other: CameraMode,
)
    requires
        0 <= i < listed.len(),
        !(listed[i].format is Other),
    ensures
        camera_modes(Some(listed), current) == camera_modes(Some(listed), other),
        camera_modes(Some(listed), current).len() > 0,
{
    let one = seq![listed[i]];
    lemma_single_mode(listed[i]);
    assert(listed =~= listed.take(i) + one + listed.skip(i + 1));
    lemma_mapped_runs(listed.take(i), one);
    lemma_mapped_runs(listed.take(i) + one, listed.skip(i + 1));
}

/// A camera that lists nothing that is understood, or cannot be asked, is
/// reported with the one mode it currently runs in, if that is understood.
pub proof fn law_the_current_mode_stands_in(
    enumerated: Option<Seq<CameraMode>>,
    current: CameraMode,
)
    requires
        enumerated matches Some(listed) ==> forall|i: int|
            0 <= i < listed.len() ==> (#[trigger] listed[i]).format is Other,
    ensures
        current.format is Other ==> camera_modes(enumerated, current).len() == 0,
        !(current.format is Other) ==> {
            let modes = camera_modes(enumerated, current);
            &&& modes.len() == 1
            &&& modes[0].width == current.width
            &&& modes[0].height == current.height
            &&& modes[0].fps == current.fps
            &&& match current.format {
                WireFormat::Mjpeg => modes[0].format is Mjpeg,
                WireFormat::Yuyv => modes[0].format is Yuyv,
                WireFormat::Nv12 => modes[0].format is Nv12,
                WireFormat::Gray => modes[0].format is Luma8,
                WireFormat::RawRgb => modes[0].format is Rgb24,
                WireFormat::Other => false,
            }
        },
{
    if let Some(listed) = enumerated {
        lemma_unknown_modes(listed);
    }
    lemma_single_mode(current);
}

/// Nothing is left of modes in unknown formats.
proof fn lemma_unknown_modes(listed: Seq<CameraMode>)
    requires
        forall|i: int| 0 <= i < listed.len() ==> (#[trigger] listed[i]).format is Other,
    ensures
        mapped_modes(listed).len() == 0,
    decreases listed.len(),
{
    if listed.len() > 0 {
        assert(listed[listed.len() - 1].format is Other);
        assert forall|i: int| 0 <= i < listed.len() - 1 implies (
        #[trigger] listed.drop_last()[i]).format is Other by {
            assert(listed[i].format is Other);
        }
        lemma_unknown_modes(listed.drop_last());
    }
}

/// A camera is asked for the requested size and frame rate, as MJPEG and then as
/// YUYV, and at last for its highest frame rate; for nothing else.
pub proof fn law_requests_keep_the_configuration(cfg: VideoConfig)
    ensures
        open_order(cfg).len() == 3,
        open_order(cfg)[0] matches FormatRequest::Closest(mode) && mode.width == cfg.width
            && mode.height == cfg.height && mode.fps == cfg.fps && mode.format is Mjpeg,
        open_order(cfg)[1] matches FormatRequest::Closest(mode) && mode.width == cfg.width
            && mode.height == cfg.height && mode.fps == cfg.fps && mode.format is Yuyv,
        open_order(cfg)[2] is HighestFrameRate,
{
}

/// A selector is shown as it was given: an index in decimal, a name as it is.
pub proof fn law_selectors_are_shown(index: u32, name: String)
    ensures
        CameraSelector::Index(index).label() == text::decimal(index as nat),
        CameraSelector::Name(name).label() == name@,
{
}

/// The message about a camera that could not be opened names the device and ends
/// in the last refusal.
pub proof fn law_failures_name_the_device_and_reason(device: Seq<char>, reason: Seq<char>)
    ensures
        failure_text(device, Some(reason)) == "could not open camera "@ + device + ": "@ + reason,
        failure_text(device, None) == failure_text(device, Some("no formats accepted"@)),
{
}

/// A thread gives up at the thirtieth failure in a row, and not before.
pub proof fn law_thirty_failures_are_too_many(reads: Seq<bool>)
    ensures
        MAX_CONSECUTIVE_ERRORS == 30,
        errors_after(reads) <= reads.len(),
        errors_after(reads.push(true)) == 0,
        errors_after(reads.push(false)) == errors_after(reads) + 1,
    decreases reads.len(),
{
    assert(reads.push(false).drop_last() =~= reads);
    if reads.len() > 0 {
        law_thirty_failures_are_too_many(reads.drop_last());
    }
}

/// An index is selected by its decimal digits and shown by the same, a text that
/// is no number is a name and shown as it is, and nothing selects the first camera.
pub proof fn law_selectors_are_what_was_asked_for(
    index: u32,
    name: Seq<char>,
    i: int,
    selector: CameraSelector,
)
    requires
        0 <= i < name.len(),
        !('0' <= name[i] <= '9'),
        i == 0 ==> name[i] != '+',
    ensures
        selects(Some(text::decimal(index as nat)), selector) ==> selector == CameraSelector::Index(
            index,
        ) && selector.label() == text::decimal(index as nat),
        selects(Some(name), selector) ==> selector is Name && selector.label() == name,
        selects(None, selector) ==> selector == CameraSelector::Index(0),
{
    text::law_decimal_round_trip(index as nat);
    let body = text::without_plus(name);
    if name[0] != '+' {
        assert(!text::is_digit(body[i]));
    } else {
        assert(!text::is_digit(body[i - 1]));
    }
}

/// A camera that turns down request after request is asked for each of the three in
/// turn and then for nothing; what it said last is kept.
pub proof fn law_requests_are_made_in_turn(
    cfg: VideoConfig,
    attempts: Seq<OpenAttempts>,
    reasons: Seq<Seq<char>>,
    k: int,
)
    requires
        attempts.len() == reasons.len() + 1,
        attempts[0].requests() == open_order(cfg),
        attempts[0].tried() == 0,
        forall|i: int|
            0 <= i < reasons.len() ==> (#[trigger] attempts[i]).is_refused(
                reasons[i],
                attempts[i + 1],
            ),
        0 <= k < attempts.len(),
    ensures
        attempts[k].request() == (if k < 3 {
            Some(open_order(cfg)[k])
        } else {
            None
        }),
        k > 0 ==> attempts[k].last_error() == Some(reasons[k - 1]),
{
    lemma_refusals(cfg, attempts, reasons, k);
}

proof fn lemma_refusals(
    cfg: VideoConfig,
    attempts: Seq<OpenAttempts>,
    reasons: Seq<Seq<char>>,
    k: int,
)
    requires
        attempts.len() == reasons.len() + 1,
        attempts[0].requests() == open_order(cfg),
        attempts[0].tried() == 0,
        forall|i: int|
            0 <= i < reasons.len() ==> (#[trigger] attempts[i]).is_refused(
                reasons[i],
                attempts[i + 1],
            ),
        0 <= k < attempts.len(),
    ensures
        attempts[k].requests() == open_order(cfg),
        attempts[k].tried() == k,
        k > 0 ==> attempts[k].last_error() == Some(reasons[k - 1]),
    decreases k,
{
    if k > 0 {
        lemma_refusals(cfg, attempts, reasons, k - 1);
        assert(attempts[k - 1].is_refused(reasons[k - 1], attempts[k]));
    }
}

/// Read after read fails: the thread retries twenty-nine times and gives up at the
/// thirtieth failure.
pub proof fn law_when_a_thread_gives_up(
    healths: Seq<CaptureHealth>,
    actions: Seq<ErrorAction>,
    k: int,
)
    requires
        healths.len() == actions.len() + 1,
        healths[0].errors() == 0,
        forall|i: int|
            0 <= i < actions.len() ==> (#[trigger] healths[i]).fails(actions[i], healths[i + 1]),
        0 <= k < actions.len(),
    ensures
        healths[k + 1].errors() == k + 1,
        actions[k] is GiveUp <==> k == 29,
    decreases k,
{
    assert(healths[k].fails(actions[k], healths[k + 1]));
    if k > 0 {
        law_when_a_thread_gives_up(healths, actions, k - 1);
    }
}

/// A frame starts the failure count over. It is published under the name of its
/// format, or dropped if that is unknown, with a warning the first time only.
pub proof fn law_frames_are_published_or_dropped(
    health: CaptureHealth,
    format: WireFormat,
    action: FrameAction,
    after: CaptureHealth,
)
    requires
        health.reads(format, action, after),
    ensures
        after.errors() == 0,
        format is Other ==> action == (FrameAction::Drop { warn: !health.warned() })
            && after.warned(),
        !(format is Other) ==> after.warned() == health.warned() && match format {
            WireFormat::Mjpeg => action == FrameAction::Publish(PixelFormat::Mjpeg),
            WireFormat::Yuyv => action == FrameAction::Publish(PixelFormat::Yuyv),
            WireFormat::Nv12 => action == FrameAction::Publish(PixelFormat::Nv12),
            WireFormat::Gray => action == FrameAction::Publish(PixelFormat::Luma8),
            WireFormat::RawRgb => action == FrameAction::Publish(PixelFormat::Rgb24),
            WireFormat::Other => false,
        },
{
}

} // verus!
