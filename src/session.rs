//! The session state machine: control messages, protocol events and encode
//! results in; surface mutations, transport inputs, encode jobs and engine
//! events out. Whoever runs the session performs the I/O and hands back what
//! came of it.

use vstd::prelude::*;
use crate::types::{Point, Rect, Size, all_within, bounding_box};
use crate::surface::{Surface, blit_accepted, blit_result, region, zeroed};
use crate::image::{
    EncodeJob, Subsampling, THUMB_HEIGHT, THUMB_WIDTH, bytes_of_pixels, bytes_to_pixels,
    downscale_thumbnail, pixels_of_bytes, pixels_to_bytes, triangle_resample,
};

verus! {

/// Lifecycle of a session.
#[derive(Clone, Copy, Debug, PartialEq, Eq, Structural)]
pub enum SessionState {
    Disconnected,
    Connecting,
    Connected,
    Closing,
}

impl SessionState {
    /// Encode results are delivered only while connected, or while closing
    /// (late results of jobs started before the session began to close).
    pub open spec fn delivers(self) -> bool {
        self == SessionState::Connected || self == SessionState::Closing
    }

    /// Whether encode results are delivered in this state.
    pub fn may_deliver(&self) -> (r: bool)
        ensures
            r == self.delivers(),
    {
        *self == SessionState::Connected || *self == SessionState::Closing
    }
}

/// An encoded rectangle of the surface.
#[derive(Debug)]
pub struct RectWithJpegData {
    pub rect: Rect,
    pub data: Vec<u8>,
}

/// Engine to host notification.
#[derive(Debug)]
pub enum VncThreadMessageOutput {
    /// The handshake succeeded.
    Connect,
    /// The session ended; nothing follows.
    Disconnect,
    /// Regions changed and were encoded.
    FramebufferUpdate(Vec<RectWithJpegData>),
    /// The surface changed dimensions.
    FramebufferResized(Size),
    /// Answer to a thumbnail request.
    ThumbnailProcessed(Vec<u8>),
    /// Answer to a full-frame request.
    FullScreenProcessed(Vec<u8>),
}

/// Host to engine command.
#[derive(Debug)]
pub enum VncThreadMessageInput {
    KeyEvent { keysym: u32, pressed: bool },
    MouseEvent { pt: Point, buttons: u8 },
    Disconnect,
    Thumbnail,
    FullScreen,
    SetJpegQuality(u32),
}

/// Input for the remote display.
#[derive(Clone, Copy, Debug, PartialEq, Eq, Structural)]
pub enum TransportInput {
    Key { keysym: u32, down: bool },
    Pointer { x: u16, y: u16, buttons: u8 },
    /// Ask the server for a fresh update.
    Refresh,
}

/// A rectangle of raw pixels sent by the server, four bytes per pixel.
#[derive(Debug)]
pub struct RawRect {
    pub rect: Rect,
    pub data: Vec<u8>,
}

/// What the transport reported.
#[derive(Debug)]
pub enum ProtocolEvent {
    SetResolution(Size),
    RawImage(Vec<RawRect>),
    /// Anything the session does not handle.
    Other,
}

/// Which on-demand capture a job answers.
#[derive(Clone, Copy, Debug, PartialEq, Eq, Structural)]
pub enum CaptureKind {
    Thumbnail,
    FullScreen,
}

/// What the runner must do after a control message.
#[derive(Debug)]
pub enum ControlAction {
    Nothing,
    /// Forward this input to the transport.
    Send(TransportInput),
    /// Encode this job and report the result with `capture_finished`.
    Capture(CaptureKind, EncodeJob),
    /// Leave the loop and close the session.
    Close,
}

/// An encode job for one dirty rectangle.
#[derive(Debug)]
pub struct UpdateJob {
    pub rect: Rect,
    pub job: EncodeJob,
}

/// The rectangles of one loop iteration with the outcome of their encoding.
#[derive(Debug)]
pub struct EncodedRect {
    pub rect: Rect,
    pub result: Option<Vec<u8>>,
}

/// The abstract state of a session.
pub struct SessionView {
    pub state: SessionState,
    pub quality: u32,
    pub subsampling: Subsampling,
    pub pending: Seq<Rect>,
    pub size: Size,
    pub pixels: Seq<u32>,
}

/// Quality a session starts with.
pub const DEFAULT_QUALITY: u32 = 35;

/// A coordinate cut to the 16 bits of the remote protocol (its low 16 bits).
pub open spec fn low_u16(v: u32) -> u16 {
    (v % 0x10000) as u16
}

/// A quality setting clamped into 1..=100.
pub open spec fn clamp_quality(q: u32) -> u32 {
    if q < 1 { 1 } else if q > 100 { 100 } else { q }
}

/// The encode job for a `width` by `height` image of `pixels` (as bytes).
pub open spec fn job_matches(j: EncodeJob, pixels: Seq<u8>, width: u32, height: u32, v: SessionView) -> bool {
    &&& j.pixels@ == pixels
    &&& j.width == width
    &&& j.height == height
    &&& j.quality == v.quality
    &&& j.subsampling == v.subsampling
}

/// The (rectangle, bytes) pairs of an update, in order.
pub open spec fn update_view(v: Seq<RectWithJpegData>) -> Seq<(Rect, Seq<u8>)> {
    v.map_values(|x: RectWithJpegData| (x.rect, x.data@))
}

/// The successfully encoded rectangles, in order; failed ones are dropped.
pub open spec fn delivered(done: Seq<EncodedRect>) -> Seq<(Rect, Seq<u8>)>
    decreases done.len(),
{
    if done.len() == 0 {
        Seq::empty()
    } else {
        let prev = delivered(done.drop_last());
        match done.last().result {
            Some(d) => prev.push((done.last().rect, d@)),
            None => prev,
        }
    }
}

/// Blits the raw rectangles `rs` in order onto `pixels` (a surface of size
/// `size`): the resulting pixels, the rectangles that were blitted, and
/// whether every blit was accepted. Processing stops at the first refused one.
pub open spec fn apply_raw(pixels: Seq<u32>, size: Size, rs: Seq<RawRect>) -> (Seq<u32>, Seq<Rect>, bool)
    decreases rs.len(),
{
    if rs.len() == 0 {
        (pixels, Seq::empty(), true)
    } else {
        let (p, added, ok) = apply_raw(pixels, size, rs.drop_last());
        let r = rs.last();
        let data = pixels_of_bytes(r.data@);
        if !ok {
            (p, added, false)
        } else if blit_accepted(size, r.rect, data.len() as int) {
            (blit_result(p, size, r.rect, data), added.push(r.rect), true)
        } else {
            (p, added, false)
        }
    }
}

/// Once a blit is refused, the remaining rectangles change nothing.
pub proof fn lemma_apply_raw_stops(pixels: Seq<u32>, size: Size, rs: Seq<RawRect>, n: int)
    requires
        0 < n <= rs.len(),
        !apply_raw(pixels, size, rs.take(n)).2,
    ensures
        apply_raw(pixels, size, rs) == apply_raw(pixels, size, rs.take(n)),
    decreases rs.len() - n,
{
    if n < rs.len() {
        assert(rs.take(n + 1).drop_last() =~= rs.take(n));
        assert(apply_raw(pixels, size, rs.take(n + 1)) == apply_raw(pixels, size, rs.take(n)));
        lemma_apply_raw_stops(pixels, size, rs, n + 1);
    } else {
        assert(rs.take(n) =~= rs);
    }
}

/// The remote-display session: the surface it mirrors, the rectangles
/// changed since the last update, and the encoder settings.
pub struct Session {
    state: SessionState,
    surface: Surface,
    quality: u32,
    subsampling: Subsampling,
    pending: Vec<Rect>,
}

impl View for Session {
    type V = SessionView;

    closed spec fn view(&self) -> SessionView {
        SessionView {
            state: self.state,
            quality: self.quality,
            subsampling: self.subsampling,
            pending: self.pending@,
            size: self.surface.spec_size(),
            pixels: self.surface.pixels(),
        }
    }
}

impl Session {
    /// The session's internal consistency: the quality is in range, the
    /// surface fits the address space as bytes, and every pending rectangle
    /// lies inside the surface.
    pub closed spec fn wf(&self) -> bool {
        &&& 1 <= self.quality <= 100
        &&& 4 * self.surface.spec_size().area() <= usize::MAX
        &&& self.surface.pixels().len() == self.surface.spec_size().area()
        &&& all_within(self.pending@, self.surface.spec_size())
    }

    /// A disconnected session with an empty surface.
    pub fn new() -> (r: Self)
        ensures
            r.wf(),
            r@.state == SessionState::Disconnected,
            r@.quality == DEFAULT_QUALITY,
            r@.subsampling == Subsampling::S420,
            r@.pending == Seq::<Rect>::empty(),
            r@.size == (Size { width: 0, height: 0 }),
            r@.pixels == Seq::<u32>::empty(),
    {
        Session {
            state: SessionState::Disconnected,
            surface: Surface::new(),
            quality: DEFAULT_QUALITY,
            subsampling: Subsampling::S420,
            pending: Vec::new(),
        }
    }

    /// The current lifecycle state.
    pub fn state(&self) -> (r: SessionState)
        ensures
            r == self@.state,
    {
        self.state
    }

    /// The surface the session mirrors.
    pub fn surface(&self) -> (r: &Surface)
        ensures
            r.spec_size() == self@.size,
            r.pixels() == self@.pixels,
    {
        &self.surface
    }

    /// The current encoder quality.
    pub fn quality(&self) -> (r: u32)
        ensures
            r == self@.quality,
    {
        self.quality
    }

    /// Starts connecting; only a disconnected session can.
    pub fn begin_connect(&mut self) -> (r: bool)
        requires
            old(self).wf(),
        ensures
            final(self).wf(),
            r == (old(self)@.state == SessionState::Disconnected),
            r ==> final(self)@ == (SessionView { state: SessionState::Connecting, ..old(self)@ }),
            !r ==> final(self)@ == old(self)@,
    {
        if self.state == SessionState::Disconnected {
            self.state = SessionState::Connecting;
            true
        } else {
            false
        }
    }

    /// The handshake ended: on success the session is connected and emits
    /// `Connect`; on failure it is disconnected again and emits `Disconnect`.
    /// Outside `Connecting` nothing happens.
    pub fn connect_finished(&mut self, ok: bool) -> (r: Option<VncThreadMessageOutput>)
        requires
            old(self).wf(),
        ensures
            final(self).wf(),
            old(self)@.state != SessionState::Connecting ==> r is None && final(self)@ == old(self)@,
            old(self)@.state == SessionState::Connecting && ok ==> (r matches Some(VncThreadMessageOutput::Connect))
                && final(self)@ == (SessionView { state: SessionState::Connected, ..old(self)@ }),
            old(self)@.state == SessionState::Connecting && !ok ==> (r matches Some(VncThreadMessageOutput::Disconnect))
                && final(self)@ == (SessionView { state: SessionState::Disconnected, ..old(self)@ }),
    {
        if self.state != SessionState::Connecting {
            return None;
        }
        if ok {
            self.state = SessionState::Connected;
            Some(VncThreadMessageOutput::Connect)
        } else {
            self.state = SessionState::Disconnected;
            Some(VncThreadMessageOutput::Disconnect)
        }
    }
    /// Encode job for the whole surface.
    fn full_frame_job(&self) -> (j: EncodeJob)
        requires
            self.wf(),
        ensures
            job_matches(j, bytes_of_pixels(self@.pixels), self@.size.width, self@.size.height, self@),
    {
        let buf = self.surface.get_buffer();
        let size = self.surface.size();
        EncodeJob {
            pixels: pixels_to_bytes(buf),
            width: size.width,
            height: size.height,
            quality: self.quality,
            subsampling: self.subsampling,
        }
    }

    /// Handles one control message. Only a connected session acts on them:
    /// key and pointer input is forwarded (coordinates cut to their low 16 bits), a
    /// disconnect request starts closing, a capture request yields an encode
    /// job over the current surface, and a quality change (clamped to
    /// 1..=100) applies to later jobs.
    pub fn handle_control(&mut self, msg: VncThreadMessageInput) -> (a: ControlAction)
        requires
            old(self).wf(),
        ensures
            final(self).wf(),
            old(self)@.state != SessionState::Connected ==> (a matches ControlAction::Nothing) && final(self)@
                == old(self)@,
            old(self)@.state == SessionState::Connected ==> match msg {
                VncThreadMessageInput::KeyEvent { keysym, pressed } => a == ControlAction::Send(
                    TransportInput::Key { keysym, down: pressed },
                ) && final(self)@ == old(self)@,
                VncThreadMessageInput::MouseEvent { pt, buttons } => a == ControlAction::Send(
                    TransportInput::Pointer { x: low_u16(pt.x), y: low_u16(pt.y), buttons },
                ) && final(self)@ == old(self)@,
                VncThreadMessageInput::Disconnect => (a matches ControlAction::Close) && final(self)@ == (
                SessionView { state: SessionState::Closing, ..old(self)@ }),
                VncThreadMessageInput::Thumbnail => final(self)@ == old(self)@ && match a {
                    ControlAction::Capture(kind, j) => kind == CaptureKind::Thumbnail && job_matches(
                        j,
                        triangle_resample(
                            bytes_of_pixels(old(self)@.pixels),
                            old(self)@.size.width as nat,
                            old(self)@.size.height as nat,
                            THUMB_WIDTH as nat,
                            THUMB_HEIGHT as nat,
                        ),
                        THUMB_WIDTH,
                        THUMB_HEIGHT,
                        old(self)@,
                    ),
                    ControlAction::Nothing => true,
                    _ => false,
                } && (old(self)@.size.width == 0 || old(self)@.size.height == 0 ==> (a matches ControlAction::Nothing))
                    && (old(self)@.size.height * THUMB_WIDTH > usize::MAX ==> (a matches ControlAction::Nothing)),
                VncThreadMessageInput::FullScreen => final(self)@ == old(self)@ && match a {
                    ControlAction::Capture(kind, j) => kind == CaptureKind::FullScreen && job_matches(
                        j,
                        bytes_of_pixels(old(self)@.pixels),
                        old(self)@.size.width,
                        old(self)@.size.height,
                        old(self)@,
                    ),
                    _ => false,
                },
                VncThreadMessageInput::SetJpegQuality(q) => (a matches ControlAction::Nothing) && final(self)@ == (
                SessionView { quality: clamp_quality(q), ..old(self)@ }),
            },
    {
        if self.state != SessionState::Connected {
            return ControlAction::Nothing;
        }
        match msg {
            VncThreadMessageInput::KeyEvent { keysym, pressed } => {
                ControlAction::Send(TransportInput::Key { keysym, down: pressed })
            },
            VncThreadMessageInput::MouseEvent { pt, buttons } => {
                let x: u16 = (pt.x % 0x10000) as u16;
                let y: u16 = (pt.y % 0x10000) as u16;
                ControlAction::Send(TransportInput::Pointer { x, y, buttons })
            },
            VncThreadMessageInput::Disconnect => {
                self.state = SessionState::Closing;
                ControlAction::Close
            },
            VncThreadMessageInput::Thumbnail => {
                let buf = self.surface.get_buffer();
                let size = self.surface.size();
                match downscale_thumbnail(buf, size.width, size.height) {
                    Some(pixels) => ControlAction::Capture(
                        CaptureKind::Thumbnail,
                        EncodeJob {
                            pixels,
                            width: THUMB_WIDTH,
                            height: THUMB_HEIGHT,
                            quality: self.quality,
                            subsampling: self.subsampling,
                        },
                    ),
                    None => ControlAction::Nothing,
                }
            },
            VncThreadMessageInput::FullScreen => {
                ControlAction::Capture(CaptureKind::FullScreen, self.full_frame_job())
            },
            VncThreadMessageInput::SetJpegQuality(q) => {
                self.quality = if q < 1 { 1 } else if q > 100 { 100 } else { q };
                ControlAction::Nothing
            },
        }
    }

    /// The host dropped its end of the control channel: a connected session
    /// starts closing.
    pub fn control_closed(&mut self)
        requires
            old(self).wf(),
        ensures
            final(self).wf(),
            old(self)@.state == SessionState::Connected ==> final(self)@ == (SessionView {
                state: SessionState::Closing,
                ..old(self)@
            }),
            old(self)@.state != SessionState::Connected ==> final(self)@ == old(self)@,
    {
        if self.state == SessionState::Connected {
            self.state = SessionState::Closing;
        }
    }

    /// The transport failed: a connected session starts closing.
    pub fn transport_failed(&mut self)
        requires
            old(self).wf(),
        ensures
            final(self).wf(),
            old(self)@.state == SessionState::Connected ==> final(self)@ == (SessionView {
                state: SessionState::Closing,
                ..old(self)@
            }),
            old(self)@.state != SessionState::Connected ==> final(self)@ == old(self)@,
    {
        self.control_closed();
    }

    /// Ends the session: any session that is not yet disconnected becomes
    /// disconnected and emits `Disconnect`, exactly once.
    pub fn close(&mut self) -> (r: Option<VncThreadMessageOutput>)
        requires
            old(self).wf(),
        ensures
            final(self).wf(),
            old(self)@.state == SessionState::Disconnected ==> r is None && final(self)@ == old(self)@,
            old(self)@.state != SessionState::Disconnected ==> (r matches Some(VncThreadMessageOutput::Disconnect))
                && final(self)@ == (SessionView { state: SessionState::Disconnected, ..old(self)@ }),
    {
        if self.state == SessionState::Disconnected {
            None
        } else {
            self.state = SessionState::Disconnected;
            Some(VncThreadMessageOutput::Disconnect)
        }
    }
    /// Blits raw rectangles in order and records them as pending; the first
    /// refused blit makes the session start closing.
    fn blit_raw_rects(&mut self, rects: &Vec<RawRect>)
        requires
            old(self).wf(),
            old(self)@.state == SessionState::Connected,
        ensures
            final(self).wf(),
            ({
                let (p, added, ok) = apply_raw(old(self)@.pixels, old(self)@.size, rects@);
                final(self)@ == (SessionView {
                    state: if ok { SessionState::Connected } else { SessionState::Closing },
                    pixels: p,
                    pending: old(self)@.pending + added,
                    ..old(self)@
                })
            }),
    {
        let ghost old_view = self@;
        let mut i: usize = 0;
        while i < rects.len()
            invariant
                old_view == old(self)@,
                self.wf(),
                self.state == SessionState::Connected,
                i <= rects@.len(),
                ({
                    let (p, added, ok) = apply_raw(old_view.pixels, old_view.size, rects@.take(i as int));
                    &&& ok
                    &&& self@ == (SessionView { pixels: p, pending: old_view.pending + added, ..old_view })
                }),
            decreases rects@.len() - i,
        {
            let raw = &rects[i];
            let data = bytes_to_pixels(raw.data.as_slice());
            let ghost before = self@;
            proof {
                assert(rects@.take(i + 1).drop_last() =~= rects@.take(i as int));
                assert(rects@.take(i + 1).last() == rects@[i as int]);
            }
            match self.surface.blit_buffer(raw.rect, data.as_slice()) {
                Ok(()) => {
                    self.pending.push(raw.rect);
                    proof {
                        let (p, added, ok) = apply_raw(old_view.pixels, old_view.size, rects@.take(i as int));
                        assert(old_view.pending + added.push(raw.rect) =~= (old_view.pending + added).push(raw.rect));
                        assert forall|k: int| 0 <= k < self.pending@.len() implies #[trigger] self.pending@[k].within(self.surface.spec_size()) by {
                            if k < before.pending.len() {
                                assert(self.pending@[k] == before.pending[k]);
                            }
                        }
                    }
                },
                Err(_) => {
                    self.state = SessionState::Closing;
                    proof {
                        assert(self@ == (SessionView { state: SessionState::Closing, ..before }));
                        let (p, added, ok) = apply_raw(old_view.pixels, old_view.size, rects@.take(i as int));
                        assert(raw.rect == rects@[i as int].rect);
                        assert(data@ == pixels_of_bytes(rects@[i as int].data@));
                        assert(!blit_accepted(old_view.size, raw.rect, data@.len() as int));
                        assert(apply_raw(old_view.pixels, old_view.size, rects@.take(i + 1)) == (p, added, false));
                        lemma_apply_raw_stops(old_view.pixels, old_view.size, rects@, i as int + 1);
                    }
                    return;
                },
            }
            i = i + 1;
        }
        proof {
            assert(rects@.take(i as int) =~= rects@);
        }
    }

    /// Handles one protocol event. Only a connected session acts on them: a
    /// resolution change resizes the surface (discarding its contents and the
    /// pending rectangles) and emits `FramebufferResized`; raw rectangles are
    /// blitted in order and become pending. A refused blit, or a size whose
    /// bytes would not fit in memory, is fatal: the session starts closing.
    pub fn handle_event(&mut self, ev: ProtocolEvent) -> (r: Option<VncThreadMessageOutput>)
        requires
            old(self).wf(),
        ensures
            final(self).wf(),
            old(self)@.state != SessionState::Connected ==> r is None && final(self)@ == old(self)@,
            old(self)@.state == SessionState::Connected ==> match ev {
                ProtocolEvent::SetResolution(size) => if 4 * size.area() <= usize::MAX {
                    (r matches Some(VncThreadMessageOutput::FramebufferResized(s)) && s == size)
                        && final(self)@ == (SessionView {
                        size,
                        pixels: zeroed(size.area() as nat),
                        pending: Seq::empty(),
                        ..old(self)@
                    })
                } else {
                    r is None && final(self)@ == (SessionView { state: SessionState::Closing, ..old(self)@ })
                },
                ProtocolEvent::RawImage(rects) => {
                    let (p, added, ok) = apply_raw(old(self)@.pixels, old(self)@.size, rects@);
                    &&& r is None
                    &&& final(self)@ == (SessionView {
                        state: if ok { SessionState::Connected } else { SessionState::Closing },
                        pixels: p,
                        pending: old(self)@.pending + added,
                        ..old(self)@
                    })
                },
                ProtocolEvent::Other => r is None && final(self)@ == old(self)@,
            },
    {
        if self.state != SessionState::Connected {
            return None;
        }
        match ev {
            ProtocolEvent::SetResolution(size) => {
                proof {
                    vstd::arithmetic::mul::lemma_mul_upper_bound(
                        size.width as int,
                        u32::MAX as int,
                        size.height as int,
                        u32::MAX as int,
                    );
                }
                let area = (size.width as u64) * (size.height as u64);
                if area > (usize::MAX / 4) as u64 {
                    self.state = SessionState::Closing;
                    return None;
                }
                self.surface.resize(size);
                self.pending = Vec::new();
                proof {
                    assert(all_within(self.pending@, size));
                }
                Some(VncThreadMessageOutput::FramebufferResized(size))
            },
            ProtocolEvent::RawImage(rects) => {
                self.blit_raw_rects(&rects);
                None
            },
            ProtocolEvent::Other => None,
        }
    }
    /// Builds the encode job for the batched dirty region, when the session
    /// is connected and rectangles are pending: the pending rectangles are
    /// merged into their bounding union, whose pixels are copied into the job,
    /// and the pending set is cleared. Otherwise there is no job.
    pub fn idle(&mut self) -> (jobs: Vec<UpdateJob>)
        requires
            old(self).wf(),
        ensures
            final(self).wf(),
            old(self)@.state != SessionState::Connected || old(self)@.pending.len() == 0 ==> jobs@.len() == 0
                && final(self)@ == old(self)@,
            old(self)@.state == SessionState::Connected && old(self)@.pending.len() > 0 ==> {
                let b = bounding_box(old(self)@.pending);
                &&& jobs@.len() == 1
                &&& jobs@[0].rect == b
                &&& job_matches(
                    jobs@[0].job,
                    bytes_of_pixels(region(old(self)@.pixels, old(self)@.size.width as int, b)),
                    b.width,
                    b.height,
                    old(self)@,
                )
                &&& final(self)@ == (SessionView { pending: Seq::empty(), ..old(self)@ })
            },
    {
        let mut jobs: Vec<UpdateJob> = Vec::new();
        if self.state != SessionState::Connected || self.pending.len() == 0 {
            return jobs;
        }
        let size = self.surface.size();
        assert forall|i: int| 0 <= i < self.pending@.len() implies #[trigger] self.pending@[i].fits() by {
            assert(self.pending@[i].within(size));
        }
        Rect::batch_set(&size, &mut self.pending);
        let b = self.pending[0];
        assert(b.within(size));
        proof {
            vstd::arithmetic::mul::lemma_mul_upper_bound(
                b.width as int,
                size.width as int,
                b.height as int,
                size.height as int,
            );
        }
        match self.surface.snapshot(b) {
            Ok(px) => {
                jobs.push(
                    UpdateJob {
                        rect: b,
                        job: EncodeJob {
                            pixels: pixels_to_bytes(px.as_slice()),
                            width: b.width,
                            height: b.height,
                            quality: self.quality,
                            subsampling: self.subsampling,
                        },
                    },
                );
            },
            Err(_) => {},
        }
        self.pending = Vec::new();
        jobs
    }

    /// The update event for one iteration's encoded rectangles: every
    /// successfully encoded rectangle, in order. Without rectangles, or when
    /// the session is neither connected nor closing, there is no event.
    pub fn finish_update(&self, done: Vec<EncodedRect>) -> (r: Option<VncThreadMessageOutput>)
        requires
            self.wf(),
        ensures
            !self@.state.delivers() || done@.len() == 0 ==> r is None,
            self@.state.delivers() && done@.len() > 0 ==> (r matches Some(
                VncThreadMessageOutput::FramebufferUpdate(v),
            ) && update_view(v@) == delivered(done@)),
    {
        if !self.state.may_deliver() || done.len() == 0 {
            return None;
        }
        let ghost all = done@;
        let mut out: Vec<RectWithJpegData> = Vec::new();
        for e in it: done.into_iter()
            invariant
                all == it.seq(),
                update_view(out@) == delivered(all.take(it.index() as int)),
        {
            let ghost k = it.index();
            proof {
                assert(all.take(k + 1).drop_last() =~= all.take(k as int));
                assert(all.take(k + 1).last() == e);
            }
            let ghost prev = out@;
            match e.result {
                Some(data) => {
                    out.push(RectWithJpegData { rect: e.rect, data });
                    assert(update_view(out@) =~= update_view(prev).push((e.rect, data@)));
                },
                None => {},
            }
        }
        assert(all.take(all.len() as int) =~= all);
        Some(VncThreadMessageOutput::FramebufferUpdate(out))
    }

    /// The event answering a capture: its bytes when encoding succeeded.
    /// A failed encode, or a session that is neither connected nor closing,
    /// emits nothing.
    pub fn capture_finished(&self, kind: CaptureKind, result: Option<Vec<u8>>) -> (r: Option<VncThreadMessageOutput>)
        requires
            self.wf(),
        ensures
            !self@.state.delivers() || result is None ==> r is None,
            self@.state.delivers() && result is Some ==> match kind {
                CaptureKind::Thumbnail => r matches Some(VncThreadMessageOutput::ThumbnailProcessed(d)) && d@
                    == result->0@,
                CaptureKind::FullScreen => r matches Some(VncThreadMessageOutput::FullScreenProcessed(d)) && d@
                    == result->0@,
            },
    {
        if !self.state.may_deliver() {
            return None;
        }
        match result {
            Some(data) => match kind {
                CaptureKind::Thumbnail => Some(VncThreadMessageOutput::ThumbnailProcessed(data)),
                CaptureKind::FullScreen => Some(VncThreadMessageOutput::FullScreenProcessed(data)),
            },
            None => None,
        }
    }
}

} // verus!
