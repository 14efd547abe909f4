//! The buffers that clients draw into.

use vstd::prelude::*;

use crate::desk::windows::Area;

verus! {

// ── Surfaces ─────────────────────────────────────────────────────────────────

/// What a client has asked of a surface since its last commit.
#[derive(Debug)]
pub struct PendingState {
    /// The buffer to show, or that none is to be shown.
    pub buffer: Option<Option<u32>>,
    pub frame_callbacks: Vec<u32>,
    pub dx: i32,
    pub dy: i32,
}

/// What a surface shows.
#[derive(Debug)]
pub struct CommittedState {
    pub buffer: Option<u32>,
    pub needs_upload: bool,
}

/// A surface; buffers and callbacks stand here by numbers.
#[derive(Debug)]
pub struct SurfaceData {
    pub pending: PendingState,
    pub current: CommittedState,
}

/// What a [`SurfaceData`] holds.
pub struct SurfaceView {
    pub next: Option<Option<u32>>,
    pub callbacks: Seq<u32>,
    pub offset: (i32, i32),
    pub shown: Option<u32>,
    pub needs_upload: bool,
}

impl View for SurfaceData {
    type V = SurfaceView;

    open spec fn view(&self) -> SurfaceView {
        SurfaceView {
            next: self.pending.buffer,
            callbacks: self.pending.frame_callbacks@,
            offset: (self.pending.dx, self.pending.dy),
            shown: self.current.buffer,
            needs_upload: self.current.needs_upload,
        }
    }
}

pub open spec fn fresh_surface() -> SurfaceView {
    SurfaceView {
        next: None,
        callbacks: Seq::empty(),
        offset: (0, 0),
        shown: None,
        needs_upload: false,
    }
}

impl Default for SurfaceData {
    fn default() -> (r: Self)
        ensures
            r@ == fresh_surface(),
    {
        let r = SurfaceData {
            pending: PendingState {
                buffer: None,
                frame_callbacks: Vec::new(),
                dx: 0,
                dy: 0,
            },
            current: CommittedState { buffer: None, needs_upload: false },
        };
        assert(r@.callbacks =~= Seq::empty());
        r
    }
}

/// What a commit leads to.
#[derive(Debug)]
pub struct Commit {
    /// The buffer that the client gets back after the next frame.
    pub release: Option<u32>,
    /// The callbacks that are answered now, the first one first.
    pub done: Vec<u32>,
    /// The buffer whose contents are to be read.
    pub upload: Option<u32>,
}

impl SurfaceView {
    pub open spec fn attached(self, buffer: Option<u32>, x: i32, y: i32) -> SurfaceView {
        SurfaceView { next: Some(buffer), offset: (x, y), ..self }
    }

    /// That what was asked for took effect.
    pub open spec fn committed(self) -> SurfaceView {
        SurfaceView {
            next: None,
            callbacks: Seq::empty(),
            shown: match self.next {
                Some(b) => b,
                None => self.shown,
            },
            needs_upload: false,
            ..self
        }
    }

    /// The buffer that a commit gives back.
    pub open spec fn released(self) -> Option<u32> {
        if self.next is Some {
            self.shown
        } else {
            None
        }
    }
}

impl SurfaceData {
    /// A buffer, or none, is to be shown with the next commit.
    pub fn attach(&mut self, buffer: Option<u32>, x: i32, y: i32)
        ensures
            final(self)@ == old(self)@.attached(buffer, x, y),
    {
        self.pending.buffer = Some(buffer);
        self.pending.dx = x;
        self.pending.dy = y;
    }

    /// The callback `id` is answered with the next commit.
    pub fn frame(&mut self, id: u32)
        ensures
            final(self)@ == (SurfaceView {
                callbacks: old(self)@.callbacks.push(id),
                ..old(self)@
            }),
    {
        self.pending.frame_callbacks.push(id);
    }

    /// What was asked for takes effect.
    pub fn commit(&mut self) -> (r: Commit)
        ensures
            final(self)@ == old(self)@.committed(),
            r.done@ == old(self)@.callbacks,
            r.release == old(self)@.released(),
            r.upload == (if old(self)@.next is Some || old(self)@.needs_upload {
                final(self)@.shown
            } else {
                None
            }),
    {
        let mut release: Option<u32> = None;
        if let Some(b) = self.pending.buffer {
            release = self.current.buffer;
            self.current.buffer = b;
            self.current.needs_upload = true;
            self.pending.buffer = None;
        }
        let mut done: Vec<u32> = Vec::new();
        done.append(&mut self.pending.frame_callbacks);
        let upload = if self.current.needs_upload {
            self.current.buffer
        } else {
            None
        };
        self.current.needs_upload = false;
        assert(done@ =~= old(self)@.callbacks);
        assert(self@.callbacks =~= Seq::empty());
        Commit { release, done, upload }
    }
}

/// A part of a surface.
#[derive(Debug)]
pub struct RegionData {
    pub rects: Vec<Area>,
}

impl Default for RegionData {
    fn default() -> (r: Self)
        ensures
            r.rects@.len() == 0,
    {
        RegionData { rects: Vec::new() }
    }
}

/// A buffer comes back to its client when another one takes its place.
pub proof fn law_replaced_buffer_is_released(s: SurfaceView, first: u32, second: Option<u32>)
    ensures
        ({
            let shown = s.attached(Some(first), 0, 0).committed();
            let replaced = shown.attached(second, 0, 0);
            &&& shown.shown == Some(first)
            &&& shown.released() is None
            &&& replaced.released() == Some(first)
            &&& replaced.committed().shown == second
        }),
{
}

// ── Buffers in shared memory ─────────────────────────────────────────────────

/// A buffer in shared memory.
#[derive(Debug, Clone, Copy, PartialEq, Eq, Structural)]
pub struct ShmBufferData {
    pub offset: i32,
    pub width: i32,
    pub height: i32,
    pub stride: i32,
}

impl ShmBufferData {
    /// The number of bytes of the memory up to the end of the buffer.
    pub fn mapped_len(&self) -> (r: i64)
        ensures
            r == self.offset + self.stride * self.height,
    {
        assert(-0x8000_0000 * 0x8000_0000 <= self.stride * self.height <= 0x8000_0000
            * 0x8000_0000) by (nonlinear_arith)
            requires
                -0x8000_0000 <= self.stride < 0x8000_0000,
                -0x8000_0000 <= self.height < 0x8000_0000,
        ;
        self.offset as i64 + self.stride as i64 * self.height as i64
    }
}

// ── Buffers of the graphics card ─────────────────────────────────────────────

/// A plane of a buffer.
#[derive(Debug, Clone, Copy, PartialEq, Eq, Structural)]
pub struct DmaBufPlane {
    pub fd: Option<i32>,
    pub offset: u32,
    pub stride: u32,
    pub modifier_hi: u32,
    pub modifier_lo: u32,
}

pub open spec fn no_plane() -> DmaBufPlane {
    DmaBufPlane { fd: None, offset: 0, stride: 0, modifier_hi: 0, modifier_lo: 0 }
}

impl Default for DmaBufPlane {
    fn default() -> (r: Self)
        ensures
            r == no_plane(),
    {
        DmaBufPlane { fd: None, offset: 0, stride: 0, modifier_hi: 0, modifier_lo: 0 }
    }
}

/// A buffer that a client describes plane by plane.
#[derive(Debug)]
pub struct DmaBufParams {
    pub planes: Vec<DmaBufPlane>,
    pub created: bool,
}

impl Default for DmaBufParams {
    /// Four planes that are not there yet.
    fn default() -> (r: Self)
        ensures
            r.planes@ == Seq::new(4, |i: int| no_plane()),
            !r.created,
    {
        let mut planes: Vec<DmaBufPlane> = Vec::new();
        let mut i: usize = 0;
        while i < 4
            invariant
                i <= 4,
                planes@ == Seq::new(i as nat, |k: int| no_plane()),
            decreases 4 - i,
        {
            planes.push(DmaBufPlane::default());
            i += 1;
            assert(planes@ =~= Seq::new(i as nat, |k: int| no_plane()));
        }
        DmaBufParams { planes, created: false }
    }
}

/// Why a buffer was not made.
#[derive(Debug, Clone, Copy, PartialEq, Eq, Structural)]
pub enum DmaBufError {
    AlreadyUsed,
    NoPlanes,
}

/// The planes that are there.
pub open spec fn present(planes: Seq<DmaBufPlane>) -> Seq<DmaBufPlane>
    decreases planes.len(),
{
    if planes.len() == 0 {
        Seq::empty()
    } else if planes.last().fd is Some {
        present(planes.drop_last()).push(planes.last())
    } else {
        present(planes.drop_last())
    }
}

impl DmaBufParams {
    /// Describes a plane; says whether there is a plane of that number.
    pub fn set_plane(&mut self, index: u32, plane: DmaBufPlane) -> (r: bool)
        ensures
            r == (index < old(self).planes@.len()),
            final(self).created == old(self).created,
            final(self).planes@ == (if r {
                old(self).planes@.update(index as int, plane)
            } else {
                old(self).planes@
            }),
    {
        if (index as usize) < self.planes.len() {
            self.planes[index as usize] = plane;
            true
        } else {
            false
        }
    }

    /// The planes that a buffer is made of; a description serves once.
    pub fn create_immed(&mut self) -> (r: Result<Vec<DmaBufPlane>, DmaBufError>)
        ensures
            final(self).created,
            final(self).planes@ == old(self).planes@,
            match r {
                Ok(v) => !old(self).created && present(old(self).planes@).len() > 0 && v@
                    == present(old(self).planes@),
                Err(DmaBufError::AlreadyUsed) => old(self).created,
                Err(DmaBufError::NoPlanes) => !old(self).created && present(
                    old(self).planes@,
                ).len() == 0,
            },
    {
        if self.created {
            return Err(DmaBufError::AlreadyUsed);
        }
        self.created = true;
        let mut r: Vec<DmaBufPlane> = Vec::new();
        let mut i: usize = 0;
        let ghost all = self.planes@;
        assert(all.take(0) =~= Seq::empty());
        while i < self.planes.len()
            invariant
                i <= self.planes@.len(),
                all == self.planes@,
                all == old(self).planes@,
                self.created,
                r@ == present(all.take(i as int)),
            decreases self.planes@.len() - i,
        {
            let p = self.planes[i];
            if p.fd.is_some() {
                r.push(p);
            }
            i += 1;
            assert(all.take(i as int).drop_last() =~= all.take(i - 1));
            assert(all.take(i as int).last() == p);
        }
        assert(all.take(i as int) =~= all);
        if r.len() == 0 {
            Err(DmaBufError::NoPlanes)
        } else {
            Ok(r)
        }
    }
}

/// A format that clients may use.
#[derive(Debug, Clone, Copy, PartialEq, Eq, Structural)]
pub enum Advert {
    Format(u32),
    Modifier { format: u32, hi: u32, lo: u32 },
}

/// A format without a modifier, as it is told in version `version`.
pub open spec fn advert(format: u32, version: u32) -> Advert {
    if version >= 3 {
        Advert::Modifier { format, hi: 0, lo: 0 }
    } else {
        Advert::Format(format)
    }
}

/// The formats that a client is told of: with an alpha channel, without one, and
/// the one of videos.
pub fn advertised(version: u32) -> (r: Vec<Advert>)
    ensures
        r@ == seq![
            advert(0x3432_5241, version),
            advert(0x3432_5258, version),
            advert(0x3231_564e, version),
        ],
{
    let mut r: Vec<Advert> = Vec::new();
    if version >= 3 {
        r.push(Advert::Modifier { format: 0x3432_5241, hi: 0, lo: 0 });
        r.push(Advert::Modifier { format: 0x3432_5258, hi: 0, lo: 0 });
        r.push(Advert::Modifier { format: 0x3231_564e, hi: 0, lo: 0 });
    } else {
        r.push(Advert::Format(0x3432_5241));
        r.push(Advert::Format(0x3432_5258));
        r.push(Advert::Format(0x3231_564e));
    }
    assert(r@ =~= seq![
        advert(0x3432_5241, version),
        advert(0x3432_5258, version),
        advert(0x3231_564e, version),
    ]);
    r
}

/// The upper and the lower half of a modifier.
pub fn modifier_halves(modifier: u64) -> (r: (u32, u32))
    ensures
        r.0 as int * 0x1_0000_0000 + r.1 as int == modifier,
{
    ((modifier / 0x1_0000_0000) as u32, (modifier % 0x1_0000_0000) as u32)
}

} // verus!
