//! The per-output wallpaper actor: the output's identity and geometry, its
//! current image descriptor, the `configured` flag, the animation-token
//! generation, and the output's frame-buffer pool.
//!
//! Cancellation is cooperative: each in-flight worker holds the token
//! generation it was spawned with, and `stop_animations` bumps the actor's
//! generation, which every later token check observes as "cancelled".

use vstd::prelude::*;
use crate::arena::BumpPool;
use crate::types::{BgImg, Color, SpecBgImg};

verus! {

/// Bytes of one RGBA frame for an output of the given logical size.
pub open spec fn frame_bytes(width: u32, height: u32) -> int {
    width * height * 4
}

/// The default descriptor of an output that no request has painted yet.
pub open spec fn default_img() -> SpecBgImg {
    SpecBgImg::Color(Color { r: 0, g: 0, b: 0 })
}

/// One wallpaper actor.
pub struct Wallpaper {
    /// Stable identifier assigned by the compositor to the output.
    pub output_id: u32,
    /// Identifier of the layer surface created for this output.
    pub surface_id: u64,
    /// UTF-8 bytes of the output's name.
    pub name: Vec<u8>,
    /// Logical width; non-zero.
    pub width: u32,
    /// Logical height; non-zero.
    pub height: u32,
    /// Scale factor; at least one.
    pub scale_factor: u32,
    /// What the output currently shows.
    pub img: BgImg,
    /// Whether the compositor has acknowledged the surface's initial layout.
    pub configured: bool,
    /// Generation of the currently valid animation token; a worker holding an
    /// older generation is cancelled.
    pub token_gen: u64,
    /// Time reported by the most recent frame callback.
    pub last_frame_time: u32,
    /// The output's frame-buffer pool.
    pub pool: BumpPool,
}

impl Wallpaper {
    /// Geometry known and non-zero, pool sized for it.
    pub open spec fn wf(&self) -> bool {
        &&& self.width >= 1
        &&& self.height >= 1
        &&& self.scale_factor >= 1
        &&& self.pool.wf()
        &&& self.pool.buf_len == frame_bytes(self.width, self.height)
    }

    /// A fresh actor for a newly reported output: default descriptor, not
    /// configured, token generation zero, empty pool.
    pub fn new(output_id: u32, surface_id: u64, name: Vec<u8>, width: u32, height: u32,
        scale_factor: u32) -> (r: Wallpaper)
        requires
            width >= 1,
            height >= 1,
            scale_factor >= 1,
            frame_bytes(width, height) <= usize::MAX,
        ensures
            r.wf(),
            r.output_id == output_id,
            r.surface_id == surface_id,
            r.name@ == name@,
            r.width == width,
            r.height == height,
            r.scale_factor == scale_factor,
            r.img@ == default_img(),
            !r.configured,
            r.token_gen == 0,
            r.pool.buffers@.len() == 0,
    {
        let buf_len: usize = (width as usize) * (height as usize) * 4;
        Wallpaper {
            output_id,
            surface_id,
            name,
            width,
            height,
            scale_factor,
            img: BgImg::Color(Color { r: 0, g: 0, b: 0 }),
            configured: false,
            token_gen: 0,
            last_frame_time: 0,
            pool: BumpPool::new(buf_len),
        }
    }

    /// Whether this actor belongs to the output with the given identifier.
    pub fn has_id(&self, id: u32) -> (r: bool)
        ensures
            r == (self.output_id == id),
    {
        self.output_id == id
    }

    /// Whether this actor owns the surface with the given identifier.
    pub fn has_surface(&self, sid: u64) -> (r: bool)
        ensures
            r == (self.surface_id == sid),
    {
        self.surface_id == sid
    }

    /// Apply a compositor-reported geometry change. Every `Some` field
    /// replaces the old value; `None` keeps it. The old pool's buffers are
    /// discarded — a resized output must not reuse mismatched memory.
    pub fn resize(&mut self, width: Option<u32>, height: Option<u32>, scale_factor: Option<u32>)
        requires
            old(self).wf(),
            width is Some ==> width.unwrap() >= 1,
            height is Some ==> height.unwrap() >= 1,
            scale_factor is Some ==> scale_factor.unwrap() >= 1,
            frame_bytes(
                if width is Some { width.unwrap() } else { old(self).width },
                if height is Some { height.unwrap() } else { old(self).height },
            ) <= usize::MAX,
        ensures
            final(self).wf(),
            final(self).width == (if width is Some { width.unwrap() } else { old(self).width }),
            final(self).height == (if height is Some { height.unwrap() } else {
                old(self).height
            }),
            final(self).scale_factor == (if scale_factor is Some {
                scale_factor.unwrap()
            } else {
                old(self).scale_factor
            }),
            final(self).pool.buffers@.len() == 0,
            final(self).output_id == old(self).output_id,
            final(self).surface_id == old(self).surface_id,
            final(self).name@ == old(self).name@,
            final(self).img@ == old(self).img@,
            final(self).configured == old(self).configured,
            final(self).token_gen == old(self).token_gen,
    {
        if let Some(w) = width {
            self.width = w;
        }
        if let Some(h) = height {
            self.height = h;
        }
        if let Some(s) = scale_factor {
            self.scale_factor = s;
        }
        let buf_len: usize = (self.width as usize) * (self.height as usize) * 4;
        self.pool.resize(buf_len);
    }

    /// Record what the output now shows.
    pub fn set_img_info(&mut self, img: BgImg)
        ensures
            final(self).img@ == img@,
            unchanged_but_img(*old(self), *final(self)),
    {
        self.img = img;
    }

    /// A copy of the current image descriptor.
    pub fn get_img_info(&self) -> (r: BgImg)
        ensures
            r@ == self.img@,
    {
        self.img.duplicate()
    }

    /// Cancel any in-flight animation on this actor by invalidating the
    /// current token generation; the next spawned worker gets the new one.
    pub fn stop_animations(&mut self)
        requires
            old(self).token_gen < u64::MAX,
        ensures
            final(self).token_gen == old(self).token_gen + 1,
            final(self).img@ == old(self).img@,
            final(self).output_id == old(self).output_id,
            final(self).surface_id == old(self).surface_id,
            final(self).name@ == old(self).name@,
            final(self).width == old(self).width,
            final(self).height == old(self).height,
            final(self).scale_factor == old(self).scale_factor,
            final(self).configured == old(self).configured,
            final(self).pool == old(self).pool,
    {
        self.token_gen = self.token_gen + 1;
    }

    /// The compositor acknowledged the surface's initial layout.
    pub fn configure(&mut self)
        ensures
            final(self).configured,
            final(self).img@ == old(self).img@,
            final(self).output_id == old(self).output_id,
            final(self).surface_id == old(self).surface_id,
            final(self).name@ == old(self).name@,
            final(self).width == old(self).width,
            final(self).height == old(self).height,
            final(self).scale_factor == old(self).scale_factor,
            final(self).token_gen == old(self).token_gen,
            final(self).pool == old(self).pool,
    {
        self.configured = true;
    }

    /// A frame callback for this surface completed at the given time.
    pub fn frame_callback_completed(&mut self, time: u32)
        ensures
            final(self).last_frame_time == time,
            final(self).img@ == old(self).img@,
            final(self).output_id == old(self).output_id,
            final(self).surface_id == old(self).surface_id,
            final(self).name@ == old(self).name@,
            final(self).width == old(self).width,
            final(self).height == old(self).height,
            final(self).scale_factor == old(self).scale_factor,
            final(self).configured == old(self).configured,
            final(self).token_gen == old(self).token_gen,
            final(self).pool == old(self).pool,
    {
        self.last_frame_time = time;
    }
}

/// Everything of the actor except its image descriptor is the same.
pub open spec fn unchanged_but_img(a: Wallpaper, b: Wallpaper) -> bool {
    &&& b.output_id == a.output_id
    &&& b.surface_id == a.surface_id
    &&& b.name@ == a.name@
    &&& b.width == a.width
    &&& b.height == a.height
    &&& b.scale_factor == a.scale_factor
    &&& b.configured == a.configured
    &&& b.token_gen == a.token_gen
    &&& b.last_frame_time == a.last_frame_time
    &&& b.pool == a.pool
}

} // verus!
