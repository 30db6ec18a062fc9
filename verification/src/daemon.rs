//! The daemon's actor registry and request routing.
//!
//! The registry is mutated only by the reactor thread: outputs are added and
//! removed on compositor events, geometry and `configured` flags are updated
//! there too. Client requests are resolved against the registry by output
//! name (an empty target list means every output; unknown names are silently
//! skipped) and turned into answers and workers.

use vstd::prelude::*;
use vstd::pervasive::VecAdditionalExecFns;
use crate::engine::{Worker, WorkerTask};
use crate::shutdown::{exit_daemon, ShutdownSignal};
use crate::types::{
    bytes_eq, copy_bytes, AnimationFrame, AnimationGroup, Answer, BgImg, BgInfo, Color, Request,
    SpecBgInfo, SpecBgImg,
};
use crate::wallpaper::Wallpaper;

verus! {

/// The registry of wallpaper actors, plus whether any `Img`/`Clear` has been
/// handled yet.
pub struct Daemon {
    pub wallpapers: Vec<Wallpaper>,
    pub initializing: bool,
}

/// The status record the daemon reports for one actor.
pub open spec fn spec_info(w: Wallpaper) -> SpecBgInfo {
    SpecBgInfo {
        name: w.name@,
        width: w.width,
        height: w.height,
        scale_factor: w.scale_factor,
        img: w.img@,
    }
}

/// The status records for every actor, in registry order.
pub open spec fn spec_infos(ws: Seq<Wallpaper>) -> Seq<SpecBgInfo> {
    ws.map_values(|w: Wallpaper| spec_info(w))
}

/// Whether every known output has been configured (`AND` semantics; true of
/// an empty registry).
pub open spec fn spec_all_configured(ws: Seq<Wallpaper>) -> bool {
    forall|i: int| 0 <= i < ws.len() ==> (#[trigger] ws[i]).configured
}

/// Whether a request with target list `names` selects actor `w`: an empty
/// list selects every output, otherwise the actor's name must be listed.
pub open spec fn selected(w: Wallpaper, names: Seq<Seq<u8>>) -> bool {
    names.len() == 0 || exists|k: int| 0 <= k < names.len() && names[k] == w.name@
}

/// Whether some actor of `ws` belongs to output `id`.
pub open spec fn has_output(ws: Seq<Wallpaper>, id: u32) -> bool {
    exists|i: int| 0 <= i < ws.len() && (#[trigger] ws[i]).output_id == id
}

/// Token generation moved one ahead; everything else unchanged.
pub open spec fn bumped(a: Wallpaper, b: Wallpaper) -> bool {
    &&& b.token_gen == a.token_gen + 1
    &&& b.output_id == a.output_id
    &&& b.surface_id == a.surface_id
    &&& b.name@ == a.name@
    &&& b.width == a.width
    &&& b.height == a.height
    &&& b.scale_factor == a.scale_factor
    &&& b.configured == a.configured
    &&& b.img@ == a.img@
    &&& b.pool == a.pool
}

/// The relation the cancel-then-spawn routing of `Clear` and `Img`
/// establishes: every selected actor's token generation was bumped (stale
/// workers are hereby cancelled), unselected actors are untouched, and the
/// spawned workers correspond one to one with the selected actors — every
/// worker is bound to a selected actor and carries its new generation, every
/// selected actor has a worker, and no two workers share an output — each
/// with the request's descriptor and not yet finished.
pub open spec fn routed_draw(
    a: Seq<Wallpaper>,
    b: Seq<Wallpaper>,
    workers: Seq<Worker>,
    names: Seq<Seq<u8>>,
    img: SpecBgImg,
) -> bool {
    &&& b.len() == a.len()
    &&& forall|i: int| 0 <= i < a.len() && selected(a[i], names) ==> bumped(a[i], #[trigger] b[i])
    &&& forall|i: int| 0 <= i < a.len() && !selected(a[i], names) ==> #[trigger] b[i] == a[i]
    &&& forall|k: int|
        0 <= k < workers.len() ==> exists|i: int|
            {
                &&& 0 <= i < b.len()
                &&& (#[trigger] workers[k]).output_id == b[i].output_id
                &&& selected(a[i], names)
                &&& workers[k].token == b[i].token_gen
            }
    &&& forall|i: int|
        0 <= i < a.len() && selected(#[trigger] a[i], names) ==> exists|k: int|
            0 <= k < workers.len() && (#[trigger] workers[k]).output_id == a[i].output_id
    &&& forall|k: int|
        0 <= k < workers.len() ==> match (#[trigger] workers[k]).task {
            WorkerTask::Draw { img: wimg } => wimg@ == img && !workers[k].finished,
            WorkerTask::Animate { .. } => false,
        }
    &&& forall|k1: int, k2: int|
        0 <= k1 < k2 < workers.len() ==> (#[trigger] workers[k1]).output_id != (
        #[trigger] workers[k2]).output_id
}

impl Daemon {
    /// Output and surface identifiers are unique, every actor well formed.
    pub open spec fn wf(&self) -> bool {
        &&& forall|i: int|
            0 <= i < self.wallpapers@.len() ==> (#[trigger] self.wallpapers@[i]).wf()
        &&& forall|i: int, j: int|
            0 <= i < j < self.wallpapers@.len() ==> (#[trigger] self.wallpapers@[i]).output_id != (
            #[trigger] self.wallpapers@[j]).output_id
        &&& forall|i: int, j: int|
            0 <= i < j < self.wallpapers@.len() ==> (#[trigger] self.wallpapers@[i]).surface_id
                != (#[trigger] self.wallpapers@[j]).surface_id
    }

    /// No token generation at its ceiling, so cancel-then-spawn can bump.
    pub open spec fn tokens_in_range(&self) -> bool {
        forall|i: int|
            0 <= i < self.wallpapers@.len() ==> (#[trigger] self.wallpapers@[i]).token_gen
                < u64::MAX
    }

    /// A fresh registry: no outputs known yet, nothing painted yet.
    pub fn new() -> (r: Daemon)
        ensures
            r.wf(),
            r.wallpapers@.len() == 0,
            r.initializing,
    {
        Daemon { wallpapers: Vec::new(), initializing: true }
    }

    /// The compositor reported a new output: create its actor. An output
    /// whose identifier or surface is already present is ignored.
    pub fn new_output(&mut self, output_id: u32, surface_id: u64, name: Vec<u8>, width: u32,
        height: u32, scale_factor: u32)
        requires
            old(self).wf(),
            width >= 1,
            height >= 1,
            scale_factor >= 1,
            crate::wallpaper::frame_bytes(width, height) <= usize::MAX,
        ensures
            final(self).wf(),
            final(self).initializing == old(self).initializing,
            has_output(old(self).wallpapers@, output_id) || (exists|i: int|
                0 <= i < old(self).wallpapers@.len() && (#[trigger] old(self).wallpapers@[i]).surface_id == surface_id) ==> *final(self) == *old(self),
            !(has_output(old(self).wallpapers@, output_id) || (exists|i: int|
                0 <= i < old(self).wallpapers@.len() && (#[trigger] old(self).wallpapers@[i]).surface_id == surface_id)) ==> {
                &&& final(self).wallpapers@.len() == old(self).wallpapers@.len() + 1
                &&& forall|i: int|
                    0 <= i < old(self).wallpapers@.len() ==> #[trigger] final(self).wallpapers@[i] == old(self).wallpapers@[i]
                &&& ({
                    let w = final(self).wallpapers@.last();
                    &&& w.output_id == output_id
                    &&& w.surface_id == surface_id
                    &&& w.name@ == name@
                    &&& w.width == width
                    &&& w.height == height
                    &&& w.scale_factor == scale_factor
                    &&& w.img@ == crate::wallpaper::default_img()
                    &&& !w.configured
                    &&& w.token_gen == 0
                })
            },
    {
        let mut i: usize = 0;
        while i < self.wallpapers.len()
            invariant
                old(self).wf(),
                *self == *old(self),
                i <= self.wallpapers@.len(),
                forall|j: int|
                    0 <= j < i ==> (#[trigger] self.wallpapers@[j]).output_id != output_id && (
                    #[trigger] self.wallpapers@[j]).surface_id != surface_id,
            decreases self.wallpapers@.len() - i,
        {
            if self.wallpapers[i].has_id(output_id) || self.wallpapers[i].has_surface(surface_id)
            {
                return ;
            }
            i = i + 1;
        }
        let w = Wallpaper::new(output_id, surface_id, name, width, height, scale_factor);
        self.wallpapers.push(w);
    }

    /// Build the `Info` listing: one record per known output, in registry
    /// order, with its name, size, scale factor and current descriptor.
    pub fn wallpapers_info(&self) -> (r: Vec<BgInfo>)
        ensures
            crate::types::info_views(r@) == spec_infos(self.wallpapers@),
    {
        let mut out: Vec<BgInfo> = Vec::new();
        let mut i: usize = 0;
        proof {
            assert(crate::types::info_views(out@) =~~= spec_infos(self.wallpapers@.take(0)));
        }
        while i < self.wallpapers.len()
            invariant
                i <= self.wallpapers@.len(),
                crate::types::info_views(out@) == spec_infos(self.wallpapers@.take(i as int)),
            decreases self.wallpapers@.len() - i,
        {
            let w = &self.wallpapers[i];
            let info = BgInfo {
                name: copy_bytes(&w.name),
                width: w.width,
                height: w.height,
                scale_factor: w.scale_factor,
                img: w.get_img_info(),
            };
            let ghost prev_out = out@;
            out.push(info);
            proof {
                let ws = self.wallpapers@;
                assert(info@ == spec_info(ws[i as int]));
                assert(crate::types::info_views(prev_out).len() == prev_out.len());
                assert(spec_infos(ws.take(i as int)).len() == i as int);
                assert(prev_out.len() == i as int);
                assert(out@ == prev_out.push(info));
                assert forall|j: int| 0 <= j < out@.len() implies crate::types::info_views(out@)[j]
                    == spec_infos(ws.take(i as int + 1))[j] by {
                    if j < i {
                        assert(crate::types::info_views(prev_out)[j] == spec_infos(
                            ws.take(i as int),
                        )[j]);
                        assert(out@[j] == prev_out[j]);
                        assert(ws.take(i as int)[j] == ws.take(i as int + 1)[j]);
                    } else {
                        assert(out@[j] == info);
                    }
                }
                assert(crate::types::info_views(out@) =~= spec_infos(ws.take(i as int + 1)));
            }
            i = i + 1;
        }
        proof {
            assert(self.wallpapers@.take(self.wallpapers@.len() as int) =~= self.wallpapers@);
        }
        out
    }

    /// Whether every known output has been configured.
    pub fn all_configured(&self) -> (r: bool)
        ensures
            r == spec_all_configured(self.wallpapers@),
    {
        let mut i: usize = 0;
        while i < self.wallpapers.len()
            invariant
                i <= self.wallpapers@.len(),
                forall|j: int| 0 <= j < i ==> (#[trigger] self.wallpapers@[j]).configured,
            decreases self.wallpapers@.len() - i,
        {
            if !self.wallpapers[i].configured {
                return false;
            }
            i = i + 1;
        }
        true
    }

    /// Indices of the actors a target list resolves to, in registry order.
    /// Unknown names are silently skipped; an empty list selects everything.
    pub fn find_wallpapers_by_names(&self, names: &Vec<Vec<u8>>) -> (r: Vec<usize>)
        ensures
            forall|k: int|
                0 <= k < r@.len() ==> (#[trigger] r@[k]) < self.wallpapers@.len() && selected(
                    self.wallpapers@[r@[k] as int],
                    names.deep_view(),
                ),
            forall|i: int|
                0 <= i < self.wallpapers@.len() && selected(
                    #[trigger] self.wallpapers@[i],
                    names.deep_view(),
                ) ==> r@.contains(i as usize),
            forall|k1: int, k2: int| 0 <= k1 < k2 < r@.len() ==> r@[k1] < r@[k2],
    {
        let mut out: Vec<usize> = Vec::new();
        let mut i: usize = 0;
        while i < self.wallpapers.len()
            invariant
                i <= self.wallpapers@.len(),
                forall|k: int|
                    0 <= k < out@.len() ==> (#[trigger] out@[k]) < i && selected(
                        self.wallpapers@[out@[k] as int],
                        names.deep_view(),
                    ),
                forall|j: int|
                    0 <= j < i && selected(#[trigger] self.wallpapers@[j], names.deep_view())
                        ==> out@.contains(j as usize),
                forall|k1: int, k2: int| 0 <= k1 < k2 < out@.len() ==> out@[k1] < out@[k2],
            decreases self.wallpapers@.len() - i,
        {
            if self.matches_targets(i, names) {
                let ghost prev = out@;
                out.push(i);
                proof {
                    assert forall|j: int|
                        0 <= j < i + 1 && selected(
                            #[trigger] self.wallpapers@[j],
                            names.deep_view(),
                        ) implies out@.contains(j as usize) by {
                        if j < i {
                            assert(prev.contains(j as usize));
                            let k = choose|k: int| 0 <= k < prev.len() && prev[k] == j as usize;
                            assert(out@[k] == j as usize);
                        } else {
                            assert(out@[out@.len() - 1] == i as usize);
                        }
                    }
                }
            }
            i = i + 1;
        }
        out
    }

    /// Whether actor `i` is selected by the target list.
    fn matches_targets(&self, i: usize, names: &Vec<Vec<u8>>) -> (r: bool)
        requires
            i < self.wallpapers@.len(),
        ensures
            r == selected(self.wallpapers@[i as int], names.deep_view()),
    {
        if names.len() == 0 {
            return true;
        }
        let mut k: usize = 0;
        proof {
            crate::codec::lemma_names_deep_view(*names);
        }
        while k < names.len()
            invariant
                k <= names@.len(),
                names.deep_view().len() == names@.len(),
                forall|m: int|
                    0 <= m < names@.len() ==> #[trigger] names.deep_view()[m] == names@[m]@,
                i < self.wallpapers@.len(),
                forall|m: int| 0 <= m < k ==> names.deep_view()[m] != self.wallpapers@[i as int]
                    .name@,
            decreases names@.len() - k,
        {
            if bytes_eq(&names[k], &self.wallpapers[i].name) {
                proof {
                    assert(names.deep_view()[k as int] == self.wallpapers@[i as int].name@);
                }
                return true;
            }
            k = k + 1;
        }
        false
    }

    /// The compositor destroyed an output: drop its actor from the registry.
    /// An in-flight worker for it observes the absence on its next step and
    /// stops. Unknown identifiers are ignored.
    pub fn output_destroyed(&mut self, output_id: u32)
        requires
            old(self).wf(),
        ensures
            final(self).wf(),
            final(self).initializing == old(self).initializing,
            final(self).wallpapers@ == old(self).wallpapers@.filter(
                |w: Wallpaper| w.output_id != output_id,
            ),
            !has_output(final(self).wallpapers@, output_id),
    {
        let ghost pred = |w: Wallpaper| w.output_id != output_id;
        let mut src: Vec<Wallpaper> = Vec::new();
        core::mem::swap(&mut src, &mut self.wallpapers);
        let ghost orig = src@;
        let mut out: Vec<Wallpaper> = Vec::new();
        let mut i: usize = 0;
        proof {
            assert(out@ =~= orig.take(0).filter(pred));
        }
        while i < src.len()
            invariant
                orig == old(self).wallpapers@,
                src@.len() == orig.len(),
                forall|j: int| i <= j < orig.len() ==> #[trigger] src@[j] == orig[j],
                i <= orig.len(),
                out@ == orig.take(i as int).filter(pred),
                pred == (|w: Wallpaper| w.output_id != output_id),
            decreases src@.len() - i,
        {
            let keep = !src[i].has_id(output_id);
            proof {
                let t = orig.take(i as int + 1);
                assert(t.drop_last() =~= orig.take(i as int));
                assert(t.last() == orig[i as int]);
                reveal(Seq::filter);
            }
            if keep {
                let mut taken = Wallpaper::new(1, 0, Vec::new(), 1, 1, 1);
                src.set_and_swap(i, &mut taken);
                proof {
                    assert(taken == orig[i as int]);
                }
                out.push(taken);
            }
            i = i + 1;
        }
        proof {
            assert(orig.take(orig.len() as int) =~= orig);
        }
        self.wallpapers = out;
        proof {
            let f = final(self).wallpapers@;
            assert forall|i2: int| 0 <= i2 < f.len() implies (#[trigger] f[i2]).output_id
                != output_id by {
                old(self).wallpapers@.lemma_filter_pred(pred, i2);
            }
            assert(final(self).wf()) by {
                lemma_filter_keeps_wf(old(self).wallpapers@, pred);
            }
        }
    }

    /// A layer surface was closed: drop the actor owning it.
    pub fn surface_closed(&mut self, surface_id: u64)
        requires
            old(self).wf(),
        ensures
            final(self).wf(),
            final(self).initializing == old(self).initializing,
            final(self).wallpapers@ == old(self).wallpapers@.filter(
                |w: Wallpaper| w.surface_id != surface_id,
            ),
    {
        let ghost pred = |w: Wallpaper| w.surface_id != surface_id;
        let mut src: Vec<Wallpaper> = Vec::new();
        core::mem::swap(&mut src, &mut self.wallpapers);
        let ghost orig = src@;
        let mut out: Vec<Wallpaper> = Vec::new();
        let mut i: usize = 0;
        proof {
            assert(out@ =~= orig.take(0).filter(pred));
        }
        while i < src.len()
            invariant
                orig == old(self).wallpapers@,
                src@.len() == orig.len(),
                forall|j: int| i <= j < orig.len() ==> #[trigger] src@[j] == orig[j],
                i <= orig.len(),
                out@ == orig.take(i as int).filter(pred),
                pred == (|w: Wallpaper| w.surface_id != surface_id),
            decreases src@.len() - i,
        {
            let keep = !src[i].has_surface(surface_id);
            proof {
                let t = orig.take(i as int + 1);
                assert(t.drop_last() =~= orig.take(i as int));
                assert(t.last() == orig[i as int]);
                reveal(Seq::filter);
            }
            if keep {
                let mut taken = Wallpaper::new(1, 0, Vec::new(), 1, 1, 1);
                src.set_and_swap(i, &mut taken);
                proof {
                    assert(taken == orig[i as int]);
                }
                out.push(taken);
            }
            i = i + 1;
        }
        proof {
            assert(orig.take(orig.len() as int) =~= orig);
        }
        self.wallpapers = out;
        proof {
            assert(final(self).wf()) by {
                lemma_filter_keeps_wf(old(self).wallpapers@, pred);
            }
        }
    }
}

impl Daemon {
    /// Take actor `i` out of the registry, leaving a placeholder.
    pub(crate) fn take_wallpaper(&mut self, i: usize) -> (r: Wallpaper)
        requires
            i < old(self).wallpapers@.len(),
        ensures
            r == old(self).wallpapers@[i as int],
            final(self).wallpapers@.len() == old(self).wallpapers@.len(),
            final(self).initializing == old(self).initializing,
            forall|j: int|
                0 <= j < old(self).wallpapers@.len() && j != i ==> #[trigger] final(self).wallpapers@[j] == old(self).wallpapers@[j],
    {
        let mut taken = Wallpaper::new(1, 0, Vec::new(), 1, 1, 1);
        self.wallpapers.set_and_swap(i, &mut taken);
        taken
    }

    /// Put actor `i` back after mutation.
    pub(crate) fn put_wallpaper(&mut self, i: usize, w: Wallpaper)
        requires
            i < old(self).wallpapers@.len(),
        ensures
            final(self).wallpapers@ == old(self).wallpapers@.update(i as int, w),
            final(self).initializing == old(self).initializing,
    {
        self.wallpapers.set(i, w);
    }

    /// The compositor updated an output's geometry. Zero dimensions are
    /// ignored (logged upstream); unknown outputs are ignored; otherwise the
    /// matching actor is resized and its stale buffers are discarded.
    pub fn update_output(&mut self, output_id: u32, width: u32, height: u32, scale_factor: u32)
        requires
            old(self).wf(),
            scale_factor >= 1,
            crate::wallpaper::frame_bytes(width, height) <= usize::MAX,
        ensures
            final(self).wf(),
            final(self).initializing == old(self).initializing,
            final(self).wallpapers@.len() == old(self).wallpapers@.len(),
            width == 0 || height == 0 ==> *final(self) == *old(self),
            forall|j: int|
                0 <= j < old(self).wallpapers@.len() && (#[trigger] old(self).wallpapers@[j]).output_id != output_id ==> final(self).wallpapers@[j] == old(self).wallpapers@[j],
            width >= 1 && height >= 1 ==> forall|j: int|
                0 <= j < old(self).wallpapers@.len() && (#[trigger] old(self).wallpapers@[j]).output_id == output_id ==> ({
                    let a = old(self).wallpapers@[j];
                    let b = final(self).wallpapers@[j];
                    &&& b.width == width
                    &&& b.height == height
                    &&& b.scale_factor == scale_factor
                    &&& b.pool.buffers@.len() == 0
                    &&& b.output_id == a.output_id
                    &&& b.surface_id == a.surface_id
                    &&& b.name@ == a.name@
                    &&& b.img@ == a.img@
                    &&& b.configured == a.configured
                    &&& b.token_gen == a.token_gen
                }),
    {
        if width == 0 || height == 0 {
            return ;
        }
        let mut i: usize = 0;
        while i < self.wallpapers.len()
            invariant
                old(self).wf(),
                *self == *old(self),
                i <= self.wallpapers@.len(),
                width >= 1,
                height >= 1,
                scale_factor >= 1,
                crate::wallpaper::frame_bytes(width, height) <= usize::MAX,
                forall|j: int|
                    0 <= j < i ==> (#[trigger] self.wallpapers@[j]).output_id != output_id,
            decreases self.wallpapers@.len() - i,
        {
            if self.wallpapers[i].has_id(output_id) {
                let mut w = self.take_wallpaper(i);
                w.resize(Some(width), Some(height), Some(scale_factor));
                self.put_wallpaper(i, w);
                proof {
                    assert forall|j: int|
                        0 <= j < old(self).wallpapers@.len() && (#[trigger] old(self).wallpapers@[j]).output_id == output_id implies j == i by {}
                }
                return ;
            }
            i = i + 1;
        }
    }

    /// A compositor-reported scale-factor change for one surface.
    pub fn scale_factor_changed(&mut self, surface_id: u64, new_factor: u32)
        requires
            old(self).wf(),
            new_factor >= 1,
        ensures
            final(self).wf(),
            final(self).initializing == old(self).initializing,
            final(self).wallpapers@.len() == old(self).wallpapers@.len(),
            forall|j: int|
                0 <= j < old(self).wallpapers@.len() && (#[trigger] old(self).wallpapers@[j]).surface_id != surface_id ==> final(self).wallpapers@[j] == old(self).wallpapers@[j],
            forall|j: int|
                0 <= j < old(self).wallpapers@.len() && (#[trigger] old(self).wallpapers@[j]).surface_id == surface_id ==> ({
                    let a = old(self).wallpapers@[j];
                    let b = final(self).wallpapers@[j];
                    &&& b.scale_factor == new_factor
                    &&& b.width == a.width
                    &&& b.height == a.height
                    &&& b.output_id == a.output_id
                    &&& b.surface_id == a.surface_id
                    &&& b.name@ == a.name@
                    &&& b.img@ == a.img@
                    &&& b.configured == a.configured
                    &&& b.token_gen == a.token_gen
                }),
    {
        let mut i: usize = 0;
        while i < self.wallpapers.len()
            invariant
                old(self).wf(),
                *self == *old(self),
                i <= self.wallpapers@.len(),
                new_factor >= 1,
                forall|j: int|
                    0 <= j < i ==> (#[trigger] self.wallpapers@[j]).surface_id != surface_id,
            decreases self.wallpapers@.len() - i,
        {
            if self.wallpapers[i].has_surface(surface_id) {
                let mut w = self.take_wallpaper(i);
                proof {
                    assert(w.wf());
                    assert(crate::wallpaper::frame_bytes(w.width, w.height) <= usize::MAX);
                }
                w.resize(None, None, Some(new_factor));
                self.put_wallpaper(i, w);
                proof {
                    assert forall|j: int|
                        0 <= j < old(self).wallpapers@.len() && (#[trigger] old(self).wallpapers@[j]).surface_id == surface_id implies j == i by {}
                }
                return ;
            }
            i = i + 1;
        }
    }

    /// The compositor acknowledged a surface's initial layout: mark the
    /// owning actor configured. Before this, drawing on it is not observable.
    pub fn configure_surface(&mut self, surface_id: u64)
        requires
            old(self).wf(),
        ensures
            final(self).wf(),
            final(self).initializing == old(self).initializing,
            final(self).wallpapers@.len() == old(self).wallpapers@.len(),
            forall|j: int|
                0 <= j < old(self).wallpapers@.len() && (#[trigger] old(self).wallpapers@[j]).surface_id != surface_id ==> final(self).wallpapers@[j] == old(self).wallpapers@[j],
            forall|j: int|
                0 <= j < old(self).wallpapers@.len() && (#[trigger] old(self).wallpapers@[j]).surface_id == surface_id ==> ({
                    let a = old(self).wallpapers@[j];
                    let b = final(self).wallpapers@[j];
                    &&& b.configured
                    &&& b.width == a.width
                    &&& b.height == a.height
                    &&& b.scale_factor == a.scale_factor
                    &&& b.output_id == a.output_id
                    &&& b.surface_id == a.surface_id
                    &&& b.name@ == a.name@
                    &&& b.img@ == a.img@
                    &&& b.token_gen == a.token_gen
                    &&& b.pool == a.pool
                }),
    {
        let mut i: usize = 0;
        while i < self.wallpapers.len()
            invariant
                old(self).wf(),
                *self == *old(self),
                i <= self.wallpapers@.len(),
                forall|j: int|
                    0 <= j < i ==> (#[trigger] self.wallpapers@[j]).surface_id != surface_id,
            decreases self.wallpapers@.len() - i,
        {
            if self.wallpapers[i].has_surface(surface_id) {
                let mut w = self.take_wallpaper(i);
                w.configure();
                self.put_wallpaper(i, w);
                proof {
                    assert forall|j: int|
                        0 <= j < old(self).wallpapers@.len() && (#[trigger] old(self).wallpapers@[j]).surface_id == surface_id implies j == i by {}
                }
                return ;
            }
            i = i + 1;
        }
    }

    /// A frame callback completed for one surface.
    pub fn frame(&mut self, surface_id: u64, time: u32)
        requires
            old(self).wf(),
        ensures
            final(self).wf(),
            final(self).initializing == old(self).initializing,
            final(self).wallpapers@.len() == old(self).wallpapers@.len(),
            forall|j: int|
                0 <= j < old(self).wallpapers@.len() && (#[trigger] old(self).wallpapers@[j]).surface_id != surface_id ==> final(self).wallpapers@[j] == old(self).wallpapers@[j],
            forall|j: int|
                0 <= j < old(self).wallpapers@.len() && (#[trigger] old(self).wallpapers@[j]).surface_id == surface_id ==> ({
                    let a = old(self).wallpapers@[j];
                    let b = final(self).wallpapers@[j];
                    &&& b.last_frame_time == time
                    &&& b.output_id == a.output_id
                    &&& b.surface_id == a.surface_id
                    &&& b.img@ == a.img@
                    &&& b.configured == a.configured
                    &&& b.token_gen == a.token_gen
                }),
    {
        let mut i: usize = 0;
        while i < self.wallpapers.len()
            invariant
                old(self).wf(),
                *self == *old(self),
                i <= self.wallpapers@.len(),
                forall|j: int|
                    0 <= j < i ==> (#[trigger] self.wallpapers@[j]).surface_id != surface_id,
            decreases self.wallpapers@.len() - i,
        {
            if self.wallpapers[i].has_surface(surface_id) {
                let mut w = self.take_wallpaper(i);
                w.frame_callback_completed(time);
                self.put_wallpaper(i, w);
                proof {
                    assert forall|j: int|
                        0 <= j < old(self).wallpapers@.len() && (#[trigger] old(self).wallpapers@[j]).surface_id == surface_id implies j == i by {}
                }
                return ;
            }
            i = i + 1;
        }
    }

    /// The compositor released a presented buffer of one output: the only
    /// transition that makes it reusable. Events for unknown outputs, out of
    /// range indices or buffers not currently presented are ignored.
    pub fn buffer_released(&mut self, output_id: u32, buf: usize)
        requires
            old(self).wf(),
        ensures
            final(self).wf(),
            final(self).initializing == old(self).initializing,
            final(self).wallpapers@.len() == old(self).wallpapers@.len(),
            forall|j: int|
                0 <= j < old(self).wallpapers@.len() && (#[trigger] old(self).wallpapers@[j]).output_id != output_id ==> final(self).wallpapers@[j] == old(self).wallpapers@[j],
            forall|j: int|
                0 <= j < old(self).wallpapers@.len() && (#[trigger] old(self).wallpapers@[j]).output_id == output_id ==> ({
                    let a = old(self).wallpapers@[j];
                    let b = final(self).wallpapers@[j];
                    &&& b.output_id == a.output_id
                    &&& b.surface_id == a.surface_id
                    &&& b.name@ == a.name@
                    &&& b.img@ == a.img@
                    &&& b.configured == a.configured
                    &&& b.token_gen == a.token_gen
                    &&& (buf < a.pool.buffers@.len() && a.pool.buffers@[buf as int].state
                        == crate::arena::BufferState::Presented ==> b.pool.buffers@[buf as int]
                        .state == crate::arena::BufferState::Free)
                    &&& !(buf < a.pool.buffers@.len() && a.pool.buffers@[buf as int].state
                        == crate::arena::BufferState::Presented) ==> b == a
                }),
    {
        let mut i: usize = 0;
        while i < self.wallpapers.len()
            invariant
                old(self).wf(),
                *self == *old(self),
                i <= self.wallpapers@.len(),
                forall|j: int|
                    0 <= j < i ==> (#[trigger] self.wallpapers@[j]).output_id != output_id,
            decreases self.wallpapers@.len() - i,
        {
            if self.wallpapers[i].has_id(output_id) {
                let mut w = self.take_wallpaper(i);
                let released = buf < w.pool.buffers.len() && (match w.pool.buffers[buf].state {
                    crate::arena::BufferState::Presented => true,
                    _ => false,
                });
                if released {
                    w.pool.release_notify(buf);
                }
                self.put_wallpaper(i, w);
                proof {
                    assert forall|j: int|
                        0 <= j < old(self).wallpapers@.len() && (#[trigger] old(self).wallpapers@[j]).output_id == output_id implies j == i by {}
                }
                return ;
            }
            i = i + 1;
        }
    }
}

impl Daemon {
    /// Cancel-then-spawn for `Clear` and `Img`: first bump every selected
    /// actor's token generation (cancelling any in-flight worker on it), then
    /// create one worker per selected actor, carrying the new generation and
    /// the request's descriptor.
    pub fn route_draw(&mut self, outputs: &Vec<Vec<u8>>, img: &BgImg) -> (workers: Vec<Worker>)
        requires
            old(self).wf(),
            old(self).tokens_in_range(),
        ensures
            final(self).wf(),
            final(self).initializing == old(self).initializing,
            routed_draw(
                old(self).wallpapers@,
                final(self).wallpapers@,
                workers@,
                outputs.deep_view(),
                img@,
            ),
    {
        let idxs = self.find_wallpapers_by_names(outputs);
        let ghost names = outputs.deep_view();
        let ghost orig = self.wallpapers@;
        let total = self.wallpapers.len();
        proof {
            assert(orig.len() == total as int);
        }
        let mut workers: Vec<Worker> = Vec::new();
        let mut k: usize = 0;
        while k < idxs.len()
            invariant
                old(self).wf(),
                old(self).tokens_in_range(),
                orig.len() <= usize::MAX,
                orig == old(self).wallpapers@,
                names == outputs.deep_view(),
                self.initializing == old(self).initializing,
                self.wallpapers@.len() == orig.len(),
                k <= idxs@.len(),
                forall|m: int|
                    0 <= m < idxs@.len() ==> (#[trigger] idxs@[m]) < orig.len() && selected(
                        orig[idxs@[m] as int],
                        names,
                    ),
                forall|i: int|
                    0 <= i < orig.len() && selected(#[trigger] orig[i], names) ==> idxs@.contains(
                        i as usize,
                    ),
                forall|m1: int, m2: int| 0 <= m1 < m2 < idxs@.len() ==> idxs@[m1] < idxs@[m2],
                forall|i: int|
                    0 <= i < orig.len() && (exists|m: int| 0 <= m < k && idxs@[m] == i as usize)
                        ==> bumped(orig[i], #[trigger] self.wallpapers@[i]),
                forall|i: int|
                    0 <= i < orig.len() && !(exists|m: int| 0 <= m < k && idxs@[m] == i as usize)
                        ==> #[trigger] self.wallpapers@[i] == orig[i],
                workers@.len() == k,
                forall|m: int|
                    0 <= m < k ==> ({
                        let i = idxs@[m] as int;
                        &&& (#[trigger] workers@[m]).output_id == self.wallpapers@[i].output_id
                        &&& self.wallpapers@[i].output_id == orig[i].output_id
                        &&& workers@[m].token == self.wallpapers@[i].token_gen
                        &&& !workers@[m].finished
                        &&& match workers@[m].task {
                            WorkerTask::Draw { img: wimg } => wimg@ == img@,
                            WorkerTask::Animate { .. } => false,
                        }
                    }),
            decreases idxs@.len() - k,
        {
            let i = idxs[k];
            let ghost prev_ws = self.wallpapers@;
            proof {
                assert(!(exists|m: int| 0 <= m < k && idxs@[m] == i as usize)) by {
                    if exists|m: int| 0 <= m < k && idxs@[m] == i as usize {
                        let m = choose|m: int| 0 <= m < k && idxs@[m] == i as usize;
                        assert(idxs@[m] < idxs@[k as int]);
                    }
                }
                assert(prev_ws[i as int] == orig[i as int]);
            }
            let mut w = self.take_wallpaper(i);
            w.stop_animations();
            let token = w.token_gen;
            let oid = w.output_id;
            self.put_wallpaper(i, w);
            workers.push(
                Worker {
                    output_id: oid,
                    token,
                    task: WorkerTask::Draw { img: img.duplicate() },
                    finished: false,
                },
            );
            k = k + 1;
            proof {
                assert forall|j: int|
                    0 <= j < prev_ws.len() && j != i as int implies #[trigger] self
                    .wallpapers@[j] == prev_ws[j] by {}
                assert(bumped(orig[i as int], self.wallpapers@[i as int]));
                assert forall|i2: int|
                    0 <= i2 < orig.len() && !(exists|m: int|
                        0 <= m < k && idxs@[m] == i2 as usize) implies #[trigger] self
                    .wallpapers@[i2] == orig[i2] by {
                    assert(!(idxs@[k - 1] == i2 as usize));
                    assert(i2 != i as int);
                    assert(prev_ws[i2] == orig[i2]);
                }
                assert forall|i2: int|
                    0 <= i2 < orig.len() && (exists|m: int| 0 <= m < k && idxs@[m] == i2 as usize)
                        implies bumped(orig[i2], #[trigger] self.wallpapers@[i2]) by {
                    let m = choose|m: int| 0 <= m < k && idxs@[m] == i2 as usize;
                    if m < k - 1 {
                        assert(idxs@[m] < idxs@[k - 1]);
                        assert(idxs@[m] as int == i2);
                        assert(i2 != i as int);
                        assert(bumped(orig[i2], prev_ws[i2]));
                        assert(self.wallpapers@[i2] == prev_ws[i2]);
                    } else {
                        assert(idxs@[k - 1] == i2 as usize);
                        assert(i2 == i as int);
                    }
                }
                assert forall|m: int|
                    0 <= m < k implies ({
                        let i3 = idxs@[m] as int;
                        &&& (#[trigger] workers@[m]).output_id == self.wallpapers@[i3].output_id
                        &&& self.wallpapers@[i3].output_id == orig[i3].output_id
                        &&& workers@[m].token == self.wallpapers@[i3].token_gen
                        &&& !workers@[m].finished
                        &&& match workers@[m].task {
                            WorkerTask::Draw { img: wimg } => wimg@ == img@,
                            WorkerTask::Animate { .. } => false,
                        }
                    }) by {
                    let i3 = idxs@[m] as int;
                    if m < k - 1 {
                        assert(idxs@[m] < idxs@[k - 1]);
                        assert(i3 != i as int);
                        assert(self.wallpapers@[i3] == prev_ws[i3]);
                    } else {
                        assert(bumped(orig[i3], self.wallpapers@[i3]));
                    }
                }
            }
        }
        proof {
            let b = self.wallpapers@;
            let ws = workers@;
            assert forall|i: int|
                0 <= i < orig.len() && selected(orig[i], names) implies bumped(
                orig[i],
                #[trigger] b[i],
            ) by {
                assert(idxs@.contains(i as usize));
                let m = choose|m: int| 0 <= m < idxs@.len() && idxs@[m] == i as usize;
            }
            assert forall|i: int|
                0 <= i < orig.len() && !selected(orig[i], names) implies #[trigger] b[i]
                == orig[i] by {
                if exists|m: int| 0 <= m < idxs@.len() && idxs@[m] == i as usize {
                    let m = choose|m: int| 0 <= m < idxs@.len() && idxs@[m] == i as usize;
                    assert(idxs@[m] as int == i);
                    assert(selected(orig[i], names));
                }
            }
            assert forall|m: int| 0 <= m < ws.len() implies exists|i: int|
                {
                    &&& 0 <= i < b.len()
                    &&& (#[trigger] ws[m]).output_id == b[i].output_id
                    &&& selected(orig[i], names)
                    &&& ws[m].token == b[i].token_gen
                } by {
                let i = idxs@[m] as int;
                assert(0 <= i < b.len() && ws[m].output_id == b[i].output_id && selected(
                    orig[i],
                    names,
                ) && ws[m].token == b[i].token_gen);
            }
            assert forall|i: int|
                0 <= i < orig.len() && selected(#[trigger] orig[i], names) implies exists|m: int|
                0 <= m < ws.len() && (#[trigger] ws[m]).output_id == orig[i].output_id by {
                assert(idxs@.contains(i as usize));
                let m = choose|m: int| 0 <= m < idxs@.len() && idxs@[m] == i as usize;
                assert(idxs@[m] as int == i);
                assert(ws[m].output_id == b[i].output_id);
                assert(b[i].output_id == orig[i].output_id);
            }
            assert forall|k1: int, k2: int|
                0 <= k1 < k2 < ws.len() implies (#[trigger] ws[k1]).output_id != (
            #[trigger] ws[k2]).output_id by {
                let i1 = idxs@[k1] as int;
                let i2 = idxs@[k2] as int;
                assert(idxs@[k1] < idxs@[k2]);
                assert(ws[k1].output_id == orig[i1].output_id);
                assert(ws[k2].output_id == orig[i2].output_id);
                assert(orig[i1].output_id != orig[i2].output_id);
            }
        }
        workers
    }

    /// Route one decoded request: build the answer and the workers to spawn.
    /// `Ping`, `Query` and `Kill` are answered synchronously and change no
    /// actor; `Clear` and `Img` cancel-then-spawn per selected actor; an
    /// `Animation` spawns per group without cancelling (it is expected to
    /// follow an `Img`/`Clear` that set up the tokens, and loses any race
    /// against a newer one). The answer for spawn-type requests reports
    /// acceptance, not completion.
    pub fn handle_request(&mut self, req: &Request, shutdown: &mut ShutdownSignal) -> (r: (
        Answer,
        Vec<Worker>,
    ))
        requires
            old(self).wf(),
            old(self).tokens_in_range(),
        ensures
            final(self).wf(),
            match req@ {
                crate::types::SpecRequest::Ping => {
                    &&& *final(self) == *old(self)
                    &&& *final(shutdown) == *old(shutdown)
                    &&& r.0@ == crate::types::SpecAnswer::Ping(
                        spec_all_configured(old(self).wallpapers@),
                    )
                    &&& r.1@.len() == 0
                },
                crate::types::SpecRequest::Query => {
                    &&& *final(self) == *old(self)
                    &&& *final(shutdown) == *old(shutdown)
                    &&& r.0@ == crate::types::SpecAnswer::Info(spec_infos(old(self).wallpapers@))
                    &&& r.1@.len() == 0
                },
                crate::types::SpecRequest::Kill => {
                    &&& *final(self) == *old(self)
                    &&& final(shutdown).exit
                    &&& r.0@ == crate::types::SpecAnswer::Okay
                    &&& r.1@.len() == 0
                },
                crate::types::SpecRequest::Clear { outputs, color } => {
                    &&& *final(shutdown) == *old(shutdown)
                    &&& !final(self).initializing
                    &&& routed_draw(
                        old(self).wallpapers@,
                        final(self).wallpapers@,
                        r.1@,
                        outputs,
                        SpecBgImg::Color(color),
                    )
                    &&& r.0@ == crate::types::SpecAnswer::Okay
                },
                crate::types::SpecRequest::Img { outputs, path } => {
                    &&& *final(shutdown) == *old(shutdown)
                    &&& !final(self).initializing
                    &&& routed_draw(
                        old(self).wallpapers@,
                        final(self).wallpapers@,
                        r.1@,
                        outputs,
                        SpecBgImg::Img(path),
                    )
                    &&& r.0@ == crate::types::SpecAnswer::Okay
                },
                crate::types::SpecRequest::Animation { groups } => {
                    &&& *final(self) == *old(self)
                    &&& *final(shutdown) == *old(shutdown)
                    &&& routed_anim(old(self).wallpapers@, r.1@, groups)
                    &&& r.0@ == crate::types::SpecAnswer::Okay
                },
            },
    {
        match req {
            Request::Ping => (Answer::Ping(self.all_configured()), Vec::new()),
            Request::Query => (Answer::Info(self.wallpapers_info()), Vec::new()),
            Request::Kill => {
                exit_daemon(shutdown);
                (Answer::Okay, Vec::new())
            },
            Request::Clear { outputs, color } => {
                self.initializing = false;
                let img = BgImg::Color(Color { r: color.r, g: color.g, b: color.b });
                let workers = self.route_draw(outputs, &img);
                (Answer::Okay, workers)
            },
            Request::Img { outputs, path } => {
                self.initializing = false;
                let img = BgImg::Img(copy_bytes(path));
                let workers = self.route_draw(outputs, &img);
                (Answer::Okay, workers)
            },
            Request::Animation { groups } => {
                let workers = self.route_animation(groups);
                (Answer::Okay, workers)
            },
        }
    }
}

/// Worker `m` belongs to the animation request `(ws, groups)`: it is bound
/// to a live actor of `ws` with that actor's current token, and it starts at
/// the first frame of the stream of a group whose target list selects that
/// very actor.
pub open spec fn anim_worker_ok(
    ws: Seq<Wallpaper>,
    workers: Seq<Worker>,
    groups: Seq<crate::types::SpecAnimationGroup>,
    m: int,
) -> bool {
    &&& !workers[m].finished
    &&& exists|g: int, i: int|
        {
            &&& 0 <= g < groups.len()
            &&& 0 <= i < ws.len()
            &&& workers[m].output_id == (#[trigger] ws[i]).output_id
            &&& workers[m].token == ws[i].token_gen
            &&& selected(ws[i], (#[trigger] groups[g]).outputs)
            &&& match workers[m].task {
                WorkerTask::Animate { frames, next } => next == 0 && crate::types::frame_views(
                    frames@,
                ) == groups[g].frames,
                WorkerTask::Draw { .. } => false,
            }
        }
}

/// The relation the `Animation` routing establishes: the registry is
/// untouched and no token is cancelled; each worker starts at the first
/// frame of the stream of the group that selected its actor, with that
/// actor's current token; and every actor selected by some group has a
/// worker.
pub open spec fn routed_anim(
    ws: Seq<Wallpaper>,
    workers: Seq<Worker>,
    groups: Seq<crate::types::SpecAnimationGroup>,
) -> bool {
    &&& forall|m: int| 0 <= m < workers.len() ==> #[trigger] anim_worker_ok(ws, workers, groups, m)
    &&& forall|g: int, i: int|
        0 <= g < groups.len() && 0 <= i < ws.len() && selected(
            #[trigger] ws[i],
            (#[trigger] groups[g]).outputs,
        ) ==> exists|m: int|
            0 <= m < workers.len() && (#[trigger] workers[m]).output_id == ws[i].output_id
}

impl Daemon {
    /// Spawn the animation workers for one group: one per actor the group's
    /// target list selects, each starting at the group's first frame with the
    /// actor's current token generation.
    fn route_group(&self, outputs: &Vec<Vec<u8>>, frames: &Vec<AnimationFrame>) -> (ws: Vec<
        Worker,
    >)
        ensures
            forall|m: int|
                0 <= m < ws@.len() ==> ({
                    &&& !(#[trigger] ws@[m]).finished
                    &&& exists|i: int|
                        0 <= i < self.wallpapers@.len() && ws@[m].output_id == (
                        #[trigger] self.wallpapers@[i]).output_id && ws@[m].token
                            == self.wallpapers@[i].token_gen && selected(
                            self.wallpapers@[i],
                            outputs.deep_view(),
                        )
                    &&& match ws@[m].task {
                        WorkerTask::Animate { frames: f2, next } => next == 0
                            && crate::types::frame_views(f2@) == crate::types::frame_views(
                            frames@,
                        ),
                        WorkerTask::Draw { .. } => false,
                    }
                }),
            forall|i: int|
                #![trigger self.wallpapers@[i]]
                0 <= i < self.wallpapers@.len() && selected(
                    self.wallpapers@[i],
                    outputs.deep_view(),
                ) ==> exists|m: int|
                    0 <= m < ws@.len() && (#[trigger] ws@[m]).output_id
                        == self.wallpapers@[i].output_id,
    {
        let idxs = self.find_wallpapers_by_names(outputs);
        let total = self.wallpapers.len();
        proof {
            assert(self.wallpapers@.len() == total as int);
        }
        let mut ws: Vec<Worker> = Vec::new();
        let mut k: usize = 0;
        while k < idxs.len()
            invariant
                self.wallpapers@.len() <= usize::MAX,
                k <= idxs@.len(),
                forall|m: int|
                    0 <= m < idxs@.len() ==> (#[trigger] idxs@[m]) < self.wallpapers@.len()
                        && selected(self.wallpapers@[idxs@[m] as int], outputs.deep_view()),
                forall|i: int|
                    #![trigger self.wallpapers@[i]]
                    0 <= i < self.wallpapers@.len() && selected(
                        self.wallpapers@[i],
                        outputs.deep_view(),
                    ) ==> idxs@.contains(i as usize),
                ws@.len() == k,
                forall|m: int|
                    0 <= m < k ==> ({
                        let i = idxs@[m] as int;
                        &&& (#[trigger] ws@[m]).output_id == self.wallpapers@[i].output_id
                        &&& ws@[m].token == self.wallpapers@[i].token_gen
                        &&& !ws@[m].finished
                        &&& match ws@[m].task {
                            WorkerTask::Animate { frames: f2, next } => next == 0
                                && crate::types::frame_views(f2@) == crate::types::frame_views(
                                frames@,
                            ),
                            WorkerTask::Draw { .. } => false,
                        }
                    }),
            decreases idxs@.len() - k,
        {
            let i = idxs[k];
            let wp = &self.wallpapers[i];
            ws.push(
                Worker {
                    output_id: wp.output_id,
                    token: wp.token_gen,
                    task: WorkerTask::Animate { frames: crate::types::copy_frames(frames), next: 0 },
                    finished: false,
                },
            );
            k = k + 1;
        }
        proof {
            assert forall|m: int| 0 <= m < ws@.len() implies ({
                &&& !(#[trigger] ws@[m]).finished
                &&& exists|i: int|
                    0 <= i < self.wallpapers@.len() && ws@[m].output_id == (
                    #[trigger] self.wallpapers@[i]).output_id && ws@[m].token
                        == self.wallpapers@[i].token_gen && selected(
                        self.wallpapers@[i],
                        outputs.deep_view(),
                    )
                &&& match ws@[m].task {
                    WorkerTask::Animate { frames: f2, next } => next == 0
                        && crate::types::frame_views(f2@) == crate::types::frame_views(frames@),
                    WorkerTask::Draw { .. } => false,
                }
            }) by {
                let i = idxs@[m] as int;
                assert(0 <= i < self.wallpapers@.len() && ws@[m].output_id
                    == self.wallpapers@[i].output_id && ws@[m].token
                    == self.wallpapers@[i].token_gen && selected(
                    self.wallpapers@[i],
                    outputs.deep_view(),
                ));
            }
            assert forall|i: int|
                #![trigger self.wallpapers@[i]]
                0 <= i < self.wallpapers@.len() && selected(
                    self.wallpapers@[i],
                    outputs.deep_view(),
                ) implies exists|m: int|
                0 <= m < ws@.len() && (#[trigger] ws@[m]).output_id
                    == self.wallpapers@[i].output_id by {
                assert(idxs@.contains(i as usize));
                let m = choose|m: int| 0 <= m < idxs@.len() && idxs@[m] == i as usize;
                assert(idxs@[m] as int == i);
                assert(ws@[m].output_id == self.wallpapers@[i].output_id);
            }
        }
        ws
    }

    /// Spawn animation workers for every group of an `Animation` request.
    /// No token is bumped: the request is expected to follow the `Img` or
    /// `Clear` that set the tokens up, and a racing newer request wins.
    pub fn route_animation(&self, groups: &Vec<AnimationGroup>) -> (workers: Vec<Worker>)
        ensures
            routed_anim(self.wallpapers@, workers@, crate::types::group_views(groups@)),
    {
        let ghost gv = crate::types::group_views(groups@);
        let mut workers: Vec<Worker> = Vec::new();
        let mut g: usize = 0;
        while g < groups.len()
            invariant
                gv == crate::types::group_views(groups@),
                gv.len() == groups@.len(),
                g <= groups@.len(),
                forall|m: int|
                    0 <= m < workers@.len() ==> #[trigger] anim_worker_ok(
                        self.wallpapers@,
                        workers@,
                        gv,
                        m,
                    ),
                forall|g2: int, i: int|
                    0 <= g2 < g && 0 <= i < self.wallpapers@.len() && selected(
                        #[trigger] self.wallpapers@[i],
                        (#[trigger] gv[g2]).outputs,
                    ) ==> exists|m: int|
                        0 <= m < workers@.len() && (#[trigger] workers@[m]).output_id
                            == self.wallpapers@[i].output_id,
            decreases groups@.len() - g,
        {
            proof {
                assert(gv[g as int] == groups@[g as int]@);
            }
            let mut group_ws = self.route_group(&groups[g].outputs, &groups[g].frames);
            let ghost prev = workers@;
            let ghost gws = group_ws@;
            workers.append(&mut group_ws);
            g = g + 1;
            proof {
                assert(workers@ == prev + gws);
                assert forall|m: int|
                    0 <= m < workers@.len() implies #[trigger] anim_worker_ok(
                    self.wallpapers@,
                    workers@,
                    gv,
                    m,
                ) by {
                    let ws2 = workers@;
                    if m < prev.len() {
                        assert(ws2[m] == prev[m]);
                        assert(anim_worker_ok(self.wallpapers@, prev, gv, m));
                        let (g3, i3) = choose|g3: int, i3: int|
                            {
                                &&& 0 <= g3 < gv.len()
                                &&& 0 <= i3 < self.wallpapers@.len()
                                &&& prev[m].output_id == (
                                #[trigger] self.wallpapers@[i3]).output_id
                                &&& prev[m].token == self.wallpapers@[i3].token_gen
                                &&& selected(self.wallpapers@[i3], (#[trigger] gv[g3]).outputs)
                                &&& match prev[m].task {
                                    WorkerTask::Animate { frames, next } => next == 0
                                        && crate::types::frame_views(frames@) == gv[g3].frames,
                                    WorkerTask::Draw { .. } => false,
                                }
                            };
                        assert(0 <= g3 < gv.len() && 0 <= i3 < self.wallpapers@.len()
                            && ws2[m].output_id == self.wallpapers@[i3].output_id && ws2[m].token
                            == self.wallpapers@[i3].token_gen && selected(
                            self.wallpapers@[i3],
                            gv[g3].outputs,
                        ) && (match ws2[m].task {
                            WorkerTask::Animate { frames, next } => next == 0
                                && crate::types::frame_views(frames@) == gv[g3].frames,
                            WorkerTask::Draw { .. } => false,
                        }));
                    } else {
                        let mg = m - prev.len();
                        assert(ws2[m] == gws[mg]);
                        let i3 = choose|i3: int|
                            0 <= i3 < self.wallpapers@.len() && gws[mg].output_id == (
                            #[trigger] self.wallpapers@[i3]).output_id && gws[mg].token
                                == self.wallpapers@[i3].token_gen && selected(
                                self.wallpapers@[i3],
                                groups@[g - 1].outputs.deep_view(),
                            );
                        assert(gv[g - 1].outputs == groups@[g - 1].outputs.deep_view());
                        assert(gv[g - 1].frames == crate::types::frame_views(
                            groups@[g - 1].frames@,
                        ));
                        assert(0 <= g - 1 < gv.len() && 0 <= i3 < self.wallpapers@.len()
                            && ws2[m].output_id == self.wallpapers@[i3].output_id && ws2[m].token
                            == self.wallpapers@[i3].token_gen && selected(
                            self.wallpapers@[i3],
                            gv[g - 1].outputs,
                        ) && (match ws2[m].task {
                            WorkerTask::Animate { frames, next } => next == 0
                                && crate::types::frame_views(frames@) == gv[g - 1].frames,
                            WorkerTask::Draw { .. } => false,
                        }));
                    }
                }
                assert forall|g2: int, i: int|
                    0 <= g2 < g && 0 <= i < self.wallpapers@.len() && selected(
                        #[trigger] self.wallpapers@[i],
                        (#[trigger] gv[g2]).outputs,
                    ) implies exists|m: int|
                    0 <= m < workers@.len() && (#[trigger] workers@[m]).output_id
                        == self.wallpapers@[i].output_id by {
                    if g2 < g - 1 {
                        let m = choose|m: int|
                            0 <= m < prev.len() && (#[trigger] prev[m]).output_id
                                == self.wallpapers@[i].output_id;
                        assert(workers@[m] == prev[m]);
                    } else {
                        let m = choose|m: int|
                            0 <= m < gws.len() && (#[trigger] gws[m]).output_id
                                == self.wallpapers@[i].output_id;
                        assert(workers@[prev.len() + m] == gws[m]);
                    }
                }
            }
        }
        workers
    }
}

/// A `Query` answer is a function of the registry alone: two equal
/// registries — in particular the same registry before and after a `Query`,
/// which changes nothing — yield identical `Info` listings.
pub proof fn lemma_query_idempotent(d1: Daemon, d2: Daemon)
    requires
        d1.wallpapers@ == d2.wallpapers@,
    ensures
        spec_infos(d1.wallpapers@) == spec_infos(d2.wallpapers@),
{
}

/// Before any `Img` or `Clear` touched an output, `Query` lists one entry
/// per known output, each carrying the default descriptor.
pub proof fn lemma_initial_query(ws: Seq<Wallpaper>)
    requires
        forall|i: int|
            0 <= i < ws.len() ==> (#[trigger] ws[i]).img@ == crate::wallpaper::default_img(),
    ensures
        spec_infos(ws).len() == ws.len(),
        forall|i: int|
            0 <= i < ws.len() ==> (#[trigger] spec_infos(ws)[i]).img
                == crate::wallpaper::default_img() && spec_infos(ws)[i].name == ws[i].name@,
{
    assert forall|i: int|
        0 <= i < ws.len() implies (#[trigger] spec_infos(ws)[i]).img
        == crate::wallpaper::default_img() && spec_infos(ws)[i].name == ws[i].name@ by {
        assert(spec_infos(ws)[i] == spec_info(ws[i]));
    }
}

/// Ping gating: as long as any single known output has not been configured,
/// `Ping` answers `false`, however many others are configured; and once
/// every output is configured it answers `true`. `AND` semantics across the
/// whole registry.
pub proof fn lemma_ping_gating(ws: Seq<Wallpaper>, i: int)
    requires
        0 <= i < ws.len(),
        !ws[i].configured,
    ensures
        !spec_all_configured(ws),
{
}

/// Any subsequence kept by `filter` keeps well-formedness: every remaining
/// actor is one of the original actors, in the original order.
pub proof fn lemma_filter_keeps_wf(ws: Seq<Wallpaper>, pred: spec_fn(Wallpaper) -> bool)
    requires
        forall|i: int| 0 <= i < ws.len() ==> (#[trigger] ws[i]).wf(),
        forall|i: int, j: int|
            0 <= i < j < ws.len() ==> (#[trigger] ws[i]).output_id != (#[trigger] ws[j]).output_id,
        forall|i: int, j: int|
            0 <= i < j < ws.len() ==> (#[trigger] ws[i]).surface_id != (
            #[trigger] ws[j]).surface_id,
    ensures
        forall|i: int| 0 <= i < ws.filter(pred).len() ==> (#[trigger] ws.filter(pred)[i]).wf(),
        forall|i: int, j: int|
            0 <= i < j < ws.filter(pred).len() ==> (#[trigger] ws.filter(pred)[i]).output_id != (
            #[trigger] ws.filter(pred)[j]).output_id,
        forall|i: int, j: int|
            0 <= i < j < ws.filter(pred).len() ==> (#[trigger] ws.filter(pred)[i]).surface_id != (
            #[trigger] ws.filter(pred)[j]).surface_id,
    decreases ws.len(),
{
    reveal(Seq::filter);
    if ws.len() == 0 {
    } else {
        let head = ws.drop_last();
        lemma_filter_keeps_wf(head, pred);
        let f = ws.filter(pred);
        let fh = head.filter(pred);
        assert forall|i: int| 0 <= i < f.len() implies exists|m: int|
            0 <= m < ws.len() && ws[m] == #[trigger] f[i] by {
            lemma_filter_element_of(ws, pred, i);
        }
        assert forall|i: int, j: int| 0 <= i < j < f.len() implies (#[trigger] f[i]).output_id != (
        #[trigger] f[j]).output_id by {
            lemma_filter_ordered_distinct(ws, pred, i, j);
        }
        assert forall|i: int, j: int| 0 <= i < j < f.len() implies (#[trigger] f[i]).surface_id
            != (#[trigger] f[j]).surface_id by {
            lemma_filter_ordered_distinct(ws, pred, i, j);
        }
        assert forall|i: int| 0 <= i < f.len() implies (#[trigger] f[i]).wf() by {
            lemma_filter_element_of(ws, pred, i);
            let m = choose|m: int| 0 <= m < ws.len() && ws[m] == f[i];
        }
    }
}

/// Every filtered element is one of the original elements.
pub proof fn lemma_filter_element_of(ws: Seq<Wallpaper>, pred: spec_fn(Wallpaper) -> bool, i: int)
    requires
        0 <= i < ws.filter(pred).len(),
    ensures
        exists|m: int| 0 <= m < ws.len() && ws[m] == ws.filter(pred)[i],
    decreases ws.len(),
{
    reveal(Seq::filter);
    if ws.len() == 0 {
    } else {
        let head = ws.drop_last();
        if i < head.filter(pred).len() {
            lemma_filter_element_of(head, pred, i);
            let m = choose|m: int| 0 <= m < head.len() && head[m] == head.filter(pred)[i];
            assert(ws[m] == head[m]);
        } else {
            assert(ws.filter(pred)[i] == ws.last());
            assert(ws[ws.len() - 1] == ws.last());
        }
    }
}

/// Filtering keeps order: two filtered positions come from two original
/// positions in the same order.
pub proof fn lemma_filter_ordered_distinct(
    ws: Seq<Wallpaper>,
    pred: spec_fn(Wallpaper) -> bool,
    i: int,
    j: int,
)
    requires
        0 <= i < j < ws.filter(pred).len(),
    ensures
        exists|m: int, n: int|
            0 <= m < n < ws.len() && ws[m] == ws.filter(pred)[i] && ws[n] == ws.filter(pred)[j],
    decreases ws.len(),
{
    reveal(Seq::filter);
    if ws.len() == 0 {
    } else {
        let head = ws.drop_last();
        let fh = head.filter(pred);
        if j < fh.len() {
            lemma_filter_ordered_distinct(head, pred, i, j);
            let (m, n) = choose|m: int, n: int|
                0 <= m < n < head.len() && head[m] == fh[i] && head[n] == fh[j];
            assert(ws[m] == head[m] && ws[n] == head[n]);
        } else {
            assert(pred(ws.last()));
            assert(ws.filter(pred)[j] == ws.last());
            lemma_filter_element_of(head, pred, i);
            let m = choose|m: int| 0 <= m < head.len() && head[m] == fh[i];
            assert(ws[m] == head[m]);
            assert(ws[ws.len() - 1] == ws.last());
        }
    }
}

} // verus!
