//! The animation engine's worker model.
//!
//! Each accepted `Clear`/`Img`/`Animation` request becomes one worker per
//! target actor. A worker holds the token generation it was spawned with;
//! before every draw it checks that token against the actor's current
//! generation and stops without drawing when they differ. Together with the
//! cancel-then-spawn discipline of the routing this makes writers to the same
//! output mutually exclusive: `lemma_mutual_exclusion` proves that when a
//! stale and a live worker race, the live worker's descriptor wins in either
//! order.

use vstd::prelude::*;
use crate::arena::{color_pattern, newly_presented, pool_exhausted, presented_at};
use crate::daemon::Daemon;
use crate::types::{frame_views, AnimationFrame, BgImg, Color, SpecBgImg};
use crate::wallpaper::Wallpaper;

verus! {

/// What a worker was spawned to do.
pub enum WorkerTask {
    /// Establish a descriptor (solid color or image) and present one frame.
    Draw { img: BgImg },
    /// Present a stream of frames in order; `next` is the first not yet
    /// presented.
    Animate { frames: Vec<AnimationFrame>, next: usize },
}

/// One in-flight worker, bound to one actor by output identifier and token.
pub struct Worker {
    pub output_id: u32,
    /// Token generation this worker was spawned with; stale once the actor's
    /// generation moves on.
    pub token: u64,
    pub task: WorkerTask,
    pub finished: bool,
}

/// Control-state model of one actor, for stating token laws.
pub struct ActorModel {
    pub token_gen: u64,
    pub img: SpecBgImg,
}

/// Control-state model of one worker.
pub struct WorkerModel {
    pub token: u64,
    pub finished: bool,
    /// The descriptor a `Draw` worker establishes; `None` for a pure
    /// animation step.
    pub img: Option<SpecBgImg>,
}

/// Model of one actor.
pub open spec fn actor_model(w: Wallpaper) -> ActorModel {
    ActorModel { token_gen: w.token_gen, img: w.img@ }
}

/// Model of one worker.
pub open spec fn worker_model(w: Worker) -> WorkerModel {
    WorkerModel {
        token: w.token,
        finished: w.finished,
        img: match w.task {
            WorkerTask::Draw { img } => Some(img@),
            WorkerTask::Animate { .. } => None,
        },
    }
}

/// One cooperative step of a worker against its actor: a finished worker does
/// nothing; a stale token cancels the worker without drawing; a live `Draw`
/// worker establishes its descriptor. The actor's token generation never
/// moves here — only `stop_animations` moves it.
pub open spec fn step_model(a: ActorModel, w: WorkerModel) -> (ActorModel, WorkerModel) {
    if w.finished {
        (a, w)
    } else if w.token != a.token_gen {
        (a, WorkerModel { finished: true, ..w })
    } else {
        match w.img {
            Some(img) => (ActorModel { img, ..a }, WorkerModel { finished: true, ..w }),
            None => (a, w),
        }
    }
}

/// Mutual exclusion of writers to one output: when a worker whose token was
/// invalidated races a worker holding the current token, the actor converges
/// to the live worker's descriptor in either execution order, and the stale
/// worker never writes at all.
pub proof fn lemma_mutual_exclusion(a: ActorModel, stale: WorkerModel, live: WorkerModel)
    requires
        stale.token != a.token_gen,
        live.token == a.token_gen,
        !live.finished,
        live.img is Some,
    ensures
        ({
            let (a1, s1) = step_model(a, stale);
            let (a2, _) = step_model(a1, live);
            a2.img == live.img.unwrap() && a1.img == a.img
        }),
        ({
            let (b1, _) = step_model(a, live);
            let (b2, _) = step_model(b1, stale);
            b2.img == live.img.unwrap()
        }),
{
}

/// Targeted mutation: after `Clear`/`Img` routing with target list `names`
/// and descriptor `img`, the worker bound to a selected actor establishes
/// exactly `img` on it when it runs, and every unselected actor is left
/// untouched by the routing.
pub proof fn lemma_targeted_mutation(
    a: Seq<Wallpaper>,
    b: Seq<Wallpaper>,
    workers: Seq<Worker>,
    names: Seq<Seq<u8>>,
    img: SpecBgImg,
    i: int,
    k: int,
)
    requires
        crate::daemon::routed_draw(a, b, workers, names, img),
        0 <= i < b.len(),
        0 <= k < workers.len(),
        workers[k].output_id == b[i].output_id,
        forall|x: int, y: int|
            0 <= x < y < b.len() ==> (#[trigger] b[x]).output_id != (#[trigger] b[y]).output_id,
    ensures
        step_model(actor_model(b[i]), worker_model(workers[k])).0.img == img,
        forall|j: int|
            0 <= j < a.len() && !crate::daemon::selected(a[j], names) ==> #[trigger] b[j] == a[j],
{
    let i2 = choose|i2: int|
        {
            &&& 0 <= i2 < b.len()
            &&& workers[k].output_id == b[i2].output_id
            &&& crate::daemon::selected(a[i2], names)
            &&& workers[k].token == b[i2].token_gen
        };
    if i2 != i {
        if i2 < i {
            assert(b[i2].output_id != b[i].output_id);
        } else {
            assert(b[i].output_id != b[i2].output_id);
        }
    }
    assert(workers[k].token == b[i].token_gen);
    match workers[k].task {
        WorkerTask::Draw { img: wimg } => {
            assert(worker_model(workers[k]).img == Some(wimg@));
        },
        WorkerTask::Animate { .. } => {
            assert(false);
        },
    }
}

/// What one cooperative worker step did.
#[derive(Clone, Copy, PartialEq, Eq, Structural, Debug)]
pub enum StepResult {
    /// The worker's task is done; it wrote its wake byte and exited.
    Completed,
    /// One animation frame was presented; more remain.
    Progress,
    /// No free buffer: the worker must wait for a release notification.
    Blocked,
    /// The worker observed a stale token, a vanished output or a malformed
    /// frame, and exited without drawing.
    Cancelled,
}

/// Everything of the actor except its descriptor, buffers and frame clock is
/// the same.
pub open spec fn control_preserved(a: Wallpaper, b: Wallpaper) -> bool {
    &&& b.output_id == a.output_id
    &&& b.surface_id == a.surface_id
    &&& b.name@ == a.name@
    &&& b.width == a.width
    &&& b.height == a.height
    &&& b.scale_factor == a.scale_factor
    &&& b.configured == a.configured
    &&& b.token_gen == a.token_gen
}

/// Index of the actor owning output `id`, if it is still registered.
fn find_index(d: &Daemon, id: u32) -> (r: Option<usize>)
    ensures
        match r {
            Some(idx) => idx < d.wallpapers@.len() && d.wallpapers@[idx as int].output_id == id,
            None => !crate::daemon::has_output(d.wallpapers@, id),
        },
{
    let mut i: usize = 0;
    while i < d.wallpapers.len()
        invariant
            i <= d.wallpapers@.len(),
            forall|j: int| 0 <= j < i ==> (#[trigger] d.wallpapers@[j]).output_id != id,
        decreases d.wallpapers@.len() - i,
    {
        if d.wallpapers[i].has_id(id) {
            return Some(i);
        }
        i = i + 1;
    }
    None
}

/// The solid color a live `Draw` paints into the frame it presents: the
/// requested color for a `Clear`, and a placeholder (black) for an image,
/// since decoding image files is outside this core's scope.
pub open spec fn draw_fill(img: SpecBgImg) -> Color {
    match img {
        SpecBgImg::Color(c) => c,
        SpecBgImg::Img(_) => Color { r: 0, g: 0, b: 0 },
    }
}

/// Whether the animation worker advanced by exactly one frame: the same
/// stream, the cursor one further.
pub open spec fn anim_task_advanced(w_old: Worker, w_new: Worker) -> bool {
    match w_old.task {
        WorkerTask::Animate { frames, next } => match w_new.task {
            WorkerTask::Animate { frames: f2, next: n2 } => frame_views(f2@) == frame_views(
                frames@,
            ) && n2 == next + 1,
            WorkerTask::Draw { .. } => false,
        },
        WorkerTask::Draw { .. } => false,
    }
}

/// What a live worker step (actor present, token current) guarantees of its
/// own actor, from state `a` to state `b`. A `Draw` establishes its
/// descriptor and, unless blocked, presents a buffer filled with the draw's
/// solid color; blocked means the pool was exhausted and untouched. An
/// `Animate` never changes the descriptor; at the stream's end it completes
/// without touching anything; a frame whose payload does not match the
/// pool's buffer size cancels the worker without drawing; otherwise, unless
/// blocked on an exhausted pool, it presents a buffer holding exactly that
/// frame's pixels, advances by one frame, and completes exactly at the
/// stream's end.
pub open spec fn live_step_ok(
    a: Wallpaper,
    b: Wallpaper,
    w_old: Worker,
    w_new: Worker,
    r: StepResult,
) -> bool {
    match w_old.task {
        WorkerTask::Draw { img } => {
            &&& b.img@ == img@
            &&& (r != StepResult::Blocked ==> {
                &&& r == StepResult::Completed
                &&& w_new.finished
                &&& newly_presented(
                    a.pool,
                    b.pool,
                    color_pattern(draw_fill(img@), a.pool.buf_len as int),
                )
            })
            &&& (r == StepResult::Blocked ==> {
                &&& !w_new.finished
                &&& b.pool == a.pool
                &&& pool_exhausted(a.pool)
            })
            &&& actor_model(b).img == step_model(actor_model(a), worker_model(w_old)).0.img
        },
        WorkerTask::Animate { frames, next } => {
            &&& b.img@ == a.img@
            &&& (next >= frames@.len() ==> {
                &&& r == StepResult::Completed
                &&& w_new.finished
                &&& w_new.task == w_old.task
                &&& b == a
            })
            &&& (next < frames@.len() && frames@[next as int].pixels@.len() != a.pool.buf_len
                ==> {
                &&& r == StepResult::Cancelled
                &&& w_new.finished
                &&& b == a
            })
            &&& (next < frames@.len() && frames@[next as int].pixels@.len() == a.pool.buf_len
                && r == StepResult::Blocked ==> {
                &&& !w_new.finished
                &&& w_new.task == w_old.task
                &&& b == a
                &&& pool_exhausted(a.pool)
            })
            &&& (next < frames@.len() && frames@[next as int].pixels@.len() == a.pool.buf_len
                && r != StepResult::Blocked ==> {
                &&& newly_presented(a.pool, b.pool, frames@[next as int].pixels@)
                &&& anim_task_advanced(w_old, w_new)
                &&& (r == StepResult::Completed <==> next + 1 == frames@.len())
                &&& (r == StepResult::Progress <==> next + 1 < frames@.len())
                &&& w_new.finished == (next + 1 == frames@.len())
            })
        },
    }
}

/// What one step guarantees of the worker's own actor at registry index `j`:
/// a stale token cancels without any write; a live worker meets
/// [`live_step_ok`] between the actor's old and new state.
pub open spec fn step_target_ok(
    ws_old: Seq<Wallpaper>,
    ws_new: Seq<Wallpaper>,
    j: int,
    w_old: Worker,
    w_new: Worker,
    r: StepResult,
) -> bool {
    let a = ws_old[j];
    let b = ws_new[j];
    &&& (w_old.token != a.token_gen ==> r == StepResult::Cancelled && w_new.finished && ws_new
        == ws_old)
    &&& (w_old.token == a.token_gen ==> live_step_ok(a, b, w_old, w_new, r))
}

/// One cooperative step of a worker against the registry. The worker first
/// looks its actor up; a vanished output or a stale token stops it without
/// drawing (cancellation is cooperative and loses no other actor's state). A
/// live `Draw` worker records its descriptor and presents one frame, leasing
/// a buffer from the actor's arena — blocking, not racing, when none is
/// free. A live `Animate` worker presents its next frame and paces on.
pub fn step(d: &mut Daemon, w: &mut Worker) -> (r: StepResult)
    requires
        old(d).wf(),
        !old(w).finished,
    ensures
        final(d).wf(),
        final(d).initializing == old(d).initializing,
        final(d).wallpapers@.len() == old(d).wallpapers@.len(),
        final(w).output_id == old(w).output_id,
        final(w).token == old(w).token,
        forall|j: int|
            0 <= j < old(d).wallpapers@.len() ==> control_preserved(
                old(d).wallpapers@[j],
                #[trigger] final(d).wallpapers@[j],
            ),
        forall|j: int|
            0 <= j < old(d).wallpapers@.len() && (#[trigger] old(d).wallpapers@[j]).output_id
                != old(w).output_id ==> final(d).wallpapers@[j] == old(d).wallpapers@[j],
        !crate::daemon::has_output(old(d).wallpapers@, old(w).output_id) ==> {
            &&& r == StepResult::Cancelled
            &&& final(w).finished
            &&& *final(d) == *old(d)
        },
        forall|j: int|
            0 <= j < old(d).wallpapers@.len() && (#[trigger] old(d).wallpapers@[j]).output_id
                == old(w).output_id ==> step_target_ok(
                old(d).wallpapers@,
                final(d).wallpapers@,
                j,
                *old(w),
                *final(w),
                r,
            ),
{
    let found = find_index(d, w.output_id);
    match found {
        None => {
            w.finished = true;
            StepResult::Cancelled
        },
        Some(idx) => {
            let mut wp = d.take_wallpaper(idx);
            if w.token != wp.token_gen {
                d.put_wallpaper(idx, wp);
                proof {
                    assert(d.wallpapers@ =~= old(d).wallpapers@);
                }
                w.finished = true;
                StepResult::Cancelled
            } else {
                let res = step_live(&mut wp, w);
                d.put_wallpaper(idx, wp);
                proof {
                    if d.wallpapers@[idx as int] == old(d).wallpapers@[idx as int] {
                        assert(d.wallpapers@ =~= old(d).wallpapers@);
                    }
                }
                res
            }
        },
    }
}

/// The live part of one worker step, against the worker's own actor.
fn step_live(wp: &mut Wallpaper, w: &mut Worker) -> (r: StepResult)
    requires
        old(wp).wf(),
        !old(w).finished,
        old(w).token == old(wp).token_gen,
    ensures
        final(wp).wf(),
        control_preserved(*old(wp), *final(wp)),
        final(w).output_id == old(w).output_id,
        final(w).token == old(w).token,
        live_step_ok(*old(wp), *final(wp), *old(w), *final(w), r),
{
    let is_draw = match &w.task {
        WorkerTask::Draw { .. } => true,
        WorkerTask::Animate { .. } => false,
    };
    if is_draw {
        let img_copy = match &w.task {
            WorkerTask::Draw { img } => img.duplicate(),
            WorkerTask::Animate { .. } => BgImg::Color(crate::types::Color { r: 0, g: 0, b: 0 }),
        };
        let color = match &img_copy {
            BgImg::Color(c) => *c,
            BgImg::Img(_) => crate::types::Color { r: 0, g: 0, b: 0 },
        };
        wp.set_img_info(img_copy);
        match wp.pool.lease() {
            None => StepResult::Blocked,
            Some(bi) => {
                wp.pool.fill_color(bi, color);
                wp.pool.submit(bi);
                proof {
                    let p0 = old(wp).pool;
                    match old(w).task {
                        WorkerTask::Draw { img } => {
                            assert(color == draw_fill(img@));
                            assert forall|j: int|
                                0 <= j < p0.buffers@.len() && j != bi as int implies (
                            #[trigger] wp.pool.buffers@[j])@ == p0.buffers@[j]@ by {}
                            assert(presented_at(
                                p0,
                                wp.pool,
                                color_pattern(draw_fill(img@), p0.buf_len as int),
                                bi as int,
                            ));
                        },
                        WorkerTask::Animate { .. } => {
                            assert(false);
                        },
                    }
                }
                w.finished = true;
                StepResult::Completed
            },
        }
    } else {
        let (frames_len, next0) = match &w.task {
            WorkerTask::Animate { frames, next } => (frames.len(), *next),
            WorkerTask::Draw { .. } => (0, 0),
        };
        if next0 >= frames_len {
            w.finished = true;
            return StepResult::Completed;
        }
        let pixels_ok = match &w.task {
            WorkerTask::Animate { frames, .. } => frames[next0].pixels.len() == wp.pool.buf_len,
            WorkerTask::Draw { .. } => false,
        };
        if !pixels_ok {
            w.finished = true;
            return StepResult::Cancelled;
        }
        match wp.pool.lease() {
            None => StepResult::Blocked,
            Some(bi) => {
                match &w.task {
                    WorkerTask::Animate { frames, .. } => {
                        wp.pool.store(bi, &frames[next0].pixels);
                    },
                    WorkerTask::Draw { .. } => {},
                }
                wp.pool.submit(bi);
                proof {
                    let p0 = old(wp).pool;
                    match old(w).task {
                        WorkerTask::Animate { frames, next } => {
                            let fpx = frames@[next as int].pixels@;
                            assert forall|j: int|
                                0 <= j < p0.buffers@.len() && j != bi as int implies (
                            #[trigger] wp.pool.buffers@[j])@ == p0.buffers@[j]@ by {}
                            assert(presented_at(p0, wp.pool, fpx, bi as int));
                        },
                        WorkerTask::Draw { .. } => {
                            assert(false);
                        },
                    }
                }
                match &mut w.task {
                    WorkerTask::Animate { next, .. } => {
                        *next = next0 + 1;
                    },
                    WorkerTask::Draw { .. } => {},
                }
                if next0 + 1 == frames_len {
                    w.finished = true;
                    StepResult::Completed
                } else {
                    StepResult::Progress
                }
            },
        }
    }
}

} // verus!
