//! The wire-visible data model: requests, answers, per-output status, image
//! descriptors. Output names and image paths are carried as UTF-8 bytes; the
//! unverified edge converts to and from `String` where it talks to clients.

use vstd::prelude::*;

verus! {

/// A solid RGB color.
#[derive(Clone, Copy, PartialEq, Eq, Structural, Debug)]
pub struct Color {
    pub r: u8,
    pub g: u8,
    pub b: u8,
}

/// What an output currently shows: a solid color or an image, named by the
/// UTF-8 bytes of its path.
#[derive(Debug)]
pub enum BgImg {
    Color(Color),
    Img(Vec<u8>),
}

/// Mathematical model of [`BgImg`].
#[verifier::ext_equal]
pub enum SpecBgImg {
    Color(Color),
    Img(Seq<u8>),
}

impl View for BgImg {
    type V = SpecBgImg;

    open spec fn view(&self) -> SpecBgImg {
        match self {
            BgImg::Color(c) => SpecBgImg::Color(*c),
            BgImg::Img(p) => SpecBgImg::Img(p@),
        }
    }
}

impl BgImg {
    /// An independent copy with the same contents.
    pub fn duplicate(&self) -> (r: BgImg)
        ensures
            r@ == self@,
    {
        match self {
            BgImg::Color(c) => BgImg::Color(*c),
            BgImg::Img(p) => BgImg::Img(copy_bytes(p)),
        }
    }
}

/// Status of one output, as reported to `Query` clients.
#[derive(Debug)]
pub struct BgInfo {
    pub name: Vec<u8>,
    pub width: u32,
    pub height: u32,
    pub scale_factor: u32,
    pub img: BgImg,
}

/// Mathematical model of [`BgInfo`].
#[verifier::ext_equal]
pub struct SpecBgInfo {
    pub name: Seq<u8>,
    pub width: u32,
    pub height: u32,
    pub scale_factor: u32,
    pub img: SpecBgImg,
}

impl View for BgInfo {
    type V = SpecBgInfo;

    open spec fn view(&self) -> SpecBgInfo {
        SpecBgInfo {
            name: self.name@,
            width: self.width,
            height: self.height,
            scale_factor: self.scale_factor,
            img: self.img@,
        }
    }
}

/// One frame of an animation: a pacing delay in milliseconds and the frame's
/// pixel payload.
#[derive(Debug)]
pub struct AnimationFrame {
    pub delay_ms: u32,
    pub pixels: Vec<u8>,
}

/// Mathematical model of [`AnimationFrame`].
#[verifier::ext_equal]
pub struct SpecAnimationFrame {
    pub delay_ms: u32,
    pub pixels: Seq<u8>,
}

impl View for AnimationFrame {
    type V = SpecAnimationFrame;

    open spec fn view(&self) -> SpecAnimationFrame {
        SpecAnimationFrame { delay_ms: self.delay_ms, pixels: self.pixels@ }
    }
}

/// One group of an animation request: a set of target output names and the
/// frame stream they share.
#[derive(Debug)]
pub struct AnimationGroup {
    pub outputs: Vec<Vec<u8>>,
    pub frames: Vec<AnimationFrame>,
}

/// Mathematical model of [`AnimationGroup`].
#[verifier::ext_equal]
pub struct SpecAnimationGroup {
    pub outputs: Seq<Seq<u8>>,
    pub frames: Seq<SpecAnimationFrame>,
}

impl View for AnimationGroup {
    type V = SpecAnimationGroup;

    open spec fn view(&self) -> SpecAnimationGroup {
        SpecAnimationGroup { outputs: self.outputs.deep_view(), frames: frame_views(self.frames@) }
    }
}

/// A client request. `outputs` lists target output names; an empty list means
/// "all outputs".
#[derive(Debug)]
pub enum Request {
    Ping,
    Kill,
    Query,
    Clear { outputs: Vec<Vec<u8>>, color: Color },
    Img { outputs: Vec<Vec<u8>>, path: Vec<u8> },
    Animation { groups: Vec<AnimationGroup> },
}

/// Mathematical model of [`Request`].
#[verifier::ext_equal]
pub enum SpecRequest {
    Ping,
    Kill,
    Query,
    Clear { outputs: Seq<Seq<u8>>, color: Color },
    Img { outputs: Seq<Seq<u8>>, path: Seq<u8> },
    Animation { groups: Seq<SpecAnimationGroup> },
}

impl View for Request {
    type V = SpecRequest;

    open spec fn view(&self) -> SpecRequest {
        match self {
            Request::Ping => SpecRequest::Ping,
            Request::Kill => SpecRequest::Kill,
            Request::Query => SpecRequest::Query,
            Request::Clear { outputs, color } => SpecRequest::Clear {
                outputs: outputs.deep_view(),
                color: *color,
            },
            Request::Img { outputs, path } => SpecRequest::Img {
                outputs: outputs.deep_view(),
                path: path@,
            },
            Request::Animation { groups } => SpecRequest::Animation { groups: group_views(groups@) },
        }
    }
}

/// The daemon's answer to one request.
#[derive(Debug)]
pub enum Answer {
    Okay,
    Failure(Vec<u8>),
    Ping(bool),
    Info(Vec<BgInfo>),
}

/// Mathematical model of [`Answer`].
#[verifier::ext_equal]
pub enum SpecAnswer {
    Okay,
    Failure(Seq<u8>),
    Ping(bool),
    Info(Seq<SpecBgInfo>),
}

impl View for Answer {
    type V = SpecAnswer;

    open spec fn view(&self) -> SpecAnswer {
        match self {
            Answer::Okay => SpecAnswer::Okay,
            Answer::Failure(m) => SpecAnswer::Failure(m@),
            Answer::Ping(b) => SpecAnswer::Ping(*b),
            Answer::Info(infos) => SpecAnswer::Info(info_views(infos@)),
        }
    }
}

/// The views of a sequence of animation frames.
pub open spec fn frame_views(fs: Seq<AnimationFrame>) -> Seq<SpecAnimationFrame> {
    fs.map_values(|f: AnimationFrame| f@)
}

/// The views of a sequence of animation groups.
pub open spec fn group_views(gs: Seq<AnimationGroup>) -> Seq<SpecAnimationGroup> {
    gs.map_values(|g: AnimationGroup| g@)
}

/// The views of a sequence of per-output status records.
pub open spec fn info_views(is: Seq<BgInfo>) -> Seq<SpecBgInfo> {
    is.map_values(|i: BgInfo| i@)
}

/// An independent copy of a byte string with the same contents.
pub fn copy_bytes(src: &Vec<u8>) -> (r: Vec<u8>)
    ensures
        r@ == src@,
{
    let mut out: Vec<u8> = Vec::new();
    let mut i: usize = 0;
    while i < src.len()
        invariant
            i <= src.len(),
            out@ == src@.subrange(0, i as int),
        decreases src.len() - i,
    {
        out.push(src[i]);
        i = i + 1;
        proof {
            assert(out@ =~= src@.subrange(0, i as int));
        }
    }
    proof {
        assert(out@ =~= src@);
    }
    out
}

/// An independent copy of a frame stream with the same contents.
pub fn copy_frames(src: &Vec<AnimationFrame>) -> (r: Vec<AnimationFrame>)
    ensures
        frame_views(r@) == frame_views(src@),
{
    let mut out: Vec<AnimationFrame> = Vec::new();
    let mut i: usize = 0;
    proof {
        assert(frame_views(out@) =~= frame_views(src@.take(0)));
    }
    while i < src.len()
        invariant
            i <= src@.len(),
            frame_views(out@) == frame_views(src@.take(i as int)),
        decreases src.len() - i,
    {
        let f = AnimationFrame { delay_ms: src[i].delay_ms, pixels: copy_bytes(&src[i].pixels) };
        let ghost prev = out@;
        out.push(f);
        proof {
            assert(frame_views(prev).len() == prev.len());
            assert(prev.len() == i as int);
            assert(out@ == prev.push(f));
            assert forall|j: int|
                0 <= j < out@.len() implies frame_views(out@)[j] == frame_views(
                src@.take(i as int + 1),
            )[j] by {
                if j < i {
                    assert(frame_views(prev)[j] == frame_views(src@.take(i as int))[j]);
                    assert(out@[j] == prev[j]);
                    assert(src@.take(i as int)[j] == src@.take(i as int + 1)[j]);
                } else {
                    assert(out@[j] == f);
                    assert(f@ == src@[i as int]@);
                }
            }
            assert(frame_views(out@) =~= frame_views(src@.take(i as int + 1)));
        }
        i = i + 1;
    }
    proof {
        assert(src@.take(src@.len() as int) =~= src@);
    }
    out
}

/// Whether two byte strings hold the same bytes.
pub fn bytes_eq(a: &Vec<u8>, b: &Vec<u8>) -> (r: bool)
    ensures
        r == (a@ == b@),
{
    if a.len() != b.len() {
        return false;
    }
    let mut i: usize = 0;
    while i < a.len()
        invariant
            a@.len() == b@.len(),
            i <= a@.len(),
            forall|j: int| 0 <= j < i ==> a@[j] == b@[j],
        decreases a.len() - i,
    {
        if a[i] != b[i] {
            return false;
        }
        i = i + 1;
    }
    proof {
        assert(a@ =~= b@);
    }
    true
}

} // verus!
