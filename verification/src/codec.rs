//! The binary wire codec for [`Request`] and [`Answer`].
//!
//! Every message is one tag byte followed by its payload. Numbers are
//! little-endian `u32`; a byte string is a `u32` length followed by that many
//! bytes; a list is a `u32` count followed by its elements. `decode_request`
//! accepts a buffer exactly when it holds one complete, well-formed message
//! and nothing else; on anything else it returns `None` and the connection is
//! dropped. Decoding copies each payload out of the received buffer into
//! owned values: borrowed zero-copy views of the buffer are not stated here,
//! only the functional content, which `lemma_request_round_trip` proves is
//! recovered exactly from an encoded request.

use vstd::prelude::*;
use crate::types::{
    AnimationFrame, AnimationGroup, Answer, BgImg, BgInfo, Color, Request, SpecAnimationFrame,
    SpecAnimationGroup, SpecAnswer, SpecBgImg, SpecBgInfo, SpecRequest,
};

verus! {

/// Largest length the wire format can carry in one length field.
pub const MAX_FIELD_LEN: u32 = 0xffff_ffff;

// ---------------------------------------------------------------------------
// u32, little endian
// ---------------------------------------------------------------------------

/// The four little-endian bytes of `v`.
pub open spec fn u32_le(v: u32) -> Seq<u8> {
    seq![
        (v & 0xff) as u8,
        ((v >> 8) & 0xff) as u8,
        ((v >> 16) & 0xff) as u8,
        ((v >> 24) & 0xff) as u8,
    ]
}

/// The `u32` whose little-endian bytes are `b0 b1 b2 b3`.
pub open spec fn u32_from_le(b0: u8, b1: u8, b2: u8, b3: u8) -> u32 {
    (b0 as u32) | ((b1 as u32) << 8) | ((b2 as u32) << 16) | ((b3 as u32) << 24)
}

/// Reading back the four little-endian bytes of `v` yields `v`.
pub proof fn lemma_u32_le_round(v: u32)
    ensures
        u32_from_le(u32_le(v)[0], u32_le(v)[1], u32_le(v)[2], u32_le(v)[3]) == v,
{
    assert((((v & 0xff) as u8) as u32) | ((((v >> 8) & 0xff) as u8) as u32) << 8
        | ((((v >> 16) & 0xff) as u8) as u32) << 16 | ((((v >> 24) & 0xff) as u8) as u32) << 24
        == v) by (bit_vector);
}

/// Parse a `u32` from the front of `b`; returns the value and the rest.
pub open spec fn parse_u32(b: Seq<u8>) -> Option<(u32, Seq<u8>)> {
    if b.len() >= 4 {
        Some((u32_from_le(b[0], b[1], b[2], b[3]), b.skip(4)))
    } else {
        None
    }
}

/// A `u32` parses back from its encoding, whatever follows it.
pub proof fn lemma_parse_u32(v: u32, rest: Seq<u8>)
    ensures
        parse_u32(u32_le(v) + rest) == Some((v, rest)),
{
    let b = u32_le(v) + rest;
    assert(b[0] == u32_le(v)[0] && b[1] == u32_le(v)[1] && b[2] == u32_le(v)[2] && b[3] == u32_le(
        v,
    )[3]);
    lemma_u32_le_round(v);
    assert(b.skip(4) =~= rest);
}

// ---------------------------------------------------------------------------
// byte strings (u32 length + bytes)
// ---------------------------------------------------------------------------

/// Whether a byte string is small enough for its length field.
pub open spec fn bytes_ok(s: Seq<u8>) -> bool {
    s.len() <= MAX_FIELD_LEN
}

/// Encoding of one byte string: its length, then its bytes.
pub open spec fn enc_bytes(s: Seq<u8>) -> Seq<u8> {
    u32_le(s.len() as u32) + s
}

/// Parse one byte string from the front of `b`.
pub open spec fn parse_bytes(b: Seq<u8>) -> Option<(Seq<u8>, Seq<u8>)> {
    match parse_u32(b) {
        Option::None => Option::None,
        Option::Some((n, r)) => if r.len() >= n {
            Option::Some((r.take(n as int), r.skip(n as int)))
        } else {
            Option::None
        },
    }
}

/// A byte string parses back from its encoding, whatever follows it.
pub proof fn lemma_parse_bytes(s: Seq<u8>, rest: Seq<u8>)
    requires
        bytes_ok(s),
    ensures
        parse_bytes(enc_bytes(s) + rest) == Some((s, rest)),
{
    let n = s.len() as u32;
    assert(enc_bytes(s) + rest =~= u32_le(n) + (s + rest));
    lemma_parse_u32(n, s + rest);
    assert((s + rest).take(n as int) =~= s);
    assert((s + rest).skip(n as int) =~= rest);
}

// ---------------------------------------------------------------------------
// exec helpers: writing
// ---------------------------------------------------------------------------

/// Append the four little-endian bytes of `v`.
pub fn push_u32(out: &mut Vec<u8>, v: u32)
    ensures
        final(out)@ == old(out)@ + u32_le(v),
{
    proof {
        assert(v & 0xff < 256 && (v >> 8) & 0xff < 256 && (v >> 16) & 0xff < 256 && (v >> 24)
            & 0xff < 256) by (bit_vector);
    }
    out.push((v & 0xff) as u8);
    out.push(((v >> 8) & 0xff) as u8);
    out.push(((v >> 16) & 0xff) as u8);
    out.push(((v >> 24) & 0xff) as u8);
    proof {
        assert(final(out)@ =~= old(out)@ + u32_le(v));
    }
}

/// Append a length-prefixed byte string.
pub fn push_bytes(out: &mut Vec<u8>, s: &Vec<u8>)
    requires
        bytes_ok(s@),
    ensures
        final(out)@ == old(out)@ + enc_bytes(s@),
{
    push_u32(out, s.len() as u32);
    let mut i: usize = 0;
    while i < s.len()
        invariant
            i <= s.len(),
            out@ == old(out)@ + u32_le(s@.len() as u32) + s@.subrange(0, i as int),
        decreases s.len() - i,
    {
        out.push(s[i]);
        i = i + 1;
        proof {
            assert(out@ =~= old(out)@ + u32_le(s@.len() as u32) + s@.subrange(0, i as int));
        }
    }
    proof {
        assert(out@ =~= old(out)@ + enc_bytes(s@));
    }
}

// ---------------------------------------------------------------------------
// exec helpers: reading
// ---------------------------------------------------------------------------

/// Read a `u32` at cursor `i`; returns the value and the new cursor.
pub fn read_u32(b: &Vec<u8>, i: usize) -> (r: Option<(u32, usize)>)
    requires
        i <= b.len(),
    ensures
        match r {
            Some(p) => {
                &&& i <= p.1 <= b@.len()
                &&& parse_u32(b@.skip(i as int)) == Some((p.0, b@.skip(p.1 as int)))
            },
            None => parse_u32(b@.skip(i as int)) is None,
        },
{
    if b.len() - i >= 4 {
        let v = (b[i] as u32) | ((b[i + 1] as u32) << 8) | ((b[i + 2] as u32) << 16) | ((b[i
            + 3] as u32) << 24);
        proof {
            let t = b@.skip(i as int);
            assert(t[0] == b@[i as int] && t[1] == b@[i as int + 1] && t[2] == b@[i as int + 2]
                && t[3] == b@[i as int + 3]);
            assert(t.skip(4) =~= b@.skip(i as int + 4));
        }
        Some((v, i + 4))
    } else {
        None
    }
}

/// Read a length-prefixed byte string at cursor `i`, copying it out.
pub fn read_bytes(b: &Vec<u8>, i: usize) -> (r: Option<(Vec<u8>, usize)>)
    requires
        i <= b.len(),
    ensures
        match r {
            Some(p) => {
                &&& i <= p.1 <= b@.len()
                &&& parse_bytes(b@.skip(i as int)) == Some((p.0@, b@.skip(p.1 as int)))
            },
            None => parse_bytes(b@.skip(i as int)) is None,
        },
{
    match read_u32(b, i) {
        None => None,
        Some((n, j)) => {
            if b.len() - j >= n as usize {
                let end: usize = j + n as usize;
                let mut s: Vec<u8> = Vec::new();
                let mut k: usize = j;
                while k < end
                    invariant
                        j <= k <= end,
                        end <= b@.len(),
                        s@ == b@.subrange(j as int, k as int),
                    decreases end - k,
                {
                    s.push(b[k]);
                    k = k + 1;
                    proof {
                        assert(s@ =~= b@.subrange(j as int, k as int));
                    }
                }
                proof {
                    let t = b@.skip(i as int);
                    let rem = b@.skip(j as int);
                    assert(parse_u32(t) == Some((n, rem)));
                    assert(rem.len() >= n);
                    assert(rem.take(n as int) =~= b@.subrange(j as int, end as int));
                    assert(rem.skip(n as int) =~= b@.skip(end as int));
                }
                Some((s, end))
            } else {
                proof {
                    let t = b@.skip(i as int);
                    let rem = b@.skip(j as int);
                    assert(parse_u32(t) == Some((n, rem)));
                    assert(rem.len() < n);
                }
                None
            }
        },
    }
}

// ---------------------------------------------------------------------------
// lists of byte strings (output names)
// ---------------------------------------------------------------------------

/// A deep view of a byte vector is its view.
pub proof fn lemma_bytes_deep_view(v: Vec<u8>)
    ensures
        v.deep_view() == v@,
{
    assert(v.deep_view() =~= v@);
}

/// A deep view of a vector of byte vectors is the sequence of their views.
pub proof fn lemma_names_deep_view(v: Vec<Vec<u8>>)
    ensures
        v.deep_view().len() == v@.len(),
        forall|i: int| 0 <= i < v@.len() ==> #[trigger] v.deep_view()[i] == v@[i]@,
{
    assert forall|i: int| 0 <= i < v@.len() implies #[trigger] v.deep_view()[i] == v@[i]@ by {
        lemma_bytes_deep_view(v@[i]);
    }
}

/// Whether a list of names is small enough for the wire format.
pub open spec fn name_list_ok(ns: Seq<Seq<u8>>) -> bool {
    &&& ns.len() <= MAX_FIELD_LEN
    &&& forall|i: int| 0 <= i < ns.len() ==> bytes_ok(#[trigger] ns[i])
}

/// Encoding of the elements of a name list, in order.
pub open spec fn enc_name_items(ns: Seq<Seq<u8>>) -> Seq<u8>
    decreases ns.len(),
{
    if ns.len() == 0 {
        Seq::empty()
    } else {
        enc_bytes(ns[0]) + enc_name_items(ns.drop_first())
    }
}

/// Encoding of a name list: its count, then its elements.
pub open spec fn enc_name_list(ns: Seq<Seq<u8>>) -> Seq<u8> {
    u32_le(ns.len() as u32) + enc_name_items(ns)
}

/// Parse `n` byte strings from the front of `b`.
pub open spec fn parse_name_items(b: Seq<u8>, n: nat) -> Option<(Seq<Seq<u8>>, Seq<u8>)>
    decreases n,
{
    if n == 0 {
        Option::Some((Seq::empty(), b))
    } else {
        match parse_bytes(b) {
            Option::None => Option::None,
            Option::Some((s, r)) => match parse_name_items(r, (n - 1) as nat) {
                Option::None => Option::None,
                Option::Some((ss, r2)) => Option::Some((seq![s] + ss, r2)),
            },
        }
    }
}

/// Parse a counted name list from the front of `b`.
pub open spec fn parse_name_list(b: Seq<u8>) -> Option<(Seq<Seq<u8>>, Seq<u8>)> {
    match parse_u32(b) {
        Option::None => Option::None,
        Option::Some((n, r)) => parse_name_items(r, n as nat),
    }
}

/// The elements of a name list parse back from their encoding.
#[verifier::rlimit(100)]
#[verifier::spinoff_prover]
pub proof fn lemma_parse_name_items(ns: Seq<Seq<u8>>, rest: Seq<u8>)
    requires
        forall|i: int| 0 <= i < ns.len() ==> bytes_ok(#[trigger] ns[i]),
    ensures
        parse_name_items(enc_name_items(ns) + rest, ns.len()) == Some((ns, rest)),
    decreases ns.len(),
{
    if ns.len() == 0 {
        assert(enc_name_items(ns) + rest =~= rest);
        assert(ns =~= Seq::<Seq<u8>>::empty());
    } else {
        let tail = ns.drop_first();
        assert(enc_name_items(ns) + rest =~= enc_bytes(ns[0]) + (enc_name_items(tail) + rest));
        lemma_parse_bytes(ns[0], enc_name_items(tail) + rest);
        lemma_parse_name_items(tail, rest);
        assert(seq![ns[0]] + tail =~= ns);
    }
}

/// A name list parses back from its encoding, whatever follows it.
pub proof fn lemma_parse_name_list(ns: Seq<Seq<u8>>, rest: Seq<u8>)
    requires
        name_list_ok(ns),
    ensures
        parse_name_list(enc_name_list(ns) + rest) == Some((ns, rest)),
{
    assert(enc_name_list(ns) + rest =~= u32_le(ns.len() as u32) + (enc_name_items(ns) + rest));
    lemma_parse_u32(ns.len() as u32, enc_name_items(ns) + rest);
    lemma_parse_name_items(ns, rest);
}

/// Append an encoded name list.
pub fn push_name_list(out: &mut Vec<u8>, ns: &Vec<Vec<u8>>)
    requires
        name_list_ok(ns.deep_view()),
    ensures
        final(out)@ == old(out)@ + enc_name_list(ns.deep_view()),
{
    proof {
        lemma_names_deep_view(*ns);
    }
    push_u32(out, ns.len() as u32);
    let mut i: usize = 0;
    while i < ns.len()
        invariant
            i <= ns.len(),
            name_list_ok(ns.deep_view()),
            ns.deep_view().len() == ns@.len(),
            forall|k: int| 0 <= k < ns@.len() ==> #[trigger] ns.deep_view()[k] == ns@[k]@,
            out@ == old(out)@ + u32_le(ns.deep_view().len() as u32) + enc_name_items(
                ns.deep_view().take(i as int),
            ),
        decreases ns.len() - i,
    {
        proof {
            lemma_enc_name_items_snoc(ns.deep_view().take(i as int), ns.deep_view()[i as int]);
            assert(ns.deep_view().take(i as int).push(ns.deep_view()[i as int]) =~= ns.deep_view()
                .take(i as int + 1));
        }
        push_bytes(out, &ns[i]);
        i = i + 1;
    }
    proof {
        assert(ns.deep_view().take(ns@.len() as int) =~= ns.deep_view());
        assert(out@ =~= old(out)@ + enc_name_list(ns.deep_view()));
    }
}

/// Appending one more element to a name list appends its encoding.
#[verifier::rlimit(50)]
pub proof fn lemma_enc_name_items_snoc(ns: Seq<Seq<u8>>, s: Seq<u8>)
    ensures
        enc_name_items(ns.push(s)) == enc_name_items(ns) + enc_bytes(s),
    decreases ns.len(),
{
    if ns.len() == 0 {
        assert(ns.push(s)[0] == s);
        assert(ns.push(s).drop_first() =~= Seq::<Seq<u8>>::empty());
        assert(enc_name_items(ns.push(s).drop_first()) == Seq::<u8>::empty());
        assert(enc_name_items(ns.push(s)) =~= enc_name_items(ns) + enc_bytes(s));
    } else {
        assert(ns.push(s).drop_first() =~= ns.drop_first().push(s));
        assert(ns.push(s)[0] == ns[0]);
        lemma_enc_name_items_snoc(ns.drop_first(), s);
        assert(enc_name_items(ns.push(s)) =~= enc_name_items(ns) + enc_bytes(s));
    }
}

/// Read a counted name list at cursor `i`.
pub fn read_name_list(b: &Vec<u8>, i: usize) -> (r: Option<(Vec<Vec<u8>>, usize)>)
    requires
        i <= b.len(),
    ensures
        match r {
            Some(p) => {
                &&& i <= p.1 <= b@.len()
                &&& parse_name_list(b@.skip(i as int)) == Some((p.0.deep_view(), b@.skip(
                    p.1 as int,
                )))
            },
            None => parse_name_list(b@.skip(i as int)) is None,
        },
{
    match read_u32(b, i) {
        None => None,
        Some((n, j0)) => {
            let mut acc: Vec<Vec<u8>> = Vec::new();
            let mut cur: usize = j0;
            let mut cnt: u32 = 0;
            proof {
                lemma_names_deep_view(acc);
                assert(acc.deep_view() =~= Seq::<Seq<u8>>::empty());
            }
            while cnt < n
                invariant
                    cnt <= n,
                    i <= cur <= b@.len(),
                    parse_u32(b@.skip(i as int)) == Some((n, b@.skip(j0 as int))),
                    j0 <= b@.len(),
                    ({
                        let whole = parse_name_items(b@.skip(j0 as int), n as nat);
                        let part = parse_name_items(b@.skip(cur as int), (n - cnt) as nat);
                        match part {
                            Option::Some((ss, r2)) => whole == Option::Some(
                                (acc.deep_view() + ss, r2),
                            ),
                            Option::None => whole is None,
                        }
                    }),
                decreases n - cnt,
            {
                match read_bytes(b, cur) {
                    None => {
                        return None;
                    },
                    Some((s, j)) => {
                        proof {
                            lemma_bytes_deep_view(s);
                            lemma_names_deep_view(acc);
                        }
                        let ghost old_acc_dv = acc.deep_view();
                        let ghost s_v = s@;
                        acc.push(s);
                        proof {
                            lemma_names_deep_view(acc);
                            assert(acc.deep_view() =~= old_acc_dv.push(s_v));
                            let part_next = parse_name_items(b@.skip(j as int), (n - cnt
                                - 1) as nat);
                            match part_next {
                                Option::Some((ss2, r3)) => {
                                    assert(old_acc_dv + (seq![s_v] + ss2) =~= old_acc_dv.push(s_v)
                                        + ss2);
                                },
                                Option::None => {},
                            }
                        }
                        cur = j;
                        cnt = cnt + 1;
                    },
                }
            }
            proof {
                assert(parse_name_items(b@.skip(cur as int), 0) == Option::Some(
                    (Seq::<Seq<u8>>::empty(), b@.skip(cur as int)),
                ));
                assert(acc.deep_view() + Seq::<Seq<u8>>::empty() =~= acc.deep_view());
            }
            Some((acc, cur))
        },
    }
}

// ---------------------------------------------------------------------------
// animation frames
// ---------------------------------------------------------------------------

/// Whether one frame is small enough for the wire format.
pub open spec fn frame_ok(f: SpecAnimationFrame) -> bool {
    bytes_ok(f.pixels)
}

/// Encoding of one frame: its delay, then its pixel payload.
pub open spec fn enc_frame(f: SpecAnimationFrame) -> Seq<u8> {
    u32_le(f.delay_ms) + enc_bytes(f.pixels)
}

/// Parse one frame from the front of `b`.
pub open spec fn parse_frame(b: Seq<u8>) -> Option<(SpecAnimationFrame, Seq<u8>)> {
    match parse_u32(b) {
        Option::None => Option::None,
        Option::Some((d, r)) => match parse_bytes(r) {
            Option::None => Option::None,
            Option::Some((px, r2)) => Option::Some(
                (SpecAnimationFrame { delay_ms: d, pixels: px }, r2),
            ),
        },
    }
}

/// A frame parses back from its encoding, whatever follows it.
pub proof fn lemma_parse_frame(f: SpecAnimationFrame, rest: Seq<u8>)
    requires
        frame_ok(f),
    ensures
        parse_frame(enc_frame(f) + rest) == Some((f, rest)),
{
    assert(enc_frame(f) + rest =~= u32_le(f.delay_ms) + (enc_bytes(f.pixels) + rest));
    lemma_parse_u32(f.delay_ms, enc_bytes(f.pixels) + rest);
    lemma_parse_bytes(f.pixels, rest);
}

/// Whether a frame stream is small enough for the wire format.
pub open spec fn frame_list_ok(fs: Seq<SpecAnimationFrame>) -> bool {
    &&& fs.len() <= MAX_FIELD_LEN
    &&& forall|i: int| 0 <= i < fs.len() ==> frame_ok(#[trigger] fs[i])
}

/// Encoding of the elements of a frame stream, in order.
pub open spec fn enc_frame_items(fs: Seq<SpecAnimationFrame>) -> Seq<u8>
    decreases fs.len(),
{
    if fs.len() == 0 {
        Seq::empty()
    } else {
        enc_frame(fs[0]) + enc_frame_items(fs.drop_first())
    }
}

/// Encoding of a frame stream: its count, then its elements.
pub open spec fn enc_frame_list(fs: Seq<SpecAnimationFrame>) -> Seq<u8> {
    u32_le(fs.len() as u32) + enc_frame_items(fs)
}

/// Parse `n` frames from the front of `b`.
pub open spec fn parse_frame_items(b: Seq<u8>, n: nat) -> Option<
    (Seq<SpecAnimationFrame>, Seq<u8>),
>
    decreases n,
{
    if n == 0 {
        Option::Some((Seq::empty(), b))
    } else {
        match parse_frame(b) {
            Option::None => Option::None,
            Option::Some((f, r)) => match parse_frame_items(r, (n - 1) as nat) {
                Option::None => Option::None,
                Option::Some((fs, r2)) => Option::Some((seq![f] + fs, r2)),
            },
        }
    }
}

/// Parse a counted frame stream from the front of `b`.
pub open spec fn parse_frame_list(b: Seq<u8>) -> Option<(Seq<SpecAnimationFrame>, Seq<u8>)> {
    match parse_u32(b) {
        Option::None => Option::None,
        Option::Some((n, r)) => parse_frame_items(r, n as nat),
    }
}

/// The elements of a frame stream parse back from their encoding.
#[verifier::rlimit(50)]
pub proof fn lemma_parse_frame_items(fs: Seq<SpecAnimationFrame>, rest: Seq<u8>)
    requires
        forall|i: int| 0 <= i < fs.len() ==> frame_ok(#[trigger] fs[i]),
    ensures
        parse_frame_items(enc_frame_items(fs) + rest, fs.len()) == Some((fs, rest)),
    decreases fs.len(),
{
    if fs.len() == 0 {
        assert(enc_frame_items(fs) + rest =~= rest);
        assert(fs =~= Seq::<SpecAnimationFrame>::empty());
    } else {
        let tail = fs.drop_first();
        assert(enc_frame_items(fs) + rest =~= enc_frame(fs[0]) + (enc_frame_items(tail) + rest));
        lemma_parse_frame(fs[0], enc_frame_items(tail) + rest);
        lemma_parse_frame_items(tail, rest);
        assert(seq![fs[0]] + tail =~= fs);
    }
}

/// A frame stream parses back from its encoding, whatever follows it.
pub proof fn lemma_parse_frame_list(fs: Seq<SpecAnimationFrame>, rest: Seq<u8>)
    requires
        frame_list_ok(fs),
    ensures
        parse_frame_list(enc_frame_list(fs) + rest) == Some((fs, rest)),
{
    assert(enc_frame_list(fs) + rest =~= u32_le(fs.len() as u32) + (enc_frame_items(fs) + rest));
    lemma_parse_u32(fs.len() as u32, enc_frame_items(fs) + rest);
    lemma_parse_frame_items(fs, rest);
}

/// Appending one more frame appends its encoding.
#[verifier::rlimit(50)]
pub proof fn lemma_enc_frame_items_snoc(fs: Seq<SpecAnimationFrame>, f: SpecAnimationFrame)
    ensures
        enc_frame_items(fs.push(f)) == enc_frame_items(fs) + enc_frame(f),
    decreases fs.len(),
{
    if fs.len() == 0 {
        assert(fs.push(f)[0] == f);
        assert(fs.push(f).drop_first() =~= Seq::<SpecAnimationFrame>::empty());
        assert(enc_frame_items(fs.push(f).drop_first()) == Seq::<u8>::empty());
        assert(enc_frame_items(fs.push(f)) =~= enc_frame_items(fs) + enc_frame(f));
    } else {
        assert(fs.push(f).drop_first() =~= fs.drop_first().push(f));
        assert(fs.push(f)[0] == fs[0]);
        lemma_enc_frame_items_snoc(fs.drop_first(), f);
        assert(enc_frame_items(fs.push(f)) =~= enc_frame_items(fs) + enc_frame(f));
    }
}

/// Append an encoded frame stream.
pub fn push_frame_list(out: &mut Vec<u8>, fs: &Vec<AnimationFrame>)
    requires
        frame_list_ok(crate::types::frame_views(fs@)),
    ensures
        final(out)@ == old(out)@ + enc_frame_list(crate::types::frame_views(fs@)),
{
    let ghost fv = crate::types::frame_views(fs@);
    push_u32(out, fs.len() as u32);
    let mut i: usize = 0;
    while i < fs.len()
        invariant
            i <= fs.len(),
            frame_list_ok(fv),
            fv == crate::types::frame_views(fs@),
            fv.len() == fs@.len(),
            out@ == old(out)@ + u32_le(fv.len() as u32) + enc_frame_items(fv.take(i as int)),
        decreases fs.len() - i,
    {
        proof {
            lemma_enc_frame_items_snoc(fv.take(i as int), fv[i as int]);
            assert(fv.take(i as int).push(fv[i as int]) =~= fv.take(i as int + 1));
            assert(fv[i as int] == fs@[i as int]@);
        }
        push_u32(out, fs[i].delay_ms);
        push_bytes(out, &fs[i].pixels);
        proof {
            assert(out@ =~= old(out)@ + u32_le(fv.len() as u32) + enc_frame_items(
                fv.take(i as int + 1),
            ));
        }
        i = i + 1;
    }
    proof {
        assert(fv.take(fs@.len() as int) =~= fv);
        assert(out@ =~= old(out)@ + enc_frame_list(fv));
    }
}

/// Read one frame at cursor `i`.
pub fn read_frame(b: &Vec<u8>, i: usize) -> (r: Option<(AnimationFrame, usize)>)
    requires
        i <= b.len(),
    ensures
        match r {
            Some(p) => {
                &&& i <= p.1 <= b@.len()
                &&& parse_frame(b@.skip(i as int)) == Some((p.0@, b@.skip(p.1 as int)))
            },
            None => parse_frame(b@.skip(i as int)) is None,
        },
{
    match read_u32(b, i) {
        None => None,
        Some((d, j)) => match read_bytes(b, j) {
            None => None,
            Some((px, j2)) => Some((AnimationFrame { delay_ms: d, pixels: px }, j2)),
        },
    }
}

/// Read a counted frame stream at cursor `i`.
pub fn read_frame_list(b: &Vec<u8>, i: usize) -> (r: Option<(Vec<AnimationFrame>, usize)>)
    requires
        i <= b.len(),
    ensures
        match r {
            Some(p) => {
                &&& i <= p.1 <= b@.len()
                &&& parse_frame_list(b@.skip(i as int)) == Some(
                    (crate::types::frame_views(p.0@), b@.skip(p.1 as int)),
                )
            },
            None => parse_frame_list(b@.skip(i as int)) is None,
        },
{
    match read_u32(b, i) {
        None => None,
        Some((n, j0)) => {
            let mut acc: Vec<AnimationFrame> = Vec::new();
            let mut cur: usize = j0;
            let mut cnt: u32 = 0;
            proof {
                assert(crate::types::frame_views(acc@) =~= Seq::<SpecAnimationFrame>::empty());
            }
            while cnt < n
                invariant
                    cnt <= n,
                    i <= cur <= b@.len(),
                    j0 <= b@.len(),
                    parse_u32(b@.skip(i as int)) == Some((n, b@.skip(j0 as int))),
                    ({
                        let whole = parse_frame_items(b@.skip(j0 as int), n as nat);
                        let part = parse_frame_items(b@.skip(cur as int), (n - cnt) as nat);
                        match part {
                            Option::Some((fs2, r2)) => whole == Option::Some(
                                (crate::types::frame_views(acc@) + fs2, r2),
                            ),
                            Option::None => whole is None,
                        }
                    }),
                decreases n - cnt,
            {
                match read_frame(b, cur) {
                    None => {
                        return None;
                    },
                    Some((f, j)) => {
                        let ghost old_acc = crate::types::frame_views(acc@);
                        let ghost f_v = f@;
                        acc.push(f);
                        proof {
                            assert(crate::types::frame_views(acc@) =~= old_acc.push(f_v));
                            let part_next = parse_frame_items(b@.skip(j as int), (n - cnt
                                - 1) as nat);
                            match part_next {
                                Option::Some((fs2, r3)) => {
                                    assert(old_acc + (seq![f_v] + fs2) =~= old_acc.push(f_v) + fs2);
                                },
                                Option::None => {},
                            }
                        }
                        cur = j;
                        cnt = cnt + 1;
                    },
                }
            }
            proof {
                assert(crate::types::frame_views(acc@) + Seq::<SpecAnimationFrame>::empty()
                    =~= crate::types::frame_views(acc@));
            }
            Some((acc, cur))
        },
    }
}

// ---------------------------------------------------------------------------
// animation groups
// ---------------------------------------------------------------------------

/// Whether one animation group is small enough for the wire format.
pub open spec fn group_ok(g: SpecAnimationGroup) -> bool {
    &&& name_list_ok(g.outputs)
    &&& frame_list_ok(g.frames)
}

/// Encoding of one group: its target names, then its frame stream.
pub open spec fn enc_group(g: SpecAnimationGroup) -> Seq<u8> {
    enc_name_list(g.outputs) + enc_frame_list(g.frames)
}

/// Parse one group from the front of `b`.
pub open spec fn parse_group(b: Seq<u8>) -> Option<(SpecAnimationGroup, Seq<u8>)> {
    match parse_name_list(b) {
        Option::None => Option::None,
        Option::Some((ns, r)) => match parse_frame_list(r) {
            Option::None => Option::None,
            Option::Some((fs, r2)) => Option::Some(
                (SpecAnimationGroup { outputs: ns, frames: fs }, r2),
            ),
        },
    }
}

/// A group parses back from its encoding, whatever follows it.
pub proof fn lemma_parse_group(g: SpecAnimationGroup, rest: Seq<u8>)
    requires
        group_ok(g),
    ensures
        parse_group(enc_group(g) + rest) == Some((g, rest)),
{
    assert(enc_group(g) + rest =~= enc_name_list(g.outputs) + (enc_frame_list(g.frames) + rest));
    lemma_parse_name_list(g.outputs, enc_frame_list(g.frames) + rest);
    lemma_parse_frame_list(g.frames, rest);
}

/// Whether a list of groups is small enough for the wire format.
pub open spec fn group_list_ok(gs: Seq<SpecAnimationGroup>) -> bool {
    &&& gs.len() <= MAX_FIELD_LEN
    &&& forall|i: int| 0 <= i < gs.len() ==> group_ok(#[trigger] gs[i])
}

/// Encoding of the elements of a group list, in order.
pub open spec fn enc_group_items(gs: Seq<SpecAnimationGroup>) -> Seq<u8>
    decreases gs.len(),
{
    if gs.len() == 0 {
        Seq::empty()
    } else {
        enc_group(gs[0]) + enc_group_items(gs.drop_first())
    }
}

/// Encoding of a group list: its count, then its elements.
pub open spec fn enc_group_list(gs: Seq<SpecAnimationGroup>) -> Seq<u8> {
    u32_le(gs.len() as u32) + enc_group_items(gs)
}

/// Parse `n` groups from the front of `b`.
pub open spec fn parse_group_items(b: Seq<u8>, n: nat) -> Option<
    (Seq<SpecAnimationGroup>, Seq<u8>),
>
    decreases n,
{
    if n == 0 {
        Option::Some((Seq::empty(), b))
    } else {
        match parse_group(b) {
            Option::None => Option::None,
            Option::Some((g, r)) => match parse_group_items(r, (n - 1) as nat) {
                Option::None => Option::None,
                Option::Some((gs, r2)) => Option::Some((seq![g] + gs, r2)),
            },
        }
    }
}

/// Parse a counted group list from the front of `b`.
pub open spec fn parse_group_list(b: Seq<u8>) -> Option<(Seq<SpecAnimationGroup>, Seq<u8>)> {
    match parse_u32(b) {
        Option::None => Option::None,
        Option::Some((n, r)) => parse_group_items(r, n as nat),
    }
}

/// The elements of a group list parse back from their encoding.
#[verifier::rlimit(100)]
#[verifier::spinoff_prover]
pub proof fn lemma_parse_group_items(gs: Seq<SpecAnimationGroup>, rest: Seq<u8>)
    requires
        forall|i: int| 0 <= i < gs.len() ==> group_ok(#[trigger] gs[i]),
    ensures
        parse_group_items(enc_group_items(gs) + rest, gs.len()) == Some((gs, rest)),
    decreases gs.len(),
{
    if gs.len() == 0 {
        assert(enc_group_items(gs) + rest =~= rest);
        assert(gs =~= Seq::<SpecAnimationGroup>::empty());
    } else {
        let tail = gs.drop_first();
        assert(enc_group_items(gs) + rest =~= enc_group(gs[0]) + (enc_group_items(tail) + rest));
        lemma_parse_group(gs[0], enc_group_items(tail) + rest);
        lemma_parse_group_items(tail, rest);
        assert(seq![gs[0]] + tail =~= gs);
    }
}

/// A group list parses back from its encoding, whatever follows it.
pub proof fn lemma_parse_group_list(gs: Seq<SpecAnimationGroup>, rest: Seq<u8>)
    requires
        group_list_ok(gs),
    ensures
        parse_group_list(enc_group_list(gs) + rest) == Some((gs, rest)),
{
    assert(enc_group_list(gs) + rest =~= u32_le(gs.len() as u32) + (enc_group_items(gs) + rest));
    lemma_parse_u32(gs.len() as u32, enc_group_items(gs) + rest);
    lemma_parse_group_items(gs, rest);
}

/// Appending one more group appends its encoding.
#[verifier::rlimit(50)]
pub proof fn lemma_enc_group_items_snoc(gs: Seq<SpecAnimationGroup>, g: SpecAnimationGroup)
    ensures
        enc_group_items(gs.push(g)) == enc_group_items(gs) + enc_group(g),
    decreases gs.len(),
{
    if gs.len() == 0 {
        assert(gs.push(g)[0] == g);
        assert(gs.push(g).drop_first() =~= Seq::<SpecAnimationGroup>::empty());
        assert(enc_group_items(gs.push(g).drop_first()) == Seq::<u8>::empty());
        assert(enc_group_items(gs.push(g)) =~= enc_group_items(gs) + enc_group(g));
    } else {
        assert(gs.push(g).drop_first() =~= gs.drop_first().push(g));
        assert(gs.push(g)[0] == gs[0]);
        lemma_enc_group_items_snoc(gs.drop_first(), g);
        assert(enc_group_items(gs.push(g)) =~= enc_group_items(gs) + enc_group(g));
    }
}

/// Append an encoded group list.
pub fn push_group_list(out: &mut Vec<u8>, gs: &Vec<AnimationGroup>)
    requires
        group_list_ok(crate::types::group_views(gs@)),
    ensures
        final(out)@ == old(out)@ + enc_group_list(crate::types::group_views(gs@)),
{
    let ghost gv = crate::types::group_views(gs@);
    push_u32(out, gs.len() as u32);
    let mut i: usize = 0;
    while i < gs.len()
        invariant
            i <= gs.len(),
            group_list_ok(gv),
            gv == crate::types::group_views(gs@),
            gv.len() == gs@.len(),
            out@ == old(out)@ + u32_le(gv.len() as u32) + enc_group_items(gv.take(i as int)),
        decreases gs.len() - i,
    {
        proof {
            lemma_enc_group_items_snoc(gv.take(i as int), gv[i as int]);
            assert(gv.take(i as int).push(gv[i as int]) =~= gv.take(i as int + 1));
            assert(gv[i as int] == gs@[i as int]@);
        }
        push_name_list(out, &gs[i].outputs);
        push_frame_list(out, &gs[i].frames);
        proof {
            assert(out@ =~= old(out)@ + u32_le(gv.len() as u32) + enc_group_items(
                gv.take(i as int + 1),
            ));
        }
        i = i + 1;
    }
    proof {
        assert(gv.take(gs@.len() as int) =~= gv);
        assert(out@ =~= old(out)@ + enc_group_list(gv));
    }
}

/// Read one group at cursor `i`.
pub fn read_group(b: &Vec<u8>, i: usize) -> (r: Option<(AnimationGroup, usize)>)
    requires
        i <= b.len(),
    ensures
        match r {
            Some(p) => {
                &&& i <= p.1 <= b@.len()
                &&& parse_group(b@.skip(i as int)) == Some((p.0@, b@.skip(p.1 as int)))
            },
            None => parse_group(b@.skip(i as int)) is None,
        },
{
    match read_name_list(b, i) {
        None => None,
        Some((ns, j)) => match read_frame_list(b, j) {
            None => None,
            Some((fs, j2)) => Some((AnimationGroup { outputs: ns, frames: fs }, j2)),
        },
    }
}

/// Read a counted group list at cursor `i`.
pub fn read_group_list(b: &Vec<u8>, i: usize) -> (r: Option<(Vec<AnimationGroup>, usize)>)
    requires
        i <= b.len(),
    ensures
        match r {
            Some(p) => {
                &&& i <= p.1 <= b@.len()
                &&& parse_group_list(b@.skip(i as int)) == Some(
                    (crate::types::group_views(p.0@), b@.skip(p.1 as int)),
                )
            },
            None => parse_group_list(b@.skip(i as int)) is None,
        },
{
    match read_u32(b, i) {
        None => None,
        Some((n, j0)) => {
            let mut acc: Vec<AnimationGroup> = Vec::new();
            let mut cur: usize = j0;
            let mut cnt: u32 = 0;
            proof {
                assert(crate::types::group_views(acc@) =~= Seq::<SpecAnimationGroup>::empty());
            }
            while cnt < n
                invariant
                    cnt <= n,
                    i <= cur <= b@.len(),
                    j0 <= b@.len(),
                    parse_u32(b@.skip(i as int)) == Some((n, b@.skip(j0 as int))),
                    ({
                        let whole = parse_group_items(b@.skip(j0 as int), n as nat);
                        let part = parse_group_items(b@.skip(cur as int), (n - cnt) as nat);
                        match part {
                            Option::Some((gs2, r2)) => whole == Option::Some(
                                (crate::types::group_views(acc@) + gs2, r2),
                            ),
                            Option::None => whole is None,
                        }
                    }),
                decreases n - cnt,
            {
                match read_group(b, cur) {
                    None => {
                        return None;
                    },
                    Some((g, j)) => {
                        let ghost old_acc = crate::types::group_views(acc@);
                        let ghost g_v = g@;
                        acc.push(g);
                        proof {
                            assert(crate::types::group_views(acc@) =~= old_acc.push(g_v));
                            let part_next = parse_group_items(b@.skip(j as int), (n - cnt
                                - 1) as nat);
                            match part_next {
                                Option::Some((gs2, r3)) => {
                                    assert(old_acc + (seq![g_v] + gs2) =~= old_acc.push(g_v) + gs2);
                                },
                                Option::None => {},
                            }
                        }
                        cur = j;
                        cnt = cnt + 1;
                    },
                }
            }
            proof {
                assert(crate::types::group_views(acc@) + Seq::<SpecAnimationGroup>::empty()
                    =~= crate::types::group_views(acc@));
            }
            Some((acc, cur))
        },
    }
}

// ---------------------------------------------------------------------------
// requests
// ---------------------------------------------------------------------------

/// Whether a request is small enough for the wire format.
pub open spec fn req_ok(r: SpecRequest) -> bool {
    match r {
        SpecRequest::Ping => true,
        SpecRequest::Kill => true,
        SpecRequest::Query => true,
        SpecRequest::Clear { outputs, color } => name_list_ok(outputs),
        SpecRequest::Img { outputs, path } => name_list_ok(outputs) && bytes_ok(path),
        SpecRequest::Animation { groups } => group_list_ok(groups),
    }
}

/// Encoding of a request: one tag byte, then the variant's payload.
pub open spec fn spec_encode_request(r: SpecRequest) -> Seq<u8> {
    match r {
        SpecRequest::Ping => seq![0u8],
        SpecRequest::Kill => seq![1u8],
        SpecRequest::Query => seq![2u8],
        SpecRequest::Clear { outputs, color } => seq![3u8, color.r, color.g, color.b]
            + enc_name_list(outputs),
        SpecRequest::Img { outputs, path } => seq![4u8] + enc_name_list(outputs) + enc_bytes(path),
        SpecRequest::Animation { groups } => seq![5u8] + enc_group_list(groups),
    }
}

/// Decoding of a buffer that must hold exactly one request.
pub open spec fn spec_decode_request(b: Seq<u8>) -> Option<SpecRequest> {
    if b.len() < 1 {
        Option::None
    } else {
        let tag = b[0];
        let r = b.skip(1);
        if tag == 0 {
            if r.len() == 0 {
                Option::Some(SpecRequest::Ping)
            } else {
                Option::None
            }
        } else if tag == 1 {
            if r.len() == 0 {
                Option::Some(SpecRequest::Kill)
            } else {
                Option::None
            }
        } else if tag == 2 {
            if r.len() == 0 {
                Option::Some(SpecRequest::Query)
            } else {
                Option::None
            }
        } else if tag == 3 {
            if r.len() >= 3 {
                let color = Color { r: r[0], g: r[1], b: r[2] };
                match parse_name_list(r.skip(3)) {
                    Option::Some((ns, rem)) => if rem.len() == 0 {
                        Option::Some(SpecRequest::Clear { outputs: ns, color })
                    } else {
                        Option::None
                    },
                    Option::None => Option::None,
                }
            } else {
                Option::None
            }
        } else if tag == 4 {
            match parse_name_list(r) {
                Option::Some((ns, rem)) => match parse_bytes(rem) {
                    Option::Some((p, rem2)) => if rem2.len() == 0 {
                        Option::Some(SpecRequest::Img { outputs: ns, path: p })
                    } else {
                        Option::None
                    },
                    Option::None => Option::None,
                },
                Option::None => Option::None,
            }
        } else if tag == 5 {
            match parse_group_list(r) {
                Option::Some((gs, rem)) => if rem.len() == 0 {
                    Option::Some(SpecRequest::Animation { groups: gs })
                } else {
                    Option::None
                },
                Option::None => Option::None,
            }
        } else {
            Option::None
        }
    }
}

/// Decoding an encoded request recovers it exactly: the wire format is
/// lossless for every request variant.
pub proof fn lemma_request_round_trip(r: SpecRequest)
    requires
        req_ok(r),
    ensures
        spec_decode_request(spec_encode_request(r)) == Some(r),
{
    let b = spec_encode_request(r);
    match r {
        SpecRequest::Ping => {
            assert(b.skip(1) =~= Seq::<u8>::empty());
        },
        SpecRequest::Kill => {
            assert(b.skip(1) =~= Seq::<u8>::empty());
        },
        SpecRequest::Query => {
            assert(b.skip(1) =~= Seq::<u8>::empty());
        },
        SpecRequest::Clear { outputs, color } => {
            let rest = b.skip(1);
            assert(rest =~= seq![color.r, color.g, color.b] + enc_name_list(outputs));
            assert(rest[0] == color.r && rest[1] == color.g && rest[2] == color.b);
            assert(rest.skip(3) =~= enc_name_list(outputs) + Seq::<u8>::empty());
            lemma_parse_name_list(outputs, Seq::<u8>::empty());
        },
        SpecRequest::Img { outputs, path } => {
            let rest = b.skip(1);
            assert(rest =~= enc_name_list(outputs) + (enc_bytes(path) + Seq::<u8>::empty()));
            lemma_parse_name_list(outputs, enc_bytes(path) + Seq::<u8>::empty());
            lemma_parse_bytes(path, Seq::<u8>::empty());
        },
        SpecRequest::Animation { groups } => {
            let rest = b.skip(1);
            assert(rest =~= enc_group_list(groups) + Seq::<u8>::empty());
            lemma_parse_group_list(groups, Seq::<u8>::empty());
        },
    }
}

/// Encode one request for the wire.
pub fn encode_request(r: &Request) -> (out: Vec<u8>)
    requires
        req_ok(r@),
    ensures
        out@ == spec_encode_request(r@),
{
    let mut out: Vec<u8> = Vec::new();
    match r {
        Request::Ping => {
            out.push(0);
            proof {
                assert(out@ =~= spec_encode_request(r@));
            }
        },
        Request::Kill => {
            out.push(1);
            proof {
                assert(out@ =~= spec_encode_request(r@));
            }
        },
        Request::Query => {
            out.push(2);
            proof {
                assert(out@ =~= spec_encode_request(r@));
            }
        },
        Request::Clear { outputs, color } => {
            out.push(3);
            out.push(color.r);
            out.push(color.g);
            out.push(color.b);
            push_name_list(&mut out, outputs);
            proof {
                assert(out@ =~= spec_encode_request(r@));
            }
        },
        Request::Img { outputs, path } => {
            out.push(4);
            push_name_list(&mut out, outputs);
            push_bytes(&mut out, path);
            proof {
                assert(out@ =~= spec_encode_request(r@));
            }
        },
        Request::Animation { groups } => {
            out.push(5);
            push_group_list(&mut out, groups);
            proof {
                assert(out@ =~= spec_encode_request(r@));
            }
        },
    }
    out
}

/// Decode one request from a received buffer. Returns `None` (and the caller
/// drops the connection) unless the buffer holds exactly one well-formed
/// request.
pub fn decode_request(b: &Vec<u8>) -> (r: Option<Request>)
    ensures
        match r {
            Some(req) => spec_decode_request(b@) == Some(req@),
            None => spec_decode_request(b@) is None,
        },
{
    if b.len() < 1 {
        return None;
    }
    let tag = b[0];
    proof {
        assert(b@.skip(1).len() == b@.len() - 1);
    }
    if tag == 0 {
        if b.len() == 1 {
            Some(Request::Ping)
        } else {
            None
        }
    } else if tag == 1 {
        if b.len() == 1 {
            Some(Request::Kill)
        } else {
            None
        }
    } else if tag == 2 {
        if b.len() == 1 {
            Some(Request::Query)
        } else {
            None
        }
    } else if tag == 3 {
        if b.len() >= 4 {
            let color = Color { r: b[1], g: b[2], b: b[3] };
            proof {
                let rest = b@.skip(1);
                assert(rest[0] == b@[1] && rest[1] == b@[2] && rest[2] == b@[3]);
                assert(rest.skip(3) =~= b@.skip(4));
            }
            match read_name_list(b, 4) {
                None => None,
                Some((ns, j)) => {
                    if j == b.len() {
                        proof {
                            assert(b@.skip(j as int).len() == 0);
                        }
                        Some(Request::Clear { outputs: ns, color })
                    } else {
                        None
                    }
                },
            }
        } else {
            None
        }
    } else if tag == 4 {
        match read_name_list(b, 1) {
            None => None,
            Some((ns, j)) => match read_bytes(b, j) {
                None => None,
                Some((p, j2)) => {
                    if j2 == b.len() {
                        proof {
                            assert(b@.skip(j2 as int).len() == 0);
                        }
                        Some(Request::Img { outputs: ns, path: p })
                    } else {
                        None
                    }
                },
            },
        }
    } else if tag == 5 {
        match read_group_list(b, 1) {
            None => None,
            Some((gs, j)) => {
                if j == b.len() {
                    proof {
                        assert(b@.skip(j as int).len() == 0);
                    }
                    Some(Request::Animation { groups: gs })
                } else {
                    None
                }
            },
        }
    } else {
        None
    }
}

// ---------------------------------------------------------------------------
// image descriptors and per-output status records
// ---------------------------------------------------------------------------

/// Whether an image descriptor is small enough for the wire format.
pub open spec fn img_ok(img: SpecBgImg) -> bool {
    match img {
        SpecBgImg::Color(_) => true,
        SpecBgImg::Img(p) => bytes_ok(p),
    }
}

/// Encoding of an image descriptor.
pub open spec fn enc_img(img: SpecBgImg) -> Seq<u8> {
    match img {
        SpecBgImg::Color(c) => seq![0u8, c.r, c.g, c.b],
        SpecBgImg::Img(p) => seq![1u8] + enc_bytes(p),
    }
}

/// Parse an image descriptor from the front of `b`.
pub open spec fn parse_img(b: Seq<u8>) -> Option<(SpecBgImg, Seq<u8>)> {
    if b.len() < 1 {
        Option::None
    } else if b[0] == 0 {
        if b.len() >= 4 {
            Option::Some((SpecBgImg::Color(Color { r: b[1], g: b[2], b: b[3] }), b.skip(4)))
        } else {
            Option::None
        }
    } else if b[0] == 1 {
        match parse_bytes(b.skip(1)) {
            Option::Some((p, r)) => Option::Some((SpecBgImg::Img(p), r)),
            Option::None => Option::None,
        }
    } else {
        Option::None
    }
}

/// An image descriptor parses back from its encoding.
pub proof fn lemma_parse_img(img: SpecBgImg, rest: Seq<u8>)
    requires
        img_ok(img),
    ensures
        parse_img(enc_img(img) + rest) == Some((img, rest)),
{
    let b = enc_img(img) + rest;
    match img {
        SpecBgImg::Color(c) => {
            assert(b[0] == 0 && b[1] == c.r && b[2] == c.g && b[3] == c.b);
            assert(b.skip(4) =~= rest);
        },
        SpecBgImg::Img(p) => {
            assert(b[0] == 1);
            assert(b.skip(1) =~= enc_bytes(p) + rest);
            lemma_parse_bytes(p, rest);
        },
    }
}

/// Whether a status record is small enough for the wire format.
pub open spec fn info_ok(i: SpecBgInfo) -> bool {
    bytes_ok(i.name) && img_ok(i.img)
}

/// Encoding of one status record: name, size, scale factor, image descriptor.
pub open spec fn enc_info(i: SpecBgInfo) -> Seq<u8> {
    enc_bytes(i.name) + u32_le(i.width) + u32_le(i.height) + u32_le(i.scale_factor) + enc_img(
        i.img,
    )
}

/// Parse one status record from the front of `b`.
pub open spec fn parse_info(b: Seq<u8>) -> Option<(SpecBgInfo, Seq<u8>)> {
    match parse_bytes(b) {
        Option::None => Option::None,
        Option::Some((name, r1)) => match parse_u32(r1) {
            Option::None => Option::None,
            Option::Some((w, r2)) => match parse_u32(r2) {
                Option::None => Option::None,
                Option::Some((h, r3)) => match parse_u32(r3) {
                    Option::None => Option::None,
                    Option::Some((sf, r4)) => match parse_img(r4) {
                        Option::None => Option::None,
                        Option::Some((img, r5)) => Option::Some(
                            (
                                SpecBgInfo {
                                    name,
                                    width: w,
                                    height: h,
                                    scale_factor: sf,
                                    img,
                                },
                                r5,
                            ),
                        ),
                    },
                },
            },
        },
    }
}

/// A status record parses back from its encoding.
pub proof fn lemma_parse_info(i: SpecBgInfo, rest: Seq<u8>)
    requires
        info_ok(i),
    ensures
        parse_info(enc_info(i) + rest) == Some((i, rest)),
{
    let t4 = enc_img(i.img) + rest;
    let t3 = u32_le(i.scale_factor) + t4;
    let t2 = u32_le(i.height) + t3;
    let t1 = u32_le(i.width) + t2;
    assert(enc_info(i) + rest =~= enc_bytes(i.name) + t1);
    lemma_parse_bytes(i.name, t1);
    lemma_parse_u32(i.width, t2);
    lemma_parse_u32(i.height, t3);
    lemma_parse_u32(i.scale_factor, t4);
    lemma_parse_img(i.img, rest);
}

/// Whether a status list is small enough for the wire format.
pub open spec fn info_list_ok(is: Seq<SpecBgInfo>) -> bool {
    &&& is.len() <= MAX_FIELD_LEN
    &&& forall|k: int| 0 <= k < is.len() ==> info_ok(#[trigger] is[k])
}

/// Encoding of the elements of a status list, in order.
pub open spec fn enc_info_items(is: Seq<SpecBgInfo>) -> Seq<u8>
    decreases is.len(),
{
    if is.len() == 0 {
        Seq::empty()
    } else {
        enc_info(is[0]) + enc_info_items(is.drop_first())
    }
}

/// Encoding of a status list: its count, then its elements.
pub open spec fn enc_info_list(is: Seq<SpecBgInfo>) -> Seq<u8> {
    u32_le(is.len() as u32) + enc_info_items(is)
}

/// Parse `n` status records from the front of `b`.
pub open spec fn parse_info_items(b: Seq<u8>, n: nat) -> Option<(Seq<SpecBgInfo>, Seq<u8>)>
    decreases n,
{
    if n == 0 {
        Option::Some((Seq::empty(), b))
    } else {
        match parse_info(b) {
            Option::None => Option::None,
            Option::Some((i, r)) => match parse_info_items(r, (n - 1) as nat) {
                Option::None => Option::None,
                Option::Some((is, r2)) => Option::Some((seq![i] + is, r2)),
            },
        }
    }
}

/// Parse a counted status list from the front of `b`.
pub open spec fn parse_info_list(b: Seq<u8>) -> Option<(Seq<SpecBgInfo>, Seq<u8>)> {
    match parse_u32(b) {
        Option::None => Option::None,
        Option::Some((n, r)) => parse_info_items(r, n as nat),
    }
}

/// The elements of a status list parse back from their encoding.
#[verifier::rlimit(100)]
#[verifier::spinoff_prover]
pub proof fn lemma_parse_info_items(is: Seq<SpecBgInfo>, rest: Seq<u8>)
    requires
        forall|k: int| 0 <= k < is.len() ==> info_ok(#[trigger] is[k]),
    ensures
        parse_info_items(enc_info_items(is) + rest, is.len()) == Some((is, rest)),
    decreases is.len(),
{
    if is.len() == 0 {
        assert(enc_info_items(is) + rest =~= rest);
        assert(is =~= Seq::<SpecBgInfo>::empty());
    } else {
        let tail = is.drop_first();
        assert(enc_info_items(is) + rest =~= enc_info(is[0]) + (enc_info_items(tail) + rest));
        lemma_parse_info(is[0], enc_info_items(tail) + rest);
        lemma_parse_info_items(tail, rest);
        assert(seq![is[0]] + tail =~= is);
    }
}

/// A status list parses back from its encoding, whatever follows it.
pub proof fn lemma_parse_info_list(is: Seq<SpecBgInfo>, rest: Seq<u8>)
    requires
        info_list_ok(is),
    ensures
        parse_info_list(enc_info_list(is) + rest) == Some((is, rest)),
{
    assert(enc_info_list(is) + rest =~= u32_le(is.len() as u32) + (enc_info_items(is) + rest));
    lemma_parse_u32(is.len() as u32, enc_info_items(is) + rest);
    lemma_parse_info_items(is, rest);
}

// ---------------------------------------------------------------------------
// answers
// ---------------------------------------------------------------------------

/// Whether an answer is small enough for the wire format.
pub open spec fn ans_ok(a: SpecAnswer) -> bool {
    match a {
        SpecAnswer::Okay => true,
        SpecAnswer::Failure(m) => bytes_ok(m),
        SpecAnswer::Ping(_) => true,
        SpecAnswer::Info(is) => info_list_ok(is),
    }
}

/// Encoding of an answer: one tag byte, then the variant's payload.
pub open spec fn spec_encode_answer(a: SpecAnswer) -> Seq<u8> {
    match a {
        SpecAnswer::Okay => seq![0u8],
        SpecAnswer::Failure(m) => seq![1u8] + enc_bytes(m),
        SpecAnswer::Ping(v) => seq![2u8, if v { 1u8 } else { 0u8 }],
        SpecAnswer::Info(is) => seq![3u8] + enc_info_list(is),
    }
}

/// Decoding of a buffer that must hold exactly one answer.
pub open spec fn spec_decode_answer(b: Seq<u8>) -> Option<SpecAnswer> {
    if b.len() < 1 {
        Option::None
    } else {
        let tag = b[0];
        let r = b.skip(1);
        if tag == 0 {
            if r.len() == 0 {
                Option::Some(SpecAnswer::Okay)
            } else {
                Option::None
            }
        } else if tag == 1 {
            match parse_bytes(r) {
                Option::Some((m, rem)) => if rem.len() == 0 {
                    Option::Some(SpecAnswer::Failure(m))
                } else {
                    Option::None
                },
                Option::None => Option::None,
            }
        } else if tag == 2 {
            if r.len() == 1 && (r[0] == 0 || r[0] == 1) {
                Option::Some(SpecAnswer::Ping(r[0] == 1))
            } else {
                Option::None
            }
        } else if tag == 3 {
            match parse_info_list(r) {
                Option::Some((is, rem)) => if rem.len() == 0 {
                    Option::Some(SpecAnswer::Info(is))
                } else {
                    Option::None
                },
                Option::None => Option::None,
            }
        } else {
            Option::None
        }
    }
}

/// Decoding an encoded answer recovers it exactly.
pub proof fn lemma_answer_round_trip(a: SpecAnswer)
    requires
        ans_ok(a),
    ensures
        spec_decode_answer(spec_encode_answer(a)) == Some(a),
{
    let b = spec_encode_answer(a);
    match a {
        SpecAnswer::Okay => {
            assert(b.skip(1) =~= Seq::<u8>::empty());
        },
        SpecAnswer::Failure(m) => {
            assert(b.skip(1) =~= enc_bytes(m) + Seq::<u8>::empty());
            lemma_parse_bytes(m, Seq::<u8>::empty());
        },
        SpecAnswer::Ping(v) => {
            assert(b.skip(1) =~= seq![if v { 1u8 } else { 0u8 }]);
        },
        SpecAnswer::Info(is) => {
            assert(b.skip(1) =~= enc_info_list(is) + Seq::<u8>::empty());
            lemma_parse_info_list(is, Seq::<u8>::empty());
        },
    }
}

/// Append one encoded status record.
fn push_info(out: &mut Vec<u8>, i: &BgInfo)
    requires
        info_ok(i@),
    ensures
        final(out)@ == old(out)@ + enc_info(i@),
{
    push_bytes(out, &i.name);
    push_u32(out, i.width);
    push_u32(out, i.height);
    push_u32(out, i.scale_factor);
    match &i.img {
        BgImg::Color(c) => {
            out.push(0);
            out.push(c.r);
            out.push(c.g);
            out.push(c.b);
        },
        BgImg::Img(p) => {
            out.push(1);
            push_bytes(out, p);
        },
    }
    proof {
        assert(out@ =~= old(out)@ + enc_info(i@));
    }
}

/// Encode one answer for the wire.
pub fn encode_answer(a: &Answer) -> (out: Vec<u8>)
    requires
        ans_ok(a@),
    ensures
        out@ == spec_encode_answer(a@),
{
    let mut out: Vec<u8> = Vec::new();
    match a {
        Answer::Okay => {
            out.push(0);
            proof {
                assert(out@ =~= spec_encode_answer(a@));
            }
        },
        Answer::Failure(m) => {
            out.push(1);
            push_bytes(&mut out, m);
            proof {
                assert(out@ =~= spec_encode_answer(a@));
            }
        },
        Answer::Ping(v) => {
            out.push(2);
            if *v {
                out.push(1);
            } else {
                out.push(0);
            }
            proof {
                assert(out@ =~= spec_encode_answer(a@));
            }
        },
        Answer::Info(is) => {
            out.push(3);
            let ghost iv = crate::types::info_views(is@);
            push_u32(&mut out, is.len() as u32);
            let mut k: usize = 0;
            while k < is.len()
                invariant
                    k <= is.len(),
                    info_list_ok(iv),
                    iv == crate::types::info_views(is@),
                    iv.len() == is@.len(),
                    out@ == seq![3u8] + u32_le(iv.len() as u32) + enc_info_items(
                        iv.take(k as int),
                    ),
                decreases is.len() - k,
            {
                proof {
                    lemma_enc_info_items_snoc(iv.take(k as int), iv[k as int]);
                    assert(iv.take(k as int).push(iv[k as int]) =~= iv.take(k as int + 1));
                    assert(iv[k as int] == is@[k as int]@);
                }
                push_info(&mut out, &is[k]);
                proof {
                    assert(out@ =~= seq![3u8] + u32_le(iv.len() as u32) + enc_info_items(
                        iv.take(k as int + 1),
                    ));
                }
                k = k + 1;
            }
            proof {
                assert(iv.take(is@.len() as int) =~= iv);
                assert(out@ =~= spec_encode_answer(a@));
            }
        },
    }
    out
}

/// Appending one more status record appends its encoding.
pub proof fn lemma_enc_info_items_snoc(is: Seq<SpecBgInfo>, i: SpecBgInfo)
    ensures
        enc_info_items(is.push(i)) == enc_info_items(is) + enc_info(i),
    decreases is.len(),
{
    if is.len() == 0 {
        assert(is.push(i)[0] == i);
        assert(is.push(i).drop_first() =~= Seq::<SpecBgInfo>::empty());
        assert(enc_info_items(is.push(i).drop_first()) == Seq::<u8>::empty());
        assert(enc_info_items(is.push(i)) =~= enc_info_items(is) + enc_info(i));
    } else {
        assert(is.push(i).drop_first() =~= is.drop_first().push(i));
        assert(is.push(i)[0] == is[0]);
        lemma_enc_info_items_snoc(is.drop_first(), i);
        assert(enc_info_items(is.push(i)) =~= enc_info_items(is) + enc_info(i));
    }
}

/// Read one status record at cursor `i`.
fn read_info(b: &Vec<u8>, i: usize) -> (r: Option<(BgInfo, usize)>)
    requires
        i <= b.len(),
    ensures
        match r {
            Some(p) => {
                &&& i <= p.1 <= b@.len()
                &&& parse_info(b@.skip(i as int)) == Some((p.0@, b@.skip(p.1 as int)))
            },
            None => parse_info(b@.skip(i as int)) is None,
        },
{
    match read_bytes(b, i) {
        None => None,
        Some((name, j1)) => match read_u32(b, j1) {
            None => None,
            Some((w, j2)) => match read_u32(b, j2) {
                None => None,
                Some((h, j3)) => match read_u32(b, j3) {
                    None => None,
                    Some((sf, j4)) => {
                        if b.len() - j4 < 1 {
                            return None;
                        }
                        let t = b[j4];
                        proof {
                            assert(b@.skip(j4 as int)[0] == b@[j4 as int]);
                        }
                        if t == 0 {
                            if b.len() - j4 >= 4 {
                                let c = Color { r: b[j4 + 1], g: b[j4 + 2], b: b[j4 + 3] };
                                proof {
                                    let rem = b@.skip(j4 as int);
                                    assert(rem[1] == b@[j4 as int + 1] && rem[2] == b@[j4 as int
                                        + 2] && rem[3] == b@[j4 as int + 3]);
                                    assert(rem.skip(4) =~= b@.skip(j4 as int + 4));
                                }
                                Some(
                                    (
                                        BgInfo {
                                            name,
                                            width: w,
                                            height: h,
                                            scale_factor: sf,
                                            img: BgImg::Color(c),
                                        },
                                        j4 + 4,
                                    ),
                                )
                            } else {
                                None
                            }
                        } else if t == 1 {
                            proof {
                                assert(b@.skip(j4 as int).skip(1) =~= b@.skip(j4 as int + 1));
                            }
                            match read_bytes(b, j4 + 1) {
                                None => None,
                                Some((p, j5)) => Some(
                                    (
                                        BgInfo {
                                            name,
                                            width: w,
                                            height: h,
                                            scale_factor: sf,
                                            img: BgImg::Img(p),
                                        },
                                        j5,
                                    ),
                                ),
                            }
                        } else {
                            None
                        }
                    },
                },
            },
        },
    }
}

/// Decode one answer from a received buffer.
#[verifier::rlimit(100)]
#[verifier::spinoff_prover]
pub fn decode_answer(b: &Vec<u8>) -> (r: Option<Answer>)
    ensures
        match r {
            Some(a) => spec_decode_answer(b@) == Some(a@),
            None => spec_decode_answer(b@) is None,
        },
{
    if b.len() < 1 {
        return None;
    }
    let tag = b[0];
    proof {
        assert(b@.skip(1).len() == b@.len() - 1);
    }
    if tag == 0 {
        if b.len() == 1 {
            Some(Answer::Okay)
        } else {
            None
        }
    } else if tag == 1 {
        match read_bytes(b, 1) {
            None => None,
            Some((m, j)) => {
                if j == b.len() {
                    proof {
                        assert(b@.skip(j as int).len() == 0);
                    }
                    Some(Answer::Failure(m))
                } else {
                    None
                }
            },
        }
    } else if tag == 2 {
        if b.len() == 2 && (b[1] == 0 || b[1] == 1) {
            proof {
                assert(b@.skip(1)[0] == b@[1]);
            }
            Some(Answer::Ping(b[1] == 1))
        } else {
            proof {
                if b@.len() == 2 {
                    assert(b@.skip(1)[0] == b@[1]);
                }
            }
            None
        }
    } else if tag == 3 {
        match read_u32(b, 1) {
            None => None,
            Some((n, j0)) => {
                let mut acc: Vec<BgInfo> = Vec::new();
                let mut cur: usize = j0;
                let mut cnt: u32 = 0;
                proof {
                    assert(crate::types::info_views(acc@) =~= Seq::<SpecBgInfo>::empty());
                }
                while cnt < n
                    invariant
                        cnt <= n,
                        cur <= b@.len(),
                        j0 <= b@.len(),
                        b@.len() >= 1,
                        b@[0] == 3,
                        parse_u32(b@.skip(1)) == Some((n, b@.skip(j0 as int))),
                        ({
                            let whole = parse_info_items(b@.skip(j0 as int), n as nat);
                            let part = parse_info_items(b@.skip(cur as int), (n - cnt) as nat);
                            match part {
                                Option::Some((is2, r2)) => whole == Option::Some(
                                    (crate::types::info_views(acc@) + is2, r2),
                                ),
                                Option::None => whole is None,
                            }
                        }),
                    decreases n - cnt,
                {
                    match read_info(b, cur) {
                        None => {
                            proof {
                                assert(parse_info_items(b@.skip(cur as int), (n - cnt) as nat)
                                    is None);
                                assert(parse_info_items(b@.skip(j0 as int), n as nat) is None);
                                assert(parse_info_list(b@.skip(1)) is None);
                                assert(spec_decode_answer(b@) is None);
                            }
                            return None;
                        },
                        Some((info, j)) => {
                            let ghost old_acc = crate::types::info_views(acc@);
                            let ghost i_v = info@;
                            acc.push(info);
                            proof {
                                assert(crate::types::info_views(acc@) =~= old_acc.push(i_v));
                                let part_next = parse_info_items(b@.skip(j as int), (n - cnt
                                    - 1) as nat);
                                match part_next {
                                    Option::Some((is2, r3)) => {
                                        assert(old_acc + (seq![i_v] + is2) =~= old_acc.push(i_v)
                                            + is2);
                                    },
                                    Option::None => {},
                                }
                            }
                            cur = j;
                            cnt = cnt + 1;
                        },
                    }
                }
                if cur == b.len() {
                    proof {
                        assert(parse_info_items(b@.skip(cur as int), 0) == Option::Some(
                            (Seq::<SpecBgInfo>::empty(), b@.skip(cur as int)),
                        ));
                        assert(crate::types::info_views(acc@) + Seq::<SpecBgInfo>::empty()
                            =~= crate::types::info_views(acc@));
                        assert(b@.skip(cur as int).len() == 0);
                    }
                    Some(Answer::Info(acc))
                } else {
                    proof {
                        assert(parse_info_items(b@.skip(cur as int), 0) == Option::Some(
                            (Seq::<SpecBgInfo>::empty(), b@.skip(cur as int)),
                        ));
                        assert(b@.skip(cur as int).len() != 0);
                    }
                    None
                }
            },
        }
    } else {
        None
    }
}

// ---------------------------------------------------------------------------
// size checks for encoders
// ---------------------------------------------------------------------------

/// Whether one byte string fits a wire length field.
pub fn bytes_fit(s: &Vec<u8>) -> (r: bool)
    ensures
        r == bytes_ok(s@),
{
    s.len() <= MAX_FIELD_LEN as usize
}

/// Whether a name list fits the wire format.
pub fn name_list_fits(ns: &Vec<Vec<u8>>) -> (r: bool)
    ensures
        r == name_list_ok(ns.deep_view()),
{
    proof {
        lemma_names_deep_view(*ns);
    }
    if ns.len() > MAX_FIELD_LEN as usize {
        return false;
    }
    let mut i: usize = 0;
    while i < ns.len()
        invariant
            i <= ns@.len(),
            ns.deep_view().len() == ns@.len(),
            ns@.len() <= MAX_FIELD_LEN,
            forall|j: int| 0 <= j < ns@.len() ==> #[trigger] ns.deep_view()[j] == ns@[j]@,
            forall|j: int| 0 <= j < i ==> bytes_ok(#[trigger] ns.deep_view()[j]),
        decreases ns@.len() - i,
    {
        if !bytes_fit(&ns[i]) {
            proof {
                assert(!bytes_ok(ns.deep_view()[i as int]));
            }
            return false;
        }
        i = i + 1;
    }
    true
}

/// Whether a frame stream fits the wire format.
pub fn frames_fit(fs: &Vec<AnimationFrame>) -> (r: bool)
    ensures
        r == frame_list_ok(crate::types::frame_views(fs@)),
{
    let ghost fv = crate::types::frame_views(fs@);
    if fs.len() > MAX_FIELD_LEN as usize {
        return false;
    }
    let mut i: usize = 0;
    while i < fs.len()
        invariant
            i <= fs@.len(),
            fv == crate::types::frame_views(fs@),
            fv.len() == fs@.len(),
            fs@.len() <= MAX_FIELD_LEN,
            forall|j: int| 0 <= j < i ==> frame_ok(#[trigger] fv[j]),
        decreases fs@.len() - i,
    {
        if !bytes_fit(&fs[i].pixels) {
            proof {
                assert(fv[i as int] == fs@[i as int]@);
                assert(!frame_ok(fv[i as int]));
            }
            return false;
        }
        proof {
            assert(fv[i as int] == fs@[i as int]@);
        }
        i = i + 1;
    }
    true
}

/// Whether every group of an animation request fits the wire format.
pub fn groups_fit(gs: &Vec<AnimationGroup>) -> (r: bool)
    ensures
        r == group_list_ok(crate::types::group_views(gs@)),
{
    let ghost gv = crate::types::group_views(gs@);
    if gs.len() > MAX_FIELD_LEN as usize {
        return false;
    }
    let mut i: usize = 0;
    while i < gs.len()
        invariant
            i <= gs@.len(),
            gv == crate::types::group_views(gs@),
            gv.len() == gs@.len(),
            gs@.len() <= MAX_FIELD_LEN,
            forall|j: int| 0 <= j < i ==> group_ok(#[trigger] gv[j]),
        decreases gs@.len() - i,
    {
        proof {
            assert(gv[i as int] == gs@[i as int]@);
        }
        if !name_list_fits(&gs[i].outputs) {
            return false;
        }
        if !frames_fit(&gs[i].frames) {
            return false;
        }
        i = i + 1;
    }
    true
}

/// Whether a request fits the wire format: `encode_request`'s precondition,
/// testable by unverified callers before they encode.
pub fn request_fits(r: &Request) -> (res: bool)
    ensures
        res == req_ok(r@),
{
    match r {
        Request::Ping => true,
        Request::Kill => true,
        Request::Query => true,
        Request::Clear { outputs, color: _ } => name_list_fits(outputs),
        Request::Img { outputs, path } => {
            let a = name_list_fits(outputs);
            let b = bytes_fit(path);
            a && b
        },
        Request::Animation { groups } => groups_fit(groups),
    }
}

/// Whether an answer fits the wire format: `encode_answer`'s precondition,
/// testable by unverified callers before they encode.
pub fn answer_fits(a: &Answer) -> (res: bool)
    ensures
        res == ans_ok(a@),
{
    match a {
        Answer::Okay => true,
        Answer::Ping(_) => true,
        Answer::Failure(m) => bytes_fit(m),
        Answer::Info(is) => {
            let ghost iv = crate::types::info_views(is@);
            if is.len() > MAX_FIELD_LEN as usize {
                return false;
            }
            let mut i: usize = 0;
            while i < is.len()
                invariant
                    i <= is@.len(),
                    iv == crate::types::info_views(is@),
                    a@ == SpecAnswer::Info(iv),
                    iv.len() == is@.len(),
                    is@.len() <= MAX_FIELD_LEN,
                    forall|j: int| 0 <= j < i ==> info_ok(#[trigger] iv[j]),
                decreases is@.len() - i,
            {
                proof {
                    assert(iv[i as int] == is@[i as int]@);
                }
                if !bytes_fit(&is[i].name) {
                    proof {
                        assert(iv[i as int].name == is@[i as int].name@);
                        assert(!info_ok(iv[i as int]));
                        assert(!info_list_ok(iv));
                        assert(a@ == SpecAnswer::Info(iv));
                    }
                    return false;
                }
                let img_fits = match &is[i].img {
                    BgImg::Color(_) => true,
                    BgImg::Img(p) => bytes_fit(p),
                };
                if !img_fits {
                    proof {
                        assert(iv[i as int].img == is@[i as int].img@);
                        assert(!img_ok(iv[i as int].img));
                        assert(!info_ok(iv[i as int]));
                        assert(!info_list_ok(iv));
                        assert(a@ == SpecAnswer::Info(iv));
                    }
                    return false;
                }
                i = i + 1;
            }
            true
        },
    }
}

} // verus!
