use fswww::codec::{decode_answer, decode_request, encode_answer, encode_request};
use fswww::types::{
    AnimationFrame, AnimationGroup, Answer, BgImg, BgInfo, Color, Request,
};

fn name(s: &str) -> Vec<u8> {
    s.as_bytes().to_vec()
}

#[test]
fn ping_encodes_to_single_tag_byte() {
    let bytes = encode_request(&Request::Ping);
    assert_eq!(bytes, vec![0u8]);
    let kill = encode_request(&Request::Kill);
    assert_eq!(kill, vec![1u8]);
    let query = encode_request(&Request::Query);
    assert_eq!(query, vec![2u8]);
}

#[test]
fn round_trip_ping_kill_query() {
    for req in [Request::Ping, Request::Kill, Request::Query] {
        let bytes = encode_request(&req);
        let back = decode_request(&bytes).expect("decode");
        match (&req, &back) {
            (Request::Ping, Request::Ping) => {}
            (Request::Kill, Request::Kill) => {}
            (Request::Query, Request::Query) => {}
            _ => panic!("variant changed in round trip"),
        }
    }
}

#[test]
fn round_trip_clear() {
    let req = Request::Clear {
        outputs: vec![name("DP-1"), name("HDMI-A-1")],
        color: Color { r: 10, g: 20, b: 30 },
    };
    let bytes = encode_request(&req);
    let back = decode_request(&bytes).expect("decode");
    match back {
        Request::Clear { outputs, color } => {
            assert_eq!(outputs, vec![name("DP-1"), name("HDMI-A-1")]);
            assert_eq!((color.r, color.g, color.b), (10, 20, 30));
        }
        _ => panic!("wrong variant"),
    }
}

#[test]
fn round_trip_clear_exact_bytes() {
    let req = Request::Clear { outputs: vec![name("A")], color: Color { r: 1, g: 2, b: 3 } };
    let bytes = encode_request(&req);
    // tag, r, g, b, count=1, len=1, 'A'
    assert_eq!(
        bytes,
        vec![3u8, 1, 2, 3, 1, 0, 0, 0, 1, 0, 0, 0, b'A']
    );
}

#[test]
fn round_trip_img() {
    let req = Request::Img { outputs: vec![], path: name("/tmp/picture.png") };
    let bytes = encode_request(&req);
    let back = decode_request(&bytes).expect("decode");
    match back {
        Request::Img { outputs, path } => {
            assert!(outputs.is_empty());
            assert_eq!(path, name("/tmp/picture.png"));
        }
        _ => panic!("wrong variant"),
    }
}

#[test]
fn round_trip_animation() {
    let req = Request::Animation {
        groups: vec![
            AnimationGroup {
                outputs: vec![name("A")],
                frames: vec![
                    AnimationFrame { delay_ms: 16, pixels: vec![9, 9, 9, 9] },
                    AnimationFrame { delay_ms: 33, pixels: vec![1, 2, 3, 4] },
                ],
            },
            AnimationGroup { outputs: vec![name("B"), name("C")], frames: vec![] },
        ],
    };
    let bytes = encode_request(&req);
    let back = decode_request(&bytes).expect("decode");
    match back {
        Request::Animation { groups } => {
            assert_eq!(groups.len(), 2);
            assert_eq!(groups[0].outputs, vec![name("A")]);
            assert_eq!(groups[0].frames.len(), 2);
            assert_eq!(groups[0].frames[0].delay_ms, 16);
            assert_eq!(groups[0].frames[0].pixels, vec![9, 9, 9, 9]);
            assert_eq!(groups[0].frames[1].delay_ms, 33);
            assert_eq!(groups[0].frames[1].pixels, vec![1, 2, 3, 4]);
            assert_eq!(groups[1].outputs, vec![name("B"), name("C")]);
            assert!(groups[1].frames.is_empty());
        }
        _ => panic!("wrong variant"),
    }
}

#[test]
fn garbage_bytes_never_decode() {
    assert!(decode_request(&vec![]).is_none());
    assert!(decode_request(&vec![200u8]).is_none());
    assert!(decode_request(&vec![6u8]).is_none());
    // Ping with trailing junk
    assert!(decode_request(&vec![0u8, 0u8]).is_none());
    // Clear cut short before its color
    assert!(decode_request(&vec![3u8, 1]).is_none());
    // Img whose name list claims more entries than the buffer holds
    assert!(decode_request(&vec![4u8, 255, 255, 255, 255]).is_none());
    // Animation with a truncated group count
    assert!(decode_request(&vec![5u8, 1, 0]).is_none());
    // a length field pointing past the end
    assert!(decode_request(&vec![4u8, 1, 0, 0, 0, 9, 0, 0, 0, b'x']).is_none());
}

#[test]
fn answer_round_trips() {
    let answers = vec![
        Answer::Okay,
        Answer::Failure(name("spawn failed")),
        Answer::Ping(true),
        Answer::Ping(false),
        Answer::Info(vec![BgInfo {
            name: name("DP-1"),
            width: 1920,
            height: 1080,
            scale_factor: 2,
            img: BgImg::Img(name("/some/path")),
        }]),
        Answer::Info(vec![]),
    ];
    for ans in &answers {
        let bytes = encode_answer(ans);
        let back = decode_answer(&bytes).expect("decode");
        match (ans, &back) {
            (Answer::Okay, Answer::Okay) => {}
            (Answer::Failure(a), Answer::Failure(b)) => assert_eq!(a, b),
            (Answer::Ping(a), Answer::Ping(b)) => assert_eq!(a, b),
            (Answer::Info(a), Answer::Info(b)) => {
                assert_eq!(a.len(), b.len());
                for (x, y) in a.iter().zip(b.iter()) {
                    assert_eq!(x.name, y.name);
                    assert_eq!((x.width, x.height, x.scale_factor), (y.width, y.height, y.scale_factor));
                    match (&x.img, &y.img) {
                        (BgImg::Color(c1), BgImg::Color(c2)) => {
                            assert_eq!((c1.r, c1.g, c1.b), (c2.r, c2.g, c2.b))
                        }
                        (BgImg::Img(p1), BgImg::Img(p2)) => assert_eq!(p1, p2),
                        _ => panic!("descriptor changed"),
                    }
                }
            }
            _ => panic!("variant changed"),
        }
    }
}

#[test]
fn answer_garbage_never_decodes() {
    assert!(decode_answer(&vec![]).is_none());
    assert!(decode_answer(&vec![9u8]).is_none());
    assert!(decode_answer(&vec![2u8, 7u8]).is_none());
    assert!(decode_answer(&vec![0u8, 0u8]).is_none());
    assert!(decode_answer(&vec![3u8, 1, 0, 0, 0]).is_none());
}

#[test]
fn answer_exact_bytes() {
    assert_eq!(encode_answer(&Answer::Okay), vec![0u8]);
    assert_eq!(encode_answer(&Answer::Ping(true)), vec![2u8, 1]);
    assert_eq!(encode_answer(&Answer::Ping(false)), vec![2u8, 0]);
    assert_eq!(
        encode_answer(&Answer::Failure(name("no"))),
        vec![1u8, 2, 0, 0, 0, b'n', b'o']
    );
}

#[test]
fn lengths_encode_little_endian() {
    let req = Request::Img { outputs: vec![], path: vec![7u8; 258] };
    let bytes = encode_request(&req);
    // tag, empty name list count, then the path length 258 = 0x102
    assert_eq!(&bytes[..9], &[4u8, 0, 0, 0, 0, 2, 1, 0, 0]);
    assert_eq!(bytes.len(), 9 + 258);
}
