use fswww::arena::{BufferState, BumpPool, POOL_CAP};
use fswww::codec::{answer_fits, request_fits};
use fswww::daemon::Daemon;
use fswww::engine::{step, StepResult};
use fswww::reactor::{classify_wait, reactor_continue, WaitOutcome, WaitStep};
use fswww::shutdown::{exit_daemon, should_daemon_exit, ShutdownSignal};
use fswww::types::{AnimationFrame, AnimationGroup, Answer, BgImg, Color, Request};

fn name(s: &str) -> Vec<u8> {
    s.as_bytes().to_vec()
}

fn two_output_daemon() -> Daemon {
    let mut d = Daemon::new();
    d.new_output(1, 101, name("A"), 4, 4, 1);
    d.new_output(2, 102, name("B"), 4, 4, 1);
    d
}

fn is_black(img: &BgImg) -> bool {
    matches!(img, BgImg::Color(Color { r: 0, g: 0, b: 0 }))
}

#[test]
fn query_idempotent_with_default_descriptors() {
    let mut d = two_output_daemon();
    let mut s = ShutdownSignal::new();
    let (a1, w1) = d.handle_request(&Request::Query, &mut s);
    let (a2, w2) = d.handle_request(&Request::Query, &mut s);
    assert!(w1.is_empty() && w2.is_empty());
    let infos1 = match a1 {
        Answer::Info(i) => i,
        _ => panic!("expected Info"),
    };
    let infos2 = match a2 {
        Answer::Info(i) => i,
        _ => panic!("expected Info"),
    };
    assert_eq!(infos1.len(), 2);
    assert_eq!(infos2.len(), 2);
    for (x, y) in infos1.iter().zip(infos2.iter()) {
        assert_eq!(x.name, y.name);
        assert_eq!((x.width, x.height, x.scale_factor), (y.width, y.height, y.scale_factor));
        assert!(is_black(&x.img) && is_black(&y.img));
    }
    assert_eq!(infos1[0].name, name("A"));
    assert_eq!(infos1[1].name, name("B"));
}

#[test]
fn targeted_img_changes_only_its_output() {
    let mut d = two_output_daemon();
    let mut s = ShutdownSignal::new();
    let req = Request::Img { outputs: vec![name("A")], path: name("/pic.png") };
    let (ans, mut workers) = d.handle_request(&req, &mut s);
    assert!(matches!(ans, Answer::Okay));
    assert_eq!(workers.len(), 1);
    let r = step(&mut d, &mut workers[0]);
    assert_eq!(r, StepResult::Completed);
    let (ans, _) = d.handle_request(&Request::Query, &mut s);
    let infos = match ans {
        Answer::Info(i) => i,
        _ => panic!("expected Info"),
    };
    assert_eq!(infos.len(), 2);
    match &infos[0].img {
        BgImg::Img(p) => assert_eq!(p, &name("/pic.png")),
        _ => panic!("output A should show the image"),
    }
    assert!(is_black(&infos[1].img), "output B must be untouched");
}

#[test]
fn racing_img_requests_converge_to_newest() {
    let mut d = two_output_daemon();
    let mut s = ShutdownSignal::new();
    let (_, mut w_x) = d.handle_request(
        &Request::Img { outputs: vec![name("A")], path: name("/x.png") },
        &mut s,
    );
    let (_, mut w_y) = d.handle_request(
        &Request::Img { outputs: vec![name("A")], path: name("/y.png") },
        &mut s,
    );
    assert_eq!(w_x.len(), 1);
    assert_eq!(w_y.len(), 1);
    // stale worker first, live worker second
    let r1 = step(&mut d, &mut w_x[0]);
    assert_eq!(r1, StepResult::Cancelled);
    let r2 = step(&mut d, &mut w_y[0]);
    assert_eq!(r2, StepResult::Completed);
    let (ans, _) = d.handle_request(&Request::Query, &mut s);
    let infos = match ans {
        Answer::Info(i) => i,
        _ => panic!("expected Info"),
    };
    match &infos[0].img {
        BgImg::Img(p) => assert_eq!(p, &name("/y.png")),
        _ => panic!("descriptor must be the newest request's"),
    }
}

#[test]
fn racing_img_requests_converge_in_either_order() {
    let mut d = two_output_daemon();
    let mut s = ShutdownSignal::new();
    let (_, mut w_x) = d.handle_request(
        &Request::Img { outputs: vec![name("A")], path: name("/x.png") },
        &mut s,
    );
    let (_, mut w_y) = d.handle_request(
        &Request::Img { outputs: vec![name("A")], path: name("/y.png") },
        &mut s,
    );
    // live worker first, stale worker afterwards: still ends on the newest
    let r2 = step(&mut d, &mut w_y[0]);
    assert_eq!(r2, StepResult::Completed);
    let r1 = step(&mut d, &mut w_x[0]);
    assert_eq!(r1, StepResult::Cancelled);
    let (ans, _) = d.handle_request(&Request::Query, &mut s);
    let infos = match ans {
        Answer::Info(i) => i,
        _ => panic!("expected Info"),
    };
    match &infos[0].img {
        BgImg::Img(p) => assert_eq!(p, &name("/y.png")),
        _ => panic!("descriptor must be the newest request's"),
    }
}

#[test]
fn ping_gates_on_every_output_configured() {
    let mut d = two_output_daemon();
    let mut s = ShutdownSignal::new();
    let (ans, _) = d.handle_request(&Request::Ping, &mut s);
    assert!(matches!(ans, Answer::Ping(false)));
    d.configure_surface(101);
    let (ans, _) = d.handle_request(&Request::Ping, &mut s);
    assert!(
        matches!(ans, Answer::Ping(false)),
        "one configured output must not flip the answer"
    );
    d.configure_surface(102);
    let (ans, _) = d.handle_request(&Request::Ping, &mut s);
    assert!(matches!(ans, Answer::Ping(true)));
}

#[test]
fn output_loss_cancels_worker_without_corruption() {
    let mut d = two_output_daemon();
    let mut s = ShutdownSignal::new();
    let anim = Request::Animation {
        groups: vec![AnimationGroup {
            outputs: vec![name("B")],
            frames: vec![
                AnimationFrame { delay_ms: 16, pixels: vec![7; 64] },
                AnimationFrame { delay_ms: 16, pixels: vec![8; 64] },
            ],
        }],
    };
    let (ans, mut workers) = d.handle_request(&anim, &mut s);
    assert!(matches!(ans, Answer::Okay));
    assert_eq!(workers.len(), 1);
    // the compositor destroys output B while the animation is in flight
    d.output_destroyed(2);
    let (ans, _) = d.handle_request(&Request::Query, &mut s);
    let infos = match ans {
        Answer::Info(i) => i,
        _ => panic!("expected Info"),
    };
    assert_eq!(infos.len(), 1, "B must be gone from Query immediately");
    assert_eq!(infos[0].name, name("A"));
    // the in-flight worker observes the loss and exits cleanly
    let r = step(&mut d, &mut workers[0]);
    assert_eq!(r, StepResult::Cancelled);
    let (ans, _) = d.handle_request(&Request::Query, &mut s);
    let infos = match ans {
        Answer::Info(i) => i,
        _ => panic!("expected Info"),
    };
    assert_eq!(infos.len(), 1);
    assert!(is_black(&infos[0].img));
}

#[test]
fn animation_presents_each_frame_in_order() {
    let mut d = two_output_daemon();
    let mut s = ShutdownSignal::new();
    let anim = Request::Animation {
        groups: vec![AnimationGroup {
            outputs: vec![name("A")],
            frames: vec![
                AnimationFrame { delay_ms: 16, pixels: vec![7; 64] },
                AnimationFrame { delay_ms: 16, pixels: vec![8; 64] },
            ],
        }],
    };
    let (_, mut workers) = d.handle_request(&anim, &mut s);
    assert_eq!(workers.len(), 1);
    let r = step(&mut d, &mut workers[0]);
    assert_eq!(r, StepResult::Progress);
    // both pool buffers are presented; a third frame would block until the
    // compositor releases one
    let r = step(&mut d, &mut workers[0]);
    assert_eq!(r, StepResult::Completed);
}

#[test]
fn kill_sets_shutdown_and_acknowledges() {
    let mut d = two_output_daemon();
    let mut s = ShutdownSignal::new();
    assert!(!should_daemon_exit(&s));
    assert!(reactor_continue(&s));
    let (ans, workers) = d.handle_request(&Request::Kill, &mut s);
    assert!(matches!(ans, Answer::Okay));
    assert!(workers.is_empty());
    assert!(should_daemon_exit(&s));
    assert!(!reactor_continue(&s));
    exit_daemon(&mut s);
    assert!(should_daemon_exit(&s), "exit is idempotent");
}

#[test]
fn clear_targets_every_output_when_list_empty() {
    let mut d = two_output_daemon();
    let mut s = ShutdownSignal::new();
    let req = Request::Clear { outputs: vec![], color: Color { r: 9, g: 8, b: 7 } };
    let (ans, mut workers) = d.handle_request(&req, &mut s);
    assert!(matches!(ans, Answer::Okay));
    assert_eq!(workers.len(), 2);
    for w in workers.iter_mut() {
        assert_eq!(step(&mut d, w), StepResult::Completed);
    }
    let (ans, _) = d.handle_request(&Request::Query, &mut s);
    let infos = match ans {
        Answer::Info(i) => i,
        _ => panic!("expected Info"),
    };
    for info in &infos {
        match &info.img {
            BgImg::Color(c) => assert_eq!((c.r, c.g, c.b), (9, 8, 7)),
            _ => panic!("expected the clear color"),
        }
    }
}

#[test]
fn unknown_target_names_are_skipped() {
    let mut d = two_output_daemon();
    let mut s = ShutdownSignal::new();
    let req = Request::Img { outputs: vec![name("nosuch")], path: name("/p") };
    let (ans, workers) = d.handle_request(&req, &mut s);
    assert!(matches!(ans, Answer::Okay));
    assert!(workers.is_empty());
}

#[test]
fn resize_discards_buffers_and_updates_geometry() {
    let mut d = two_output_daemon();
    d.update_output(1, 8, 8, 2);
    let mut s = ShutdownSignal::new();
    let (ans, _) = d.handle_request(&Request::Query, &mut s);
    let infos = match ans {
        Answer::Info(i) => i,
        _ => panic!("expected Info"),
    };
    assert_eq!((infos[0].width, infos[0].height, infos[0].scale_factor), (8, 8, 2));
    assert_eq!((infos[1].width, infos[1].height), (4, 4));
    // zero-sized geometry is ignored
    d.update_output(1, 0, 5, 1);
    let (ans, _) = d.handle_request(&Request::Query, &mut s);
    let infos = match ans {
        Answer::Info(i) => i,
        _ => panic!("expected Info"),
    };
    assert_eq!((infos[0].width, infos[0].height), (8, 8));
}

#[test]
fn scale_factor_event_reaches_its_surface() {
    let mut d = two_output_daemon();
    d.scale_factor_changed(102, 3);
    let mut s = ShutdownSignal::new();
    let (ans, _) = d.handle_request(&Request::Query, &mut s);
    let infos = match ans {
        Answer::Info(i) => i,
        _ => panic!("expected Info"),
    };
    assert_eq!(infos[0].scale_factor, 1);
    assert_eq!(infos[1].scale_factor, 3);
}

#[test]
fn arena_never_hands_out_unreleased_buffers() {
    let mut pool = BumpPool::new(16);
    let first = pool.lease().expect("fresh pool must lease");
    pool.fill_color(first, Color { r: 1, g: 2, b: 3 });
    pool.submit(first);
    let second = pool.lease().expect("second buffer fits the cap");
    pool.submit(second);
    assert_eq!(pool.buffers.len(), POOL_CAP);
    // both buffers are with the compositor: the producer must wait
    assert!(pool.lease().is_none());
    // a release notification makes exactly that buffer reusable
    pool.release_notify(first);
    let again = pool.lease().expect("released buffer is reusable");
    assert_eq!(again, first);
    assert!(matches!(pool.buffers[second].state, BufferState::Presented));
    // resizing discards everything
    pool.resize(64);
    assert!(pool.buffers.is_empty());
    assert_eq!(pool.buf_len, 64);
}

#[test]
fn wait_outcomes_classify_by_failfast_policy() {
    assert_eq!(classify_wait(&WaitOutcome::Interrupted), WaitStep::Retry);
    assert_eq!(classify_wait(&WaitOutcome::Failed), WaitStep::Fatal);
    let r = classify_wait(&WaitOutcome::Ready { listener: true, compositor: false, waker: true });
    assert_eq!(r, WaitStep::Dispatch { compositor: false, listener: true, waker: true });
}

#[test]
fn duplicate_output_reports_are_ignored() {
    let mut d = two_output_daemon();
    d.new_output(1, 999, name("A-again"), 10, 10, 1);
    let mut s = ShutdownSignal::new();
    let (ans, _) = d.handle_request(&Request::Query, &mut s);
    let infos = match ans {
        Answer::Info(i) => i,
        _ => panic!("expected Info"),
    };
    assert_eq!(infos.len(), 2);
    assert_eq!(infos[0].name, name("A"));
}

#[test]
fn clear_worker_fills_and_presents_a_buffer() {
    let mut d = two_output_daemon();
    let mut s = ShutdownSignal::new();
    let req = Request::Clear { outputs: vec![name("A")], color: Color { r: 9, g: 8, b: 7 } };
    let (_, mut workers) = d.handle_request(&req, &mut s);
    assert_eq!(workers.len(), 1);
    assert_eq!(step(&mut d, &mut workers[0]), StepResult::Completed);
    // output A is 4x4: one presented buffer of 64 bytes holding the RGBA
    // pattern of the clear color
    let pool = &d.wallpapers[0].pool;
    let presented: Vec<usize> = (0..pool.buffers.len())
        .filter(|&i| matches!(pool.buffers[i].state, BufferState::Presented))
        .collect();
    assert_eq!(presented.len(), 1);
    let px = &pool.buffers[presented[0]].pixels;
    assert_eq!(px.len(), 64);
    for k in 0..px.len() {
        let want = match k % 4 {
            0 => 9,
            1 => 8,
            2 => 7,
            _ => 255,
        };
        assert_eq!(px[k], want, "pixel byte {k}");
    }
    // output B's pool is untouched
    assert!(d.wallpapers[1].pool.buffers.is_empty());
}

#[test]
fn animation_presents_the_frame_pixels() {
    let mut d = two_output_daemon();
    let mut s = ShutdownSignal::new();
    let anim = Request::Animation {
        groups: vec![AnimationGroup {
            outputs: vec![name("A")],
            frames: vec![AnimationFrame { delay_ms: 16, pixels: vec![42; 64] }],
        }],
    };
    let (_, mut workers) = d.handle_request(&anim, &mut s);
    assert_eq!(workers.len(), 1);
    assert_eq!(step(&mut d, &mut workers[0]), StepResult::Completed);
    let pool = &d.wallpapers[0].pool;
    let presented: Vec<usize> = (0..pool.buffers.len())
        .filter(|&i| matches!(pool.buffers[i].state, BufferState::Presented))
        .collect();
    assert_eq!(presented.len(), 1);
    assert_eq!(pool.buffers[presented[0]].pixels, vec![42u8; 64]);
}

#[test]
fn malformed_frame_length_cancels_without_drawing() {
    let mut d = two_output_daemon();
    let mut s = ShutdownSignal::new();
    let anim = Request::Animation {
        groups: vec![AnimationGroup {
            outputs: vec![name("A")],
            frames: vec![AnimationFrame { delay_ms: 16, pixels: vec![1, 2, 3] }],
        }],
    };
    let (_, mut workers) = d.handle_request(&anim, &mut s);
    assert_eq!(step(&mut d, &mut workers[0]), StepResult::Cancelled);
    assert!(d.wallpapers[0].pool.buffers.is_empty());
}

#[test]
fn size_checks_accept_ordinary_messages() {
    assert!(request_fits(&Request::Ping));
    assert!(request_fits(&Request::Clear {
        outputs: vec![name("A")],
        color: Color { r: 0, g: 0, b: 0 },
    }));
    assert!(request_fits(&Request::Animation {
        groups: vec![AnimationGroup {
            outputs: vec![name("A")],
            frames: vec![AnimationFrame { delay_ms: 1, pixels: vec![0; 16] }],
        }],
    }));
    assert!(answer_fits(&Answer::Okay));
    assert!(answer_fits(&Answer::Failure(name("message"))));
}
