use orbital_scheme::address::{parse_address, Request, ResourceKind};
use orbital_scheme::compose::{buffer_pixels, composite};
use orbital_scheme::error::OrbError;
use orbital_scheme::launch::{accepts, find_package, Package};
use orbital_scheme::number::{parse_signed, parse_unsigned};
use orbital_scheme::resource::{Resource, SeekOrigin};
use orbital_scheme::scheme::{Opened, Scheme};
use orbital_scheme::text::sanitize_title;
use orbital_scheme::window::{decode_event, encode_event, InputEvent, Window, EVENT_CAPACITY};

fn scheme() -> Scheme {
    Scheme::new(1024, 768, Vec::new())
}

fn handle(o: Result<Opened, OrbError>) -> Resource {
    match o {
        Ok(Opened::Handle(r)) => r,
        _ => panic!("expected a handle"),
    }
}

fn dims(w: u64, h: u64) -> Vec<u8> {
    let mut v = w.to_le_bytes().to_vec();
    v.extend_from_slice(&h.to_le_bytes());
    v
}

#[test]
fn create_on_empty_session_gets_id_one_at_first_cascade_step() {
    let mut s = scheme();
    let r = handle(s.open(b"orbital:///0/0/200/150/Test"));
    assert_eq!(r.id, 1);
    assert_eq!(r.kind, ResourceKind::Window);
    let w = &s.windows.entries[0].window;
    assert_eq!((w.x, w.y), (32, 32));
    assert_eq!((w.w, w.h), (200, 150));
    assert_eq!(w.title, b"Test".to_vec());
    assert_eq!(w.buffer.len(), 200 * 150 * 4);
}

#[test]
fn ids_strictly_increase() {
    let mut s = scheme();
    let mut last = 0;
    for _ in 0..5 {
        let r = handle(s.open(b"orbital:///10/10/20/20/x"));
        assert!(r.id > last);
        last = r.id;
    }
    assert_eq!(last, 5);
    s.close(&Resource::new(ResourceKind::Window, 5)).unwrap();
    let r = handle(s.open(b"orbital:///10/10/20/20/x"));
    assert_eq!(r.id, 6);
}

#[test]
fn id_space_exhausted() {
    let mut s = scheme();
    s.next_window_id = u64::MAX;
    assert!(matches!(s.open(b"orbital:///1/1/10/10/t"), Err(OrbError::Exhausted)));
    assert_eq!(s.next_id(), None);
}

#[test]
fn cascade_advances_and_wraps() {
    let mut s = scheme();
    let mut xs = Vec::new();
    let mut ys = Vec::new();
    for _ in 0..27 {
        let r = handle(s.open(b"orbital:///0/0/200/150/w"));
        let i = s.windows.entries.len() - 1;
        assert_eq!(s.windows.entries[i].id, r.id);
        xs.push(s.windows.entries[i].window.x);
        ys.push(s.windows.entries[i].window.y);
    }
    assert_eq!(&xs[0..3], &[32, 64, 96]);
    // 1024 - 200 = 824: the cursor 832 is past it, so the next one wraps
    assert_eq!(xs[25], 832);
    assert_eq!(xs[26], 32);
    // 768 - 150 = 618: the cursor 640 is past it
    assert_eq!(ys[19], 640);
    assert_eq!(ys[20], 32);
}

#[test]
fn explicit_position_is_kept() {
    let mut s = scheme();
    handle(s.open(b"orbital:///5/7/10/10/t"));
    let w = &s.windows.entries[0].window;
    assert_eq!((w.x, w.y), (5, 7));
    assert_eq!((s.next_x, s.next_y), (0, 0));
}

#[test]
fn malformed_numbers_read_as_defaults() {
    let mut s = scheme();
    handle(s.open(b"orbital:///abc/xyz/200/150/T"));
    let mut t = scheme();
    handle(t.open(b"orbital:///"));
    let a = &s.windows.entries[0].window;
    let b = &t.windows.entries[0].window;
    assert_eq!((a.x, a.y), (32, 32));
    assert_eq!((a.x, a.y), (b.x, b.y));
    assert_eq!((b.w, b.h), (100, 100));
    assert_eq!(b.title, Vec::<u8>::new());
    let mut u = scheme();
    handle(u.open(b"orbital:///1/1/zz/5"));
    assert_eq!(u.windows.entries[0].window.w, 0);
    assert_eq!(u.windows.entries[0].window.h, 5);
}

#[test]
fn title_keeps_slashes() {
    match parse_address(b"orbital:///1/2/3/4/a/b/c") {
        Ok(Request::Create { x, y, w, h, title }) => {
            assert_eq!((x, y, w, h), (1, 2, 3, 4));
            assert_eq!(title, b"a/b/c".to_vec());
        }
        _ => panic!("expected a create"),
    }
}

#[test]
fn parse_view_addresses() {
    assert!(matches!(parse_address(b"orbital://3/content"), Ok(Request::Open { id: 3, kind: ResourceKind::Content })));
    assert!(matches!(parse_address(b"orbital://3/title"), Ok(Request::Open { id: 3, kind: ResourceKind::Title })));
    assert!(matches!(parse_address(b"orbital://3/events"), Ok(Request::Open { id: 3, kind: ResourceKind::Events })));
    assert!(matches!(parse_address(b"//12/dimensions"), Ok(Request::Open { id: 12, kind: ResourceKind::Dimensions })));
    assert!(matches!(parse_address(b"orbital://3"), Ok(Request::Open { id: 3, kind: ResourceKind::Window })));
    assert!(matches!(parse_address(b"orbital://3/bogus"), Err(OrbError::NotFound)));
    assert!(matches!(parse_address(b"orbital:3"), Err(OrbError::NotFound)));
    assert!(matches!(parse_address(b"orbital://x1/title"), Err(OrbError::NotFound)));
    match parse_address(b"orbital://launch/file:/docs/a.txt") {
        Ok(Request::Launch { path }) => assert_eq!(path, b"file:/docs/a.txt".to_vec()),
        _ => panic!("expected a launch"),
    }
}

#[test]
fn unknown_window_or_property_is_not_found() {
    let mut s = scheme();
    assert!(matches!(s.open(b"orbital://9/title"), Err(OrbError::NotFound)));
    handle(s.open(b"orbital:///1/1/10/10/t"));
    assert!(matches!(s.open(b"orbital://1/colour"), Err(OrbError::NotFound)));
}

#[test]
fn numbers() {
    assert_eq!(parse_signed(b"-12", 0, 3), -12);
    assert_eq!(parse_signed(b"42", 0, 2), 42);
    assert_eq!(parse_signed(b"-", 0, 1), 0);
    assert_eq!(parse_signed(b"-9223372036854775808", 0, 20), i64::MIN);
    assert_eq!(parse_signed(b"9223372036854775808", 0, 19), 0);
    assert_eq!(parse_unsigned(b"12a", 0, 3), 0);
    assert_eq!(parse_unsigned(b"", 0, 0), 0);
    assert_eq!(parse_unsigned(b"18446744073709551615", 0, 20), u64::MAX);
    assert_eq!(parse_unsigned(b"18446744073709551616", 0, 20), 0);
    assert_eq!(parse_unsigned(b"x907", 1, 4), 907);
}

#[test]
fn content_write_round_trip() {
    let mut s = scheme();
    handle(s.open(b"orbital:///1/1/4/2/t"));
    let mut c = handle(s.open(b"orbital://1/content"));
    assert_eq!(c.seek(&s.windows, SeekOrigin::Start(5)), Ok(5));
    assert_eq!(c.write(&mut s.windows, &[9, 8, 7]), Ok(3));
    let buf = &s.windows.entries[0].window.buffer;
    let mut expected = vec![0u8; 32];
    expected[5..8].copy_from_slice(&[9, 8, 7]);
    assert_eq!(buf, &expected);
    assert_eq!(c.seek, 8);
}

#[test]
fn content_write_is_clipped_and_seek_clamped() {
    let mut s = scheme();
    handle(s.open(b"orbital:///1/1/2/2/t"));
    let mut c = handle(s.open(b"orbital://1/content"));
    assert_eq!(c.seek(&s.windows, SeekOrigin::End(-3)), Ok(13));
    assert_eq!(c.write(&mut s.windows, &[1; 10]), Ok(3));
    assert_eq!(c.write(&mut s.windows, &[1; 10]), Ok(0));
    assert_eq!(c.seek(&s.windows, SeekOrigin::Current(-100)), Ok(0));
    assert_eq!(c.seek(&s.windows, SeekOrigin::Start(1000)), Ok(16));
    assert_eq!(c.seek(&s.windows, SeekOrigin::End(5)), Ok(16));
    let mut buf = vec![0u8; 4];
    assert_eq!(c.read(&mut s.windows, &mut buf), Err(OrbError::Unsupported));
}

#[test]
fn title_round_trip_and_truncated() {
    let mut s = scheme();
    handle(s.open(b"orbital:///1/1/2/2/old"));
    let mut t = handle(s.open(b"orbital://1/title"));
    assert_eq!(t.write(&mut s.windows, b"Hello"), Ok(5));
    let mut buf = vec![0u8; 8];
    assert_eq!(t.read(&mut s.windows, &mut buf), Ok(5));
    assert_eq!(&buf[..5], b"Hello");
    let mut small = vec![7u8; 3];
    assert_eq!(t.read(&mut s.windows, &mut small), Err(OrbError::Truncated));
    assert_eq!(small, vec![7u8; 3]);
}

#[test]
fn invalid_utf8_title_shows_question_marks() {
    assert_eq!(sanitize_title(&[0x61, 0xff, 0x62]), b"a?b".to_vec());
    assert_eq!(sanitize_title("\u{FFFD}x".as_bytes()), "\u{FFFD}x".as_bytes().to_vec());
    assert_eq!(sanitize_title(&[0x61, 0xe2, 0x82]), b"a?".to_vec());
    assert_eq!(sanitize_title(&[0xff, 0xfe]), b"??".to_vec());
    assert_eq!(sanitize_title(b""), Vec::<u8>::new());
    assert_eq!(sanitize_title("h\u{e9}".as_bytes()), "h\u{e9}".as_bytes().to_vec());
}

#[test]
fn dimensions_write_resizes_content() {
    let mut s = scheme();
    handle(s.open(b"orbital:///0/0/200/150/Test"));
    let mut d = handle(s.open(b"orbital://1/dimensions"));
    assert_eq!(d.write(&mut s.windows, &dims(400, 300)), Ok(16));
    let w = &s.windows.entries[0].window;
    assert_eq!(w.buffer.len(), 400 * 300 * 4);
    assert_eq!((w.w, w.h), (400, 300));
    let mut c = handle(s.open(b"orbital://1/content"));
    let big = vec![1u8; 400 * 300 * 4 + 100];
    assert_eq!(c.write(&mut s.windows, &big), Ok(400 * 300 * 4));
}

#[test]
fn dimensions_read_reports_size_and_zeroes() {
    let mut s = scheme();
    handle(s.open(b"orbital:///1/1/3/2/t"));
    let mut c = handle(s.open(b"orbital://1/content"));
    c.write(&mut s.windows, &[5; 24]).unwrap();
    let d = handle(s.open(b"orbital://1/dimensions"));
    let mut buf = vec![0u8; 20];
    assert_eq!(d.read(&mut s.windows, &mut buf), Ok(16));
    assert_eq!(&buf[..16], &dims(3, 2)[..]);
    assert_eq!(s.windows.entries[0].window.buffer, vec![0u8; 24]);
    let mut short = vec![0u8; 15];
    assert_eq!(d.read(&mut s.windows, &mut short), Err(OrbError::NotFound));
    let mut d2 = d;
    assert_eq!(d2.write(&mut s.windows, &[0u8; 15]), Err(OrbError::NotFound));
    assert_eq!(d2.write(&mut s.windows, &dims(u64::MAX, 2)), Err(OrbError::Exhausted));
}

#[test]
fn events_read_with_none_pending_returns_zero() {
    let mut s = scheme();
    handle(s.open(b"orbital:///1/1/2/2/t"));
    let e = handle(s.open(b"orbital://1/events"));
    let mut buf = vec![0u8; 64];
    assert_eq!(e.read(&mut s.windows, &mut buf), Ok(0));
}

#[test]
fn events_go_to_topmost_in_order() {
    let mut s = scheme();
    handle(s.open(b"orbital:///1/1/2/2/a"));
    handle(s.open(b"orbital:///1/1/2/2/b"));
    let e1 = InputEvent { code: 1, a: u64::MAX, b: 2, c: 3 };
    let e2 = InputEvent { code: 2, a: 4, b: 5, c: 6 };
    s.event(e1);
    s.event(e2);
    assert!(s.windows.entries[0].window.events.is_empty());
    let ev = handle(s.open(b"orbital://2/events"));
    let mut buf = vec![0u8; 40];
    assert_eq!(ev.read(&mut s.windows, &mut buf), Ok(32));
    assert_eq!(&buf[..32], &encode_event(&e1)[..]);
    assert_eq!(&buf[..8], &1u64.to_le_bytes());
    assert_eq!(&buf[8..16], &u64::MAX.to_le_bytes());
    assert_eq!(decode_event(&buf[..32]), e1);
    let mut buf2 = vec![0u8; 64];
    assert_eq!(ev.read(&mut s.windows, &mut buf2), Ok(32));
    assert_eq!(&buf2[..32], &encode_event(&e2)[..]);
}

#[test]
fn event_queue_drops_oldest_when_full() {
    let mut w = Window::new(0, 0, 1, 1, b"t").unwrap();
    for i in 0..(EVENT_CAPACITY as u64 + 3) {
        w.push_event(InputEvent { code: i, a: 0, b: 0, c: 0 });
    }
    assert_eq!(w.events.len(), EVENT_CAPACITY);
    assert_eq!(w.pop_event().unwrap().code, 3);
}

#[test]
fn seek_on_events_is_unsupported() {
    let mut s = scheme();
    handle(s.open(b"orbital:///1/1/2/2/t"));
    let mut e = handle(s.open(b"orbital://1/events"));
    assert_eq!(e.seek(&s.windows, SeekOrigin::Start(0)), Err(OrbError::Unsupported));
    assert_eq!(e.sync(&s.windows), Ok(None));
    let c = handle(s.open(b"orbital://1/content"));
    assert_eq!(c.sync(&s.windows), Ok(Some(1)));
    let w = handle(s.open(b"orbital://1"));
    assert_eq!(w.sync(&s.windows), Err(OrbError::Unsupported));
}

#[test]
fn closing_last_handle_destroys_window() {
    let mut s = scheme();
    let w = handle(s.open(b"orbital:///1/1/2/2/t"));
    let t = handle(s.open(b"orbital://1/title"));
    assert_eq!(s.windows.entries[0].handles, 2);
    s.close(&w).unwrap();
    let mut buf = vec![0u8; 4];
    assert_eq!(t.read(&mut s.windows, &mut buf), Ok(1));
    s.close(&t).unwrap();
    assert!(s.windows.entries.is_empty());
    assert_eq!(t.read(&mut s.windows, &mut buf), Err(OrbError::NotFound));
    assert_eq!(s.close(&t), Err(OrbError::NotFound));
}

#[test]
fn resource_paths() {
    assert_eq!(Resource::new(ResourceKind::Content, 5).path(), b"orbital://5/content".to_vec());
    assert_eq!(Resource::new(ResourceKind::Window, 120).path(), b"orbital://120/".to_vec());
    assert_eq!(Resource::new(ResourceKind::Dimensions, 0).path(), b"orbital://0/dimensions".to_vec());
    assert!(Resource::new(ResourceKind::Title, 1).dup().is_none());
}

#[test]
fn launch_patterns() {
    assert!(accepts(b"*.txt", b"/docs/readme.txt"));
    assert!(accepts(b"/bin/*", b"/bin/ls"));
    assert!(!accepts(b"*.txt", b"/etc/passwd"));
    assert!(!accepts(b"/bin/*", b"/etc/passwd"));
    assert!(accepts(b"*", b"anything"));
    assert!(!accepts(b"", b""));
}

#[test]
fn launch_picks_first_accepting_package() {
    let packages = vec![
        Package { binary: b"/apps/viewer".to_vec(), accepts: vec![b"*.png".to_vec()] },
        Package { binary: b"/apps/editor".to_vec(), accepts: vec![b"*.md".to_vec(), b"*.txt".to_vec()] },
        Package { binary: b"/apps/other".to_vec(), accepts: vec![b"*.txt".to_vec()] },
    ];
    assert_eq!(find_package(&packages, b"/docs/readme.txt"), Some(1));
    assert_eq!(find_package(&packages, b"/etc/passwd"), None);
    let mut s = Scheme::new(800, 600, packages);
    match s.open(b"orbital://launch/docs/a.txt") {
        Ok(Opened::Launch { package, path }) => {
            assert_eq!(package, 1);
            assert_eq!(path, b"docs/a.txt".to_vec());
        }
        _ => panic!("expected a launch"),
    }
    assert!(matches!(s.open(b"orbital://launch/etc/passwd"), Err(OrbError::NotFound)));
}

#[test]
fn oversized_window_is_exhausted() {
    let mut s = scheme();
    assert!(matches!(s.open(b"orbital:///1/1/18446744073709551615/2/t"), Err(OrbError::Exhausted)));
    assert_eq!(s.next_window_id, 1);
}

#[test]
fn resource_path_parses_back() {
    for kind in [ResourceKind::Window, ResourceKind::Content, ResourceKind::Title, ResourceKind::Events, ResourceKind::Dimensions] {
        for id in [0u64, 7, 1234, u64::MAX] {
            let p = Resource::new(kind, id).path();
            match parse_address(&p) {
                Ok(Request::Open { id: i, kind: k }) => {
                    assert_eq!(i, id);
                    assert_eq!(k, kind);
                }
                _ => panic!("path does not parse back"),
            }
        }
    }
}

#[test]
fn composite_draws_newer_windows_on_top() {
    let mut s = Scheme::new(4, 3, Vec::new());
    handle(s.open(b"orbital:///1/1/2/2/a"));
    handle(s.open(b"orbital:///2/1/2/1/b"));
    let mut c1 = handle(s.open(b"orbital://1/content"));
    c1.write(&mut s.windows, &[1u8; 16]).unwrap();
    let mut c2 = handle(s.open(b"orbital://2/content"));
    c2.write(&mut s.windows, &[2, 0, 0, 0, 3, 0, 0, 0]).unwrap();
    let f = composite(&s.windows, 4, 3).unwrap();
    let one = 0x0101_0101u32;
    assert_eq!(f.data, vec![0, 0, 0, 0, 0, one, 2, 3, 0, one, one, 0]);
    assert_eq!(buffer_pixels(&vec![1, 2, 3, 4, 5]), vec![0x0403_0201]);
    assert!(composite(&s.windows, usize::MAX, 2).is_none());
}
