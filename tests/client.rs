use orbital_scheme::client::{poll_step, PollStep, Window};
use orbital_scheme::error::OrbError;
use orbital_scheme::window::{encode_event, InputEvent};

fn canvas(w: usize, h: usize) -> Window {
    Window::new(10, 20, w, h, b"c".to_vec(), Vec::new()).unwrap()
}

#[test]
fn new_canvas_is_blank() {
    let c = canvas(3, 2);
    assert_eq!(c.data, vec![0u32; 6]);
    assert_eq!((c.x(), c.y(), c.width(), c.height()), (10, 20, 3, 2));
    assert_eq!(c.title(), b"c".to_vec());
    assert!(Window::new(0, 0, usize::MAX, 2, Vec::new(), Vec::new()).is_none());
}

#[test]
fn pixel_only_on_canvas() {
    let mut c = canvas(3, 2);
    c.pixel(2, 1, 7);
    c.pixel(3, 0, 9);
    c.pixel(-1, 0, 9);
    c.pixel(0, 2, 9);
    assert_eq!(c.data, vec![0, 0, 0, 0, 0, 7]);
}

#[test]
fn rect_is_clipped() {
    let mut c = canvas(4, 3);
    c.rect(-1, 1, 3, 5, 5);
    assert_eq!(c.data, vec![0, 0, 0, 0, 5, 5, 0, 0, 5, 5, 0, 0]);
    c.set(1);
    assert_eq!(c.data, vec![1; 12]);
}

#[test]
fn image_rows_and_short_data() {
    let mut c = canvas(3, 3);
    c.image(1, 1, 2, 2, &[1, 2, 3]);
    assert_eq!(c.data, vec![0, 0, 0, 0, 1, 2, 0, 3, 0]);
    let mut d = canvas(2, 2);
    d.image(-1, 0, 2, 2, &[1, 2, 3, 4]);
    assert_eq!(d.data, vec![2, 0, 4, 0]);
}

#[test]
fn char_draws_font_bits() {
    let mut font = vec![0u8; 16 * 66];
    // glyph of 'A' (65): first row 0b1000_0001, second row 0b0100_0000
    font[65 * 16] = 0b1000_0001;
    font[65 * 16 + 1] = 0b0100_0000;
    let mut c = Window::new(0, 0, 9, 3, Vec::new(), font).unwrap();
    c.char(1, 0, 'A', 3);
    let mut expected = vec![0u32; 27];
    expected[1] = 3;
    expected[8] = 3;
    expected[9 + 2] = 3;
    assert_eq!(c.data, expected);
    c.char(0, 0, 'Z', 4);
    assert_eq!(c.data, expected);
}

#[test]
fn resize_keeps_order_and_zero_fills() {
    let mut c = canvas(2, 1);
    c.set(6);
    assert!(c.resize(2, 2));
    assert_eq!(c.data, vec![6, 6, 0, 0]);
    assert!(!c.resize(usize::MAX, 3));
    assert_eq!((c.width(), c.height()), (2, 2));
}

#[test]
fn frame_bytes_little_endian() {
    let mut c = canvas(2, 1);
    c.pixel(0, 0, 0x0403_0201);
    c.set_title(b"new".to_vec());
    assert_eq!(c.frame_bytes(), vec![1, 2, 3, 4, 0, 0, 0, 0]);
    assert_eq!(c.title(), b"new".to_vec());
}

#[test]
fn poll_step_decides() {
    let e = InputEvent { code: 3, a: 4, b: 5, c: 6 };
    let rec = encode_event(&e);
    assert_eq!(poll_step(Ok(0), &rec), PollStep::Retry);
    assert_eq!(poll_step(Ok(32), &rec), PollStep::Event(e));
    assert_eq!(poll_step(Err(OrbError::IoFailure), &rec), PollStep::Stop);
}

#[test]
fn sync_path_reads_geometry() {
    let mut c = canvas(2, 1);
    c.set(9);
    c.sync_path(b"orbital:///-5/7/3/1/title/x");
    assert_eq!((c.x(), c.y(), c.width(), c.height()), (-5, 7, 3, 1));
    assert_eq!(c.data, vec![9, 9, 0]);
    // parts 5 and 6 are missing: the size stays
    c.sync_path(b"orbital:///5/6");
    assert_eq!((c.x(), c.y(), c.width(), c.height()), (5, 6, 3, 1));
    // a window's own address: part 3 is empty and reads 0
    c.sync_path(b"orbital://4/");
    assert_eq!((c.x(), c.y(), c.width(), c.height()), (0, 6, 3, 1));
    c.sync_path(b"orbital:///1/2/18446744073709551615/2");
    assert_eq!((c.x(), c.y(), c.width(), c.height()), (1, 2, 3, 1));
    c.sync_path(b"orbital:///x/y/2/2");
    assert_eq!((c.x(), c.y(), c.width(), c.height()), (0, 0, 2, 2));
    c.sync_path(b"short");
    assert_eq!((c.x(), c.y(), c.width(), c.height()), (0, 0, 2, 2));
}
