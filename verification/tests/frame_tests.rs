use termscape::cell::{Color, Element};
use termscape::frame::{apply, remaining_micros, render_pos, FRAME_MICROS};
use termscape::input::Command;
use termscape::surface::Surface;
use termscape::vec::Vec2;

fn row(surface: &Surface, y: i16) -> String {
    (0..surface.size().x).map(|x| surface.elem(Vec2 { x, y }).unwrap().value).collect()
}

#[test]
fn a_frame_has_eight_milliseconds() {
    assert_eq!(FRAME_MICROS, 8_000);
    assert_eq!(remaining_micros(0), Some(8_000));
    assert_eq!(remaining_micros(1_500), Some(6_500));
    assert_eq!(remaining_micros(8_000), Some(0));
    assert_eq!(remaining_micros(8_001), None);
    assert_eq!(remaining_micros(u64::MAX), None);
}

#[test]
fn readout_spells_the_position() {
    let mut s = Surface::new(Vec2::new(20, 3));
    s.draw_line(Vec2::new(0, 1), Vec2::new(19, 1), Element { value: '#', background: Color::White });
    render_pos(&mut s, 12, 7);
    assert_eq!(row(&s, 0), "                    ");
    assert_eq!(row(&s, 1), "#x: 12, y: 7    ####");
    assert_eq!(s.elem(Vec2::new(1, 1)).unwrap().background, Color::White);
}

#[test]
fn readout_of_the_largest_and_smallest_numbers() {
    let mut s = Surface::new(Vec2::new(24, 2));
    render_pos(&mut s, 0, 65535);
    assert_eq!(row(&s, 1), " x: 0, y: 65535         ");
    render_pos(&mut s, 100, 9);
    assert_eq!(row(&s, 1), " x: 100, y: 9           ");
}

#[test]
fn readout_is_clipped_to_the_canvas() {
    let mut s = Surface::new(Vec2::new(6, 2));
    render_pos(&mut s, 3, 4);
    assert_eq!(row(&s, 1), " x: 3,");
    let mut t = Surface::new(Vec2::new(6, 1));
    render_pos(&mut t, 3, 4);
    assert_eq!(row(&t, 0), "      ");
}

#[test]
fn quit_ends_the_loop_and_draws_nothing() {
    let mut s = Surface::new(Vec2::new(8, 2));
    assert!(apply(&mut s, Command::Quit));
    assert!(s.state().iter().all(|e| *e == Element::blank()));
}

#[test]
fn look_writes_the_readout() {
    let mut s = Surface::new(Vec2::new(16, 2));
    assert!(!apply(&mut s, Command::Look(5, 6)));
    assert_eq!(row(&s, 1), " x: 5, y: 6     ");
}

#[test]
fn boundary_frames_the_canvas() {
    let mut s = Surface::new(Vec2::new(4, 3));
    termscape::frame::render_boundary(&mut s);
    assert_eq!(row(&s, 0), "╔══╗");
    assert_eq!(row(&s, 1), "║  ║");
    assert_eq!(row(&s, 2), "╚══╝");
}

#[test]
fn boundary_keeps_backgrounds() {
    let mut s = Surface::new(Vec2::new(3, 3));
    let dot = Element { value: '.', background: Color::White };
    s.draw_line(Vec2::new(0, 0), Vec2::new(2, 2), dot);
    termscape::frame::render_boundary(&mut s);
    assert_eq!(s.elem(Vec2::new(0, 0)), Some(&Element { value: '╔', background: Color::White }));
    assert_eq!(s.elem(Vec2::new(1, 1)), Some(&dot));
    assert_eq!(s.elem(Vec2::new(1, 0)), Some(&Element { value: '═', background: Color::Reset }));
}

#[test]
fn boundary_of_narrow_canvases() {
    let mut one = Surface::new(Vec2::new(1, 1));
    termscape::frame::render_boundary(&mut one);
    assert_eq!(row(&one, 0), "╗");
    let mut flat = Surface::new(Vec2::new(3, 1));
    termscape::frame::render_boundary(&mut flat);
    assert_eq!(row(&flat, 0), "╚═╗");
    let mut tall = Surface::new(Vec2::new(1, 3));
    termscape::frame::render_boundary(&mut tall);
    assert_eq!(row(&tall, 0), "╗");
    assert_eq!(row(&tall, 1), "║");
    assert_eq!(row(&tall, 2), "╝");
    let mut none = Surface::new(Vec2::new(0, 3));
    termscape::frame::render_boundary(&mut none);
    assert!(none.state().is_empty());
}

#[test]
fn position_text_is_the_readout() {
    let text: String = termscape::frame::position_text(12, 7).into_iter().collect();
    assert_eq!(text, "x: 12, y: 7    ");
    let ends: String = termscape::frame::position_text(65535, 0).into_iter().collect();
    assert_eq!(ends, "x: 65535, y: 0    ");
    let tens: String = termscape::frame::position_text(10, 1000).into_iter().collect();
    assert_eq!(tens, "x: 10, y: 1000    ");
}
