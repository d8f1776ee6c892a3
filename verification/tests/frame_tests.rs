use stray::frame::Frame;
use stray::tile::{fill_work_queue, TileBuffer, Work};
use stray::Rgb8;

const RED: Rgb8 = Rgb8 { r: 255, g: 0, b: 0 };
const BLUE: Rgb8 = Rgb8 { r: 0, g: 0, b: 255 };

fn solid_buffer(work: Work, color: Rgb8) -> TileBuffer {
    let mut buf = TileBuffer::new(work);
    for y in 0..work.height() {
        for x in 0..work.width() {
            buf.set_color(x, y, color);
        }
    }
    buf
}

#[test]
fn new_frame_is_black() {
    let f = Frame::new(3, 2);
    assert_eq!(f.width, 3);
    assert_eq!(f.height, 2);
    assert_eq!(f.pixels.len(), 6);
    assert!(f.pixels.iter().all(|p| *p == Rgb8::black()));
    assert_eq!(f.get_pixel(2, 1), Rgb8::black());
}

#[test]
fn merge_tile_writes_its_rectangle_and_nothing_else() {
    let mut f = Frame::new(4, 4);
    let work = Work::new((1, 1), (3, 3));
    let mut buf = TileBuffer::new(work);
    let c00 = Rgb8 { r: 10, g: 11, b: 12 };
    let c10 = Rgb8 { r: 20, g: 21, b: 22 };
    let c01 = Rgb8 { r: 30, g: 31, b: 32 };
    let c11 = Rgb8 { r: 40, g: 41, b: 42 };
    buf.set_color(0, 0, c00);
    buf.set_color(1, 0, c10);
    buf.set_color(0, 1, c01);
    buf.set_color(1, 1, c11);
    f.merge_tile(&buf);
    assert_eq!(f.get_pixel(1, 1), c00);
    assert_eq!(f.get_pixel(2, 1), c10);
    assert_eq!(f.get_pixel(1, 2), c01);
    assert_eq!(f.get_pixel(2, 2), c11);
    for y in 0..4 {
        for x in 0..4 {
            if !(1..3).contains(&x) || !(1..3).contains(&y) {
                assert_eq!(f.get_pixel(x, y), Rgb8::black());
            }
        }
    }
}

#[test]
fn merge_tile_of_zero_area_changes_nothing() {
    let mut f = Frame::new(2, 2);
    let buf = TileBuffer::new(Work::new((1, 1), (1, 2)));
    f.merge_tile(&buf);
    assert!(f.pixels.iter().all(|p| *p == Rgb8::black()));
}

#[test]
fn merge_all_lets_the_later_tile_win_where_tiles_overlap() {
    let mut f = Frame::new(3, 3);
    let tiles = vec![
        solid_buffer(Work::new((0, 0), (2, 2)), RED),
        solid_buffer(Work::new((1, 1), (3, 3)), BLUE),
    ];
    f.merge_all(&tiles);
    assert_eq!(f.get_pixel(0, 0), RED);
    assert_eq!(f.get_pixel(1, 0), RED);
    assert_eq!(f.get_pixel(0, 1), RED);
    assert_eq!(f.get_pixel(1, 1), BLUE);
    assert_eq!(f.get_pixel(2, 1), BLUE);
    assert_eq!(f.get_pixel(2, 2), BLUE);
    assert_eq!(f.get_pixel(2, 0), Rgb8::black());
    assert_eq!(f.get_pixel(0, 2), Rgb8::black());
}

#[test]
fn merging_a_full_partition_paints_every_pixel() {
    let width = 35u32;
    let height = 25u32;
    let mut f = Frame::new(width, height);
    let works = fill_work_queue(width, height, 10);
    let mut buffers = Vec::new();
    for (i, work) in works.iter().enumerate() {
        let shade = Rgb8 { r: i as u8, g: 0, b: 0 };
        buffers.push(solid_buffer(*work, shade));
    }
    f.merge_all(&buffers);
    for y in 0..height {
        for x in 0..width {
            let p = f.get_pixel(x, y);
            let i = p.r as usize;
            assert!(i < works.len());
            let w = works[i];
            assert!(w.lower_left_tile.0 <= x && x < w.upper_right_tile.0);
            assert!(w.lower_left_tile.1 <= y && y < w.upper_right_tile.1);
        }
    }
}
