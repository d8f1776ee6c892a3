use stray::queue::WorkQueue;
use stray::tile::{fill_work_queue, TileBuffer, Work};
use stray::Rgb8;

fn area(w: &Work) -> u64 {
    let width = (w.upper_right_tile.0 - w.lower_left_tile.0) as u64;
    let height = (w.upper_right_tile.1 - w.lower_left_tile.1) as u64;
    width * height
}

#[test]
fn partition_350x250_by_100_covers_every_pixel_exactly_once() {
    let q = fill_work_queue(350, 250, 100);
    // 3 full columns + 1 remainder column, 2 full rows + 1 remainder row.
    assert_eq!(q.len(), 4 * 3);
    let total: u64 = q.iter().map(area).sum();
    assert_eq!(total, 350 * 250);
    let mut hits = vec![0u32; 350 * 250];
    for w in &q {
        for y in w.lower_left_tile.1..w.upper_right_tile.1 {
            for x in w.lower_left_tile.0..w.upper_right_tile.0 {
                hits[(y as usize) * 350 + (x as usize)] += 1;
            }
        }
    }
    assert!(hits.iter().all(|&h| h == 1));
}

#[test]
fn partition_of_exact_multiples_has_zero_area_remainders() {
    let q = fill_work_queue(200, 100, 100);
    assert_eq!(q.len(), 3 * 2);
    let total: u64 = q.iter().map(area).sum();
    assert_eq!(total, 200 * 100);
    let zero_area = q.iter().filter(|w| area(w) == 0).count();
    assert_eq!(zero_area, 4);
}

#[test]
fn partition_smaller_than_one_tile_is_one_remainder_tile() {
    let q = fill_work_queue(40, 30, 100);
    assert_eq!(q.len(), 1);
    assert_eq!(q[0].lower_left_tile, (0, 0));
    assert_eq!(q[0].upper_right_tile, (40, 30));
}

#[test]
fn scene_fill_work_queue_uses_window_and_tile_size() {
    let mut s = stray::scene::Stray::new();
    s.set_window_dimensions(350, 250);
    let q = s.fill_work_queue();
    assert_eq!(q.len(), 12);
}

#[test]
fn work_accessors_measure_the_tile() {
    let w = Work::new((100, 200), (150, 260));
    assert_eq!(w.lower_left_tile, (100, 200));
    assert_eq!(w.upper_right_tile, (150, 260));
    assert_eq!(w.width(), 50);
    assert_eq!(w.height(), 60);
    assert_eq!(w.pixel_count(), 3000);
}

#[test]
fn tile_buffer_starts_black_and_stores_row_major() {
    let work = Work::new((10, 20), (13, 22));
    let mut buf = TileBuffer::new(work);
    assert_eq!(buf.colors.len(), 6);
    assert!(buf.colors.iter().all(|c| *c == Rgb8::black()));
    let red = Rgb8 { r: 255, g: 0, b: 0 };
    let green = Rgb8 { r: 0, g: 255, b: 0 };
    buf.set_color(2, 0, red);
    buf.set_color(0, 1, green);
    assert_eq!(buf.colors[2], red);
    assert_eq!(buf.colors[3], green);
    assert_eq!(buf.get_color(2, 0), red);
    assert_eq!(buf.get_color(0, 1), green);
    assert_eq!(buf.get_color(1, 1), Rgb8::black());
}

#[test]
fn tile_buffer_of_zero_area_holds_nothing() {
    let work = Work::new((100, 100), (100, 150));
    let buf = TileBuffer::new(work);
    assert_eq!(buf.colors.len(), 0);
}

#[test]
fn queue_hands_out_each_tile_exactly_once_in_order() {
    let tiles = fill_work_queue(350, 250, 100);
    let expected = tiles.clone();
    let mut q = WorkQueue::new(tiles);
    assert_eq!(q.remaining_count(), 12);
    let mut claimed = Vec::new();
    while let Some(w) = q.claim() {
        claimed.push(w);
    }
    assert_eq!(claimed, expected);
    assert_eq!(q.remaining_count(), 0);
    assert!(q.claim().is_none());
    assert!(q.claim().is_none());
}

#[test]
fn rgb8_black_is_all_zero() {
    let b = Rgb8::black();
    assert_eq!((b.r, b.g, b.b), (0, 0, 0));
}

#[test]
fn partition_is_deterministic() {
    assert_eq!(fill_work_queue(350, 250, 100), fill_work_queue(350, 250, 100));
    assert_eq!(fill_work_queue(1024, 1024, 100), fill_work_queue(1024, 1024, 100));
}
