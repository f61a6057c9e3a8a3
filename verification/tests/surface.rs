use tagbar::buffer::{Buffer, Pool};
use tagbar::surface::Surface;

#[test]
fn solid_fills_every_pixel() {
    let s = Surface::solid(3, 2, 0xff00ff00);
    assert_eq!(s.get_width(), 3);
    assert_eq!(s.get_height(), 2);
    for y in 0..2 {
        for x in 0..3 {
            assert_eq!(s.get_pixel(x, y), 0xff00ff00);
        }
    }
}

#[test]
fn set_pixel_changes_only_its_cell() {
    let mut s = Surface::solid(2, 2, 0);
    s.set_pixel(1, 0, 7);
    assert_eq!(s.get_pixel(1, 0), 7);
    assert_eq!(s.get_pixel(0, 0), 0);
    assert_eq!(s.get_pixel(0, 1), 0);
    assert_eq!(s.get_pixel(1, 1), 0);
}

#[test]
fn composite_places_source_at_offset() {
    let mut dest = Surface::solid(4, 4, 1);
    let src = Surface::solid(2, 2, 9);
    dest.composite(&src, 1, 2);
    for y in 0..4u32 {
        for x in 0..4u32 {
            let inside = (1..3).contains(&x) && (2..4).contains(&y);
            assert_eq!(dest.get_pixel(x, y), if inside { 9 } else { 1 });
        }
    }
}

#[test]
fn composite_clips_to_destination() {
    let mut dest = Surface::solid(3, 3, 1);
    let src = Surface::solid(2, 2, 9);
    dest.composite(&src, 2, 2);
    for y in 0..3u32 {
        for x in 0..3u32 {
            let inside = x == 2 && y == 2;
            assert_eq!(dest.get_pixel(x, y), if inside { 9 } else { 1 });
        }
    }
}

#[test]
fn composite_twice_equals_once() {
    let src = Surface::solid(2, 2, 9);
    let mut once = Surface::solid(4, 4, 1);
    once.composite(&src, 1, 1);
    let mut twice = Surface::solid(4, 4, 1);
    twice.composite(&src, 1, 1);
    twice.composite(&src, 1, 1);
    assert_eq!(once.pixels, twice.pixels);
}

#[test]
fn clear_overwrites_everything() {
    let mut s = Surface::solid(2, 3, 5);
    s.clear(0);
    for y in 0..3 {
        for x in 0..2 {
            assert_eq!(s.get_pixel(x, y), 0);
        }
    }
}

#[test]
fn pool_grows_and_never_shrinks() {
    let mut pool = Pool::new(1000);
    assert!(pool.resize(10, 10).is_ok());
    assert_eq!(pool.size, 400);
    assert!(pool.resize(2, 2).is_ok());
    assert_eq!(pool.size, 400);
    assert!(pool.resize(15, 10).is_ok());
    assert_eq!(pool.size, 600);
}

#[test]
fn pool_refuses_past_its_limit() {
    let mut pool = Pool::new(100);
    let r = pool.resize(10, 10);
    assert!(r.is_err());
    assert_eq!(pool.size, 0);
}

#[test]
fn buffer_needs_a_grown_pool() {
    let mut pool = Pool::new(1000);
    assert!(Buffer::new(4, 4, 16, &pool).is_err());
    pool.resize(4, 4).unwrap();
    let b = Buffer::new(4, 4, 16, &pool).unwrap();
    assert_eq!(b.width, 4);
    assert_eq!(b.height, 4);
    assert_eq!(b.data.len(), 64);
    assert!(b.data.iter().all(|&x| x == 0));
}

#[test]
fn buffer_composite_writes_little_endian_pixels() {
    let mut pool = Pool::new(1000);
    pool.resize(4, 4).unwrap();
    let mut b = Buffer::new(4, 4, 16, &pool).unwrap();
    let src = Surface::solid(2, 2, 0x01020304);
    b.composite(&src, 1, 1);
    assert_eq!(b.get_pixel(1, 1), 0x01020304);
    assert_eq!(b.get_pixel(2, 2), 0x01020304);
    assert_eq!(b.get_pixel(0, 0), 0);
    assert_eq!(b.get_pixel(3, 3), 0);
    // row 1, pixel 1 starts at byte 16 + 4: little-endian 04 03 02 01
    assert_eq!(&b.data[20..24], &[0x04, 0x03, 0x02, 0x01]);
}

#[test]
fn buffer_composite_twice_equals_once() {
    let mut pool = Pool::new(1000);
    pool.resize(4, 4).unwrap();
    let src = Surface::solid(3, 3, 0xaabbccdd);
    let mut once = Buffer::new(4, 4, 16, &pool).unwrap();
    once.composite(&src, 2, 2);
    let mut twice = Buffer::new(4, 4, 16, &pool).unwrap();
    twice.composite(&src, 2, 2);
    twice.composite(&src, 2, 2);
    assert_eq!(once.data, twice.data);
}

#[test]
fn buffer_composite_clips_and_spares_padding() {
    let mut pool = Pool::new(1000);
    pool.resize(10, 2).unwrap();
    // stride 12 leaves 4 padding bytes per row past the 2 pixels
    let mut b = Buffer::new(2, 2, 12, &pool).unwrap();
    let src = Surface::solid(5, 5, 0xffffffff);
    b.composite(&src, 1, 1);
    assert_eq!(b.get_pixel(0, 0), 0);
    assert_eq!(b.get_pixel(1, 0), 0);
    assert_eq!(b.get_pixel(0, 1), 0);
    assert_eq!(b.get_pixel(1, 1), 0xffffffff);
    // padding bytes of both rows stay zero
    assert_eq!(&b.data[8..12], &[0, 0, 0, 0]);
    assert_eq!(&b.data[20..24], &[0, 0, 0, 0]);
}

#[test]
fn buffer_clear_zeroes_all_bytes() {
    let mut pool = Pool::new(1000);
    pool.resize(2, 2).unwrap();
    let mut b = Buffer::new(2, 2, 8, &pool).unwrap();
    let src = Surface::solid(2, 2, 0xffffffff);
    b.composite(&src, 0, 0);
    b.clear();
    assert!(b.data.iter().all(|&x| x == 0));
}
