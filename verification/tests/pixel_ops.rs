//! The buffer's construction, validation and mutation operations, exercised
//! through both views of the store.

use softbuffer_rgb::{pack, rgb, RgbBuffer, RgbBufferError};

fn words_of(buf: RgbBuffer) -> Vec<u32> {
    buf.into_words()
}

fn buffer(width: usize, height: usize) -> RgbBuffer {
    RgbBuffer::from_softbuffer(vec![0u32; width * height], width, height).unwrap()
}

#[test]
fn construction_checks_size() {
    assert!(matches!(
        RgbBuffer::from_softbuffer(vec![0u32; 5], 2, 2),
        Err(RgbBufferError::InvalidSize(2, 2))
    ));
    assert!(matches!(
        RgbBuffer::from_softbuffer(vec![0u32; 4], 2, 2),
        Ok(_)
    ));
    // An empty store carries a zero-area grid.
    assert!(matches!(RgbBuffer::from_softbuffer(vec![], 0, 7), Ok(_)));
    // A product too large for usize can never match a store's length.
    assert!(matches!(
        RgbBuffer::from_softbuffer(vec![0u32; 4], usize::MAX, 2),
        Err(RgbBufferError::InvalidSize(usize::MAX, 2))
    ));
}

#[test]
fn construction_keeps_words() {
    let buf = RgbBuffer::from_softbuffer(vec![1, 2, 3, 4, 5, 6], 3, 2).unwrap();
    assert_eq!(buf.width(), 3);
    assert_eq!(buf.height(), 2);
    assert_eq!(words_of(buf), vec![1, 2, 3, 4, 5, 6]);
}

#[test]
fn set_pixel_writes_one_word() {
    let mut buf = buffer(3, 2);
    buf.set_pixel(1, 1, rgb(200, 70, 10));
    // Row-major: (x, y) = (1, 1) lives at linear index 1 * 3 + 1 = 4.
    assert_eq!(
        words_of(buf),
        vec![0, 0, 0, 0, pack([0, 200, 70, 10]), 0]
    );
}

#[test]
fn set_pixel_and_word_views_agree() {
    let mut buf = buffer(4, 3);
    let c = rgb(1, 2, 3);
    buf.set_pixel(2, 1, c);
    assert_eq!(buf.word_at(buf.linear_index(2, 1)), pack(c));
    assert_eq!(buf.pixel_at(2, 1), c);
    // The other direction: write a packed word through the flat view and
    // read its channel group through the grid view.
    buf.set_word(buf.linear_index(3, 2), 0x0514_ff00);
    assert_eq!(buf.pixel_at(3, 2), [0x00, 0xff, 0x14, 0x05]);
}

#[test]
fn try_set_pixel_validates_position() {
    let mut buf = buffer(3, 2);
    assert!(buf.try_set_pixel(2, 1, rgb(9, 9, 9)).is_ok());
    // x == width and y == height both lie one past the grid.
    assert_eq!(
        buf.try_set_pixel(3, 0, rgb(9, 9, 9)),
        Err(RgbBufferError::InvalidPosition(3, 0))
    );
    assert_eq!(
        buf.try_set_pixel(0, 2, rgb(9, 9, 9)),
        Err(RgbBufferError::InvalidPosition(0, 2))
    );
    // The failures changed nothing: only the one valid write is visible.
    assert_eq!(
        words_of(buf),
        vec![0, 0, 0, 0, 0, pack([0, 9, 9, 9])]
    );
}

#[test]
fn is_valid_position_matches_grid() {
    let buf = buffer(3, 2);
    assert!(buf.is_valid_position(0, 0));
    assert!(buf.is_valid_position(2, 1));
    assert!(!buf.is_valid_position(3, 0));
    assert!(!buf.is_valid_position(0, 2));
}

#[test]
fn set_pixels_writes_each_position() {
    let mut buf = buffer(3, 2);
    let c = rgb(5, 6, 7);
    buf.set_pixels(&[(0, 0), (2, 0), (1, 1)], c);
    let w = pack(c);
    assert_eq!(words_of(buf), vec![w, 0, w, 0, w, 0]);
}

#[test]
fn try_set_pixels_rejects_atomically() {
    let mut buf = buffer(3, 2);
    buf.set_pixel(0, 0, rgb(1, 1, 1));
    let before = vec![pack([0, 1, 1, 1]), 0, 0, 0, 0, 0];
    // (5, 1) is the first invalid entry in list order; nothing at all may be
    // written, not even the valid positions before it.
    let r = buf.try_set_pixels(&[(0, 0), (1, 0), (5, 1), (0, 1)], rgb(2, 2, 2));
    assert_eq!(r, Err(RgbBufferError::InvalidPosition(5, 1)));
    assert_eq!(words_of(buf), before);
}

#[test]
fn try_set_pixels_accepts_all_valid() {
    let mut buf = buffer(3, 2);
    let c = rgb(2, 2, 2);
    assert!(buf.try_set_pixels(&[(0, 0), (0, 1), (0, 0)], c).is_ok());
    let w = pack(c);
    assert_eq!(words_of(buf), vec![w, 0, 0, w, 0, 0]);
}

#[test]
fn fill_rectangle_covers_exactly_the_rectangle() {
    let mut buf = buffer(5, 4);
    let c = rgb(10, 20, 30);
    buf.fill_rectangle(1, 1, 3, 2, c);
    let w = pack(c);
    let mut expected = vec![0u32; 20];
    for py in 1..3 {
        for px in 1..4 {
            expected[py * 5 + px] = w;
        }
    }
    assert_eq!(words_of(buf), expected);
}

#[test]
fn fill_rectangle_matches_per_pixel_writes() {
    let c = rgb(67, 200, 80);
    let mut by_rectangle = buffer(5, 4);
    by_rectangle.fill_rectangle(2, 1, 3, 3, c);
    let mut by_pixels = buffer(5, 4);
    for py in 1..4 {
        for px in 2..5 {
            by_pixels.set_pixel(px, py, c);
        }
    }
    assert_eq!(words_of(by_rectangle), words_of(by_pixels));
}

#[test]
fn fill_rectangle_may_touch_far_edge() {
    let mut buf = buffer(5, 4);
    // x + w == width and y + h == height exactly: still inside.
    assert!(buf.try_fill_rectangle(2, 1, 3, 3, rgb(1, 1, 1)).is_ok());
    // A zero-extent rectangle writes nothing, even at the far corner.
    assert!(buf.try_fill_rectangle(5, 4, 0, 0, rgb(2, 2, 2)).is_ok());
    assert_eq!(buf.word_at(19), pack([0, 1, 1, 1]));
}

#[test]
fn try_fill_rectangle_reports_offending_corner() {
    let mut buf = buffer(5, 4);
    // Top-left corner outside the closed grid.
    assert_eq!(
        buf.try_fill_rectangle(6, 0, 1, 1, rgb(1, 1, 1)),
        Err(RgbBufferError::InvalidPosition(6, 0))
    );
    // Far corner outside: reported as (x + w, y + h).
    assert_eq!(
        buf.try_fill_rectangle(1, 1, 5, 2, rgb(1, 1, 1)),
        Err(RgbBufferError::InvalidPosition(6, 3))
    );
    // A far corner past usize::MAX is reported clamped, without panicking.
    assert_eq!(
        buf.try_fill_rectangle(1, 0, usize::MAX, 1, rgb(1, 1, 1)),
        Err(RgbBufferError::InvalidPosition(usize::MAX, 1))
    );
    assert_eq!(words_of(buf), vec![0u32; 20]);
}

#[test]
fn fill_covers_every_pixel() {
    let mut buf = buffer(3, 2);
    buf.set_pixel(1, 0, rgb(9, 9, 9));
    let c = rgb(4, 5, 6);
    buf.fill(c);
    assert_eq!(words_of(buf), vec![pack([0, 4, 5, 6]); 6]);
}

#[test]
fn fill_matches_full_extent_rectangle() {
    let c = rgb(12, 34, 56);
    let mut by_fill = buffer(4, 3);
    by_fill.fill(c);
    let mut by_rectangle = buffer(4, 3);
    by_rectangle.fill_rectangle(0, 0, 4, 3, c);
    assert_eq!(words_of(by_fill), words_of(by_rectangle));
}

#[test]
fn display_scenario_round_trip() {
    // A 400 x 300 display buffer: 120000 packed words.
    let mut buf = RgbBuffer::from_softbuffer(vec![0u32; 120_000], 400, 300).unwrap();
    assert!(buf.try_set_pixel(12, 14, rgb(255, 20, 5)).is_ok());
    let index = buf.linear_index(12, 14);
    assert_eq!(index, 14 * 400 + 12);
    assert_eq!(buf.word_at(index), 0x0514_ff00);
    assert_eq!(buf.word_at(index).to_le_bytes(), [0, 255, 20, 5]);
    // A rectangle inside the grid succeeds...
    assert!(buf.try_fill_rectangle(20, 20, 200, 50, rgb(67, 200, 80)).is_ok());
    assert_eq!(buf.pixel_at(25, 25), [0, 67, 200, 80]);
    // ... and one overrunning the width fails, leaving everything as the
    // previous step wrote it.
    assert_eq!(
        buf.try_fill_rectangle(20, 20, 900, 50, rgb(67, 200, 80)),
        Err(RgbBufferError::InvalidPosition(920, 70))
    );
    assert_eq!(buf.pixel_at(25, 25), [0, 67, 200, 80]);
    assert_eq!(buf.word_at(index), 0x0514_ff00);
}

#[test]
fn wrong_size_construction_yields_no_view() {
    let r = RgbBuffer::from_softbuffer(vec![0u32; 120_000], 400, 301);
    assert!(matches!(r, Err(RgbBufferError::InvalidSize(400, 301))));
}
