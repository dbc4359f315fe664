//! Round trips between the four-byte channel-group form of a colour and the
//! 32-bit packed-word form.

use softbuffer_rgb::{pack, rgb, unpack};

#[test]
fn rgb_prepends_zero_pad() {
    assert_eq!(rgb(200, 70, 10), [0, 200, 70, 10]);
    assert_eq!(rgb(0, 0, 0), [0, 0, 0, 0]);
    assert_eq!(rgb(255, 255, 255), [0, 255, 255, 255]);
}

#[test]
fn pack_is_little_endian() {
    assert_eq!(pack([0, 255, 20, 5]), 0x0514_ff00);
    assert_eq!(pack([0, 67, 200, 80]), 0x50c8_4300);
    assert_eq!(pack([0, 0, 0, 0]), 0);
    assert_eq!(pack([0, 255, 255, 255]), 0xffff_ff00);
    assert_eq!(pack([1, 2, 3, 4]), 0x0403_0201);
}

#[test]
fn unpack_inverts_pack() {
    let samples: [[u8; 4]; 5] = [
        [0, 255, 20, 5],
        [0, 0, 0, 0],
        [0, 1, 2, 3],
        [255, 255, 255, 255],
        [9, 200, 70, 10],
    ];
    for c in samples {
        assert_eq!(unpack(pack(c)), c);
    }
}

#[test]
fn pack_inverts_unpack() {
    let samples: [u32; 5] = [0, 0x0514_ff00, 0xffff_ffff, 0x0102_0304, 0x50c8_4300];
    for w in samples {
        assert_eq!(pack(unpack(w)), w);
    }
}

#[test]
fn unpack_splits_bytes() {
    assert_eq!(unpack(0x0514_ff00), [0x00, 0xff, 0x14, 0x05]);
    assert_eq!(unpack(1), [1, 0, 0, 0]);
}
