//! The two-view buffer and its mutation operations.
//!
//! An [`RgbBuffer`] owns a flat store of 32-bit packed colour words and fixes
//! a grid shape over it: `height` rows of `width` channel groups, row-major,
//! with grid position `(x, y)` stored at linear index `y * width + x`. The
//! flat view (`word_at`, `set_word`) and the grid view (`pixel_at`,
//! `set_pixel`) address the same words, so a write through either view is
//! visible through the other.
//!
//! Every mutation comes in a checked form (`try_` prefix), which validates
//! its input and mutates nothing on failure, and a trusting form, whose
//! precondition the caller must establish.

use vstd::prelude::*;

use crate::color::group_of;
use crate::color::lemma_group_of_packed;
use crate::color::pack;
use crate::color::packed_of;
use crate::color::unpack;
use crate::color::Color;
use crate::model::filled;
use crate::model::grid_index;
use crate::model::lemma_grid_index_in_range;
use crate::model::lemma_pixels_written_push;
use crate::model::lemma_rect_hits_extend;
use crate::model::lemma_row_in_range;
use crate::model::pixel_written;
use crate::model::pixels_written;
use crate::model::positions_view;
use crate::model::rect_filled;
use crate::model::rect_hits;

verus! {

/// The error a failed construction or a failed checked operation reports.
#[derive(Clone, Copy, Debug, PartialEq, Eq, Structural)]
pub enum RgbBufferError {
    /// Construction was asked to lay a `width x height` grid over a store of
    /// a different length. Carries the requested width and height.
    InvalidSize(usize, usize),
    /// A position or rectangle corner lies outside the grid. Carries the
    /// offending coordinates.
    InvalidPosition(usize, usize),
}

/// The value `v` as a `usize`, clamped to `usize::MAX` when it exceeds it.
/// A checked rectangle fill reports an offending far corner through this:
/// the corner's true coordinate when it is representable, `usize::MAX`
/// (still far outside any grid) when it is not.
pub open spec fn clamped_usize(v: int) -> usize {
    if v > usize::MAX {
        usize::MAX
    } else {
        v as usize
    }
}

/// A flat store of packed colour words, viewed at the same time as a
/// `width x height` grid of pixels.
pub struct RgbBuffer {
    words: Vec<u32>,
    width: usize,
    height: usize,
}

impl View for RgbBuffer {
    type V = Seq<u32>;

    /// The flat view: the packed words in store order.
    closed spec fn view(&self) -> Seq<u32> {
        self.words@
    }
}

impl RgbBuffer {
    /// The grid width: how many pixels each row holds.
    pub closed spec fn spec_width(&self) -> usize {
        self.width
    }

    /// The grid height: how many rows the grid holds.
    pub closed spec fn spec_height(&self) -> usize {
        self.height
    }

    #[verifier::when_used_as_spec(spec_width)]
    pub fn width(&self) -> (w: usize)
        ensures
            w == self.spec_width(),
    {
        self.width
    }

    #[verifier::when_used_as_spec(spec_height)]
    pub fn height(&self) -> (h: usize)
        ensures
            h == self.spec_height(),
    {
        self.height
    }

    /// The structural invariant: the grid shape covers the flat store
    /// exactly, `width * height` words.
    pub open spec fn wf(&self) -> bool {
        self.spec_width() * self.spec_height() == self@.len()
    }

    /// A position addresses a pixel: inside the half-open grid ranges.
    pub open spec fn valid_position(&self, x: int, y: int) -> bool {
        0 <= x < self.spec_width() && 0 <= y < self.spec_height()
    }

    /// A rectangle corner may also touch the far edge exactly: corners live
    /// on the closed grid of lattice points.
    pub open spec fn valid_corner(&self, x: int, y: int) -> bool {
        0 <= x <= self.spec_width() && 0 <= y <= self.spec_height()
    }

    /// A rectangle lies inside the grid: its top-left and its bottom-right
    /// corner are both valid corners (half-open extent semantics).
    pub open spec fn valid_rect(&self, x: int, y: int, w: int, h: int) -> bool {
        self.valid_corner(x, y) && self.valid_corner(x + w, y + h)
    }

    /// The linear index in the flat store at which grid position `(x, y)`
    /// lives: row-major, one row per `y`.
    pub open spec fn index_of(&self, x: int, y: int) -> int {
        grid_index(self.spec_width() as int, x, y)
    }

    /// Lays a `width x height` grid over a flat packed-word store, taking
    /// ownership of the store. This is the zero-copy reinterpretation step:
    /// no word is moved, the grid is only an indexing discipline over the
    /// store. Fails with `InvalidSize(width, height)` exactly when
    /// `width * height` is not the store's length; no buffer is produced
    /// then.
    pub fn from_softbuffer(words: Vec<u32>, width: usize, height: usize) -> (r: Result<
        RgbBuffer,
        RgbBufferError,
    >)
        ensures
            match r {
                Ok(buf) => {
                    &&& width * height == words@.len()
                    &&& buf.wf()
                    &&& buf.spec_width() == width
                    &&& buf.spec_height() == height
                    &&& buf@ == words@
                },
                Err(e) => {
                    &&& width * height != words@.len()
                    &&& e == RgbBufferError::InvalidSize(width, height)
                },
            },
    {
        let n_words: usize = words.len();
        match width.checked_mul(height) {
            Some(n) => {
                if n == n_words {
                    Ok(RgbBuffer { words, width, height })
                } else {
                    Err(RgbBufferError::InvalidSize(width, height))
                }
            },
            None => Err(RgbBufferError::InvalidSize(width, height)),
        }
    }

    /// Releases the grid view and hands the flat store back, unchanged, for
    /// the presentation layer to display.
    pub fn into_words(self) -> (words: Vec<u32>)
        ensures
            words@ == self@,
    {
        self.words
    }

    /// Borrows the flat store, for a presentation layer that copies the
    /// words out rather than taking them.
    pub fn as_words(&self) -> (words: &Vec<u32>)
        ensures
            words@ == self@,
    {
        &self.words
    }

    /// True exactly when `(x, y)` addresses a pixel of the grid.
    pub fn is_valid_position(&self, x: usize, y: usize) -> (b: bool)
        ensures
            b == self.valid_position(x as int, y as int),
    {
        x < self.width && y < self.height
    }

    /// Computes the linear index at which the flat store keeps the pixel at
    /// grid position `(x, y)`.
    pub fn linear_index(&self, x: usize, y: usize) -> (i: usize)
        requires
            self.wf(),
            self.valid_position(x as int, y as int),
        ensures
            i == self.index_of(x as int, y as int),
            i < self@.len(),
    {
        proof {
            lemma_grid_index_in_range(
                self.spec_width() as int,
                self.spec_height() as int,
                x as int,
                y as int,
            );
        }
        // The store's length is itself a usize, so the index below, which
        // lies under it, fits the machine word.
        let _n: usize = self.words.len();
        y * self.width + x
    }

    /// Reads one packed word through the flat view.
    pub fn word_at(&self, index: usize) -> (w: u32)
        requires
            index < self@.len(),
        ensures
            w == self@[index as int],
    {
        self.words[index]
    }

    /// Writes one packed word through the flat view. The grid view sees the
    /// write: the pixel whose linear index this is now decodes to the word's
    /// channel group.
    pub fn set_word(&mut self, index: usize, word: u32)
        requires
            index < old(self)@.len(),
        ensures
            final(self)@ == old(self)@.update(index as int, word),
            final(self).spec_width() == old(self).spec_width(),
            final(self).spec_height() == old(self).spec_height(),
    {
        self.words.set(index, word);
    }

    /// Reads the channel group of the pixel at grid position `(x, y)`: the
    /// four little-endian bytes of the packed word the flat store keeps at
    /// that position's linear index.
    pub fn pixel_at(&self, x: usize, y: usize) -> (c: Color)
        requires
            self.wf(),
            self.valid_position(x as int, y as int),
        ensures
            c@ == group_of(self@[self.index_of(x as int, y as int)]),
            packed_of(c) == self@[self.index_of(x as int, y as int)],
    {
        let i = self.linear_index(x, y);
        unpack(self.words[i])
    }

    /// Writes `color`'s packed word at grid position `(x, y)` and changes
    /// nothing else. Trusts the caller that the position is valid; the
    /// checked form is [`RgbBuffer::try_set_pixel`].
    pub fn set_pixel(&mut self, x: usize, y: usize, color: Color)
        requires
            old(self).wf(),
            old(self).valid_position(x as int, y as int),
        ensures
            final(self)@ == old(self)@.update(
                old(self).index_of(x as int, y as int),
                packed_of(color),
            ),
            final(self).spec_width() == old(self).spec_width(),
            final(self).spec_height() == old(self).spec_height(),
            final(self).wf(),
    {
        let i = self.linear_index(x, y);
        self.words.set(i, pack(color));
    }

    /// The checked form of [`RgbBuffer::set_pixel`]: validates the position
    /// first. On a valid position it writes the pixel and returns `Ok`; on an
    /// invalid one it mutates nothing and reports
    /// `InvalidPosition(x, y)`.
    pub fn try_set_pixel(&mut self, x: usize, y: usize, color: Color) -> (r: Result<
        (),
        RgbBufferError,
    >)
        requires
            old(self).wf(),
        ensures
            final(self).wf(),
            final(self).spec_width() == old(self).spec_width(),
            final(self).spec_height() == old(self).spec_height(),
            old(self).valid_position(x as int, y as int) ==> {
                &&& r is Ok
                &&& final(self)@ == old(self)@.update(
                    old(self).index_of(x as int, y as int),
                    packed_of(color),
                )
            },
            !old(self).valid_position(x as int, y as int) ==> {
                &&& r == Err::<(), RgbBufferError>(RgbBufferError::InvalidPosition(x, y))
                &&& final(self)@ == old(self)@
            },
    {
        if self.is_valid_position(x, y) {
            self.set_pixel(x, y, color);
            Ok(())
        } else {
            Err(RgbBufferError::InvalidPosition(x, y))
        }
    }

    /// Every listed position addresses a pixel of the grid.
    pub open spec fn all_valid(&self, positions: Seq<(usize, usize)>) -> bool {
        forall|i: int|
            0 <= i < positions.len() ==> {
                let p = #[trigger] positions[i];
                self.valid_position(p.0 as int, p.1 as int)
            }
    }

    /// Writes `color` at each listed position, in list order, and changes no
    /// other word. Trusts the caller that every position is valid; the
    /// checked form is [`RgbBuffer::try_set_pixels`].
    pub fn set_pixels(&mut self, positions: &[(usize, usize)], color: Color)
        requires
            old(self).wf(),
            old(self).all_valid(positions@),
        ensures
            final(self).wf(),
            final(self).spec_width() == old(self).spec_width(),
            final(self).spec_height() == old(self).spec_height(),
            final(self)@ == pixels_written(
                old(self)@,
                old(self).spec_width() as int,
                positions_view(positions@),
                color,
            ),
    {
        let ghost wg = self.spec_width() as int;
        let ghost pv = positions_view(positions@);
        let n: usize = positions.len();
        let mut j: usize = 0;
        while j < n
            invariant
                j <= n,
                n == positions@.len(),
                self.wf(),
                self.spec_width() == old(self).spec_width(),
                self.spec_height() == old(self).spec_height(),
                self@.len() == old(self)@.len(),
                old(self).all_valid(positions@),
                wg == old(self).spec_width() as int,
                pv == positions_view(positions@),
                self@ == pixels_written(old(self)@, wg, pv.take(j as int), color),
            decreases n - j,
        {
            let (px, py) = positions[j];
            proof {
                let p = positions@[j as int];
                assert(self.valid_position(p.0 as int, p.1 as int));
            }
            self.set_pixel(px, py, color);
            proof {
                assert(pv.take(j as int + 1) =~= pv.take(j as int).push(pv[j as int]));
                lemma_pixels_written_push(old(self)@, wg, pv.take(j as int), pv[j as int], color);
            }
            j = j + 1;
        }
        proof {
            assert(pv.take(n as int) =~= pv);
        }
    }

    /// The checked form of [`RgbBuffer::set_pixels`]: validates every listed
    /// position before mutating anything. When all are valid it writes them
    /// all and returns `Ok`; when any is not, it writes nothing at all and
    /// reports the first invalid position in list order.
    pub fn try_set_pixels(&mut self, positions: &[(usize, usize)], color: Color) -> (r: Result<
        (),
        RgbBufferError,
    >)
        requires
            old(self).wf(),
        ensures
            final(self).wf(),
            final(self).spec_width() == old(self).spec_width(),
            final(self).spec_height() == old(self).spec_height(),
            old(self).all_valid(positions@) ==> {
                &&& r is Ok
                &&& final(self)@ == pixels_written(
                    old(self)@,
                    old(self).spec_width() as int,
                    positions_view(positions@),
                    color,
                )
            },
            !old(self).all_valid(positions@) ==> {
                &&& final(self)@ == old(self)@
                &&& exists|i: int|
                    {
                        let p = #[trigger] positions@[i];
                        &&& 0 <= i < positions@.len()
                        &&& !old(self).valid_position(p.0 as int, p.1 as int)
                        &&& (forall|j: int|
                            0 <= j < i ==> {
                                let q = #[trigger] positions@[j];
                                old(self).valid_position(q.0 as int, q.1 as int)
                            })
                        &&& r == Err::<(), RgbBufferError>(
                            RgbBufferError::InvalidPosition(p.0, p.1),
                        )
                    }
            },
    {
        let n: usize = positions.len();
        let mut j: usize = 0;
        while j < n
            invariant
                j <= n,
                n == positions@.len(),
                self@ == old(self)@,
                self.spec_width() == old(self).spec_width(),
                self.spec_height() == old(self).spec_height(),
                self.wf(),
                forall|i: int|
                    0 <= i < j ==> {
                        let q = #[trigger] positions@[i];
                        old(self).valid_position(q.0 as int, q.1 as int)
                    },
            decreases n - j,
        {
            let (px, py) = positions[j];
            if !self.is_valid_position(px, py) {
                proof {
                    let p = positions@[j as int];
                    assert(!old(self).valid_position(p.0 as int, p.1 as int));
                    assert(!old(self).all_valid(positions@));
                }
                return Err(RgbBufferError::InvalidPosition(px, py));
            }
            j = j + 1;
        }
        assert(self.all_valid(positions@));
        self.set_pixels(positions, color);
        Ok(())
    }

    /// Writes `color`'s packed word into the `w` consecutive store words that
    /// hold row `y`'s pixels `x .. x + w`: the contiguous run a rectangle
    /// fill decomposes into, one per row.
    fn fill_row(&mut self, x: usize, y: usize, w: usize, color: Color)
        requires
            old(self).wf(),
            y < old(self).spec_height(),
            x + w <= old(self).spec_width(),
        ensures
            final(self).wf(),
            final(self).spec_width() == old(self).spec_width(),
            final(self).spec_height() == old(self).spec_height(),
            final(self)@.len() == old(self)@.len(),
            forall|k: int|
                0 <= k < old(self)@.len() ==> final(self)@[k] == (if old(self).index_of(
                    x as int,
                    y as int,
                ) <= k < old(self).index_of(x as int, y as int) + w {
                    packed_of(color)
                } else {
                    old(self)@[k]
                }),
    {
        proof {
            lemma_row_in_range(
                self.spec_width() as int,
                self.spec_height() as int,
                x as int,
                y as int,
                w as int,
            );
        }
        // The store's length is itself a usize, so the row's indices, which
        // lie under it, fit the machine word.
        let _n: usize = self.words.len();
        let word = pack(color);
        let base: usize = y * self.width + x;
        let ghost wg = self.spec_width() as int;
        let mut i: usize = 0;
        while i < w
            invariant
                i <= w,
                base == grid_index(wg, x as int, y as int),
                base + w <= self@.len(),
                base + w <= usize::MAX,
                self@.len() == old(self)@.len(),
                self.spec_width() == old(self).spec_width(),
                self.spec_height() == old(self).spec_height(),
                wg == old(self).spec_width() as int,
                word == packed_of(color),
                forall|k: int|
                    0 <= k < self@.len() ==> self@[k] == (if base <= k < base + i {
                        packed_of(color)
                    } else {
                        old(self)@[k]
                    }),
            decreases w - i,
        {
            self.words.set(base + i, word);
            i = i + 1;
        }
    }

    /// Fills the rectangle with top-left corner `(x, y)`, width `w` and
    /// height `h`: every pixel `(px, py)` with `x <= px < x + w` and
    /// `y <= py < y + h` takes `color`, every other word of the store is
    /// unchanged. Writes one contiguous run of store words per row rather
    /// than one word per pixel. Trusts the caller that the rectangle lies
    /// inside the grid; the checked form is
    /// [`RgbBuffer::try_fill_rectangle`].
    pub fn fill_rectangle(&mut self, x: usize, y: usize, w: usize, h: usize, color: Color)
        requires
            old(self).wf(),
            old(self).valid_rect(x as int, y as int, w as int, h as int),
        ensures
            final(self).wf(),
            final(self).spec_width() == old(self).spec_width(),
            final(self).spec_height() == old(self).spec_height(),
            final(self)@ == rect_filled(
                old(self)@,
                old(self).spec_width() as int,
                x as int,
                y as int,
                w as int,
                h as int,
                color,
            ),
    {
        let ghost wg = self.spec_width() as int;
        proof {
            assert(self@ =~= rect_filled(old(self)@, wg, x as int, y as int, w as int, 0, color));
        }
        let mut row: usize = 0;
        while row < h
            invariant
                row <= h,
                self.wf(),
                self.spec_width() == old(self).spec_width(),
                self.spec_height() == old(self).spec_height(),
                self@.len() == old(self)@.len(),
                wg == old(self).spec_width() as int,
                x + w <= old(self).spec_width(),
                y + h <= old(self).spec_height(),
                self@ == rect_filled(old(self)@, wg, x as int, y as int, w as int, row as int, color),
            decreases h - row,
        {
            self.fill_row(x, y + row, w, color);
            proof {
                assert forall|k: int| 0 <= k < old(self)@.len() implies self@[k] == (if rect_hits(
                    wg,
                    x as int,
                    y as int,
                    w as int,
                    row as int + 1,
                    k,
                ) {
                    packed_of(color)
                } else {
                    old(self)@[k]
                }) by {
                    lemma_rect_hits_extend(wg, x as int, y as int, w as int, row as int, k);
                };
                assert(self@ =~= rect_filled(
                    old(self)@,
                    wg,
                    x as int,
                    y as int,
                    w as int,
                    row as int + 1,
                    color,
                ));
            }
            row = row + 1;
        }
    }

    /// The checked form of [`RgbBuffer::fill_rectangle`]: validates the
    /// rectangle's two corners before mutating anything. On a rectangle that
    /// lies inside the grid it fills and returns `Ok`; otherwise it mutates
    /// nothing and reports the first offending corner: the top-left `(x, y)`
    /// when that already lies outside the closed grid, else the far corner
    /// `(x + w, y + h)`, each reported coordinate clamped to `usize::MAX`
    /// when its true value exceeds it.
    pub fn try_fill_rectangle(
        &mut self,
        x: usize,
        y: usize,
        w: usize,
        h: usize,
        color: Color,
    ) -> (r: Result<(), RgbBufferError>)
        requires
            old(self).wf(),
        ensures
            final(self).wf(),
            final(self).spec_width() == old(self).spec_width(),
            final(self).spec_height() == old(self).spec_height(),
            old(self).valid_rect(x as int, y as int, w as int, h as int) ==> {
                &&& r is Ok
                &&& final(self)@ == rect_filled(
                    old(self)@,
                    old(self).spec_width() as int,
                    x as int,
                    y as int,
                    w as int,
                    h as int,
                    color,
                )
            },
            !old(self).valid_corner(x as int, y as int) ==> {
                &&& r == Err::<(), RgbBufferError>(RgbBufferError::InvalidPosition(x, y))
                &&& final(self)@ == old(self)@
            },
            (old(self).valid_corner(x as int, y as int) && !old(self).valid_rect(
                x as int,
                y as int,
                w as int,
                h as int,
            )) ==> {
                &&& r == Err::<(), RgbBufferError>(
                    RgbBufferError::InvalidPosition(
                        clamped_usize(x as int + w as int),
                        clamped_usize(y as int + h as int),
                    ),
                )
                &&& final(self)@ == old(self)@
            },
    {
        if x > self.width || y > self.height {
            return Err(RgbBufferError::InvalidPosition(x, y));
        }
        if w > self.width - x || h > self.height - y {
            return Err(
                RgbBufferError::InvalidPosition(x.saturating_add(w), y.saturating_add(h)),
            );
        }
        self.fill_rectangle(x, y, w, h, color);
        Ok(())
    }

    /// Writes `color` into every pixel of the grid: all `width * height`
    /// positions, which is the store's whole extent, so there is nothing to
    /// validate. Works directly on the flat view, one packed word per pixel.
    pub fn fill(&mut self, color: Color)
        requires
            old(self).wf(),
        ensures
            final(self).wf(),
            final(self).spec_width() == old(self).spec_width(),
            final(self).spec_height() == old(self).spec_height(),
            final(self)@ == filled(old(self)@, color),
    {
        let word = pack(color);
        let n: usize = self.words.len();
        let mut i: usize = 0;
        while i < n
            invariant
                i <= n,
                n == self@.len(),
                self@.len() == old(self)@.len(),
                self.spec_width() == old(self).spec_width(),
                self.spec_height() == old(self).spec_height(),
                word == packed_of(color),
                forall|k: int| 0 <= k < i ==> self@[k] == packed_of(color),
                forall|k: int| i <= k < n ==> self@[k] == old(self)@[k],
            decreases n - i,
        {
            self.words.set(i, word);
            i = i + 1;
        }
        proof {
            assert(self@ =~= filled(old(self)@, color));
        }
    }
}

/// Aliasing correctness: a pixel write at a valid position leaves the
/// colour's little-endian packed encoding in the flat view's word at that
/// position's linear index, and decoding that word through the grid view
/// gives the colour's four bytes back unchanged.
pub proof fn lemma_pixel_write_aliases(buf: RgbBuffer, x: int, y: int, c: Color)
    requires
        buf.wf(),
        buf.valid_position(x, y),
    ensures
        pixel_written(buf@, buf.spec_width() as int, x, y, c)[buf.index_of(x, y)] == packed_of(c),
        group_of(pixel_written(buf@, buf.spec_width() as int, x, y, c)[buf.index_of(x, y)]) == c@,
{
    lemma_grid_index_in_range(buf.spec_width() as int, buf.spec_height() as int, x, y);
    lemma_group_of_packed(c);
}

} // verus!
