//! The dimensions of the output image and the order in which its pixels leave.
//!
//! World space has its y axis pointing up, the raster has its first row on top:
//! pixels leave row by row from the highest row index down to row 0, and from
//! column 0 rightwards within a row.

use vstd::prelude::*;
use vstd::arithmetic::div_mod::*;
use crate::error::ConfigError;

verus! {

/// Width and height of an image in pixels, each at least 2.
#[derive(Clone, Copy, Debug)]
pub struct ImageSize {
    width: u32,
    height: u32,
}

/// The height that a width and an aspect ratio `ratio_width : ratio_height`
/// call for: `width / (ratio_width / ratio_height)`, rounded towards zero.
pub open spec fn height_for(width: int, ratio_width: int, ratio_height: int) -> int {
    (width * ratio_height) / ratio_width
}

impl ImageSize {
    /// The number of columns.
    pub closed spec fn spec_width(&self) -> u32 {
        self.width
    }

    /// The number of rows.
    pub closed spec fn spec_height(&self) -> u32 {
        self.height
    }

    /// Both dimensions leave room for the division by `width - 1` and
    /// `height - 1` that maps a pixel to the image plane. Every size that a
    /// program holds is such.
    #[verifier::type_invariant]
    pub open spec fn wf(&self) -> bool {
        self.width() >= 2 && self.height() >= 2
    }

    /// The number of pixels.
    pub open spec fn pixel_count(&self) -> int {
        self.width() * self.height()
    }

    /// The column of the pixel that leaves as number `k`, counting from 0.
    pub open spec fn column_of(&self, k: int) -> int {
        k % (self.width() as int)
    }

    /// The row of the pixel that leaves as number `k`, counting from 0.
    pub open spec fn row_of(&self, k: int) -> int {
        self.height() - 1 - k / (self.width() as int)
    }

    /// The number under which the pixel at `column`, `row` leaves.
    pub open spec fn index_of(&self, column: int, row: int) -> int {
        (self.height() - 1 - row) * self.width() + column
    }

    /// An image of `width` by `height` pixels.
    pub fn new(width: u32, height: u32) -> (r: Result<ImageSize, ConfigError>)
        ensures
            r is Ok <==> width >= 2 && height >= 2,
            r matches Ok(size) ==> size.wf() && size.width() == width && size.height() == height,
            r matches Err(e) ==> e == (if width < 2 {
                ConfigError::WidthTooSmall
            } else {
                ConfigError::HeightTooSmall
            }),
    {
        if width < 2 {
            Err(ConfigError::WidthTooSmall)
        } else if height < 2 {
            Err(ConfigError::HeightTooSmall)
        } else {
            Ok(ImageSize { width, height })
        }
    }

    /// An image of the given width whose height follows from the aspect ratio
    /// `ratio_width : ratio_height`.
    pub fn with_aspect_ratio(width: u32, ratio_width: u32, ratio_height: u32) -> (r: Result<
        ImageSize,
        ConfigError,
    >)
        ensures
            r is Ok <==> ratio_width > 0 && ratio_height > 0 && width >= 2 && 2 <= height_for(
                width as int,
                ratio_width as int,
                ratio_height as int,
            ) <= u32::MAX,
            r matches Ok(size) ==> size.wf() && size.width() == width && size.height()
                == height_for(width as int, ratio_width as int, ratio_height as int),
            r matches Err(e) ==> e == (if ratio_width == 0 || ratio_height == 0 {
                ConfigError::AspectRatioNotPositive
            } else if width < 2 {
                ConfigError::WidthTooSmall
            } else if height_for(width as int, ratio_width as int, ratio_height as int) < 2 {
                ConfigError::HeightTooSmall
            } else {
                ConfigError::HeightTooLarge
            }),
    {
        if ratio_width == 0 || ratio_height == 0 {
            return Err(ConfigError::AspectRatioNotPositive);
        }
        if width < 2 {
            return Err(ConfigError::WidthTooSmall);
        }
        assert(width * ratio_height <= u64::MAX) by (nonlinear_arith)
            requires
                width <= u32::MAX,
                ratio_height <= u32::MAX,
        ;
        let scaled: u64 = width as u64 * ratio_height as u64;
        let height: u64 = scaled / ratio_width as u64;
        if height < 2 {
            Err(ConfigError::HeightTooSmall)
        } else if height > u32::MAX as u64 {
            Err(ConfigError::HeightTooLarge)
        } else {
            Ok(ImageSize { width, height: height as u32 })
        }
    }

    /// The number of columns.
    #[verifier::when_used_as_spec(spec_width)]
    pub fn width(&self) -> (w: u32)
        ensures
            w == self.width(),
            w >= 2,
    {
        proof {
            use_type_invariant(self);
        }
        self.width
    }

    /// The number of rows.
    #[verifier::when_used_as_spec(spec_height)]
    pub fn height(&self) -> (h: u32)
        ensures
            h == self.height(),
            h >= 2,
    {
        proof {
            use_type_invariant(self);
        }
        self.height
    }

    /// The number of pixels.
    pub fn count(&self) -> (n: u64)
        ensures
            n == self.pixel_count(),
            n >= 4,
    {
        proof {
            use_type_invariant(self);
        }
        assert(4 <= self.width * self.height <= u64::MAX) by (nonlinear_arith)
            requires
                2 <= self.width <= u32::MAX,
                2 <= self.height <= u32::MAX,
        ;
        self.width as u64 * self.height as u64
    }

    /// Column and row of the pixel that leaves as number `k`; `None` from
    /// `pixel_count()` on.
    pub fn pixel_at(&self, k: u64) -> (p: Option<(u32, u32)>)
        ensures
            p is Some <==> k < self.pixel_count(),
            p matches Some((column, row)) ==> column == self.column_of(k as int) && row
                == self.row_of(k as int) && column < self.width() && row < self.height(),
    {
        proof {
            use_type_invariant(self);
        }
        if k >= self.count() {
            return None;
        }
        let w: u64 = self.width as u64;
        let column: u64 = k % w;
        let down: u64 = k / w;
        proof {
            lemma_raster_in_range(*self, k as int);
        }
        Some((column as u32, self.height - 1 - down as u32))
    }

    /// The number under which the pixel at `column`, `row` leaves; `None` for a
    /// place outside the image.
    pub fn position_of(&self, column: u32, row: u32) -> (k: Option<u64>)
        ensures
            k is Some <==> column < self.width() && row < self.height(),
            k matches Some(n) ==> n == self.index_of(column as int, row as int) && n
                < self.pixel_count(),
    {
        proof {
            use_type_invariant(self);
        }
        if column >= self.width || row >= self.height {
            return None;
        }
        proof {
            lemma_index_in_range(*self, column as int, row as int);
        }
        let down: u64 = (self.height - 1 - row) as u64;
        assert(self.width * self.height <= u64::MAX) by (nonlinear_arith)
            requires
                self.width <= u32::MAX,
                self.height <= u32::MAX,
        ;
        assert(0 <= down * self.width) by (nonlinear_arith)
            requires
                0 <= down,
                0 <= self.width,
        ;
        Some(down * self.width as u64 + column as u64)
    }
}

/// Every pixel number below the pixel count names a place inside the image.
pub proof fn lemma_raster_in_range(size: ImageSize, k: int)
    requires
        size.wf(),
        0 <= k < size.pixel_count(),
    ensures
        0 <= size.column_of(k) < size.width(),
        0 <= size.row_of(k) < size.height(),
        0 <= k / (size.width() as int) < size.height(),
{
    let w = size.width() as int;
    let h = size.height() as int;
    lemma_mod_pos_bound(k, w);
    lemma_div_pos_is_pos(k, w);
    lemma_fundamental_div_mod(k, w);
    assert(k / w < h) by (nonlinear_arith)
        requires
            k == w * (k / w) + k % w,
            0 <= k % w,
            k < w * h,
            w > 0,
    ;
}

/// Every place inside the image has a pixel number below the pixel count.
pub proof fn lemma_index_in_range(size: ImageSize, column: int, row: int)
    requires
        size.wf(),
        0 <= column < size.width(),
        0 <= row < size.height(),
    ensures
        0 <= size.index_of(column, row) < size.pixel_count(),
{
    let w = size.width() as int;
    let h = size.height() as int;
    let down = h - 1 - row;
    assert(0 <= down * w && down * w + w <= h * w) by (nonlinear_arith)
        requires
            0 <= down <= h - 1,
            w > 0,
    ;
    assert(h * w == w * h) by (nonlinear_arith);
}

/// Numbering and placing are inverse to each other: the output order visits
/// every pixel of the image exactly once.
pub proof fn lemma_raster_round_trip(size: ImageSize, k: int, column: int, row: int)
    requires
        size.wf(),
    ensures
        0 <= k < size.pixel_count() ==> size.index_of(size.column_of(k), size.row_of(k)) == k,
        0 <= column < size.width() && 0 <= row < size.height() ==> size.column_of(
            size.index_of(column, row),
        ) == column && size.row_of(size.index_of(column, row)) == row,
{
    let w = size.width() as int;
    let h = size.height() as int;
    if 0 <= k < size.pixel_count() {
        lemma_fundamental_div_mod(k, w);
        assert((k / w) * w == w * (k / w)) by (nonlinear_arith);
    }
    if 0 <= column < w && 0 <= row < h {
        let down = h - 1 - row;
        lemma_fundamental_div_mod_converse(down * w + column, w, down, column);
    }
}

/// The top row leaves first and rows leave downwards; within a row the columns
/// leave from left to right.
pub proof fn lemma_raster_order(size: ImageSize, j: int, k: int)
    requires
        size.wf(),
        0 <= j < k < size.pixel_count(),
    ensures
        size.row_of(j) > size.row_of(k) || (size.row_of(j) == size.row_of(k) && size.column_of(j)
            < size.column_of(k)),
        size.row_of(0) == size.height() - 1,
        size.column_of(0) == 0,
        size.row_of(size.pixel_count() - 1) == 0,
        size.column_of(size.pixel_count() - 1) == size.width() - 1,
{
    let w = size.width() as int;
    let h = size.height() as int;
    lemma_fundamental_div_mod(j, w);
    lemma_fundamental_div_mod(k, w);
    lemma_div_is_ordered(j, k, w);
    assert(w * h == (h - 1) * w + (w - 1) + 1) by (nonlinear_arith);
    lemma_fundamental_div_mod_converse(0, w, 0, 0);
    lemma_fundamental_div_mod_converse(w * h - 1, w, h - 1, w - 1);
}

} // verus!
