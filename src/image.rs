//! Pixel-buffer conversions between the NV12, I420, I4xx and MM21 layouts.
//!
//! Planes are described by an offset into a byte buffer, a stride (bytes from
//! the start of one row to the start of the next) and a visible width.
use vstd::prelude::*;
use vstd::arithmetic::div_mod::lemma_fundamental_div_mod_converse;
use byteorder::ByteOrder;
use byteorder::LittleEndian;

verus! {

/// Index of pixel `(x, y)` in a plane that starts at `off` with rows `stride` apart.
pub open spec fn pix(off: int, stride: int, y: int, x: int) -> int {
    off + y * stride + x
}

/// Whether byte `i` lies in one of the first `rows` rows of a plane, within its
/// first `width` columns.
pub open spec fn in_plane(i: int, off: int, stride: int, width: int, rows: int) -> bool {
    &&& off <= i
    &&& (i - off) / stride < rows
    &&& (i - off) % stride < width
}

/// A plane of `rows` rows of `width` bytes fits in a buffer of `len` bytes.
pub open spec fn plane_fits(len: int, off: int, stride: int, width: int, rows: int) -> bool {
    rows > 0 ==> off + (rows - 1) * stride + width <= len
}

/// `new` is `old` with `rows` rows of `width` bytes copied in from `src`, and
/// every other byte left as it was.
pub open spec fn plane_copied(
    new: Seq<u8>,
    old: Seq<u8>,
    src: Seq<u8>,
    src_off: int,
    src_stride: int,
    dst_off: int,
    dst_stride: int,
    width: int,
    rows: int,
) -> bool {
    &&& new.len() == old.len()
    &&& forall|y: int, x: int|
        0 <= y < rows && 0 <= x < width ==> new[#[trigger] pix(dst_off, dst_stride, y, x)]
            == src[pix(src_off, src_stride, y, x)]
    &&& forall|i: int|
        0 <= i < old.len() && !in_plane(i, dst_off, dst_stride, width, rows) ==> new[i] == old[i]
}

proof fn lemma_pix_coords(off: int, stride: int, y: int, x: int)
    requires
        0 <= x < stride,
        0 <= y,
    ensures
        (pix(off, stride, y, x) - off) / stride == y,
        (pix(off, stride, y, x) - off) % stride == x,
{
    lemma_fundamental_div_mod_converse(y * stride + x, stride, y, x);
}

proof fn lemma_row_in_bounds(off: int, stride: int, width: int, rows: int, y: int, x: int)
    requires
        0 <= y < rows,
        0 <= x < width,
        0 <= stride,
        0 <= off,
    ensures
        pix(off, stride, y, x) < off + (rows - 1) * stride + width,
        0 <= pix(off, stride, y, x),
{
    assert(y * stride <= (rows - 1) * stride) by (nonlinear_arith)
        requires
            y <= rows - 1,
            0 <= stride,
    ;
    assert(0 <= y * stride) by (nonlinear_arith)
        requires
            0 <= y,
            0 <= stride,
    ;
}

/// Copies `rows` rows of `width` bytes from one plane into another.
fn copy_plane(
    src: &[u8],
    src_off: usize,
    src_stride: usize,
    dst: &mut [u8],
    dst_off: usize,
    dst_stride: usize,
    width: usize,
    rows: usize,
)
    requires
        0 < dst_stride,
        width <= dst_stride,
        plane_fits(src@.len() as int, src_off as int, src_stride as int, width as int, rows as int),
        plane_fits(old(dst)@.len() as int, dst_off as int, dst_stride as int, width as int, rows as int),
    ensures
        plane_copied(
            final(dst)@,
            old(dst)@,
            src@,
            src_off as int,
            src_stride as int,
            dst_off as int,
            dst_stride as int,
            width as int,
            rows as int,
        ),
{
    let ghost d0 = dst@;
    let src_len = src.len();
    let dst_len = dst.len();
    let mut y: usize = 0;
    while y < rows
        invariant
            y <= rows,
            src_len == src@.len(),
            dst_len == d0.len(),
            0 < dst_stride,
            width <= dst_stride,
            plane_fits(src@.len() as int, src_off as int, src_stride as int, width as int, rows as int),
            plane_fits(d0.len() as int, dst_off as int, dst_stride as int, width as int, rows as int),
            dst@.len() == d0.len(),
            forall|yy: int, x: int|
                0 <= yy < y && 0 <= x < width ==> dst@[#[trigger] pix(
                    dst_off as int,
                    dst_stride as int,
                    yy,
                    x,
                )] == src@[pix(src_off as int, src_stride as int, yy, x)],
            forall|i: int|
                0 <= i < d0.len() && !in_plane(
                    i,
                    dst_off as int,
                    dst_stride as int,
                    width as int,
                    y as int,
                ) ==> dst@[i] == d0[i],
        decreases rows - y,
    {
        let mut x: usize = 0;
        while x < width
            invariant
                y < rows,
                x <= width,
                src_len == src@.len(),
            dst_len == d0.len(),
                0 < dst_stride,
                width <= dst_stride,
                plane_fits(src@.len() as int, src_off as int, src_stride as int, width as int, rows as int),
                plane_fits(d0.len() as int, dst_off as int, dst_stride as int, width as int, rows as int),
                dst@.len() == d0.len(),
                forall|yy: int, xx: int|
                    0 <= yy < y && 0 <= xx < width ==> dst@[#[trigger] pix(
                        dst_off as int,
                        dst_stride as int,
                        yy,
                        xx,
                    )] == src@[pix(src_off as int, src_stride as int, yy, xx)],
                forall|xx: int|
                    0 <= xx < x ==> dst@[#[trigger] pix(dst_off as int, dst_stride as int, y as int, xx)]
                        == src@[pix(src_off as int, src_stride as int, y as int, xx)],
                forall|i: int|
                    0 <= i < d0.len() && !in_plane(
                        i,
                        dst_off as int,
                        dst_stride as int,
                        width as int,
                        y as int,
                    ) && !(dst_off + y * dst_stride <= i < dst_off + y * dst_stride + x) ==> dst@[i]
                        == d0[i],
            decreases width - x,
        {
            proof {
                lemma_row_in_bounds(src_off as int, src_stride as int, width as int, rows as int, y as int, x as int);
                lemma_row_in_bounds(dst_off as int, dst_stride as int, width as int, rows as int, y as int, x as int);
            }
            let s = src_off + y * src_stride + x;
            let d = dst_off + y * dst_stride + x;
            let ghost before = dst@;
            dst[d] = src[s];
            proof {
                assert(dst@ == before.update(d as int, src@[s as int]));
                assert forall|yy: int, xx: int|
                    0 <= yy < y && 0 <= xx < width implies dst@[#[trigger] pix(
                        dst_off as int,
                        dst_stride as int,
                        yy,
                        xx,
                    )] == src@[pix(src_off as int, src_stride as int, yy, xx)] by {
                    lemma_pix_coords(dst_off as int, dst_stride as int, yy, xx);
                    lemma_pix_coords(dst_off as int, dst_stride as int, y as int, x as int);
                    assert(pix(dst_off as int, dst_stride as int, yy, xx) != d as int);
                    lemma_row_in_bounds(dst_off as int, dst_stride as int, width as int, rows as int, yy, xx);
                    assert(before[pix(dst_off as int, dst_stride as int, yy, xx)]
                        == src@[pix(src_off as int, src_stride as int, yy, xx)]);
                }
            }
            x = x + 1;
        }
        proof {
            assert forall|i: int|
                0 <= i < d0.len() && !in_plane(
                    i,
                    dst_off as int,
                    dst_stride as int,
                    width as int,
                    y + 1,
                ) implies dst@[i] == d0[i] by {
                if dst_off + y * dst_stride <= i < dst_off + y * dst_stride + width {
                    lemma_pix_coords(dst_off as int, dst_stride as int, y as int, i - dst_off - y * dst_stride);
                }
            }
        }
        y = y + 1;
    }
}

/// Copies `src` into `dst` as NV12, handling padding.
pub fn nv12_copy(
    src_y: &[u8],
    src_y_stride: usize,
    dst_y: &mut [u8],
    dst_y_stride: usize,
    src_uv: &[u8],
    src_uv_stride: usize,
    dst_uv: &mut [u8],
    dst_uv_stride: usize,
    width: usize,
    height: usize,
)
    requires
        0 < dst_y_stride,
        0 < dst_uv_stride,
        width <= dst_y_stride,
        width <= dst_uv_stride,
        plane_fits(src_y@.len() as int, 0, src_y_stride as int, width as int, height as int),
        plane_fits(old(dst_y)@.len() as int, 0, dst_y_stride as int, width as int, height as int),
        plane_fits(src_uv@.len() as int, 0, src_uv_stride as int, width as int, (height / 2) as int),
        plane_fits(old(dst_uv)@.len() as int, 0, dst_uv_stride as int, width as int, (height / 2) as int),
    ensures
        plane_copied(
            final(dst_y)@,
            old(dst_y)@,
            src_y@,
            0,
            src_y_stride as int,
            0,
            dst_y_stride as int,
            width as int,
            height as int,
        ),
        plane_copied(
            final(dst_uv)@,
            old(dst_uv)@,
            src_uv@,
            0,
            src_uv_stride as int,
            0,
            dst_uv_stride as int,
            width as int,
            (height / 2) as int,
        ),
{
    copy_plane(src_y, 0, src_y_stride, dst_y, 0, dst_y_stride, width, height);
    copy_plane(src_uv, 0, src_uv_stride, dst_uv, 0, dst_uv_stride, width, height / 2);
}

/// Copies all of `src` into `dst`, which has the same length.
fn copy_all(src: &[u8], dst: &mut [u8])
    requires
        src@.len() == old(dst)@.len(),
    ensures
        final(dst)@ == src@,
{
    let n = src.len();
    let mut i: usize = 0;
    while i < n
        invariant
            n == src@.len(),
            dst@.len() == n,
            i <= n,
            forall|j: int| 0 <= j < i ==> dst@[j] == src@[j],
        decreases n - i,
    {
        dst[i] = src[i];
        i = i + 1;
    }
    assert(dst@ =~= src@);
}

/// The U plane of NV12 chroma: the bytes at even positions.
pub open spec fn even_bytes(s: Seq<u8>) -> Seq<u8> {
    Seq::new(((s.len() + 1) / 2) as nat, |j: int| s[2 * j])
}

/// The V plane of NV12 chroma: the bytes at odd positions.
pub open spec fn odd_bytes(s: Seq<u8>) -> Seq<u8> {
    Seq::new((s.len() / 2) as nat, |j: int| s[2 * j + 1])
}

/// Interleaves `u` and `v` into `n` bytes: `u[0], v[0], u[1], v[1], ...`.
pub open spec fn interleaved(u: Seq<u8>, v: Seq<u8>, n: int) -> Seq<u8> {
    Seq::new(n as nat, |i: int| if i % 2 == 0 { u[i / 2] } else { v[i / 2] })
}

/// Splits interleaved NV12 chroma into separate U and V planes.
pub fn nv12_to_i420_chroma(src_uv: &[u8], dst_u: &mut [u8], dst_v: &mut [u8])
    requires
        old(dst_u)@.len() >= (src_uv@.len() + 1) / 2,
        old(dst_v)@.len() >= src_uv@.len() / 2,
    ensures
        final(dst_u)@ == even_bytes(src_uv@) + old(dst_u)@.subrange(
            ((src_uv@.len() + 1) / 2) as int,
            old(dst_u)@.len() as int,
        ),
        final(dst_v)@ == odd_bytes(src_uv@) + old(dst_v)@.subrange(
            (src_uv@.len() / 2) as int,
            old(dst_v)@.len() as int,
        ),
{
    let ghost u0 = dst_u@;
    let ghost v0 = dst_v@;
    let n = src_uv.len();
    let mut i: usize = 0;
    while i < n
        invariant
            n == src_uv@.len(),
            i <= n,
            u0.len() >= (n + 1) / 2,
            v0.len() >= n / 2,
            dst_u@.len() == u0.len(),
            dst_v@.len() == v0.len(),
            forall|j: int| 0 <= j < (i + 1) / 2 ==> dst_u@[j] == src_uv@[2 * j],
            forall|j: int| (i + 1) / 2 <= j < u0.len() ==> dst_u@[j] == u0[j],
            forall|j: int| 0 <= j < i / 2 ==> dst_v@[j] == src_uv@[2 * j + 1],
            forall|j: int| i / 2 <= j < v0.len() ==> dst_v@[j] == v0[j],
        decreases n - i,
    {
        if i % 2 == 0 {
            dst_u[i / 2] = src_uv[i];
        } else {
            dst_v[i / 2] = src_uv[i];
        }
        i = i + 1;
    }
    assert(dst_u@ =~= even_bytes(src_uv@) + u0.subrange(((n + 1) / 2) as int, u0.len() as int));
    assert(dst_v@ =~= odd_bytes(src_uv@) + v0.subrange((n / 2) as int, v0.len() as int));
}

/// Converts NV12 to I420: the luma plane is copied and the chroma split.
pub fn nv12_to_i420(
    src_y: &[u8],
    dst_y: &mut [u8],
    src_uv: &[u8],
    dst_u: &mut [u8],
    dst_v: &mut [u8],
)
    requires
        src_y@.len() == old(dst_y)@.len(),
        old(dst_u)@.len() >= (src_uv@.len() + 1) / 2,
        old(dst_v)@.len() >= src_uv@.len() / 2,
    ensures
        final(dst_y)@ == src_y@,
        final(dst_u)@ == even_bytes(src_uv@) + old(dst_u)@.subrange(
            ((src_uv@.len() + 1) / 2) as int,
            old(dst_u)@.len() as int,
        ),
        final(dst_v)@ == odd_bytes(src_uv@) + old(dst_v)@.subrange(
            (src_uv@.len() / 2) as int,
            old(dst_v)@.len() as int,
        ),
{
    copy_all(src_y, dst_y);
    nv12_to_i420_chroma(src_uv, dst_u, dst_v);
}

/// Interleaves separate U and V planes into NV12 chroma.
pub fn i420_to_nv12_chroma(src_u: &[u8], src_v: &[u8], dst_uv: &mut [u8])
    requires
        src_u@.len() >= (old(dst_uv)@.len() + 1) / 2,
        src_v@.len() >= old(dst_uv)@.len() / 2,
    ensures
        final(dst_uv)@ == interleaved(src_u@, src_v@, old(dst_uv)@.len() as int),
{
    let n = dst_uv.len();
    let mut i: usize = 0;
    while i < n
        invariant
            n == dst_uv@.len(),
            i <= n,
            src_u@.len() >= (n + 1) / 2,
            src_v@.len() >= n / 2,
            forall|j: int|
                0 <= j < i ==> dst_uv@[j] == if j % 2 == 0 {
                    src_u@[j / 2]
                } else {
                    src_v@[j / 2]
                },
        decreases n - i,
    {
        if i % 2 == 0 {
            dst_uv[i] = src_u[i / 2];
        } else {
            dst_uv[i] = src_v[i / 2];
        }
        i = i + 1;
    }
    assert(dst_uv@ =~= interleaved(src_u@, src_v@, n as int));
}

/// Converts I420 to NV12: the luma plane is copied and the chroma interleaved.
pub fn i420_to_nv12(src_y: &[u8], dst_y: &mut [u8], src_u: &[u8], src_v: &[u8], dst_uv: &mut [u8])
    requires
        src_y@.len() == old(dst_y)@.len(),
        src_u@.len() >= (old(dst_uv)@.len() + 1) / 2,
        src_v@.len() >= old(dst_uv)@.len() / 2,
    ensures
        final(dst_y)@ == src_y@,
        final(dst_uv)@ == interleaved(src_u@, src_v@, old(dst_uv)@.len() as int),
{
    copy_all(src_y, dst_y);
    i420_to_nv12_chroma(src_u, src_v, dst_uv);
}

/// Size of a chroma dimension: halved, rounding up, when sub-sampled.
pub open spec fn chroma_dim(n: int, sub: bool) -> int {
    if sub {
        (n + 1) / 2
    } else {
        n
    }
}

/// Copies `src` into `dst` as I4xx (YUV tri-planar).
///
/// `strides` and `offsets` give the stride and starting position of each
/// plane in `src`. In `dst` the planes are put one after the other without
/// padding. `sub.0` and `sub.1` select horizontal and vertical chroma
/// sub-sampling: both give 4:2:0, only the vertical one 4:2:2, neither 4:4:4.
pub fn i4xx_copy(
    src: &[u8],
    dst: &mut [u8],
    width: usize,
    height: usize,
    strides: [usize; 3],
    offsets: [usize; 3],
    sub: (bool, bool),
)
    requires
        0 < width,
        width <= strides[0],
        chroma_dim(width as int, sub.0) <= strides[1],
        chroma_dim(width as int, sub.0) <= strides[2],
        offsets[0] <= src@.len(),
        offsets[1] <= src@.len(),
        offsets[2] <= src@.len(),
        plane_fits(src@.len() as int, offsets[0] as int, strides[0] as int, width as int, height as int),
        plane_fits(
            src@.len() as int,
            offsets[1] as int,
            strides[1] as int,
            chroma_dim(width as int, sub.0),
            chroma_dim(height as int, sub.1),
        ),
        plane_fits(
            src@.len() as int,
            offsets[2] as int,
            strides[2] as int,
            chroma_dim(width as int, sub.0),
            chroma_dim(height as int, sub.1),
        ),
        width * height + 2 * chroma_dim(width as int, sub.0) * chroma_dim(height as int, sub.1)
            <= old(dst)@.len(),
    ensures
        final(dst)@.len() == old(dst)@.len(),
        forall|y: int, x: int|
            0 <= y < height && 0 <= x < width ==> final(dst)@[#[trigger] pix(0, width as int, y, x)]
                == src@[pix(offsets[0] as int, strides[0] as int, y, x)],
        forall|y: int, x: int|
            0 <= y < chroma_dim(height as int, sub.1) && 0 <= x < chroma_dim(width as int, sub.0)
                ==> final(dst)@[#[trigger] pix(
                width * height,
                chroma_dim(width as int, sub.0),
                y,
                x,
            )] == src@[pix(offsets[1] as int, strides[1] as int, y, x)],
        forall|y: int, x: int|
            0 <= y < chroma_dim(height as int, sub.1) && 0 <= x < chroma_dim(width as int, sub.0)
                ==> final(dst)@[#[trigger] pix(
                width * height + chroma_dim(width as int, sub.0) * chroma_dim(height as int, sub.1),
                chroma_dim(width as int, sub.0),
                y,
                x,
            )] == src@[pix(offsets[2] as int, strides[2] as int, y, x)],
        forall|i: int|
            width * height + 2 * chroma_dim(width as int, sub.0) * chroma_dim(height as int, sub.1)
                <= i < old(dst)@.len() ==> final(dst)@[i] == old(dst)@[i],
{
    let (sub_h, sub_v) = sub;
    let dst_len = dst.len();
    let uv_width = if sub_h {
        width / 2 + width % 2
    } else {
        width
    };
    let uv_height = if sub_v {
        height / 2 + height % 2
    } else {
        height
    };
    let ghost d0 = dst@;
    assert(uv_width == chroma_dim(width as int, sub.0));
    assert(uv_height == chroma_dim(height as int, sub.1));
    proof {
        assert(0 <= width * height) by (nonlinear_arith)
            requires
                0 <= width,
                0 <= height,
        ;
        assert(0 <= uv_width * uv_height) by (nonlinear_arith)
            requires
                0 <= uv_width,
                0 <= uv_height,
        ;
        assert((height - 1) * width + width == width * height) by (nonlinear_arith);
        assert((uv_height - 1) * uv_width + uv_width == uv_width * uv_height) by (nonlinear_arith);
        assert(uv_width * uv_height + uv_width * uv_height == 2 * uv_width * uv_height)
            by (nonlinear_arith);
    }
    let y_size = width * height;
    let u_size = uv_width * uv_height;

    copy_plane(src, offsets[0], strides[0], dst, 0, width, width, height);
    let ghost d1 = dst@;
    copy_plane(src, offsets[1], strides[1], dst, y_size, uv_width, uv_width, uv_height);
    let ghost d2 = dst@;
    copy_plane(src, offsets[2], strides[2], dst, y_size + u_size, uv_width, uv_width, uv_height);
    proof {
        assert forall|y: int, x: int| 0 <= y < height && 0 <= x < width implies dst@[
            #[trigger] pix(0, width as int, y, x)] == src@[pix(offsets[0] as int, strides[0] as int, y, x)] by {
            lemma_row_in_bounds(0, width as int, width as int, height as int, y, x);
            assert(d1[pix(0, width as int, y, x)] == src@[pix(offsets[0] as int, strides[0] as int, y, x)]);
        }
        assert forall|y: int, x: int|
            0 <= y < uv_height && 0 <= x < uv_width implies dst@[#[trigger] pix(
                y_size as int,
                uv_width as int,
                y,
                x,
            )] == src@[pix(offsets[1] as int, strides[1] as int, y, x)] by {
            lemma_row_in_bounds(y_size as int, uv_width as int, uv_width as int, uv_height as int, y, x);
            assert(d2[pix(y_size as int, uv_width as int, y, x)] == src@[pix(offsets[1] as int, strides[1] as int, y, x)]);
        }
        assert forall|i: int|
            y_size + 2 * u_size <= i < d0.len() implies dst@[i] == d0[i] by {
            assert(!in_plane(i, 0, width as int, width as int, height as int)) by {
                assert((i - 0) / (width as int) >= height) by {
                    vstd::arithmetic::div_mod::lemma_div_is_ordered(width * height, i, width as int);
                    vstd::arithmetic::div_mod::lemma_div_multiples_vanish(height as int, width as int);
                }
            }
            assert(!in_plane(i, y_size as int, uv_width as int, uv_width as int, uv_height as int)) by {
                if uv_width > 0 {
                    assert((i - y_size) / (uv_width as int) >= uv_height) by {
                        vstd::arithmetic::div_mod::lemma_div_is_ordered(uv_width * uv_height, i - y_size, uv_width as int);
                        vstd::arithmetic::div_mod::lemma_div_multiples_vanish(uv_height as int, uv_width as int);
                    }
                }
            }
            assert(!in_plane(i, y_size + u_size, uv_width as int, uv_width as int, uv_height as int)) by {
                if uv_width > 0 {
                    assert((i - y_size - u_size) / (uv_width as int) >= uv_height) by {
                        vstd::arithmetic::div_mod::lemma_div_is_ordered(uv_width * uv_height, i - y_size - u_size, uv_width as int);
                        vstd::arithmetic::div_mod::lemma_div_multiples_vanish(uv_height as int, uv_width as int);
                    }
                }
            }
        }
    }
}

/// Where in a tiled plane the `m`-th run of `tile_width` bytes of the linear
/// plane starts. Tiles of `tile_width` x `tile_height` bytes are stored one
/// after the other, a row of tiles at a time.
pub open spec fn detile_run_start(m: int, width: int, tile_width: int, tile_height: int) -> int {
    let runs = width / tile_width;
    let row = m / runs;
    (row / tile_height) * tile_height * width + (row % tile_height) * tile_width + (m % runs) * (
    tile_width * tile_height)
}

/// Whether `width` x `height` is a whole number of tiles.
pub open spec fn tile_aligned(width: int, height: int, tile_width: int, tile_height: int) -> bool {
    width % tile_width == 0 && height % tile_height == 0
}

/// `new` holds the linear form of the tiled plane `src`, and `old` beyond it.
pub open spec fn detiled(
    new: Seq<u8>,
    old: Seq<u8>,
    src: Seq<u8>,
    width: int,
    height: int,
    tile_width: int,
    tile_height: int,
) -> bool {
    &&& new.len() == old.len()
    &&& forall|m: int, j: int|
        0 <= m < height * (width / tile_width) && 0 <= j < tile_width ==> #[trigger] new[m
            * tile_width + j] == src[detile_run_start(m, width, tile_width, tile_height) + j]
    &&& forall|i: int| width * height <= i < old.len() ==> new[i] == old[i]
}

proof fn lemma_run_bounds(t: int, y: int, k: int, j: int, big_t: int, tw: int, th: int, w: int, h: int)
    requires
        0 <= t < big_t,
        0 <= y < th,
        0 <= j < tw,
        0 <= k < w / tw,
        0 < tw,
        0 < th,
        big_t * th == h,
        (w / tw) * tw == w,
    ensures
        t * th <= h,
        t * th * w <= w * h,
        tw * th <= w * h,
        0 <= t * th * w + y * tw + k * (tw * th) + j,
        t * th * w + y * tw + k * (tw * th) + j < w * h,
        0 <= ((t * th + y) * (w / tw) + k) * tw + j,
        ((t * th + y) * (w / tw) + k) * tw + j < w * h,
        ((t * th + y) * (w / tw) + k) * tw + j == (t * th + y) * w + k * tw + j,
{
    let runs = w / tw;
    assert(y * tw + j < th * tw) by (nonlinear_arith)
        requires
            0 <= y < th,
            0 <= j < tw,
    ;
    assert(k * (tw * th) + th * tw <= runs * tw * th) by (nonlinear_arith)
        requires
            0 <= k < runs,
            0 < tw,
            0 < th,
    ;
    assert(t * th <= h && t * th * w <= w * h && tw * th <= w * h) by (nonlinear_arith)
        requires
            0 <= t < big_t,
            big_t * th == h,
            0 <= w,
            0 < th,
            0 <= k < runs,
            runs * tw == w,
            0 < tw,
    ;
    assert(t * th * w + w * th <= h * w) by (nonlinear_arith)
        requires
            0 <= t < big_t,
            big_t * th == h,
            0 <= w,
            0 < th,
    ;
    assert(runs * tw * th == w * th) by (nonlinear_arith)
        requires
            runs * tw == w,
    ;
    assert(0 <= t * th * w) by (nonlinear_arith)
        requires
            0 <= t,
            0 < th,
            0 <= w,
    ;
    assert(0 <= y * tw && 0 <= k * (tw * th)) by (nonlinear_arith)
        requires
            0 <= y,
            0 < tw,
            0 < th,
            0 <= k,
    ;
    assert(((t * th + y) * runs + k) * tw + j == (t * th + y) * w + k * tw + j) by (nonlinear_arith)
        requires
            runs * tw == w,
    ;
    assert((t * th + y) * w + k * tw + j < w * h) by (nonlinear_arith)
        requires
            0 <= t < big_t,
            big_t * th == h,
            0 <= y < th,
            0 <= k < runs,
            runs * tw == w,
            0 <= j < tw,
    ;
    assert(0 <= (t * th + y) * w + k * tw) by (nonlinear_arith)
        requires
            0 <= t,
            0 <= y,
            0 <= k,
            0 < th,
            0 < tw,
            0 <= w,
    ;
}

proof fn lemma_run_start(t: int, y: int, k: int, tw: int, th: int, w: int)
    requires
        0 <= t,
        0 <= y < th,
        0 <= k < w / tw,
        0 < tw,
        0 < th,
    ensures
        detile_run_start((t * th + y) * (w / tw) + k, w, tw, th) == t * th * w + y * tw + k * (tw
            * th),
{
    let runs = w / tw;
    lemma_fundamental_div_mod_converse((t * th + y) * runs + k, runs, t * th + y, k);
    lemma_fundamental_div_mod_converse(t * th + y, th, t, y);
}

/// Rewrites a plane stored as tiles of `tile_width` x `tile_height` bytes
/// into linear order. Fails, leaving `dst` untouched, when the plane is not a
/// whole number of tiles.
pub fn detile_plane(
    src: &[u8],
    dst: &mut [u8],
    width: usize,
    height: usize,
    tile_width: usize,
    tile_height: usize,
) -> (r: Result<(), String>)
    requires
        0 < tile_width,
        0 < tile_height,
        tile_aligned(width as int, height as int, tile_width as int, tile_height as int) ==> width
            * height <= src@.len() && width * height <= old(dst)@.len(),
    ensures
        r.is_ok() == tile_aligned(width as int, height as int, tile_width as int, tile_height as int),
        r.is_ok() ==> detiled(
            final(dst)@,
            old(dst)@,
            src@,
            width as int,
            height as int,
            tile_width as int,
            tile_height as int,
        ),
        r.is_err() ==> final(dst)@ == old(dst)@,
{
    if width % tile_width != 0 || height % tile_height != 0 {
        return Err("Buffers must be aligned to tile dimensions for detiling".to_owned());
    }
    let ghost d0 = dst@;
    let dst_len = dst.len();
    let src_len = src.len();
    let runs = width / tile_width;
    let tiles_down = height / tile_height;
    proof {
        vstd::arithmetic::div_mod::lemma_fundamental_div_mod(width as int, tile_width as int);
        vstd::arithmetic::div_mod::lemma_fundamental_div_mod(height as int, tile_height as int);
        assert(runs * tile_width == width) by (nonlinear_arith)
            requires
                width == tile_width * ((width as int) / (tile_width as int)) + 0,
                runs == (width as int) / (tile_width as int),
        ;
        assert(tiles_down * tile_height == height) by (nonlinear_arith)
            requires
                height == tile_height * ((height as int) / (tile_height as int)) + 0,
                tiles_down == (height as int) / (tile_height as int),
        ;
    }
    let mut output_idx: usize = 0;
    let ghost mut m: int = 0;
    let mut t: usize = 0;
    assert(m == t * tile_height * runs) by (nonlinear_arith)
        requires
            m == 0,
            t == 0,
    ;
    while t < tiles_down
        invariant
            dst_len == d0.len(),
            src_len == src@.len(),
            width * height <= src_len,
            width * height <= dst_len,
            0 < tile_width,
            0 < tile_height,
            runs == (width as int) / (tile_width as int),
            runs * tile_width == width,
            tiles_down * tile_height == height,
            t <= tiles_down,
            m == t * tile_height * runs,
            output_idx == m * tile_width,
            dst@.len() == d0.len(),
            forall|mm: int, j: int|
                0 <= mm < m && 0 <= j < tile_width ==> #[trigger] dst@[mm * tile_width + j]
                    == src@[detile_run_start(mm, width as int, tile_width as int, tile_height as int) + j],
            forall|i: int| m * tile_width <= i < d0.len() ==> dst@[i] == d0[i],
        decreases tiles_down - t,
    {
        let mut y: usize = 0;
        while y < tile_height
            invariant
                dst_len == d0.len(),
                src_len == src@.len(),
                width * height <= src_len,
                width * height <= dst_len,
                0 < tile_width,
                0 < tile_height,
                runs == (width as int) / (tile_width as int),
                runs * tile_width == width,
                tiles_down * tile_height == height,
                    t < tiles_down,
                y <= tile_height,
                m == (t * tile_height + y) * runs,
                output_idx == m * tile_width,
                dst@.len() == d0.len(),
                forall|mm: int, j: int|
                    0 <= mm < m && 0 <= j < tile_width ==> #[trigger] dst@[mm * tile_width + j]
                        == src@[detile_run_start(mm, width as int, tile_width as int, tile_height as int) + j],
                forall|i: int| m * tile_width <= i < d0.len() ==> dst@[i] == d0[i],
            decreases tile_height - y,
        {
            let mut k: usize = 0;
            while k < runs
                invariant
                    dst_len == d0.len(),
                    src_len == src@.len(),
                    width * height <= src_len,
                    width * height <= dst_len,
                    0 < tile_width,
                    0 < tile_height,
                    runs == (width as int) / (tile_width as int),
                    runs * tile_width == width,
                    tiles_down * tile_height == height,
                            t < tiles_down,
                    y < tile_height,
                    k <= runs,
                    m == (t * tile_height + y) * runs + k,
                    output_idx == m * tile_width,
                    dst@.len() == d0.len(),
                    forall|mm: int, j: int|
                        0 <= mm < m && 0 <= j < tile_width ==> #[trigger] dst@[mm * tile_width + j]
                            == src@[detile_run_start(mm, width as int, tile_width as int, tile_height as int) + j],
                    forall|i: int| m * tile_width <= i < d0.len() ==> dst@[i] == d0[i],
                decreases runs - k,
            {
                proof {
                    lemma_run_bounds(t as int, y as int, k as int, 0, tiles_down as int, tile_width as int,
                        tile_height as int, width as int, height as int);
                    lemma_run_bounds(t as int, y as int, k as int, tile_width - 1, tiles_down as int, tile_width as int,
                        tile_height as int, width as int, height as int);
                    lemma_run_start(t as int, y as int, k as int, tile_width as int, tile_height as int, width as int);
                }
                let tile_size = tile_width * tile_height;
                let input_idx = t * tile_height * width + y * tile_width + k * tile_size;
                let mut j: usize = 0;
                while j < tile_width
                    invariant
                        dst_len == d0.len(),
                        src_len == src@.len(),
                        0 < tile_width,
                        runs == (width as int) / (tile_width as int),
                        input_idx == detile_run_start(m, width as int, tile_width as int, tile_height as int),
                        input_idx + tile_width <= src_len,
                        output_idx == m * tile_width,
                        output_idx + tile_width <= dst_len,
                        0 <= m,
                        j <= tile_width,
                        dst@.len() == d0.len(),
                        forall|mm: int, jj: int|
                            0 <= mm < m && 0 <= jj < tile_width ==> #[trigger] dst@[mm * tile_width + jj]
                                == src@[detile_run_start(mm, width as int, tile_width as int, tile_height as int) + jj],
                        forall|jj: int|
                            0 <= jj < j ==> #[trigger] dst@[m * tile_width + jj] == src@[input_idx + jj],
                        forall|i: int| m * tile_width + j <= i < d0.len() ==> dst@[i] == d0[i],
                    decreases tile_width - j,
                {
                    let ghost before = dst@;
                    dst[output_idx + j] = src[input_idx + j];
                    proof {
                        assert forall|mm: int, jj: int|
                            0 <= mm < m && 0 <= jj < tile_width implies #[trigger] dst@[mm * tile_width + jj]
                                == src@[detile_run_start(mm, width as int, tile_width as int, tile_height as int) + jj] by {
                            assert(mm * tile_width + jj < m * tile_width) by (nonlinear_arith)
                                requires
                                    0 <= mm < m,
                                    0 <= jj < tile_width,
                            ;
                            assert(0 <= mm * tile_width) by (nonlinear_arith)
                                requires
                                    0 <= mm,
                                    0 < tile_width,
                            ;
                            assert(before[mm * tile_width + jj] == src@[detile_run_start(mm, width as int, tile_width as int, tile_height as int) + jj]);
                        }
                    }
                    j = j + 1;
                }
                output_idx = output_idx + tile_width;
                proof {
                    assert(output_idx == (m + 1) * tile_width) by (nonlinear_arith)
                        requires
                            output_idx == m * tile_width + tile_width,
                    ;
                    assert forall|mm: int, jj: int|
                        0 <= mm < m + 1 && 0 <= jj < tile_width implies #[trigger] dst@[mm * tile_width + jj]
                            == src@[detile_run_start(mm, width as int, tile_width as int, tile_height as int) + jj] by {
                        if mm == m {
                            assert(dst@[m * tile_width + jj] == src@[input_idx + jj]);
                        }
                    }
                    m = m + 1;
                }
                k = k + 1;
            }
            proof {
                assert(m == (t * tile_height + y + 1) * runs) by (nonlinear_arith)
                    requires
                        m == (t * tile_height + y) * runs + runs,
                ;
            }
            y = y + 1;
        }
        proof {
            assert(m == (t + 1) * tile_height * runs) by (nonlinear_arith)
                requires
                    m == (t * tile_height + tile_height) * runs,
            ;
        }
        t = t + 1;
    }
    proof {
        assert(m == height * runs) by (nonlinear_arith)
            requires
                m == tiles_down * tile_height * runs,
                tiles_down * tile_height == height,
        ;
        assert(m * tile_width == width * height) by (nonlinear_arith)
            requires
                m == height * runs,
                runs * tile_width == width,
        ;
    }
    Ok(())
}

/// Converts MM21 (NV12 in 16x32 luma tiles and 16x16 chroma tiles) to linear NV12.
pub fn mm21_to_nv12(
    src_y: &[u8],
    dst_y: &mut [u8],
    src_uv: &[u8],
    dst_uv: &mut [u8],
    width: usize,
    height: usize,
) -> (r: Result<(), String>)
    requires
        tile_aligned(width as int, height as int, 16, 32) ==> width * height <= src_y@.len()
            && width * height <= old(dst_y)@.len(),
        tile_aligned(width as int, (height as int) / 2, 16, 16) ==> width * (height / 2)
            <= src_uv@.len() && width * (height / 2) <= old(dst_uv)@.len(),
    ensures
        r.is_ok() == (tile_aligned(width as int, height as int, 16, 32) && tile_aligned(
            width as int,
            (height as int) / 2,
            16,
            16,
        )),
        tile_aligned(width as int, height as int, 16, 32) ==> detiled(
            final(dst_y)@,
            old(dst_y)@,
            src_y@,
            width as int,
            height as int,
            16,
            32,
        ),
        !tile_aligned(width as int, height as int, 16, 32) ==> final(dst_y)@ == old(dst_y)@,
        r.is_ok() ==> detiled(
            final(dst_uv)@,
            old(dst_uv)@,
            src_uv@,
            width as int,
            (height as int) / 2,
            16,
            16,
        ),
        r.is_err() ==> final(dst_uv)@ == old(dst_uv)@,
{
    let y_tile_width: usize = 16;
    let y_tile_height: usize = 32;
    match detile_plane(src_y, dst_y, width, height, y_tile_width, y_tile_height) {
        Ok(()) => {},
        Err(e) => {
            return Err(e);
        },
    }
    detile_plane(src_uv, dst_uv, width, height / 2, y_tile_width, y_tile_height / 2)
}

/// The column whose value, from before the extension, column `c` takes when everything right of
/// the visible width `vw` repeats the last `period` visible columns.
pub open spec fn ext_col(c: int, vw: int, period: int) -> int {
    if c < vw {
        c
    } else {
        vw - period + (c - vw) % period
    }
}

/// The smaller of two integers.
pub open spec fn min_int(a: int, b: int) -> int {
    if a < b {
        a
    } else {
        b
    }
}

proof fn lemma_rows_below(r: int, c: int, cw: int, rows: int)
    requires
        0 <= r < rows,
        0 <= c < cw,
    ensures
        pix(0, cw, r, c) < rows * cw,
        pix(0, cw, r, c) >= 0,
        pix(0, cw, r, c) >= r * cw,
        pix(0, cw, r, c) < (r + 1) * cw,
{
    assert(r * cw + c < rows * cw) by (nonlinear_arith)
        requires
            0 <= r < rows,
            0 <= c < cw,
    ;
    assert(0 <= r * cw) by (nonlinear_arith)
        requires
            0 <= r,
            0 <= cw,
    ;
    assert((r + 1) * cw == r * cw + cw) by (nonlinear_arith);
}

proof fn lemma_pix_distinct(cw: int, r1: int, c1: int, r2: int, c2: int)
    requires
        0 <= r1,
        0 <= r2,
        0 <= c1 < cw,
        0 <= c2 < cw,
        r1 != r2 || c1 != c2,
    ensures
        pix(0, cw, r1, c1) != pix(0, cw, r2, c2),
{
    lemma_pix_coords(0, cw, r1, c1);
    lemma_pix_coords(0, cw, r2, c2);
}

/// Extends each of the first `rows` rows past the visible width `vw` by
/// repeating its last `period` visible bytes.
fn extend_rows(plane: &mut [u8], cw: usize, rows: usize, vw: usize, period: usize)
    requires
        period == 1 || period == 2,
        period <= vw <= cw,
        rows * cw <= old(plane)@.len(),
    ensures
        final(plane)@.len() == old(plane)@.len(),
        forall|r: int, c: int|
            0 <= r < rows && 0 <= c < cw ==> final(plane)@[#[trigger] pix(0, cw as int, r, c)]
                == old(plane)@[pix(0, cw as int, r, ext_col(c, vw as int, period as int))],
        forall|i: int| rows * cw <= i < old(plane)@.len() ==> final(plane)@[i] == old(plane)@[i],
{
    let ghost p0 = plane@;
    let len = plane.len();
    let mut r: usize = 0;
    while r < rows
        invariant
            period == 1 || period == 2,
            period <= vw <= cw,
            rows * cw <= p0.len(),
            len == p0.len(),
            plane@.len() == p0.len(),
            r <= rows,
            forall|rr: int, c: int|
                0 <= rr < r && 0 <= c < cw ==> plane@[#[trigger] pix(0, cw as int, rr, c)]
                    == p0[pix(0, cw as int, rr, ext_col(c, vw as int, period as int))],
            forall|i: int| r * cw <= i < p0.len() ==> plane@[i] == p0[i],
        decreases rows - r,
    {
        proof {
            lemma_rows_below(r as int, 0, cw as int, rows as int);
            assert(r * cw + cw <= rows * cw) by (nonlinear_arith)
                requires
                    r < rows,
            ;
        }
        let row = r * cw;
        let mut x: usize = vw;
        while x < cw
            invariant
                period == 1 || period == 2,
                period <= vw <= x <= cw,
                rows * cw <= p0.len(),
                len == p0.len(),
                plane@.len() == p0.len(),
                r < rows,
                row == r * cw,
                row + cw <= rows * cw,
                forall|rr: int, c: int|
                    0 <= rr < r && 0 <= c < cw ==> plane@[#[trigger] pix(0, cw as int, rr, c)]
                        == p0[pix(0, cw as int, rr, ext_col(c, vw as int, period as int))],
                forall|c: int|
                    0 <= c < x ==> plane@[#[trigger] pix(0, cw as int, r as int, c)] == p0[pix(
                        0,
                        cw as int,
                        r as int,
                        ext_col(c, vw as int, period as int),
                    )],
                forall|i: int| row + x <= i < p0.len() ==> plane@[i] == p0[i],
            decreases cw - x,
        {
            let ghost before = plane@;
            proof {
                assert(plane@[pix(0, cw as int, r as int, x - period)] == p0[pix(
                    0,
                    cw as int,
                    r as int,
                    ext_col(x - period, vw as int, period as int),
                )]);
                if period == 1 {
                    assert(ext_col(x - period, vw as int, period as int) == ext_col(x as int, vw as int, period as int));
                } else {
                    assert(ext_col(x - period, vw as int, period as int) == ext_col(x as int, vw as int, period as int));
                }
            }
            let v = plane[row + x - period];
            plane[row + x] = v;
            proof {
                assert forall|rr: int, c: int|
                    0 <= rr < r && 0 <= c < cw implies plane@[#[trigger] pix(0, cw as int, rr, c)]
                        == p0[pix(0, cw as int, rr, ext_col(c, vw as int, period as int))] by {
                    lemma_pix_distinct(cw as int, rr, c, r as int, x as int);
                    lemma_rows_below(rr, c, cw as int, rows as int);
                }
                assert forall|c: int|
                    0 <= c < x + 1 implies plane@[#[trigger] pix(0, cw as int, r as int, c)] == p0[pix(
                        0,
                        cw as int,
                        r as int,
                        ext_col(c, vw as int, period as int),
                    )] by {
                    if c < x {
                        lemma_pix_distinct(cw as int, r as int, c, r as int, x as int);
                    }
                }
            }
            x = x + 1;
        }
        proof {
            assert forall|c: int|
                0 <= c < vw implies plane@[#[trigger] pix(0, cw as int, r as int, c)] == p0[pix(
                    0,
                    cw as int,
                    r as int,
                    ext_col(c, vw as int, period as int),
                )] by {
                assert(pix(0, cw as int, r as int, c) >= row + vw || c < vw);
            }
            assert forall|i: int| (r + 1) * cw <= i < p0.len() implies plane@[i] == p0[i] by {
                assert((r + 1) * cw == row + cw) by (nonlinear_arith)
                    requires
                        row == r * cw,
                ;
            }
        }
        r = r + 1;
    }
}

/// Fills rows `from..to` with copies of row `from - 1`.
fn copy_down(plane: &mut [u8], cw: usize, from: usize, to: usize)
    requires
        1 <= from <= to,
        to * cw <= old(plane)@.len(),
    ensures
        final(plane)@.len() == old(plane)@.len(),
        forall|r: int, c: int|
            0 <= r < to && 0 <= c < cw ==> final(plane)@[#[trigger] pix(0, cw as int, r, c)]
                == old(plane)@[pix(0, cw as int, min_int(r, from - 1), c)],
        forall|i: int| to * cw <= i < old(plane)@.len() ==> final(plane)@[i] == old(plane)@[i],
{
    let ghost p0 = plane@;
    let len = plane.len();
    proof {
        assert forall|r: int, c: int| 0 <= r < from && 0 <= c < cw implies #[trigger] pix(
            0,
            cw as int,
            r,
            c,
        ) < from * cw by {
            lemma_rows_below(r, c, cw as int, from as int);
        }
    }
    let mut r: usize = from;
    while r < to
        invariant
            1 <= from <= r <= to,
            to * cw <= p0.len(),
            len == p0.len(),
            plane@.len() == p0.len(),
            forall|rr: int, c: int|
                0 <= rr < r && 0 <= c < cw ==> plane@[#[trigger] pix(0, cw as int, rr, c)]
                    == p0[pix(0, cw as int, min_int(rr, from - 1), c)],
            forall|i: int| r * cw <= i < p0.len() ==> plane@[i] == p0[i],
        decreases to - r,
    {
        proof {
            assert(r * cw + cw <= to * cw) by (nonlinear_arith)
                requires
                    r < to,
            ;
            assert((r - 1) * cw + cw == r * cw) by (nonlinear_arith);
            assert(0 <= (r - 1) * cw) by (nonlinear_arith)
                requires
                    r >= 1,
            ;
        }
        let row = r * cw;
        let prev = row - cw;
        let mut c: usize = 0;
        while c < cw
            invariant
                1 <= from <= r < to,
                to * cw <= p0.len(),
                len == p0.len(),
                plane@.len() == p0.len(),
                row == r * cw,
                prev + cw == row,
                row + cw <= to * cw,
                c <= cw,
                forall|rr: int, cc: int|
                    0 <= rr < r && 0 <= cc < cw ==> plane@[#[trigger] pix(0, cw as int, rr, cc)]
                        == p0[pix(0, cw as int, min_int(rr, from - 1), cc)],
                forall|cc: int|
                    0 <= cc < c ==> plane@[#[trigger] pix(0, cw as int, r as int, cc)] == p0[pix(
                        0,
                        cw as int,
                        from - 1,
                        cc,
                    )],
                forall|i: int| row + c <= i < p0.len() ==> plane@[i] == p0[i],
            decreases cw - c,
        {
            proof {
                assert(prev == (r - 1) * cw) by (nonlinear_arith)
                    requires
                        prev + cw == row,
                        row == r * cw,
                ;
                assert(plane@[pix(0, cw as int, r - 1, c as int)] == p0[pix(
                    0,
                    cw as int,
                    min_int(r - 1, from - 1),
                    c as int,
                )]);
            }
            let v = plane[prev + c];
            plane[row + c] = v;
            proof {
                assert forall|rr: int, cc: int|
                    0 <= rr < r && 0 <= cc < cw implies plane@[#[trigger] pix(0, cw as int, rr, cc)]
                        == p0[pix(0, cw as int, min_int(rr, from - 1), cc)] by {
                    lemma_pix_distinct(cw as int, rr, cc, r as int, c as int);
                    lemma_rows_below(rr, cc, cw as int, to as int);
                }
                assert forall|cc: int|
                    0 <= cc < c + 1 implies plane@[#[trigger] pix(0, cw as int, r as int, cc)] == p0[pix(
                        0,
                        cw as int,
                        from - 1,
                        cc,
                    )] by {
                    if cc < c {
                        lemma_pix_distinct(cw as int, r as int, cc, r as int, c as int);
                    }
                }
            }
            c = c + 1;
        }
        proof {
            assert((r + 1) * cw == row + cw) by (nonlinear_arith)
                requires
                    row == r * cw,
            ;
        }
        r = r + 1;
    }
}

/// Replaces the padding right of and below the visible image with the last
/// visible pixels, which reduces compression artifacts at the sharp edge
/// between image and padding. In the luma plane each row repeats its last
/// visible byte and the rows below repeat the last visible row; in the
/// chroma plane each row repeats its last visible U/V pair and the rows below
/// repeat the last visible chroma row.
pub fn extend_border_nv12(
    y_plane: &mut [u8],
    uv_plane: &mut [u8],
    visible_width: usize,
    visible_height: usize,
    coded_width: usize,
    coded_height: usize,
)
    requires
        1 < visible_width <= coded_width,
        1 < visible_height <= coded_height,
        coded_height * coded_width <= old(y_plane)@.len(),
        (coded_height / 2) * coded_width <= old(uv_plane)@.len(),
    ensures
        final(y_plane)@.len() == old(y_plane)@.len(),
        final(uv_plane)@.len() == old(uv_plane)@.len(),
        forall|r: int, c: int|
            0 <= r < coded_height && 0 <= c < coded_width ==> final(y_plane)@[#[trigger] pix(
                0,
                coded_width as int,
                r,
                c,
            )] == old(y_plane)@[pix(
                0,
                coded_width as int,
                min_int(r, visible_height - 1),
                ext_col(c, visible_width as int, 1),
            )],
        forall|i: int|
            coded_height * coded_width <= i < old(y_plane)@.len() ==> final(y_plane)@[i] == old(
                y_plane,
            )@[i],
        forall|r: int, c: int|
            0 <= r < coded_height / 2 && 0 <= c < coded_width ==> final(uv_plane)@[#[trigger] pix(
                0,
                coded_width as int,
                r,
                c,
            )] == old(uv_plane)@[pix(
                0,
                coded_width as int,
                min_int(r, visible_height / 2 - 1),
                ext_col(c, visible_width as int, 2),
            )],
        forall|i: int|
            (coded_height / 2) * coded_width <= i < old(uv_plane)@.len() ==> final(uv_plane)@[i]
                == old(uv_plane)@[i],
{
    let ghost y0 = y_plane@;
    let ghost uv0 = uv_plane@;
    proof {
        assert(visible_height * coded_width <= coded_height * coded_width) by (nonlinear_arith)
            requires
                visible_height <= coded_height,
        ;
        assert((visible_height / 2) * coded_width <= (coded_height / 2) * coded_width)
            by (nonlinear_arith)
            requires
                visible_height / 2 <= coded_height / 2,
        ;
    }
    extend_rows(y_plane, coded_width, visible_height, visible_width, 1);
    let ghost y1 = y_plane@;
    copy_down(y_plane, coded_width, visible_height, coded_height);
    extend_rows(uv_plane, coded_width, visible_height / 2, visible_width, 2);
    let ghost uv1 = uv_plane@;
    copy_down(uv_plane, coded_width, visible_height / 2, coded_height / 2);
    proof {
        assert forall|r: int, c: int|
            0 <= r < coded_height && 0 <= c < coded_width implies y_plane@[#[trigger] pix(
                0,
                coded_width as int,
                r,
                c,
            )] == y0[pix(
                0,
                coded_width as int,
                min_int(r, visible_height - 1),
                ext_col(c, visible_width as int, 1),
            )] by {
            assert(y_plane@[pix(0, coded_width as int, r, c)] == y1[pix(
                0,
                coded_width as int,
                min_int(r, visible_height - 1),
                c,
            )]);
        }
        assert forall|r: int, c: int|
            0 <= r < coded_height / 2 && 0 <= c < coded_width implies uv_plane@[#[trigger] pix(
                0,
                coded_width as int,
                r,
                c,
            )] == uv0[pix(
                0,
                coded_width as int,
                min_int(r, visible_height / 2 - 1),
                ext_col(c, visible_width as int, 2),
            )] by {
            assert(uv_plane@[pix(0, coded_width as int, r, c)] == uv1[pix(
                0,
                coded_width as int,
                min_int(r, visible_height / 2 - 1),
                c,
            )]);
        }
    }
}

/// Relies on byteorder's `LittleEndian::read_u16`: the first byte is the low
/// one.
#[verifier::external_body]
fn read_u16_le(lo: u8, hi: u8) -> (r: u16)
    ensures
        r as int == lo as int + 256 * hi as int,
{
    LittleEndian::read_u16(&[lo, hi])
}

/// Relies on byteorder's `LittleEndian::write_u16`: writes the low byte at
/// `at` and the high byte after it.
#[verifier::external_body]
fn write_u16_le(buf: &mut [u8], at: usize, n: u16)
    requires
        at + 2 <= old(buf)@.len(),
    ensures
        final(buf)@ == old(buf)@.update(at as int, (n % 256) as u8).update(at + 1, (n / 256) as u8),
{
    LittleEndian::write_u16(&mut buf[at..at + 2], n)
}

/// Low byte of the 10-bit luma of a packed Y410 pixel `s0 s1 s2 s3`.
pub open spec fn y410_y_lo(s1: u8, s2: u8) -> u8 {
    s1 >> 2u8 | s2 << 6u8
}

/// High byte of the 10-bit luma.
pub open spec fn y410_y_hi(s2: u8) -> u8 {
    s2 >> 2u8 & 3u8
}

/// High byte of the 10-bit U sample (its low byte is `s0`).
pub open spec fn y410_u_hi(s1: u8) -> u8 {
    s1 & 3u8
}

/// Low byte of the 10-bit V sample.
pub open spec fn y410_v_lo(s2: u8, s3: u8) -> u8 {
    s2 >> 4u8 | s3 << 4u8
}

/// High byte of the 10-bit V sample.
pub open spec fn y410_v_hi(s3: u8) -> u8 {
    s3 >> 4u8 & 3u8
}

proof fn lemma_u16_bytes(lo: u8, hi: u8, n: u16)
    requires
        n as int == lo as int + 256 * hi as int,
    ensures
        (n % 256) as u8 == lo,
        (n / 256) as u8 == hi,
{
}

/// Copies packed Y410 (10-bit Y, U, V and 2-bit alpha in 32 bits per pixel)
/// into tri-planar I410 with 16-bit little-endian samples, removing padding
/// and dropping alpha. The Y, U and V planes follow one another in `dst`.
pub fn y410_to_i410(
    src: &[u8],
    dst: &mut [u8],
    width: usize,
    height: usize,
    strides: [usize; 3],
    offsets: [usize; 3],
)
    requires
        0 < width,
        width * 4 <= strides[0],
        offsets[0] <= src@.len(),
        plane_fits(src@.len() as int, offsets[0] as int, strides[0] as int, width * 4, height as int),
        6 * width * height <= old(dst)@.len(),
    ensures
        final(dst)@.len() == old(dst)@.len(),
        forall|y: int, x: int|
            0 <= y < height && 0 <= x < width ==> #[trigger] y410_written(
                final(dst)@,
                src@,
                offsets[0] as int,
                strides[0] as int,
                2 * width,
                2 * width * height,
                y,
                x,
            ),
        forall|i: int| 6 * width * height <= i < old(dst)@.len() ==> final(dst)@[i] == old(dst)@[i],
{
    let ghost d0 = dst@;
    let src_len = src.len();
    let dst_len = dst.len();
    let off = offsets[0];
    let stride = strides[0];
    proof {
        assert(6 * width * height == 3 * (2 * width * height)) by (nonlinear_arith);
        assert(height * (2 * width) == 2 * width * height) by (nonlinear_arith);
        assert(0 <= 2 * width * height) by (nonlinear_arith)
            requires
                0 < width,
        ;
    }
    let plane = 2 * width * height;
    let w2 = 2 * width;
    let mut y: usize = 0;
    while y < height
        invariant
            0 < width,
            w2 == 2 * width,
            width * 4 <= stride,
            stride == strides[0],
            off == offsets[0],
            src_len == src@.len(),
            dst_len == d0.len(),
            dst@.len() == d0.len(),
            plane == 2 * width * height,
            height * w2 == plane,
            3 * plane <= d0.len(),
            plane_fits(src@.len() as int, off as int, stride as int, width * 4, height as int),
            y <= height,
            forall|yy: int, x: int|
                0 <= yy < y && 0 <= x < width ==> y410_written(
                    dst@,
                    src@,
                    off as int,
                    stride as int,
                    w2 as int,
                    plane as int,
                    yy,
                    x,
                ),
            forall|i: int| 3 * plane <= i < d0.len() ==> dst@[i] == d0[i],
        decreases height - y,
    {
        let mut x: usize = 0;
        while x < width
            invariant
                0 < width,
                w2 == 2 * width,
                width * 4 <= stride,
                stride == strides[0],
                off == offsets[0],
                src_len == src@.len(),
                dst_len == d0.len(),
                dst@.len() == d0.len(),
                plane == 2 * width * height,
                height * w2 == plane,
                3 * plane <= d0.len(),
                plane_fits(src@.len() as int, off as int, stride as int, width * 4, height as int),
                y < height,
                x <= width,
                forall|yy: int, xx: int|
                    (0 <= yy < y && 0 <= xx < width) || (yy == y && 0 <= xx < x) ==> y410_written(
                        dst@,
                        src@,
                        off as int,
                        stride as int,
                        w2 as int,
                        plane as int,
                        yy,
                        xx,
                    ),
                forall|i: int| 3 * plane <= i < d0.len() ==> dst@[i] == d0[i],
            decreases width - x,
        {
            proof {
                lemma_row_in_bounds(off as int, stride as int, width * 4, height as int, y as int, 4 * x + 3);
                lemma_rows_below(y as int, 2 * x + 1, w2 as int, height as int);
            }
            let s = off + y * stride + 4 * x;
            let s0 = src[s];
            let s1 = src[s + 1];
            let s2 = src[s + 2];
            let s3 = src[s + 3];
            let d = y * w2 + 2 * x;
            let yv = read_u16_le(s1 >> 2u8 | s2 << 6u8, s2 >> 2u8 & 3u8);
            let uv = read_u16_le(s0, s1 & 3u8);
            let vv = read_u16_le(s2 >> 4u8 | s3 << 4u8, s3 >> 4u8 & 3u8);
            let ghost before = dst@;
            write_u16_le(dst, d, yv);
            write_u16_le(dst, plane + d, uv);
            write_u16_le(dst, 2 * plane + d, vv);
            proof {
                lemma_u16_bytes(s1 >> 2u8 | s2 << 6u8, s2 >> 2u8 & 3u8, yv);
                lemma_u16_bytes(s0, s1 & 3u8, uv);
                lemma_u16_bytes(s2 >> 4u8 | s3 << 4u8, s3 >> 4u8 & 3u8, vv);
                assert(d == pix(0, w2 as int, y as int, 2 * x));
                assert forall|yy: int, xx: int|
                    (0 <= yy < y && 0 <= xx < width) || (yy == y && 0 <= xx < x + 1) implies y410_written(
                        dst@,
                        src@,
                        off as int,
                        stride as int,
                        w2 as int,
                        plane as int,
                        yy,
                        xx,
                    ) by {
                    if yy != y || xx != x {
                        lemma_pix_distinct(w2 as int, yy, 2 * xx, y as int, 2 * x);
                        lemma_pix_distinct(w2 as int, yy, 2 * xx + 1, y as int, 2 * x);
                        lemma_pix_distinct(w2 as int, yy, 2 * xx, y as int, 2 * x + 1);
                        lemma_pix_distinct(w2 as int, yy, 2 * xx + 1, y as int, 2 * x + 1);
                        lemma_rows_below(yy, 2 * xx + 1, w2 as int, height as int);
                        assert(y410_written(before, src@, off as int, stride as int, w2 as int, plane as int, yy, xx));
                    }
                }
            }
            x = x + 1;
        }
        y = y + 1;
    }
}

/// The six output bytes of pixel `(x, y)` hold its samples.
pub open spec fn y410_written(
    dst: Seq<u8>,
    src: Seq<u8>,
    off: int,
    stride: int,
    w2: int,
    plane: int,
    y: int,
    x: int,
) -> bool {
    let s = pix(off, stride, y, 4 * x);
    let d = pix(0, w2, y, 2 * x);
    &&& dst[d] == y410_y_lo(src[s + 1], src[s + 2])
    &&& dst[d + 1] == y410_y_hi(src[s + 2])
    &&& dst[plane + d] == src[s]
    &&& dst[plane + d + 1] == y410_u_hi(src[s + 1])
    &&& dst[2 * plane + d] == y410_v_lo(src[s + 2], src[s + 3])
    &&& dst[2 * plane + d + 1] == y410_v_hi(src[s + 3])
}

} // verus!
