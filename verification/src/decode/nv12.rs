//! Reading decoded pictures back as tightly packed NV12.

use vstd::prelude::*;

use crate::decode::error::DecodeError;
use crate::surface::Handle;

verus! {

/// One decoded picture, downloaded to client memory as tightly packed NV12.
#[derive(Clone, Debug)]
pub struct Frame {
    /// Timestamp of the access unit this picture was coded in.
    pub timestamp: u64,
    /// Visible width in pixels, i.e. after the SPS cropping rectangle.
    pub width: u32,
    /// Visible height in pixels.
    pub height: u32,
    /// NV12 planes with no row padding: `width * height` luma bytes followed by
    /// `width * height / 2` interleaved chroma bytes.
    pub data: Vec<u8>,
}

/// A mapped image: its bytes, and where its planes lie in them.
#[derive(Debug)]
pub struct VaImage {
    pub fourcc: u32,
    pub offsets: [u32; 3],
    pub pitches: [u32; 3],
    pub data: Vec<u8>,
}

/// Whether `len` bytes hold `rows` rows of `width` bytes, `pitch` apart from
/// `offset` on.
pub open spec fn holds_plane(len: int, offset: int, pitch: int, width: int, rows: int) -> bool {
    rows == 0 || (pitch >= width && offset + pitch * (rows - 1) + width <= len)
}

/// The first `rows` rows of a strided plane, without the padding between them.
pub open spec fn rows_of(src: Seq<u8>, offset: int, pitch: int, width: int, rows: int) -> Seq<u8>
    decreases rows,
{
    if rows <= 0 {
        Seq::empty()
    } else {
        rows_of(src, offset, pitch, width, rows - 1) + src.subrange(
            offset + pitch * (rows - 1),
            offset + pitch * (rows - 1) + width,
        )
    }
}

/// Tests [`holds_plane`].
fn is_plane_held(len: usize, offset: usize, pitch: usize, width: usize, rows: usize) -> (b: bool)
    ensures
        b == holds_plane(len as int, offset as int, pitch as int, width as int, rows as int),
{
    if rows == 0 {
        return true;
    }
    assert(0 <= pitch * (rows - 1) <= 0xffff_ffff_ffff_ffff * 0xffff_ffff_ffff_ffff)
        by (nonlinear_arith)
        requires
            0 <= pitch <= 0xffff_ffff_ffff_ffff,
            1 <= rows <= 0xffff_ffff_ffff_ffff,
    ;
    let strides: u128 = pitch as u128 * (rows - 1) as u128;
    pitch >= width && strides <= len as u128 && strides + offset as u128 + width as u128
        <= len as u128
}

/// A plane holds at least as many bytes as its rows take up without padding.
proof fn lemma_plane_size(len: int, offset: int, pitch: int, width: int, rows: int)
    requires
        0 <= offset,
        0 <= width,
        0 <= rows,
        0 <= len,
        holds_plane(len, offset, pitch, width, rows),
    ensures
        0 <= width * rows <= len,
{
    assert(0 <= width * rows <= len) by (nonlinear_arith)
        requires
            0 <= len,
            0 <= offset,
            0 <= width,
            0 <= rows,
            rows > 0 ==> pitch >= width && offset + pitch * (rows - 1) + width <= len,
    ;
}

/// Copies `rows` rows of `width` bytes out of a strided plane, over the start of
/// `dst`.
pub fn copy_plane(
    dst: &mut Vec<u8>,
    src: &Vec<u8>,
    offset: usize,
    pitch: usize,
    width: usize,
    rows: usize,
) -> (r: Result<(), DecodeError>)
    requires
        holds_plane(
            src@.len() as int,
            offset as int,
            pitch as int,
            width as int,
            rows as int,
        ) ==> width * rows <= old(dst)@.len(),
    ensures
        if holds_plane(src@.len() as int, offset as int, pitch as int, width as int, rows as int) {
            &&& r == Ok::<(), DecodeError>(())
            &&& final(dst)@ == rows_of(
                src@,
                offset as int,
                pitch as int,
                width as int,
                rows as int,
            ) + old(dst)@.skip(width * rows)
        } else {
            &&& r == Err::<(), DecodeError>(
                DecodeError::PlaneTooSmall { offset, pitch, row_bytes: width, rows },
            )
            &&& final(dst)@ == old(dst)@
        },
        r is Ok <==> (rows == 0 || (pitch >= width && offset + pitch * (rows - 1) + width
            <= src@.len())),
{
    if !is_plane_held(src.len(), offset, pitch, width, rows) {
        return Err(DecodeError::PlaneTooSmall { offset, pitch, row_bytes: width, rows });
    }
    let ghost start = dst@;
    let mut from: usize = offset;
    let mut to: usize = 0;
    let mut row: usize = 0;
    assert(rows_of(src@, offset as int, pitch as int, width as int, 0) + start.skip(0) =~= start);
    proof {
        packed_rows_keep_their_samples(
            src@,
            offset as int,
            pitch as int,
            width as int,
            rows as int,
        );
        assert(width * 0 == 0) by (nonlinear_arith);
    }
    while row < rows
        invariant
            row <= rows,
            src@.len() <= usize::MAX,
            dst.len() == start.len(),
            start.len() >= width * rows,
            holds_plane(
                src@.len() as int,
                offset as int,
                pitch as int,
                width as int,
                rows as int,
            ),
            row < rows ==> from == offset + pitch * row,
            to == width * row,
            rows_of(src@, offset as int, pitch as int, width as int, row as int).len() == to,
            dst@ == rows_of(src@, offset as int, pitch as int, width as int, row as int)
                + start.skip(to as int),
        decreases rows - row,
    {
        assert(pitch * row <= pitch * (rows - 1) && width * row + width <= width * rows)
            by (nonlinear_arith)
            requires
                0 <= row <= rows - 1,
                0 <= pitch,
                0 <= width,
        ;
        let ghost done = rows_of(src@, offset as int, pitch as int, width as int, row as int);
        let mut x: usize = 0;
        assert(done + src@.subrange(from as int, from as int) + start.skip(to as int) =~= dst@);
        while x < width
            invariant
                x <= width,
                src@.len() <= usize::MAX,
                dst.len() == start.len(),
                from + width <= src@.len(),
                to + width <= start.len(),
                done.len() == to,
                dst@ == done + src@.subrange(from as int, from + x) + start.skip(to + x),
            decreases width - x,
        {
            dst[to + x] = src[from + x];
            x = x + 1;
            assert(dst@ =~= done + src@.subrange(from as int, from + x) + start.skip(to + x));
        }
        row = row + 1;
        to = to + width;
        assert(width * row == width * (row - 1) + width) by (nonlinear_arith);
        assert(dst@ =~= rows_of(src@, offset as int, pitch as int, width as int, row as int)
            + start.skip(to as int));
        if row < rows {
            assert(pitch * row == pitch * (row - 1) + pitch) by (nonlinear_arith);
            assert(pitch * row <= pitch * (rows - 1)) by (nonlinear_arith)
                requires
                    0 <= row <= rows - 1,
                    0 <= pitch,
            ;
            from = from + pitch;
        }
    }
    Ok(())
}

/// The luma plane of a picture `handle` in `image`, tightly packed.
pub open spec fn luma(image: VaImage, handle: Handle) -> Seq<u8> {
    rows_of(
        image.data@,
        image.offsets[0] as int,
        image.pitches[0] as int,
        handle.width as int,
        handle.height as int,
    )
}

/// The interleaved chroma plane of a picture `handle` in `image`, tightly packed.
pub open spec fn chroma(image: VaImage, handle: Handle) -> Seq<u8> {
    rows_of(
        image.data@,
        image.offsets[1] as int,
        image.pitches[1] as int,
        handle.width as int,
        (handle.height / 2) as int,
    )
}

/// Whether `image` holds plane `p` of `handle`, which is `rows` rows high.
pub open spec fn image_holds(image: VaImage, handle: Handle, p: int, rows: int) -> bool {
    holds_plane(
        image.data@.len() as int,
        image.offsets[p] as int,
        image.pitches[p] as int,
        handle.width as int,
        rows,
    )
}

/// The complaint that `image` does not hold plane `p` of `handle`.
pub open spec fn plane_missing(image: VaImage, handle: Handle, p: int, rows: int) -> DecodeError {
    DecodeError::PlaneTooSmall {
        offset: image.offsets[p] as usize,
        pitch: image.pitches[p] as usize,
        row_bytes: handle.width as usize,
        rows: rows as usize,
    }
}

/// Whether reading `handle` out of `image` gives `r`: the two planes, tightly
/// packed, or a complaint about the first that is not there.
pub open spec fn is_packed(
    r: Result<Frame, DecodeError>,
    image: VaImage,
    handle: Handle,
) -> bool {
    if !image_holds(image, handle, 0, handle.height as int) {
        r matches Err(e) && e == plane_missing(image, handle, 0, handle.height as int)
    } else if !image_holds(image, handle, 1, (handle.height / 2) as int) {
        r matches Err(e) && e == plane_missing(image, handle, 1, (handle.height / 2) as int)
    } else {
        &&& r matches Ok(frame)
        &&& frame.timestamp == handle.timestamp
        &&& frame.width == handle.width
        &&& frame.height == handle.height
        &&& frame.data@ == luma(image, handle) + chroma(image, handle)
    }
}

/// Reads `rows` rows of `width` bytes out of a strided plane.
fn read_plane(src: &Vec<u8>, offset: usize, pitch: usize, width: usize, rows: usize) -> (r: Result<
    Vec<u8>,
    DecodeError,
>)
    ensures
        if holds_plane(src@.len() as int, offset as int, pitch as int, width as int, rows as int) {
            r matches Ok(plane) && plane@ == rows_of(
                src@,
                offset as int,
                pitch as int,
                width as int,
                rows as int,
            )
        } else {
            r matches Err(e) && e == (DecodeError::PlaneTooSmall {
                offset,
                pitch,
                row_bytes: width,
                rows,
            })
        },
{
    if !is_plane_held(src.len(), offset, pitch, width, rows) {
        return Err(DecodeError::PlaneTooSmall { offset, pitch, row_bytes: width, rows });
    }
    proof {
        lemma_plane_size(
            src@.len() as int,
            offset as int,
            pitch as int,
            width as int,
            rows as int,
        );
    }
    let mut plane: Vec<u8> = vec![0u8; width * rows];
    match copy_plane(&mut plane, src, offset, pitch, width, rows) {
        Ok(_) => Ok(plane),
        Err(e) => Err(e),
    }
}

/// Copies a mapped NV12 image into a tightly packed buffer, dropping the row
/// padding the driver's pitch may carry.
pub fn pack_nv12(image: &VaImage, handle: &Handle) -> (r: Result<Frame, DecodeError>)
    ensures
        is_packed(r, *image, *handle),
        r matches Ok(frame) ==> frame.timestamp == handle.timestamp && frame.width == handle.width
            && frame.height == handle.height,
        r matches Err(e) ==> {
            &&& e matches DecodeError::PlaneTooSmall { offset, pitch, row_bytes, rows }
            &&& row_bytes == handle.width
            &&& {
                ||| offset == image.offsets[0] && pitch == image.pitches[0] && rows
                    == handle.height
                ||| offset == image.offsets[1] && pitch == image.pitches[1] && rows
                    == handle.height / 2
            }
            &&& pitch < row_bytes || offset + pitch * (rows - 1) + row_bytes > image.data@.len()
        },
{
    let width: usize = handle.width as usize;
    let height: usize = handle.height as usize;
    let mut data = match read_plane(
        &image.data,
        image.offsets[0] as usize,
        image.pitches[0] as usize,
        width,
        height,
    ) {
        Ok(luma) => luma,
        Err(e) => {
            return Err(e);
        },
    };
    let mut chroma = match read_plane(
        &image.data,
        image.offsets[1] as usize,
        image.pitches[1] as usize,
        width,
        height / 2,
    ) {
        Ok(chroma) => chroma,
        Err(e) => {
            return Err(e);
        },
    };
    data.append(&mut chroma);
    Ok(Frame { timestamp: handle.timestamp, width: handle.width, height: handle.height, data })
}

////// Laws

/// Packing keeps every sample: the one in column `x` of row `y` is the one the
/// plane has there, and nothing lies between rows.
pub proof fn packed_rows_keep_their_samples(
    src: Seq<u8>,
    offset: int,
    pitch: int,
    width: int,
    rows: int,
)
    requires
        0 <= offset,
        0 <= width,
        0 <= rows,
        holds_plane(src.len() as int, offset, pitch, width, rows),
    ensures
        rows_of(src, offset, pitch, width, rows).len() == width * rows,
        forall|x: int, y: int|
            0 <= x < width && 0 <= y < rows ==> #[trigger] rows_of(
                src,
                offset,
                pitch,
                width,
                rows,
            )[y * width + x] == src[offset + y * pitch + x],
    decreases rows,
{
    if rows > 0 {
        assert(pitch * (rows - 1) >= pitch * (rows - 2)) by (nonlinear_arith)
            requires
                pitch >= 0,
        ;
        let prev = rows_of(src, offset, pitch, width, rows - 1);
        let whole = rows_of(src, offset, pitch, width, rows);
        packed_rows_keep_their_samples(src, offset, pitch, width, rows - 1);
        assert(pitch * (rows - 1) >= 0) by (nonlinear_arith)
            requires
                pitch >= 0,
                rows >= 1,
        ;
        assert(width * (rows - 1) + width == width * rows) by (nonlinear_arith);
        assert forall|x: int, y: int| 0 <= x < width && 0 <= y < rows implies #[trigger] whole[y
            * width + x] == src[offset + y * pitch + x] by {
            assert(y * width >= 0) by (nonlinear_arith)
                requires
                    y >= 0,
                    width >= 0,
            ;
            if y < rows - 1 {
                assert(y * width + width <= width * (rows - 1)) by (nonlinear_arith)
                    requires
                        y + 1 <= rows - 1,
                        width >= 0,
                ;
                assert(whole[y * width + x] == prev[y * width + x]);
            } else {
                assert(y * width == width * (rows - 1)) by (nonlinear_arith)
                    requires
                        y == rows - 1,
                ;
                assert(y * pitch == pitch * (rows - 1)) by (nonlinear_arith)
                    requires
                        y == rows - 1,
                ;
            }
        }
    }
}

/// A frame of even height holds `width * height` luma bytes and half as many
/// chroma bytes.
pub proof fn frames_have_no_padding(r: Result<Frame, DecodeError>, image: VaImage, handle: Handle)
    requires
        is_packed(r, image, handle),
        handle.height % 2 == 0,
    ensures
        r matches Ok(frame) ==> {
            &&& luma(image, handle).len() == frame.width * frame.height
            &&& chroma(image, handle).len() * 2 == frame.width * frame.height
            &&& frame.data@.len() * 2 == frame.width * frame.height * 3
        },
{
    if r is Ok {
        let w = handle.width as int;
        let h = handle.height as int;
        packed_rows_keep_their_samples(
            image.data@,
            image.offsets[0] as int,
            image.pitches[0] as int,
            w,
            h,
        );
        packed_rows_keep_their_samples(
            image.data@,
            image.offsets[1] as int,
            image.pitches[1] as int,
            w,
            h / 2,
        );
        assert(w * (h / 2) * 2 == w * h) by (nonlinear_arith)
            requires
                h % 2 == 0,
        ;
    }
}

/// A frame holds the samples of the image it was read from: luma first, each row of it as
/// the first plane has it, then chroma, as the second plane has it.
pub proof fn frames_hold_the_samples_of_their_image(
    r: Result<Frame, DecodeError>,
    image: VaImage,
    handle: Handle,
    frame: Frame,
    x: int,
    y: int,
)
    requires
        is_packed(r, image, handle),
        r matches Ok(f) && f == frame,
        0 <= x < handle.width,
    ensures
        0 <= y < handle.height ==> frame.data@[y * handle.width + x] == image.data@[image.offsets[0]
            + y * image.pitches[0] + x],
        0 <= y < handle.height / 2 ==> frame.data@[handle.width * handle.height + y * handle.width
            + x] == image.data@[image.offsets[1] + y * image.pitches[1] + x],
{
    let (w, h) = (handle.width as int, handle.height as int);
    let (o, p) = (image.offsets[0] as int, image.pitches[0] as int);
    let (q, t) = (image.offsets[1] as int, image.pitches[1] as int);
    packed_rows_keep_their_samples(image.data@, o, p, w, h);
    packed_rows_keep_their_samples(image.data@, q, t, w, h / 2);
    let (first, second) = (luma(image, handle), chroma(image, handle));
    if 0 <= y < h {
        assert(0 <= y * w + x < w * h) by (nonlinear_arith)
            requires
                0 <= y < h,
                0 <= x < w,
        ;
        assert(rows_of(image.data@, o, p, w, h)[y * w + x] == image.data@[o + y * p + x]);
        assert(frame.data@[y * w + x] == first[y * w + x]);
    }
    if 0 <= y < h / 2 {
        assert(0 <= y * w + x < w * (h / 2)) by (nonlinear_arith)
            requires
                0 <= y < h / 2,
                0 <= x < w,
        ;
        assert(rows_of(image.data@, q, t, w, h / 2)[y * w + x] == image.data@[q + y * t + x]);
        assert(frame.data@[w * h + (y * w + x)] == second[y * w + x]);
    }
}

/// An image is refused exactly where a plane of it reaches beyond its bytes, or its rows
/// run into each other: a picture that is all there is read.
pub proof fn whole_images_are_read(r: Result<Frame, DecodeError>, image: VaImage, handle: Handle)
    requires
        is_packed(r, image, handle),
        handle.height >= 2,
    ensures
        r is Ok <==> {
            &&& image.pitches[0] >= handle.width
            &&& image.pitches[1] >= handle.width
            &&& image.offsets[0] + image.pitches[0] * (handle.height - 1) + handle.width
                <= image.data@.len()
            &&& image.offsets[1] + image.pitches[1] * (handle.height / 2 - 1) + handle.width
                <= image.data@.len()
        },
{
}

} // verus!
