//! The device-sink logic: the fallback chain chosen at open time, the
//! scanline BGRA conversion with its capacity clamp, and the exact bytes
//! and chunking of every push.  The file and memory-map handles themselves
//! live outside the library; this module decides what is written.

use vstd::prelude::*;
use crate::canvas::{Canvas, Img, Px};

verus! {

/// Largest buffer the sink accepts: enough for a square raster of the
/// largest supported framebuffer side.
pub const MAX_FRAMEBUFFER_SIZE: usize = 1920 * 1920 * 4;

/// Size of one chunk of a direct write.
pub const CHUNK_SIZE: usize = 4096;

/// Failures of the device sink.
#[derive(Clone, Copy, Debug, PartialEq, Eq, Structural)]
pub enum DeviceError {
    /// The buffer exceeds the rated maximum size of the device.
    Oversized { size: usize, max: usize },
    /// A write aborted; carries the byte offset reached.
    WriteFailed { offset: usize },
}

/// How the sink reaches the device, fixed at open time: a memory-mapped
/// region, direct chunked writes, or a file standing in for the device.
#[derive(Clone, Copy, Debug, PartialEq, Eq, Structural)]
pub enum SinkMode {
    MemoryMapped,
    DirectWrite,
    FileFallback,
}

/// The sink's decision state: its mode, the length of the mapped region
/// when memory-mapped, and the rated maximum buffer size.
#[derive(Clone, Copy, Debug, PartialEq, Eq, Structural)]
pub struct DeviceSink {
    pub mode: SinkMode,
    pub mapping_len: usize,
    pub width: u32,
    pub height: u32,
    pub max_buffer_size: usize,
}

/// The fallback chain: a device that did not open leads to the file
/// stand-in; a mapping of nonzero length is kept; a failed or empty
/// mapping leads to direct chunked writes.
pub open spec fn sp_open(
    width: u32,
    height: u32,
    device_opened: bool,
    mapping_len: Option<usize>,
) -> DeviceSink {
    if !device_opened {
        DeviceSink {
            mode: SinkMode::FileFallback,
            mapping_len: 0,
            width,
            height,
            max_buffer_size: MAX_FRAMEBUFFER_SIZE,
        }
    } else {
        match mapping_len {
            Some(n) => if n > 0 {
                DeviceSink {
                    mode: SinkMode::MemoryMapped,
                    mapping_len: n,
                    width,
                    height,
                    max_buffer_size: MAX_FRAMEBUFFER_SIZE,
                }
            } else {
                DeviceSink {
                    mode: SinkMode::DirectWrite,
                    mapping_len: 0,
                    width,
                    height,
                    max_buffer_size: MAX_FRAMEBUFFER_SIZE,
                }
            },
            None => DeviceSink {
                mode: SinkMode::DirectWrite,
                mapping_len: 0,
                width,
                height,
                max_buffer_size: MAX_FRAMEBUFFER_SIZE,
            },
        }
    }
}

/// The bytes a push hands to the device: clamped to the mapped region for
/// a memory-mapped sink, the whole buffer otherwise.
pub open spec fn sp_push_bytes(s: DeviceSink, buffer: Seq<u8>) -> Seq<u8> {
    if s.mode == SinkMode::MemoryMapped {
        if buffer.len() <= s.mapping_len {
            buffer
        } else {
            buffer.take(s.mapping_len as int)
        }
    } else {
        buffer
    }
}

impl DeviceSink {
    /// Resolves the open-time fallback chain from the outcome of the two
    /// hardware attempts: whether the device path opened, and the length
    /// of the memory mapping if one was made.
    pub fn open(width: u32, height: u32, device_opened: bool, mapping_len: Option<usize>) -> (s:
        DeviceSink)
        ensures
            s == sp_open(width, height, device_opened, mapping_len),
    {
        if !device_opened {
            DeviceSink {
                mode: SinkMode::FileFallback,
                mapping_len: 0,
                width,
                height,
                max_buffer_size: MAX_FRAMEBUFFER_SIZE,
            }
        } else {
            match mapping_len {
                Some(n) => {
                    if n > 0 {
                        DeviceSink {
                            mode: SinkMode::MemoryMapped,
                            mapping_len: n,
                            width,
                            height,
                            max_buffer_size: MAX_FRAMEBUFFER_SIZE,
                        }
                    } else {
                        DeviceSink {
                            mode: SinkMode::DirectWrite,
                            mapping_len: 0,
                            width,
                            height,
                            max_buffer_size: MAX_FRAMEBUFFER_SIZE,
                        }
                    }
                },
                None => DeviceSink {
                    mode: SinkMode::DirectWrite,
                    mapping_len: 0,
                    width,
                    height,
                    max_buffer_size: MAX_FRAMEBUFFER_SIZE,
                },
            }
        }
    }

    /// The exact bytes one push writes to the device, or an error for an
    /// oversized buffer.  A memory-mapped sink copies at most the mapped
    /// length; the other modes write the whole buffer.
    pub fn push_bytes(&self, buffer: &Vec<u8>) -> (r: Result<Vec<u8>, DeviceError>)
        ensures
            buffer.len() > self.max_buffer_size <==> (r matches Err(DeviceError::Oversized {
                size,
                max,
            }) && size == buffer.len() && max == self.max_buffer_size),
            buffer.len() <= self.max_buffer_size ==> (r matches Ok(b) && b@ == sp_push_bytes(
                *self,
                buffer@,
            )),
    {
        if buffer.len() > self.max_buffer_size {
            return Err(
                DeviceError::Oversized { size: buffer.len(), max: self.max_buffer_size },
            );
        }
        match self.mode {
            SinkMode::MemoryMapped => {
                if buffer.len() <= self.mapping_len {
                    Ok(buffer.clone())
                } else {
                    let mut out: Vec<u8> = Vec::new();
                    let mut i: usize = 0;
                    while i < self.mapping_len
                        invariant
                            i <= self.mapping_len,
                            self.mapping_len < buffer.len(),
                            out@ == buffer@.take(i as int),
                        decreases self.mapping_len - i,
                    {
                        out.push(buffer[i]);
                        proof {
                            assert(out@ =~= buffer@.take(i + 1));
                        }
                        i = i + 1;
                    }
                    Ok(out)
                }
            },
            _ => Ok(buffer.clone()),
        }
    }

    /// Converts a canvas to the device frame format: the sink's raster in
    /// scanline order (top to bottom, left to right), four bytes per pixel
    /// in B, G, R, A order; raster pixels the canvas does not cover are
    /// opaque black, and excess pixels are dropped in scan order once the
    /// rated capacity is reached.
    pub fn to_bgra_buffer(&self, image: &Canvas) -> (out: Vec<u8>)
        requires
            image.wf(),
            self.width <= crate::MAX_DIM,
            self.height <= crate::MAX_DIM,
        ensures
            sp_bgra_ok(
                out@,
                image@,
                self.width as int,
                self.height as int,
                sp_safe_pixels(self.width as int, self.height as int, self.max_buffer_size as int),
            ),
    {
        if self.width == 0 || self.height == 0 {
            proof {
                assert((self.width as int) * (self.height as int) == 0) by (nonlinear_arith)
                    requires
                        self.width == 0 || self.height == 0,
                ;
            }
            let out: Vec<u8> = Vec::new();
            return out;
        }
        let w: usize = self.width as usize;
        let total: usize = crate::pixel_count(self.width, self.height);
        let cap: usize = self.max_buffer_size / 4;
        let safe: usize = if total <= cap {
            total
        } else {
            cap
        };
        let mut out: Vec<u8> = Vec::new();
        let mut p: usize = 0;
        while p < safe
            invariant
                image.wf(),
                w == self.width,
                1 <= self.width <= crate::MAX_DIM,
                1 <= self.height <= crate::MAX_DIM,
                safe == sp_safe_pixels(
                    self.width as int,
                    self.height as int,
                    self.max_buffer_size as int,
                ),
                safe <= self.width * self.height,
                p <= safe,
                out.len() == 4 * p,
                forall|j: int|
                    0 <= j < p ==> #[trigger] sp_bgra_px_ok(out@, image@, self.width as int, j),
            decreases safe - p,
        {
            let x: u32 = (p % w) as u32;
            let y: u32 = (p / w) as u32;
            proof {
                vstd::arithmetic::div_mod::lemma_fundamental_div_mod(p as int, w as int);
                assert((p as int) / (w as int) < self.height) by (nonlinear_arith)
                    requires
                        (p as int) == (w as int) * ((p as int) / (w as int)) + (p as int) % (
                        w as int),
                        0 <= (p as int) % (w as int) < w,
                        (p as int) < (self.width as int) * (self.height as int),
                        w == self.width,
                        w >= 1,
                ;
            }
            let src: Px = if x < image.width && y < image.height {
                image.get_px(x, y)
            } else {
                crate::canvas::black()
            };
            let ghost pre = out@;
            out.push(src.b);
            out.push(src.g);
            out.push(src.r);
            out.push(src.a);
            proof {
                assert(sp_bgra_px_ok(out@, image@, self.width as int, p as int));
                assert forall|j: int|
                    0 <= j < p + 1 implies #[trigger] sp_bgra_px_ok(
                    out@,
                    image@,
                    self.width as int,
                    j,
                ) by {
                    if j < p {
                        assert(out@[4 * j] == pre[4 * j]);
                        assert(out@[4 * j + 1] == pre[4 * j + 1]);
                        assert(out@[4 * j + 2] == pre[4 * j + 2]);
                        assert(out@[4 * j + 3] == pre[4 * j + 3]);
                        assert(sp_bgra_px_ok(pre, image@, self.width as int, j));
                    }
                }
            }
            p = p + 1;
        }
        out
    }
}

/// The device bytes of raster pixel `p` of a row-width-`w` raster: the
/// covered canvas pixel with its R and B channels swapped, or opaque
/// black where the canvas does not reach.
pub open spec fn sp_bgra_px_ok(out: Seq<u8>, img: Img, w: int, p: int) -> bool {
    let x = p % w;
    let y = p / w;
    let src = if x < img.w && y < img.h {
        img.at(x, y)
    } else {
        crate::canvas::spec_black()
    };
    &&& out[4 * p] == src.b
    &&& out[4 * p + 1] == src.g
    &&& out[4 * p + 2] == src.r
    &&& out[4 * p + 3] == src.a
}

/// The device frame format: the raster's pixels in scanline order, the
/// canvas read where it covers the raster and opaque black elsewhere,
/// exactly `safe` pixels long.
pub open spec fn sp_bgra_ok(out: Seq<u8>, img: Img, w: int, h: int, safe: int) -> bool {
    &&& out.len() == 4 * safe
    &&& forall|p: int| 0 <= p < safe ==> #[trigger] sp_bgra_px_ok(out, img, w, p)
}

/// How many pixels of a frame fit the rated capacity.
pub open spec fn sp_safe_pixels(w: int, h: int, max_bytes: int) -> int {
    if w * h <= max_bytes / 4 {
        w * h
    } else {
        max_bytes / 4
    }
}

/// How many chunks a direct write of `len` bytes takes.
pub open spec fn sp_chunk_count(len: int) -> int {
    (len + 4095) / 4096
}

/// The chunk layout of a direct write: consecutive ranges of at most
/// [`CHUNK_SIZE`] bytes that tile the buffer exactly.
pub fn chunk_ranges(len: usize) -> (r: Vec<(usize, usize)>)
    requires
        len <= MAX_FRAMEBUFFER_SIZE,
    ensures
        r.len() == sp_chunk_count(len as int),
        forall|i: int|
            0 <= i < r.len() ==> {
                &&& (#[trigger] r@[i]).0 == i * 4096
                &&& r@[i].1 == if i * 4096 + 4096 <= len {
                    i * 4096 + 4096
                } else {
                    len as int
                }
                &&& r@[i].0 < r@[i].1
            },
        r.len() > 0 ==> r@[r.len() - 1].1 == len,
        len > 0 ==> r.len() > 0,
{
    proof {
        lemma_chunk_count(len as int);
    }
    let n: usize = (len + (CHUNK_SIZE - 1)) / CHUNK_SIZE;
    let mut r: Vec<(usize, usize)> = Vec::new();
    let mut i: usize = 0;
    while i < n
        invariant
            i <= n,
            n == sp_chunk_count(len as int),
            len <= MAX_FRAMEBUFFER_SIZE,
            n >= 1 ==> (n - 1) * 4096 < len <= n * 4096,
            r.len() == i,
            forall|j: int|
                0 <= j < i ==> {
                    &&& (#[trigger] r@[j]).0 == j * 4096
                    &&& r@[j].1 == if j * 4096 + 4096 <= len {
                        j * 4096 + 4096
                    } else {
                        len as int
                    }
                    &&& r@[j].0 < r@[j].1
                },
        decreases n - i,
    {
        proof {
            assert((i as int) * 4096 <= (n - 1) * 4096) by (nonlinear_arith)
                requires
                    0 <= i <= n - 1,
            ;
        }
        let start: usize = i * CHUNK_SIZE;
        let end: usize = if len - start >= CHUNK_SIZE {
            start + CHUNK_SIZE
        } else {
            len
        };
        r.push((start, end));
        i = i + 1;
    }
    proof {
        if n >= 1 {
            assert(r@[n - 1].1 == len) by {
                assert((n - 1) * 4096 + 4096 == n * 4096) by (nonlinear_arith);
            }
        }
    }
    r
}

/// The chunk count brackets the length: the last chunk starts inside the
/// buffer and ends exactly at it.
proof fn lemma_chunk_count(len: int)
    requires
        0 <= len,
    ensures
        sp_chunk_count(len) >= 0,
        len > 0 ==> sp_chunk_count(len) >= 1,
        sp_chunk_count(len) >= 1 ==> (sp_chunk_count(len) - 1) * 4096 < len <= sp_chunk_count(
            len,
        ) * 4096,
{
    let n = (len + 4095) / 4096;
    vstd::arithmetic::div_mod::lemma_fundamental_div_mod(len + 4095, 4096);
    assert(len + 4095 == 4096 * n + (len + 4095) % 4096);
    assert(0 <= (len + 4095) % 4096 < 4096);
    vstd::arithmetic::div_mod::lemma_div_pos_is_pos(len + 4095, 4096);
    assert(n * 4096 == 4096 * n) by (nonlinear_arith);
    assert((n - 1) * 4096 == 4096 * n - 4096) by (nonlinear_arith);
}

/// With a device path that fails to open, the sink comes up in file
/// fallback mode, and a push of any buffer within the rated capacity
/// writes exactly the full buffer.
pub proof fn lemma_fallback_push_full(
    width: u32,
    height: u32,
    mapping_len: Option<usize>,
    buffer: Seq<u8>,
)
    ensures
        sp_open(width, height, false, mapping_len).mode == SinkMode::FileFallback,
        sp_push_bytes(sp_open(width, height, false, mapping_len), buffer) == buffer,
{
}

} // verus!
