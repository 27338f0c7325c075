//! Recognising animated images from their bytes: an APNG carries an
//! animation control chunk before its image data, an animated GIF holds more
//! than one image.
use vstd::prelude::*;

use crate::text::str_eq;

verus! {

/// The big-endian 32-bit number at `i`.
pub open spec fn be32(b: Seq<u8>, i: int) -> nat {
    (b[i] as nat) * 16777216 + (b[i + 1] as nat) * 65536 + (b[i + 2] as nat) * 256 + (b[i + 3] as nat)
}

/// The eight bytes every PNG file starts with.
pub open spec fn png_signature() -> Seq<u8> {
    seq![137u8, 80u8, 78u8, 71u8, 13u8, 10u8, 26u8, 10u8]
}

/// The type of the chunk at `pos` is the four bytes `t`.
pub open spec fn chunk_type_is(b: Seq<u8>, pos: int, t: Seq<u8>) -> bool {
    b.subrange(pos + 4, pos + 8) == t
}

/// `acTL`, the animation control chunk.
pub open spec fn actl() -> Seq<u8> {
    seq![97u8, 99u8, 84u8, 76u8]
}

/// `IDAT`, the image data chunk.
pub open spec fn idat() -> Seq<u8> {
    seq![73u8, 68u8, 65u8, 84u8]
}

/// Walking the chunks from `pos`: an `acTL` chunk comes before any `IDAT`
/// chunk. The walk stops, answering no, at an `IDAT` chunk, at the end of
/// the data, or at a chunk that runs past the end.
pub open spec fn apng_from(b: Seq<u8>, pos: nat) -> bool
    decreases b.len() - pos,
{
    if pos + 8 > b.len() {
        false
    } else if chunk_type_is(b, pos as int, actl()) {
        true
    } else if chunk_type_is(b, pos as int, idat()) {
        false
    } else {
        let next = pos + 12 + be32(b, pos as int);
        if next > b.len() {
            false
        } else {
            apng_from(b, next)
        }
    }
}

/// The bytes are an animated PNG.
pub open spec fn is_apng(b: Seq<u8>) -> bool {
    b.len() >= 8 && b.subrange(0, 8) == png_signature() && apng_from(b, 8)
}

fn type_is(b: &[u8], pos: usize, t0: u8, t1: u8, t2: u8, t3: u8) -> (r: bool)
    requires
        pos + 8 <= b@.len(),
    ensures
        r == chunk_type_is(b@, pos as int, seq![t0, t1, t2, t3]),
{
    let n = b.len();
    assert(pos + 8 <= n);
    let r = b[pos + 4] == t0 && b[pos + 5] == t1 && b[pos + 6] == t2 && b[pos + 7] == t3;
    assert(r ==> b@.subrange(pos + 4, pos + 8) =~= seq![t0, t1, t2, t3]);
    assert(b@.subrange(pos + 4, pos + 8) == seq![t0, t1, t2, t3] ==> b@.subrange(pos + 4, pos + 8)[0]
        == t0);
    r
}

/// Whether the bytes are an animated PNG.
pub fn png_is_animated(b: &[u8]) -> (r: bool)
    ensures
        r == is_apng(b@),
{
    let n = b.len();
    if n < 8 {
        return false;
    }
    let sig = b[0] == 137 && b[1] == 80 && b[2] == 78 && b[3] == 71 && b[4] == 13 && b[5] == 10 && b[6]
        == 26 && b[7] == 10;
    if !sig {
        assert(b@.subrange(0, 8) != png_signature()) by {
            if b@.subrange(0, 8) == png_signature() {
                assert(b@.subrange(0, 8)[0] == b@[0]);
                assert(b@.subrange(0, 8)[1] == b@[1]);
                assert(b@.subrange(0, 8)[2] == b@[2]);
                assert(b@.subrange(0, 8)[3] == b@[3]);
                assert(b@.subrange(0, 8)[4] == b@[4]);
                assert(b@.subrange(0, 8)[5] == b@[5]);
                assert(b@.subrange(0, 8)[6] == b@[6]);
                assert(b@.subrange(0, 8)[7] == b@[7]);
            }
        }
        return false;
    }
    assert(b@.subrange(0, 8) =~= png_signature());
    let mut pos: usize = 8;
    while n - pos >= 8
        invariant
            n == b@.len(),
            8 <= pos <= n,
            b@.subrange(0, 8) == png_signature(),
            apng_from(b@, pos as nat) == apng_from(b@, 8),
        decreases n - pos,
    {
        if type_is(b, pos, 97, 99, 84, 76) {
            return true;
        }
        if type_is(b, pos, 73, 68, 65, 84) {
            return false;
        }
        let len: u64 = (b[pos] as u64) * 16777216 + (b[pos + 1] as u64) * 65536 + (b[pos + 2] as u64) * 256
            + (b[pos + 3] as u64);
        assert(len == be32(b@, pos as int));
        let room: u64 = (n - pos) as u64;
        if len + 12 > room {
            return false;
        }
        pos = pos + 12 + len as usize;
    }
    false
}

/// `GIF87a` or `GIF89a`.
pub open spec fn gif_header(b: Seq<u8>) -> bool {
    b.len() >= 13 && b[0] == 71u8 && b[1] == 73u8 && b[2] == 70u8 && b[3] == 56u8 && (b[4] == 55u8
        || b[4] == 57u8) && b[5] == 97u8
}

/// The size in bytes of the color table a packed field announces.
pub open spec fn color_table_size(packed: u8) -> nat {
    if packed >= 128 {
        3 * seq![2nat, 4nat, 8nat, 16nat, 32nat, 64nat, 128nat, 256nat][(packed % 8) as int]
    } else {
        0
    }
}

/// Where a run of data sub-blocks starting at `q` ends (just past its
/// terminating empty block), if it ends within the data.
pub open spec fn sub_blocks_end(b: Seq<u8>, q: nat) -> Option<nat>
    decreases b.len() - q,
{
    if q >= b.len() {
        None
    } else if b[q as int] == 0 {
        Some(q + 1)
    } else if q + 1 + (b[q as int] as nat) > b.len() {
        None
    } else {
        sub_blocks_end(b, q + 1 + (b[q as int] as nat))
    }
}

/// The number of images found walking the blocks from `pos`, starting from
/// `seen` and stopping once two are found. An image counts once its
/// descriptor is complete. The walk stops at the trailer, at an unknown
/// block, or where the data ends.
pub open spec fn gif_images_from(b: Seq<u8>, pos: nat, seen: nat) -> nat
    decreases b.len() - pos,
{
    if seen >= 2 || pos >= b.len() {
        seen
    } else if b[pos as int] == 0x21u8 {
        match sub_blocks_end(b, pos + 2) {
            Some(next) => if pos < next <= b.len() {
                gif_images_from(b, next, seen)
            } else {
                seen
            },
            None => seen,
        }
    } else if b[pos as int] == 0x2Cu8 {
        if pos + 10 > b.len() {
            seen
        } else {
            let data = pos + 10 + color_table_size(b[pos + 9 as int]) + 1;
            match sub_blocks_end(b, data) {
                Some(next) => if pos < next <= b.len() {
                    gif_images_from(b, next, seen + 1)
                } else {
                    seen + 1
                },
                None => seen + 1,
            }
        }
    } else {
        seen
    }
}

/// The bytes are a GIF with more than one image.
pub open spec fn is_animated_gif(b: Seq<u8>) -> bool {
    gif_header(b) && gif_images_from(b, 13 + color_table_size(b[10]), 0) >= 2
}

fn table_size(packed: u8) -> (s: usize)
    ensures
        s == color_table_size(packed),
        s <= 768,
{
    if packed >= 128 {
        let k = packed % 8;
        let mut p: usize = 2;
        let mut i: u8 = 0;
        while i < k
            invariant
                i <= k < 8,
                p == seq![2nat, 4nat, 8nat, 16nat, 32nat, 64nat, 128nat, 256nat][i as int],
            decreases k - i,
        {
            p = p * 2;
            i = i + 1;
        }
        3 * p
    } else {
        0
    }
}

/// Finds where the run of sub-blocks starting at `q` ends.
fn skip_sub_blocks(b: &[u8], q: usize) -> (r: Option<usize>)
    ensures
        match r {
            Some(e) => sub_blocks_end(b@, q as nat) == Some(e as nat) && e <= b@.len(),
            None => sub_blocks_end(b@, q as nat) is None,
        },
{
    let n = b.len();
    let mut cur = q;
    while cur < n && b[cur] != 0
        invariant
            n == b@.len(),
            sub_blocks_end(b@, cur as nat) == sub_blocks_end(b@, q as nat),
        decreases n - cur,
    {
        let size = b[cur] as usize;
        if size + 1 > n - cur {
            return None;
        }
        cur = cur + 1 + size;
    }
    if cur < n {
        Some(cur + 1)
    } else {
        None
    }
}

/// Whether the bytes are a GIF with more than one image.
pub fn gif_is_animated(b: &[u8]) -> (r: bool)
    ensures
        r == is_animated_gif(b@),
{
    let n = b.len();
    if n < 13 {
        return false;
    }
    if !(b[0] == 71 && b[1] == 73 && b[2] == 70 && b[3] == 56 && (b[4] == 55 || b[4] == 57) && b[5] == 97) {
        return false;
    }
    let mut pos: usize = 13 + table_size(b[10]);
    let mut seen: usize = 0;
    let ghost target = gif_images_from(b@, pos as nat, 0);
    while seen < 2 && pos < n
        invariant
            n == b@.len(),
            seen <= 2,
            gif_header(b@),
            gif_images_from(b@, pos as nat, seen as nat) == target,
            target == gif_images_from(b@, 13 + color_table_size(b@[10]), 0),
        decreases n - pos, 2 - seen,
    {
        if b[pos] == 0x21 {
            if n - pos < 2 {
                return seen >= 2;
            }
            match skip_sub_blocks(b, pos + 2) {
                Some(next) => {
                    if next > pos && next <= n {
                        pos = next;
                    } else {
                        return seen >= 2;
                    }
                },
                None => {
                    return seen >= 2;
                },
            }
        } else if b[pos] == 0x2C {
            if n - pos < 10 {
                return seen >= 2;
            }
            let table = table_size(b[pos + 9]);
            seen = seen + 1;
            if table + 1 > n - pos - 10 {
                return seen >= 2;
            }
            let data = pos + 10 + table + 1;
            match skip_sub_blocks(b, data) {
                Some(next) => {
                    if next > pos && next <= n {
                        pos = next;
                    } else {
                        return seen >= 2;
                    }
                },
                None => {
                    return seen >= 2;
                },
            }
        } else {
            return seen >= 2;
        }
    }
    seen >= 2
}

/// A file with this lowercase extension and these bytes is animated: an
/// APNG among PNG files, a GIF with more than one image among GIF files.
pub open spec fn animated_file(ext: Seq<char>, bytes: Seq<u8>) -> bool {
    (ext == "png"@ && is_apng(bytes)) || (ext == "gif"@ && is_animated_gif(bytes))
}

/// Whether a file with this lowercase extension and these bytes is
/// animated.
pub fn is_animated(ext: &str, bytes: &[u8]) -> (b: bool)
    ensures
        b == animated_file(ext@, bytes@),
{
    proof {
        reveal_strlit("png");
        reveal_strlit("gif");
        assert("png"@[0] != "gif"@[0]);
    }
    if str_eq(ext, "png") {
        png_is_animated(bytes)
    } else if str_eq(ext, "gif") {
        gif_is_animated(bytes)
    } else {
        false
    }
}

} // verus!
