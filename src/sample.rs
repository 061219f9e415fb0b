use crate::geo::{pixel_of, srtm_file_coord, GeoPoint};
use crate::resolution::{resolution_of_size, Resolution, SrtmError};
use byteorder::ByteOrder;
use vstd::prelude::*;

verus! {

/// The signed 16-bit value of the big-endian byte pair `(hi, lo)`.
pub open spec fn be_i16(hi: u8, lo: u8) -> int {
    let u = hi as int * 256 + lo as int;
    if u >= 32768 {
        u - 65536
    } else {
        u
    }
}

/// Relies on byteorder's `BigEndian::read_i16`: the first two bytes of the
/// buffer read as a big-endian `u16`, then reinterpreted as `i16`.
#[verifier::external_body]
fn read_be_i16(buf: &[u8; 2]) -> (r: i16)
    ensures
        r as int == be_i16(buf[0], buf[1]),
{
    byteorder::BigEndian::read_i16(buf)
}

/// Decodes one elevation sample (meters) from its two bytes on disk.
pub fn decode_sample(bytes: [u8; 2]) -> (r: i16)
    ensures
        r as int == be_i16(bytes[0], bytes[1]),
{
    read_be_i16(&bytes)
}

/// Byte offset, from the start of the tile file, of the sample at `(x, y)`.
pub open spec fn sample_offset_of(x: int, y: int, res: Resolution) -> int {
    2 * (x + y * res.spec_side())
}

/// Byte offset of the sample nearest to `p` in its tile of resolution `res`.
pub open spec fn point_offset(p: GeoPoint, res: Resolution) -> int {
    sample_offset_of(pixel_of(p, res).0, pixel_of(p, res).1, res)
}

/// Byte offset of the sample nearest to `p`: `2 * (x + y * side)`.
pub fn sample_offset(p: GeoPoint, res: Resolution) -> (r: u64)
    ensures
        r == point_offset(p, res),
        r + 2 <= res.spec_file_size(),
{
    let (x, y) = srtm_file_coord(p, res);
    let side = res.side() as u64;
    proof {
        let s = side as int;
        assert(2 * (x + y * s) + 2 <= s * s * 2) by (nonlinear_arith)
            requires
                x < s,
                y < s,
        ;
    }
    2 * (x as u64 + y as u64 * side)
}

/// Failure of an elevation lookup, by originating kind.
#[derive(PartialEq, Eq, Structural, Debug)]
pub enum LookupError<E> {
    /// The tile's length is not a tile size.
    Format(SrtmError),
    /// Opening, sizing or reading the tile failed.
    Io(E),
}

/// The outcome of reading the sample nearest to `p` from a tile of
/// `filesize` bytes, given what the read at the sample's offset returned.
pub open spec fn sample_result<E>(
    p: GeoPoint,
    filesize: u64,
    read: Result<[u8; 2], E>,
) -> Result<i16, LookupError<E>> {
    match resolution_of_size(filesize) {
        Err(e) => Err(LookupError::Format(e)),
        Ok(_) => match read {
            Ok(b) => Ok(be_i16(b[0], b[1]) as i16),
            Err(e) => Err(LookupError::Io(e)),
        },
    }
}

/// Reads the sample nearest to `p` from the tile behind `h`, whose length
/// is `filesize`. `read` returns the two bytes at a byte offset of the
/// tile. It is called once, at the sample's offset, and only when
/// `filesize` is a tile size.
pub fn read_sample<H, E, R>(h: &H, p: GeoPoint, filesize: u64, read: R) -> (r: Result<
    i16,
    LookupError<E>,
>)
    where
        R: FnOnce(&H, u64) -> Result<[u8; 2], E>,
    requires
        forall|off: u64| read.requires((h, off)),
    ensures
        resolution_of_size(filesize) is Err ==> r == Err::<i16, LookupError<E>>(
            LookupError::Format(SrtmError::ResolutionError),
        ),
        resolution_of_size(filesize) is Ok ==> exists|out: Result<[u8; 2], E>|
            #[trigger] read.ensures((h, point_offset(p, resolution_of_size(filesize)->Ok_0) as u64), out)
            && r == sample_result(p, filesize, out),
{
    match Resolution::from_size(filesize) {
        Err(e) => Err(LookupError::Format(e)),
        Ok(res) => {
            let off = sample_offset(p, res);
            let out = read(h, off);
            assert(read.ensures((h, off), out));
            match out {
                Ok(b) => {
                    let v = decode_sample(b);
                    assert(Ok::<i16, LookupError<E>>(v) == sample_result(p, filesize, out));
                    Ok(v)
                },
                Err(e) => Err(LookupError::Io(e)),
            }
        },
    }
}

} // verus!
