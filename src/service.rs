use crate::cache::{get_or_open_post, TileCache};
use crate::geo::{tile_of, GeoPoint, TileId};
use crate::resolution::{resolution_of_size, SrtmError};
use crate::sample::{point_offset, read_sample, sample_result, LookupError};
use vstd::prelude::*;

verus! {

/// The outcome of a lookup of `p`, given what the tile's handle, its size
/// query and its read returned: a failure of any stage is returned as it
/// came; otherwise the sample decoded from the bytes read.
pub open spec fn lookup_result<H, E>(
    p: GeoPoint,
    opened: Result<H, E>,
    size: Result<u64, E>,
    read: Result<[u8; 2], E>,
) -> Result<i16, LookupError<E>> {
    match opened {
        Err(e) => Err(LookupError::Io(e)),
        Ok(_) => match size {
            Err(e) => Err(LookupError::Io(e)),
            Ok(n) => sample_result(p, n, read),
        },
    }
}

impl<H> TileCache<H> {
    /// Elevation in meters of the sample nearest to `p`.
    ///
    /// The tile's handle comes from the cache, opened with `open` on a
    /// miss; `size` gives the tile's current byte length, which selects the
    /// resolution; `read` returns the two bytes at a byte offset.
    pub fn elevation<E, O, S, R>(&mut self, p: GeoPoint, open: O, size: S, read: R) -> (r: Result<
        i16,
        LookupError<E>,
    >)
        where
            O: FnOnce(String) -> Result<H, E>,
            S: FnOnce(&H) -> Result<u64, E>,
            R: FnOnce(&H, u64) -> Result<[u8; 2], E>,
        requires
            old(self).wf(),
            forall|name: String| open.requires((name,)),
            forall|h: &H| size.requires((h,)),
            forall|h: &H, off: u64| read.requires((h, off)),
        ensures
            final(self).wf(),
            exists|opened: Result<H, E>, sz: Result<u64, E>, bytes: Result<[u8; 2], E>|
                get_or_open_post(old(self)@, tile_of(p), open, final(self)@, opened)
                && (opened is Ok ==> size.ensures((&opened->Ok_0,), sz))
                && (opened is Ok && sz is Ok && resolution_of_size(sz->Ok_0) is Ok ==> read.ensures(
                    (&opened->Ok_0, point_offset(p, resolution_of_size(sz->Ok_0)->Ok_0) as u64),
                    bytes,
                ))
                && r == #[trigger] lookup_result(p, opened, sz, bytes),
    {
        let id = TileId::of(p);
        let got = self.get_or_open(id, open);
        match got {
            Err(e) => {
                let ghost ge = e;
                let r = Err(LookupError::Io(e));
                assert(r == lookup_result(
                    p,
                    Err::<H, E>(ge),
                    Err::<u64, E>(ge),
                    Err::<[u8; 2], E>(ge),
                ));
                r
            },
            Ok(h) => {
                let ghost opened = Ok::<H, E>(*h);
                let sz = size(h);
                assert(size.ensures((&opened->Ok_0,), sz));
                match sz {
                    Err(e) => {
                        let ghost ge = e;
                        let r = Err(LookupError::Io(e));
                        assert(r == lookup_result(p, opened, Err::<u64, E>(ge), Err::<[u8; 2], E>(ge)));
                        r
                    },
                    Ok(n) => {
                        let r = read_sample(h, p, n, read);
                        proof {
                            if resolution_of_size(n) is Ok {
                                let out = choose|out: Result<[u8; 2], E>|
                                    #[trigger] read.ensures((h, point_offset(p, resolution_of_size(n)->Ok_0) as u64), out)
                                    && r == sample_result(p, n, out);
                                assert(r == lookup_result(p, opened, sz, out));
                            } else {
                                let out = Err::<[u8; 2], E>(arbitrary());
                                assert(r == lookup_result(p, opened, sz, out));
                            }
                        }
                        r
                    },
                }
            },
        }
    }
}

} // verus!
