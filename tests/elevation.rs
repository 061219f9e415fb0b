use easy_srtm::cache::TileCache;
use easy_srtm::geo::{GeoPoint, TileId};
use easy_srtm::resolution::{SrtmError, SRTM1_FSIZE, SRTM3_FSIZE};
use easy_srtm::sample::{decode_sample, read_sample, sample_offset, LookupError};
use easy_srtm::resolution::Resolution;
use std::cell::Cell;

fn nanos(v: f32) -> i64 {
    (v as f64 * 1e9).round() as i64
}

fn point(lat: f32, lng: f32) -> GeoPoint {
    GeoPoint::new(nanos(lat), nanos(lng))
}

fn tile_len(h: &Vec<u8>) -> Result<u64, String> {
    Ok(h.len() as u64)
}

fn read_at(h: &Vec<u8>, off: u64) -> Result<[u8; 2], String> {
    let o = off as usize;
    if o + 2 > h.len() {
        return Err("short read".to_string());
    }
    Ok([h[o], h[o + 1]])
}

#[test]
fn it_retrieves_heights_iterator() {}

#[test]
fn elevation_end_to_end_from_fixture_tile() {
    let mut tile = vec![0u8; SRTM1_FSIZE as usize];
    let index = 1 + 1 * 3601;
    tile[index * 2] = 0x01;
    tile[index * 2 + 1] = 0x76;
    let mut cache: TileCache<Vec<u8>> = TileCache::new();
    let opened_name = std::cell::RefCell::new(String::new());
    let r = cache.elevation(
        point(49.99972, -0.99972224),
        |name: String| {
            *opened_name.borrow_mut() = name;
            Ok(tile)
        },
        tile_len,
        read_at,
    );
    assert_eq!(r, Ok(374));
    assert_eq!(*opened_name.borrow(), "N49W001.hgt");
}

#[test]
fn cache_opens_each_tile_once() {
    let opens = Cell::new(0u32);
    let mut cache: TileCache<u32> = TileCache::new();
    let id = TileId::of(point(49.5, -1.5));
    let open = |_: String| -> Result<u32, String> {
        opens.set(opens.get() + 1);
        Ok(7)
    };
    assert_eq!(cache.get_or_open(id, open), Ok(&7));
    assert_eq!(cache.get_or_open(id, open), Ok(&7));
    assert_eq!(opens.get(), 1);
    assert_eq!(cache.get(id), Some(&7));
    let other = TileId::of(point(48.5, -1.5));
    assert_eq!(cache.get(other), None);
    assert_eq!(cache.get_or_open(other, |_| -> Result<u32, String> { Ok(8) }), Ok(&8));
    assert_eq!(cache.get_or_open(id, open), Ok(&7));
    assert_eq!(opens.get(), 1);
}

#[test]
fn cache_keeps_nothing_after_a_failed_open() {
    let mut cache: TileCache<u32> = TileCache::new();
    let id = TileId::of(point(1.5, 1.5));
    let failed = cache.get_or_open(id, |name: String| -> Result<u32, String> { Err(name) });
    assert_eq!(failed, Err("N01E001.hgt".to_string()));
    assert_eq!(cache.get(id), None);
    assert_eq!(cache.get_or_open(id, |_| -> Result<u32, String> { Ok(3) }), Ok(&3));
}

#[test]
fn elevation_reports_unsupported_size() {
    let mut cache: TileCache<Vec<u8>> = TileCache::new();
    let r = cache.elevation(point(10.5, 10.5), |_| Ok(vec![0u8; 10]), tile_len, read_at);
    assert_eq!(r, Err(LookupError::Format(SrtmError::ResolutionError)));
}

#[test]
fn elevation_reports_io_failures() {
    let mut cache: TileCache<Vec<u8>> = TileCache::new();
    let r = cache.elevation(
        point(10.5, 10.5),
        |name: String| -> Result<Vec<u8>, String> { Err(format!("missing {}", name)) },
        tile_len,
        read_at,
    );
    assert_eq!(r, Err(LookupError::Io("missing N10E010.hgt".to_string())));
    let r = cache.elevation(
        point(10.5, 10.5),
        |_| Ok(vec![0u8; SRTM3_FSIZE as usize]),
        |_: &Vec<u8>| -> Result<u64, String> { Err("no metadata".to_string()) },
        read_at,
    );
    assert_eq!(r, Err(LookupError::Io("no metadata".to_string())));
    let r = cache.elevation(
        point(10.5, 10.5),
        |_| Ok(vec![]),
        |_: &Vec<u8>| Ok(SRTM3_FSIZE),
        |_: &Vec<u8>, _| -> Result<[u8; 2], String> { Err("eof".to_string()) },
    );
    assert_eq!(r, Err(LookupError::Io("eof".to_string())));
}

#[test]
fn low_resolution_tile_sample() {
    let mut tile = vec![0u8; SRTM3_FSIZE as usize];
    // centre of the tile: x = 600, y = 600
    let index = 600 + 600 * 1201;
    tile[index * 2] = 0xff;
    tile[index * 2 + 1] = 0xfe;
    let mut cache: TileCache<Vec<u8>> = TileCache::new();
    let r = cache.elevation(GeoPoint::new(-20_500_000_000, 30_500_000_000), |_| Ok(tile), tile_len, read_at);
    assert_eq!(r, Ok(-2));
}

#[test]
fn samples_decode_big_endian_signed() {
    assert_eq!(decode_sample([0x00, 0x76]), 118);
    assert_eq!(decode_sample([0x01, 0x00]), 256);
    assert_eq!(decode_sample([0x80, 0x00]), -32768);
    assert_eq!(decode_sample([0xff, 0xff]), -1);
    assert_eq!(decode_sample([0x7f, 0xff]), 32767);
}

#[test]
fn sample_offsets() {
    let p = point(49.99972, -0.99972224);
    assert_eq!(sample_offset(p, Resolution::SRTM1), 2 * (1 + 3601));
    let corner = GeoPoint::new(0, 0);
    assert_eq!(sample_offset(corner, Resolution::SRTM3), 2 * 1200 * 1201);
}

#[test]
fn read_sample_at_offset() {
    let h = vec![0u8, 0, 0x12, 0x34];
    let got = read_sample(&h, GeoPoint::new(0, 0), SRTM3_FSIZE, |_: &Vec<u8>, off: u64| -> Result<[u8; 2], String> {
        assert_eq!(off, 2 * 1200 * 1201);
        Ok([0x12, 0x34])
    });
    assert_eq!(got, Ok(0x1234));
    let bad = read_sample(&h, GeoPoint::new(0, 0), 4, read_at);
    assert_eq!(bad, Err(LookupError::Format(SrtmError::ResolutionError)));
}
