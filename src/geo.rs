use crate::resolution::Resolution;
use vstd::prelude::*;
use vstd::string::StringExecFns;

verus! {

/// Fixed-point units in one degree: coordinates are held in nanodegrees.
pub const NANOS_PER_DEGREE: i64 = 1000000000;

/// A WGS84 geographic position, in nanodegrees of latitude and longitude.
#[derive(PartialEq, Eq, Structural, Clone, Copy, Debug)]
pub struct GeoPoint {
    pub lat: i64,
    pub lng: i64,
}

impl GeoPoint {
    /// A position from latitude and longitude in nanodegrees.
    pub fn new(lat: i64, lng: i64) -> (r: GeoPoint)
        ensures
            r.lat == lat,
            r.lng == lng,
    {
        GeoPoint { lat, lng }
    }
}

/// `floor(v)` in whole degrees for `v` in nanodegrees.
pub open spec fn floor_deg(v: int) -> int {
    v / (NANOS_PER_DEGREE as int)
}

/// `v - floor(v)`, in nanodegrees; always in `[0, NANOS_PER_DEGREE)`.
pub open spec fn frac_nanos(v: int) -> int {
    v % (NANOS_PER_DEGREE as int)
}

/// Absolute value.
pub open spec fn abs(v: int) -> int {
    if v < 0 {
        -v
    } else {
        v
    }
}

/// The 1x1 degree tile named by its south-west corner.
#[derive(PartialEq, Eq, Structural, Clone, Copy, Debug, Hash)]
pub struct TileId {
    /// `N` when true, `S` otherwise.
    pub north: bool,
    /// Magnitude of the corner latitude, whole degrees.
    pub lat: u64,
    /// `E` when true, `W` otherwise.
    pub east: bool,
    /// Magnitude of the corner longitude, whole degrees.
    pub lng: u64,
}

/// The tile holding `p`: `N` when `floor(lat) >= 0`, `E` when
/// `0 <= floor(lng) < 180`, and `|floor(lat)|`, `|floor(lng)|` as magnitudes.
pub open spec fn tile_of(p: GeoPoint) -> TileId {
    let fl = floor_deg(p.lat as int);
    let fg = floor_deg(p.lng as int);
    TileId {
        north: fl >= 0,
        lat: abs(fl) as u64,
        east: 0 <= fg < 180,
        lng: abs(fg) as u64,
    }
}

/// The character of decimal digit `d`.
pub open spec fn digit_char(d: int) -> char {
    seq!['0', '1', '2', '3', '4', '5', '6', '7', '8', '9'][d]
}

/// Decimal digits of `n`, most significant first, without leading zeros.
pub open spec fn decimal(n: nat) -> Seq<char>
    decreases n,
{
    if n < 10 {
        seq![digit_char(n as int)]
    } else {
        decimal(n / 10).push(digit_char((n % 10) as int))
    }
}

/// Decimal digits of `n`, left-padded with `0` to at least `width` characters.
pub open spec fn padded(n: nat, width: nat) -> Seq<char> {
    let d = decimal(n);
    if d.len() < width {
        Seq::new((width - d.len()) as nat, |i: int| '0') + d
    } else {
        d
    }
}

/// `<N|S><lat, 2 digits><E|W><lng, 3 digits>.hgt`
pub open spec fn tile_file_name(t: TileId) -> Seq<char> {
    seq![if t.north { 'N' } else { 'S' }] + padded(t.lat as nat, 2) + seq![
        if t.east { 'E' } else { 'W' },
    ] + padded(t.lng as nat, 3) + seq!['.', 'h', 'g', 't']
}

/// Round-half-up of `frac * side / NANOS_PER_DEGREE`: nearest sample index
/// along one axis of a grid with `side` intervals.
pub open spec fn pixel_index(v: int, side: int) -> int {
    (2 * frac_nanos(v) * side + NANOS_PER_DEGREE) / (2 * NANOS_PER_DEGREE as int)
}

/// Pixel of `p` in a tile of resolution `res`: `x` grows eastward, `y` grows
/// southward from the northern edge.
pub open spec fn pixel_of(p: GeoPoint, res: Resolution) -> (int, int) {
    let side = res.spec_side() - 1;
    (pixel_index(p.lng as int, side), side - pixel_index(p.lat as int, side))
}

/// For `v` in nanodegrees: whether `floor(v) >= 0`, `|floor(v)|` in whole
/// degrees, and `v - floor(v)` in nanodegrees.
fn split_degrees(v: i64) -> (r: (bool, u64, u64))
    ensures
        r.0 == (floor_deg(v as int) >= 0),
        r.1 == abs(floor_deg(v as int)),
        r.2 == frac_nanos(v as int),
{
    let n: u64 = NANOS_PER_DEGREE as u64;
    if v >= 0 {
        let u: u64 = v as u64;
        (true, u / n, u % n)
    } else {
        // floor(v) = -((-v - 1) / n) - 1 for negative v
        let u: u64 = (-(v + 1)) as u64;
        let q: u64 = u / n;
        let rem: u64 = u % n;
        proof {
            let vi = v as int;
            let ni = n as int;
            assert(vi == -(q as int) * ni - rem as int - 1);
            assert(vi == (-(q as int) - 1) * ni + (ni - 1 - rem as int)) by (nonlinear_arith)
                requires
                    vi == -(q as int) * ni - rem as int - 1,
            ;
            vstd::arithmetic::div_mod::lemma_fundamental_div_mod_converse(
                vi,
                ni,
                -(q as int) - 1,
                ni - 1 - rem as int,
            );
        }
        (false, q + 1, n - 1 - rem)
    }
}


pub open spec fn pow10(k: nat) -> nat
    decreases k,
{
    if k == 0 {
        1
    } else {
        10 * pow10((k - 1) as nat)
    }
}

/// A number below `10^k` has at most `k` decimal digits.
proof fn lemma_decimal_len_le(n: nat, k: nat)
    requires
        n < pow10(k),
        k >= 1,
    ensures
        decimal(n).len() <= k,
    decreases k,
{
    if n >= 10 {
        reveal_with_fuel(pow10, 2);
        assert(k >= 2);
        let p = pow10((k - 1) as nat);
        assert(n < 10 * p);
        assert(n / 10 < p) by (nonlinear_arith)
            requires
                n < 10 * p,
        ;
        lemma_decimal_len_le(n / 10, (k - 1) as nat);
    }
}

/// Two-digit zero-padded form of a number below 100.
proof fn lemma_padded_two(n: nat)
    requires
        n < 100,
    ensures
        padded(n, 2) == seq![digit_char((n / 10) as int), digit_char((n % 10) as int)],
{
    reveal_with_fuel(decimal, 3);
    if n < 10 {
        assert(padded(n, 2) =~= seq![digit_char((n / 10) as int), digit_char((n % 10) as int)]);
    } else {
        assert(decimal(n / 10) == seq![digit_char((n / 10) as int)]);
        assert(padded(n, 2) =~= seq![digit_char((n / 10) as int), digit_char((n % 10) as int)]);
    }
}

/// Three-digit zero-padded form of a number below 1000.
proof fn lemma_padded_three(n: nat)
    requires
        n < 1000,
    ensures
        padded(n, 3) == seq![
            digit_char((n / 100) as int),
            digit_char((n / 10 % 10) as int),
            digit_char((n % 10) as int),
        ],
{
    reveal_with_fuel(decimal, 4);
    let want = seq![
        digit_char((n / 100) as int),
        digit_char((n / 10 % 10) as int),
        digit_char((n % 10) as int),
    ];
    if n < 10 {
        assert(padded(n, 3) =~= want);
    } else if n < 100 {
        assert(decimal(n / 10) == seq![digit_char((n / 10) as int)]);
        assert(padded(n, 3) =~= want);
    } else {
        assert(n / 10 / 10 == n / 100);
        assert(decimal(n / 10 / 10) == seq![digit_char((n / 100) as int)]);
        assert(decimal(n / 10) =~= seq![digit_char((n / 100) as int), digit_char((n / 10 % 10) as int)]);
        assert(padded(n, 3) =~= want);
    }
}

/// For latitudes in `[-89, 89]` and longitudes in `[-179, 179]` degrees,
/// the tile's file name is `[NS]dd[EW]ddd.hgt`, its digit fields holding
/// `|floor(lat)|` and `|floor(lng)|` zero-padded.
pub proof fn lemma_file_name_fields(p: GeoPoint)
    requires
        -89 * NANOS_PER_DEGREE <= p.lat <= 89 * NANOS_PER_DEGREE,
        -179 * NANOS_PER_DEGREE <= p.lng <= 179 * NANOS_PER_DEGREE,
    ensures
        ({
            let name = tile_file_name(tile_of(p));
            let a = abs(floor_deg(p.lat as int));
            let g = abs(floor_deg(p.lng as int));
            &&& name.len() == 11
            &&& name[0] == 'N' || name[0] == 'S'
            &&& name[1] == digit_char(a / 10)
            &&& name[2] == digit_char(a % 10)
            &&& name[3] == 'E' || name[3] == 'W'
            &&& name[4] == digit_char(g / 100)
            &&& name[5] == digit_char(g / 10 % 10)
            &&& name[6] == digit_char(g % 10)
            &&& name.subrange(7, 11) == seq!['.', 'h', 'g', 't']
        }),
{
    let t = tile_of(p);
    let n = NANOS_PER_DEGREE as int;
    assert(-89 <= floor_deg(p.lat as int) <= 89) by {
        vstd::arithmetic::div_mod::lemma_div_is_ordered(-89 * n, p.lat as int, n);
        vstd::arithmetic::div_mod::lemma_div_is_ordered(p.lat as int, 89 * n, n);
        vstd::arithmetic::div_mod::lemma_div_multiples_vanish(-89, n);
        vstd::arithmetic::div_mod::lemma_div_multiples_vanish(89, n);
    }
    assert(-179 <= floor_deg(p.lng as int) <= 179) by {
        vstd::arithmetic::div_mod::lemma_div_is_ordered(-179 * n, p.lng as int, n);
        vstd::arithmetic::div_mod::lemma_div_is_ordered(p.lng as int, 179 * n, n);
        vstd::arithmetic::div_mod::lemma_div_multiples_vanish(-179, n);
        vstd::arithmetic::div_mod::lemma_div_multiples_vanish(179, n);
    }
    lemma_padded_two(t.lat as nat);
    lemma_padded_three(t.lng as nat);
    let name = tile_file_name(t);
    assert(name.subrange(7, 11) =~= seq!['.', 'h', 'g', 't']);
}

/// Where a coordinate is not negative or is a whole number of degrees, the
/// digit fields of its tile's file name hold `floor(|lat|)` and
/// `floor(|lng|)`. (For a negative fractional coordinate they hold
/// `|floor(v)|`, one more: `-50.9` lies in tile `S51`.)
pub proof fn lemma_file_name_pattern(p: GeoPoint)
    requires
        -89 * NANOS_PER_DEGREE <= p.lat <= 89 * NANOS_PER_DEGREE,
        -179 * NANOS_PER_DEGREE <= p.lng <= 179 * NANOS_PER_DEGREE,
        p.lat >= 0 || frac_nanos(p.lat as int) == 0,
        p.lng >= 0 || frac_nanos(p.lng as int) == 0,
    ensures
        ({
            let name = tile_file_name(tile_of(p));
            let a = floor_deg(abs(p.lat as int));
            let g = floor_deg(abs(p.lng as int));
            &&& name.len() == 11
            &&& name[0] == 'N' || name[0] == 'S'
            &&& name[1] == digit_char(a / 10)
            &&& name[2] == digit_char(a % 10)
            &&& name[3] == 'E' || name[3] == 'W'
            &&& name[4] == digit_char(g / 100)
            &&& name[5] == digit_char(g / 10 % 10)
            &&& name[6] == digit_char(g % 10)
            &&& name.subrange(7, 11) == seq!['.', 'h', 'g', 't']
        }),
{
    lemma_file_name_fields(p);
    lemma_floor_of_abs(p.lat as int);
    lemma_floor_of_abs(p.lng as int);
}

proof fn lemma_floor_of_abs(v: int)
    requires
        v >= 0 || frac_nanos(v) == 0,
    ensures
        abs(floor_deg(v)) == floor_deg(abs(v)),
{
    let n = NANOS_PER_DEGREE as int;
    if v < 0 {
        vstd::arithmetic::div_mod::lemma_fundamental_div_mod(v, n);
        let q = v / n;
        assert(v == n * q);
        assert(-v == n * (-q)) by (nonlinear_arith)
            requires
                v == n * q,
        ;
        vstd::arithmetic::div_mod::lemma_div_multiples_vanish(-q, n);
    }
}

/// At a tile's south-west corner (whole degrees of latitude and longitude)
/// the pixel is the first column of the last row: `(0, side - 1)`.
pub proof fn lemma_corner_pixel(p: GeoPoint, res: Resolution)
    requires
        frac_nanos(p.lat as int) == 0,
        frac_nanos(p.lng as int) == 0,
    ensures
        pixel_of(p, res) == (0int, res.spec_side() - 1),
{
    let side = res.spec_side() - 1;
    assert(2 * frac_nanos(p.lat as int) * side == 0);
    assert(2 * frac_nanos(p.lng as int) * side == 0);
    assert((1000000000int) / 2000000000 == 0);
    assert(pixel_index(p.lat as int, side) == 0);
    assert(pixel_index(p.lng as int, side) == 0);
}

/// The one-character string holding decimal digit `d`.
fn digit_str(d: u64) -> (r: &'static str)
    requires
        d < 10,
    ensures
        r@ == seq![digit_char(d as int)],
{
    proof {
        reveal_strlit("0");
        reveal_strlit("1");
        reveal_strlit("2");
        reveal_strlit("3");
        reveal_strlit("4");
        reveal_strlit("5");
        reveal_strlit("6");
        reveal_strlit("7");
        reveal_strlit("8");
        reveal_strlit("9");
    }
    match d {
        0 => "0",
        1 => "1",
        2 => "2",
        3 => "3",
        4 => "4",
        5 => "5",
        6 => "6",
        7 => "7",
        8 => "8",
        _ => "9",
    }
}

/// Number of characters in the decimal form of `n`.
fn decimal_len(n: u64) -> (r: usize)
    ensures
        r == decimal(n as nat).len(),
        1 <= r <= 20,
    decreases n,
{
    if n < 10 {
        1
    } else {
        let r = decimal_len(n / 10);
        proof {
            reveal_with_fuel(pow10, 20);
            assert((n / 10) < pow10(19));
            lemma_decimal_len_le((n / 10) as nat, 19);
        }
        r + 1
    }
}

/// Appends the decimal digits of `n` to `s`.
fn push_decimal(s: &mut String, n: u64)
    ensures
        final(s)@ == old(s)@ + decimal(n as nat),
    decreases n,
{
    if n >= 10 {
        push_decimal(s, n / 10);
    }
    s.append(digit_str(n % 10));
    proof {
        assert(final(s)@ =~= old(s)@ + decimal(n as nat));
    }
}

/// Appends `n` in decimal to `s`, left-padded with `0` to `width` characters.
fn push_padded(s: &mut String, n: u64, width: usize)
    ensures
        final(s)@ == old(s)@ + padded(n as nat, width as nat),
{
    let len = decimal_len(n);
    let mut i: usize = len;
    while i < width
        invariant
            len <= i,
            len == decimal(n as nat).len(),
            i <= width || i == len,
            s@ == old(s)@ + Seq::new((i - len) as nat, |j: int| '0'),
        decreases width - i,
    {
        proof {
            reveal_strlit("0");
        }
        s.append("0");
        i = i + 1;
        proof {
            assert(s@ =~= old(s)@ + Seq::new((i - len) as nat, |j: int| '0'));
        }
    }
    push_decimal(s, n);
    proof {
        if len < width {
            assert(i == width);
            assert(final(s)@ =~= old(s)@ + padded(n as nat, width as nat));
        } else {
            assert(final(s)@ =~= old(s)@ + padded(n as nat, width as nat));
        }
    }
}

/// Nearest sample index along one axis of a grid with `side` intervals.
fn pixel_index_exec(v: i64, side: u64) -> (r: u32)
    requires
        side <= 3600,
    ensures
        r == pixel_index(v as int, side as int),
        r <= side,
{
    let (_, _, f) = split_degrees(v);
    let n: u64 = NANOS_PER_DEGREE as u64;
    proof {
        assert(2 * f * side <= 2 * 1000000000 * 3600) by (nonlinear_arith)
            requires
                f < 1000000000,
                side <= 3600,
        ;
        assert((2 * f * side + n) / (2 * n) <= side) by (nonlinear_arith)
            requires
                f < n,
                n == 1000000000,
        ;
    }
    ((2 * f * side + n) / (2 * n)) as u32
}

/// File name of the tile that holds `p`, such as `N49W002.hgt`.
pub fn srtm_file_name(p: GeoPoint) -> (r: String)
    ensures
        r@ == tile_file_name(tile_of(p)),
{
    TileId::of(p).file_name()
}

/// Pixel `(x, y)` of the sample nearest to `p` in its tile of resolution
/// `res`: column from the western edge, row from the northern edge.
pub fn srtm_file_coord(p: GeoPoint, res: Resolution) -> (r: (u32, u32))
    ensures
        (r.0 as int, r.1 as int) == pixel_of(p, res),
        r.0 < res.spec_side(),
        r.1 < res.spec_side(),
{
    let side = res.side() - 1;
    let x = pixel_index_exec(p.lng, side as u64);
    let y = pixel_index_exec(p.lat, side as u64);
    (x, side - y)
}

impl TileId {
    /// The tile that holds `p`.
    pub fn of(p: GeoPoint) -> (r: TileId)
        ensures
            r == tile_of(p),
    {
        let (lat_nonneg, lat_mag, _) = split_degrees(p.lat);
        let (lng_nonneg, lng_mag, _) = split_degrees(p.lng);
        TileId { north: lat_nonneg, lat: lat_mag, east: lng_nonneg && lng_mag < 180, lng: lng_mag }
    }

    /// The tile's file name, such as `N49W002.hgt`.
    pub fn file_name(&self) -> (r: String)
        ensures
            r@ == tile_file_name(*self),
    {
        let mut s = String::new();
        proof {
            reveal_strlit("N");
            reveal_strlit("S");
            reveal_strlit("E");
            reveal_strlit("W");
            reveal_strlit(".hgt");
        }
        s.append(if self.north { "N" } else { "S" });
        push_padded(&mut s, self.lat, 2);
        s.append(if self.east { "E" } else { "W" });
        push_padded(&mut s, self.lng, 3);
        s.append(".hgt");
        proof {
            assert(s@ =~= tile_file_name(*self));
        }
        s
    }
}

} // verus!
