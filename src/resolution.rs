use vstd::prelude::*;

verus! {

/// Byte length of a high-resolution tile: 3601 x 3601 samples of 2 bytes.
pub const SRTM1_FSIZE: u64 = 25934402;

/// Byte length of a low-resolution tile: 1201 x 1201 samples of 2 bytes.
pub const SRTM3_FSIZE: u64 = 2884802;

/// Failure to read a file as a tile.
#[derive(PartialEq, Eq, Structural, Clone, Copy, Debug)]
pub enum SrtmError {
    /// The file length is neither of the two tile sizes.
    ResolutionError,
}

impl SrtmError {
    /// Human-readable description of the error.
    pub fn message(&self) -> (r: &'static str)
        ensures
            r@ == "File size is not STRM(1|3) compatible"@,
    {
        match self {
            SrtmError::ResolutionError => "File size is not STRM(1|3) compatible",
        }
    }
}

/// Tile resolution. Tiles are square grids of big-endian `i16` samples.
///
/// - SRTM1: 1 arc-second spacing (~30 meters), 3601 samples per side
/// - SRTM3: 3 arc-second spacing (~90 meters), 1201 samples per side
#[derive(PartialEq, Eq, Structural, Clone, Copy, Debug)]
pub enum Resolution {
    SRTM1,
    SRTM3,
}

/// The resolution whose tiles have exactly `filesize` bytes, if any.
pub open spec fn resolution_of_size(filesize: u64) -> Result<Resolution, SrtmError> {
    if filesize == SRTM1_FSIZE {
        Ok(Resolution::SRTM1)
    } else if filesize == SRTM3_FSIZE {
        Ok(Resolution::SRTM3)
    } else {
        Err(SrtmError::ResolutionError)
    }
}

impl Resolution {
    /// Number of samples along one side of a tile of this resolution.
    pub open spec fn spec_side(self) -> nat {
        match self {
            Resolution::SRTM1 => 3601,
            Resolution::SRTM3 => 1201,
        }
    }

    /// Byte length of a tile of this resolution.
    pub open spec fn spec_file_size(self) -> nat {
        self.spec_side() * self.spec_side() * 2
    }

    /// Number of samples along one side of a tile of this resolution.
    pub fn side(&self) -> (r: u32)
        ensures
            r == self.spec_side(),
    {
        match self {
            Resolution::SRTM1 => 3601,
            Resolution::SRTM3 => 1201,
        }
    }

    /// Detects the resolution of a tile from its byte length. Only the two
    /// exact tile sizes are accepted.
    pub fn from_size(filesize: u64) -> (r: Result<Resolution, SrtmError>)
        ensures
            r == resolution_of_size(filesize),
            r is Ok <==> (filesize == SRTM1_FSIZE || filesize == SRTM3_FSIZE),
            r is Ok ==> r->Ok_0.spec_file_size() == filesize,
    {
        if filesize == SRTM1_FSIZE {
            Ok(Resolution::SRTM1)
        } else if filesize == SRTM3_FSIZE {
            Ok(Resolution::SRTM3)
        } else {
            Err(SrtmError::ResolutionError)
        }
    }
}

impl TryFrom<u64> for Resolution {
    type Error = SrtmError;

    /// Same as [`Resolution::from_size`].
    fn try_from(filesize: u64) -> (r: Result<Resolution, SrtmError>) {
        Resolution::from_size(filesize)
    }
}

impl vstd::std_specs::convert::TryFromSpecImpl<u64> for Resolution {
    open spec fn obeys_try_from_spec() -> bool {
        true
    }

    open spec fn try_from_spec(filesize: u64) -> Result<Resolution, SrtmError> {
        resolution_of_size(filesize)
    }
}

} // verus!
