use vstd::prelude::*;

verus! {

/// Everything that can go wrong in a mosaic run. Each failure is fatal to the
/// whole run: there is no retry and no partial result.
///
/// `LoadError` and `SaveError` are produced only by the unverified shell
/// around this library (the image files live on disk); they are listed here so
/// that the whole run shares one error type.
#[derive(Clone, Copy, Debug, PartialEq, Eq, Structural)]
pub enum MosaicError {
    /// The planned grid is degenerate: the inflated source is smaller than one
    /// tile, or a grid axis has more cells than the source has pixels.
    ConfigurationError,
    /// The source image could not be read or decoded.
    LoadError,
    /// Tile `index` of the palette is missing or is not the expected square size.
    AssetError { index: usize },
    /// A tile did not match the cell size at composite time.
    CompositeError,
    /// The finished canvas could not be written out.
    SaveError,
}

impl MosaicError {
    /// A short description of the failure, for the caller's diagnostics.
    pub fn message(&self) -> (m: &'static str)
        ensures
            self is ConfigurationError ==> m@ == "source too small for one tile"@,
            self is LoadError ==> m@ == "failed to read the source image"@,
            self is AssetError ==> m@ == "missing or mis-sized tile asset"@,
            self is CompositeError ==> m@ == "tile does not match the cell size"@,
            self is SaveError ==> m@ == "failed to write the output image"@,
    {
        match self {
            MosaicError::ConfigurationError => "source too small for one tile",
            MosaicError::LoadError => "failed to read the source image",
            MosaicError::AssetError { .. } => "missing or mis-sized tile asset",
            MosaicError::CompositeError => "tile does not match the cell size",
            MosaicError::SaveError => "failed to write the output image",
        }
    }
}

} // verus!
