//! The hexagonal grid, through the `h3o` crate.
//!
//! Cells travel through the library as their plain 64-bit indexes; the
//! functions the grid computations rely on stand here as trusted items, each
//! naming what the crate returns.

use vstd::prelude::*;

verus! {

/// Whether a 64-bit value is a valid cell index, as
/// `h3o::CellIndex::try_from` decides it.
pub uninterp spec fn is_cell(c: u64) -> bool;

/// The cell that contains the point written by the two coordinate texts at
/// the given resolution, as `h3o::LatLng::to_cell` computes it.
pub uninterp spec fn cell_of(lat: Seq<char>, lon: Seq<char>, res: u8) -> u64;

/// Whether the two coordinate texts yield a cell at all: both must read as
/// finite numbers, which `str::parse` and `h3o::LatLng::new` decide from the
/// texts alone.
pub uninterp spec fn has_cell(lat: Seq<char>, lon: Seq<char>, res: u8) -> bool;

/// The cells at exactly grid distance `k` from `origin`, in the order
/// `h3o::CellIndex::grid_ring_fast` yields them — or the empty sequence
/// where that iterator fails on a pentagon distortion.
pub uninterp spec fn ring_of(origin: u64, k: u32) -> Seq<u64>;

/// The centroid latitude of a cell, written as `h3o::LatLng::lat` displays
/// it: a plain decimal text, a function of the cell alone.
pub uninterp spec fn centroid_lat(c: u64) -> Seq<char>;

/// The centroid longitude of a cell, written as `h3o::LatLng::lng` displays
/// it: a plain decimal text, a function of the cell alone.
pub uninterp spec fn centroid_lng(c: u64) -> Seq<char>;

/// Relies on `h3o::LatLng::new` (which fails only on non-finite numbers) and
/// `h3o::LatLng::to_cell`: the containing cell of a point, at the given
/// resolution.  `None` exactly when a coordinate text does not read as a
/// finite number — a fact of the texts alone, named [`has_cell`].  The
/// resolution must be one the grid has, so that `h3o::Resolution::try_from`
/// accepts it.
#[verifier::external_body]
pub(crate) fn latlng_cell(lat: &str, lon: &str, res: u8) -> (r: Option<u64>)
    requires
        res <= 15,
    ensures
        r is Some <==> has_cell(lat@, lon@, res),
        r matches Some(c) ==> c == cell_of(lat@, lon@, res) && is_cell(c),
{
    let res = h3o::Resolution::try_from(res).ok()?;
    let ll = h3o::LatLng::new(lat.parse().ok()?, lon.parse().ok()?).ok()?;
    Some(u64::from(ll.to_cell(res)))
}

/// Relies on `h3o::CellIndex::grid_ring_fast`: the hollow ring of cells at
/// exactly grid distance `k`; ring zero is the cell itself; on a pentagon
/// distortion the iterator fails and the ring is taken as empty, as its
/// documentation prescribes.
#[verifier::external_body]
pub(crate) fn ring_cells(origin: u64, k: u32) -> (r: Vec<u64>)
    requires
        is_cell(origin),
    ensures
        r@ == ring_of(origin, k),
        forall|i: int| 0 <= i < r@.len() ==> is_cell(#[trigger] r@[i]),
        k == 0 ==> r@ =~= seq![origin],
{
    let cell = h3o::CellIndex::try_from(origin).unwrap();
    cell.grid_ring_fast(k)
        .collect::<Option<Vec<_>>>()
        .unwrap_or_default()
        .into_iter()
        .map(u64::from)
        .collect()
}

/// Relies on `h3o::LatLng::from(CellIndex)`: the centroid of a cell, its
/// two coordinates written as plain decimal degrees.
#[verifier::external_body]
pub(crate) fn cell_centroid(c: u64) -> (r: (String, String))
    requires
        is_cell(c),
    ensures
        r.0@ == centroid_lat(c),
        r.1@ == centroid_lng(c),
{
    let cell = h3o::CellIndex::try_from(c).unwrap();
    let ll = h3o::LatLng::from(cell);
    (format!("{}", ll.lat()), format!("{}", ll.lng()))
}

} // verus!
