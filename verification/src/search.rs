//! The hex-ring coverage search: from the origin cell outward, ring by ring,
//! until a whole ring brings no qualifying cell.
//!
//! Every cell of a ring is sampled through the engine; a cell enters the
//! coverage map exactly when its received power strictly exceeds the
//! threshold.  The first empty ring ends the search — coverage is taken as
//! roughly star-convex around the transmitter, so an all-quiet ring is read
//! as the boundary.  That is a deliberate approximation, kept as it is.

use crate::dec::{dec_gt, dec_wf, Dec, DecV};
use crate::engine::{DaemonHandle, Engine};
use crate::error::Error;
use crate::h3::{cell_centroid, has_cell, is_cell, latlng_cell, ring_cells};
use crate::params::H3PlotParams;
use crate::response::decode_path_response;
use vstd::prelude::*;

verus! {

/// The lowest grid resolution a search accepts.
pub const MIN_RESOLUTION: u8 = 1;

/// The highest grid resolution a search accepts: finer grids sample below
/// the terrain data's own grain.
pub const MAX_RESOLUTION: u8 = 10;

/// The coverage found around an origin: one entry per qualifying cell,
/// each cell index at most once, with its measured received power.
pub struct CoverageMap {
    entries: Vec<(u64, Dec)>,
}

impl View for CoverageMap {
    type V = Seq<(u64, DecV)>;

    closed spec fn view(&self) -> Seq<(u64, DecV)> {
        self.entries@.map_values(|p: (u64, Dec)| (p.0, p.1@))
    }
}

/// Whether some entry carries this cell.
pub open spec fn has_key(s: Seq<(u64, DecV)>, cell: u64) -> bool {
    exists|i: int| 0 <= i < s.len() && (#[trigger] s[i]).0 == cell
}

impl CoverageMap {
    /// Each cell appears at most once, and every value is well-formed.
    pub open spec fn wf(&self) -> bool {
        &&& forall|i: int, j: int|
            0 <= i < j < self@.len() ==> (#[trigger] self@[i]).0 != (#[trigger] self@[j]).0
        &&& forall|i: int| 0 <= i < self@.len() ==> dec_wf((#[trigger] self@[i]).1)
    }

    /// An empty map.
    pub fn new() -> (r: CoverageMap)
        ensures
            r@ =~= Seq::<(u64, DecV)>::empty(),
            r.wf(),
    {
        CoverageMap { entries: Vec::new() }
    }

    /// How many cells qualified.
    pub fn len(&self) -> (r: usize)
        ensures
            r == self@.len(),
    {
        self.entries.len()
    }

    /// The entry at a position: the cell index and its measured power.
    pub fn entry_at(&self, i: usize) -> (r: &(u64, Dec))
        requires
            i < self@.len(),
        ensures
            r.0 == self@[i as int].0,
            r.1@ == self@[i as int].1,
    {
        &self.entries[i]
    }

    /// The measured power recorded for a cell, if the cell qualified.
    pub fn get(&self, cell: u64) -> (r: Option<&Dec>)
        ensures
            r matches Some(d) ==> exists|i: int|
                0 <= i < self@.len() && #[trigger] self@[i] == (cell, d@),
            r is None ==> !has_key(self@, cell),
    {
        let mut i: usize = 0;
        while i < self.entries.len()
            invariant
                i <= self@.len() == self.entries@.len(),
                forall|j: int| 0 <= j < i ==> (#[trigger] self@[j]).0 != cell,
            decreases self@.len() - i,
        {
            if self.entries[i].0 == cell {
                proof {
                    assert(self@[i as int] == (cell, self.entries@[i as int].1@));
                }
                return Some(&self.entries[i].1);
            }
            i = i + 1;
        }
        None
    }

    /// Records a measurement for a cell: a fresh cell is added, a cell seen
    /// before keeps one entry, which takes the new value.
    pub fn insert(&mut self, cell: u64, val: Dec)
        requires
            old(self).wf(),
            dec_wf(val@),
        ensures
            final(self).wf(),
            has_key(final(self)@, cell),
            forall|i: int|
                0 <= i < final(self)@.len() ==> (#[trigger] final(self)@[i]) == (cell, val@) || (
                i < old(self)@.len() && final(self)@[i] == old(self)@[i]),
            forall|c: u64| #[trigger] has_key(old(self)@, c) ==> has_key(final(self)@, c),
    {
        let ghost pre = self@;
        let mut i: usize = 0;
        while i < self.entries.len()
            invariant
                self@ == pre,
                old(self).wf(),
                pre == old(self)@,
                dec_wf(val@),
                i <= self@.len() == self.entries@.len(),
                forall|j: int| 0 <= j < i ==> (#[trigger] self@[j]).0 != cell,
            decreases self@.len() - i,
        {
            if self.entries[i].0 == cell {
                self.entries[i] = (cell, val);
                proof {
                    assert(self@ =~= pre.update(i as int, (cell, val@)));
                    assert(has_key(self@, cell)) by {
                        assert(self@[i as int].0 == cell);
                    }
                    assert(pre[i as int].0 == cell);
                    assert(forall|j: int|
                        0 <= j < self@.len() ==> (#[trigger] self@[j]).0 == pre[j].0);
                    assert(forall|j: int|
                        0 <= j < self@.len() && j != i ==> #[trigger] self@[j] == pre[j]);
                    assert forall|a: int, b: int| 0 <= a < b < self@.len() implies (
                    #[trigger] self@[a]).0 != (#[trigger] self@[b]).0 by {
                        assert(pre[a].0 != pre[b].0);
                    }
                    assert forall|a: int| 0 <= a < self@.len() implies dec_wf(
                        (#[trigger] self@[a]).1,
                    ) by {
                        if a != i {
                            assert(self@[a] == pre[a]);
                            assert(dec_wf(pre[a].1));
                            assert(dec_wf(self@[a].1));
                        } else {
                            assert(self@[a] == (cell, val@));
                            assert(self@[a].1 == val@);
                            assert(dec_wf(val@));
                            assert(dec_wf(self@[a].1));
                        }
                    }
                    assert(self.wf());
                    assert forall|c: u64| #[trigger] has_key(pre, c) implies has_key(
                        self@,
                        c,
                    ) by {
                        let j = choose|j: int| 0 <= j < pre.len() && (#[trigger] pre[j]).0 == c;
                        if j == i {
                            assert(self@[i as int].0 == cell == c);
                        } else {
                            assert(self@[j].0 == c);
                        }
                    }
                }
                return ;
            }
            i = i + 1;
        }
        self.entries.push((cell, val));
        proof {
            assert(self@ =~= pre.push((cell, val@)));
            assert(self@[pre.len() as int].0 == cell);
            assert forall|c: u64| #[trigger] has_key(pre, c) implies has_key(self@, c) by {
                let j = choose|j: int| 0 <= j < pre.len() && (#[trigger] pre[j]).0 == c;
                assert(self@[j].0 == c);
            }
        }
    }
}

impl<E: Engine> DaemonHandle<E> {
    /// The coverage search.  The resolution is checked first: out of bounds,
    /// the search fails with `InvalidResolution` before anything is sampled.
    /// Then, ring by ring outward from the origin's cell, every cell whose
    /// sampled received power strictly exceeds the threshold `rt` enters the
    /// map — a value exactly equal to the threshold never does — and the
    /// first ring with no qualifying cell ends the search.
    pub fn h3plot(&mut self, params: &H3PlotParams) -> (r: Result<CoverageMap, Error>)
        requires
            params.wf(),
        ensures
            r == Result::<CoverageMap, Error>::Err(Error::InvalidResolution) <==> !(MIN_RESOLUTION
                <= params@.res <= MAX_RESOLUTION),
            r == Result::<CoverageMap, Error>::Err(Error::InvalidParameters) <==> (MIN_RESOLUTION
                <= params@.res <= MAX_RESOLUTION && !has_cell(
                crate::dec::dec_chars(params@.lat),
                crate::dec::dec_chars(params@.lon),
                params@.res,
            )),
            r == Result::<CoverageMap, Error>::Err(Error::InvalidResolution) || r == Result::<
                CoverageMap,
                Error,
            >::Err(Error::InvalidParameters) ==> *final(self) == *old(self),
            r matches Err(e) ==> e == Error::InvalidResolution || e == Error::InvalidParameters
                || e == Error::EngineUnavailable || e == Error::MalformedResponse,
            r matches Ok(m) ==> m.wf() && (forall|i: int|
                0 <= i < m@.len() ==> dec_gt((#[trigger] m@[i]).1, params@.rt) && is_cell(
                    m@[i].0,
                )),
    {
        if params.res < MIN_RESOLUTION || params.res > MAX_RESOLUTION {
            return Err(Error::InvalidResolution);
        }
        let lat_s = params.lat.to_text();
        let lon_s = params.lon.to_text();
        let origin = match latlng_cell(lat_s.as_str(), lon_s.as_str(), params.res) {
            Some(c) => c,
            None => {
                return Err(Error::InvalidParameters);
            },
        };
        let mut map = CoverageMap::new();
        let mut k: u32 = 0;
        loop
            invariant
                is_cell(origin),
                map.wf(),
                forall|i: int|
                    0 <= i < map@.len() ==> dec_gt((#[trigger] map@[i]).1, params@.rt) && is_cell(
                        map@[i].0,
                    ),
                params.wf(),
                MIN_RESOLUTION <= params@.res <= MAX_RESOLUTION,
                has_cell(
                    crate::dec::dec_chars(params@.lat),
                    crate::dec::dec_chars(params@.lon),
                    params@.res,
                ),
            decreases u32::MAX - k,
        {
            let cells = ring_cells(origin, k);
            let mut found = false;
            let mut idx: usize = 0;
            while idx < cells.len()
                invariant
                    is_cell(origin),
                    map.wf(),
                    forall|i: int|
                        0 <= i < map@.len() ==> dec_gt((#[trigger] map@[i]).1, params@.rt)
                            && is_cell(map@[i].0),
                    params.wf(),
                    MIN_RESOLUTION <= params@.res <= MAX_RESOLUTION,
                    has_cell(
                        crate::dec::dec_chars(params@.lat),
                        crate::dec::dec_chars(params@.lon),
                        params@.res,
                    ),
                    idx <= cells@.len(),
                    forall|i: int| 0 <= i < cells@.len() ==> is_cell(#[trigger] cells@[i]),
                decreases cells@.len() - idx,
            {
                let cell = cells[idx];
                let (rla, rlo) = cell_centroid(cell);
                let line = params.to_stdout_string(rla.as_str(), rlo.as_str());
                let reply = match self.engine.call_line(line.as_str()) {
                    Ok(s) => s,
                    Err(_) => {
                        return Err(Error::EngineUnavailable);
                    },
                };
                let meas = match decode_path_response(reply.as_str()) {
                    Ok(m) => m,
                    Err(_) => {
                        return Err(Error::MalformedResponse);
                    },
                };
                if meas.received_power.gt(&params.rt) {
                    map.insert(cell, meas.received_power);
                    found = true;
                }
                idx = idx + 1;
            }
            if !found {
                return Ok(map);
            }
            if k == u32::MAX {
                // The grid has no ring this far out: an engine that
                // qualified four billion rings is answering nonsense.
                return Err(Error::EngineUnavailable);
            }
            k = k + 1;
        }
    }
}

} // verus!
