//! The spatial index: for each of nine resolutions, a map from a cell
//! identifier to the region that first claimed the cell.
//!
//! Coordinates and cells are plain values here. A coordinate is a pair of
//! [`Double`]s; its cells, one per resolution, are handed in with it. The
//! tiling scheme makes them of its own coordinate type, see [`cells_of`].

use crate::double::Double;
use crate::text::{field, field_count, find_tabs, nth_field};
use std::collections::HashMap;
use vstd::prelude::*;

verus! {

/// The number of resolutions of the index: 0, the coarsest, to 8, the finest.
pub const RESOLUTIONS: usize = 9;

/// The least number of tab-separated fields of a gazetteer line.
pub const GAZETTEER_FIELDS: usize = 18;

/// The region that a cell lies in.
#[derive(Debug)]
pub struct RegionInfo {
    pub country: String,
    pub region: String,
    pub timezone: String,
    pub nearest_place: String,
}

pub struct RegionInfoView {
    pub country: Seq<char>,
    pub region: Seq<char>,
    pub timezone: Seq<char>,
    pub nearest_place: Seq<char>,
}

impl View for RegionInfo {
    type V = RegionInfoView;

    open spec fn view(&self) -> RegionInfoView {
        RegionInfoView {
            country: self.country@,
            region: self.region@,
            timezone: self.timezone@,
            nearest_place: self.nearest_place@,
        }
    }
}

impl Clone for RegionInfo {
    fn clone(&self) -> (r: Self)
        ensures
            r@ == self@,
    {
        RegionInfo {
            country: self.country.clone(),
            region: self.region.clone(),
            timezone: self.timezone.clone(),
            nearest_place: self.nearest_place.clone(),
        }
    }
}

/// What a lookup found: the region, the coordinate's cell at every
/// resolution, and the resolution whose map held the region.
#[derive(Debug)]
pub struct LocationResult {
    pub country: String,
    pub region: String,
    pub timezone: String,
    pub nearest_place: String,
    pub h3_cells: [u64; 9],
    pub resolution_used: u8,
}

pub struct LocationResultView {
    pub region: RegionInfoView,
    pub h3_cells: Seq<u64>,
    pub resolution_used: u8,
}

impl View for LocationResult {
    type V = LocationResultView;

    open spec fn view(&self) -> LocationResultView {
        LocationResultView {
            region: RegionInfoView {
                country: self.country@,
                region: self.region@,
                timezone: self.timezone@,
                nearest_place: self.nearest_place@,
            },
            h3_cells: self.h3_cells@,
            resolution_used: self.resolution_used,
        }
    }
}

impl Clone for LocationResult {
    fn clone(&self) -> (r: Self)
        ensures
            r@ == self@,
    {
        LocationResult {
            country: self.country.clone(),
            region: self.region.clone(),
            timezone: self.timezone.clone(),
            nearest_place: self.nearest_place.clone(),
            h3_cells: self.h3_cells,
            resolution_used: self.resolution_used,
        }
    }
}

/// The view of what a lookup returned.
pub open spec fn location_view(r: Option<LocationResult>) -> Option<LocationResultView> {
    match r {
        Some(found) => Some(found@),
        None => None,
    }
}

/// A latitude in `[-90, 90]` with a longitude in `[-180, 180]`.
pub open spec fn valid_coordinate(latitude: Double, longitude: Double) -> bool {
    latitude.within_ints(-90, 90) && longitude.within_ints(-180, 180)
}

/// Whether a coordinate is a latitude in `[-90, 90]` with a longitude in
/// `[-180, 180]`.
pub fn is_valid_coordinate(latitude: Double, longitude: Double) -> (r: bool)
    ensures
        r == valid_coordinate(latitude, longitude),
{
    latitude.is_finite() && longitude.is_finite() && Double::from_int(-90).le(latitude)
        && latitude.le(Double::from_int(90)) && Double::from_int(-180).le(longitude)
        && longitude.le(Double::from_int(180))
}

/// The fields of a gazetteer line that the index reads. The coordinate is
/// kept as the line writes it.
#[derive(Debug)]
pub struct GazetteerRecord {
    pub region: RegionInfo,
    pub latitude: String,
    pub longitude: String,
}

/// Reads a tab-separated gazetteer line. A line of at least 18 fields gives
/// the place name (field 1), latitude (4), longitude (5), country (8), region
/// (10) and timezone (17), counted from 0; a shorter line gives nothing.
pub fn parse_gazetteer_line(line: &str) -> (r: Option<GazetteerRecord>)
    ensures
        r is Some <==> field_count(line@) >= GAZETTEER_FIELDS,
        r matches Some(record) ==> {
            &&& record.region.nearest_place@ == field(line@, 1)
            &&& record.latitude@ == field(line@, 4)
            &&& record.longitude@ == field(line@, 5)
            &&& record.region.country@ == field(line@, 8)
            &&& record.region.region@ == field(line@, 10)
            &&& record.region.timezone@ == field(line@, 17)
        },
{
    let tabs = find_tabs(line);
    if tabs.len() < GAZETTEER_FIELDS - 1 {
        return None;
    }
    let length: usize = line.unicode_len();
    Some(
        GazetteerRecord {
            region: RegionInfo {
                country: nth_field(line, &tabs, length, 8).to_owned(),
                region: nth_field(line, &tabs, length, 10).to_owned(),
                timezone: nth_field(line, &tabs, length, 17).to_owned(),
                nearest_place: nth_field(line, &tabs, length, 1).to_owned(),
            },
            latitude: nth_field(line, &tabs, length, 4).to_owned(),
            longitude: nth_field(line, &tabs, length, 5).to_owned(),
        },
    )
}

/// A gazetteer entry ready for the index: its coordinate, the coordinate's
/// cell at each resolution, and its region.
#[derive(Debug)]
pub struct GazetteerEntry {
    pub latitude: Double,
    pub longitude: Double,
    pub cells: [u64; 9],
    pub region: RegionInfo,
}

pub struct GazetteerEntryView {
    pub latitude: Double,
    pub longitude: Double,
    pub cells: Seq<u64>,
    pub region: RegionInfoView,
}

impl View for GazetteerEntry {
    type V = GazetteerEntryView;

    open spec fn view(&self) -> GazetteerEntryView {
        GazetteerEntryView {
            latitude: self.latitude,
            longitude: self.longitude,
            cells: self.cells@,
            region: self.region@,
        }
    }
}

impl GazetteerEntryView {
    /// The entry has a valid coordinate and its cell at `resolution` is `cell`.
    pub open spec fn claims(self, resolution: int, cell: u64) -> bool {
        valid_coordinate(self.latitude, self.longitude) && self.cells[resolution] == cell
    }
}

/// Whether an identifier is that of a cell of the tiling scheme, at any of
/// its resolutions: what `h3o::CellIndex::try_from` decides from the bits.
pub uninterp spec fn is_cell_index(cell_id: u64) -> bool;

#[verifier::external_type_specification]
#[verifier::external_body]
pub struct ExCellIndex(h3o::CellIndex);

/// `h3o::CellIndex::try_from` on a `u64`: the cell with this identifier. It
/// gives a cell exactly for the identifiers that it accepts, which
/// [`is_cell_index`] names.
#[verifier::external_body]
fn cell_index(cell_id: u64) -> (r: Option<h3o::CellIndex>)
    ensures
        r is Some <==> is_cell_index(cell_id),
{
    h3o::CellIndex::try_from(cell_id).ok()
}

/// `h3o::LatLng::from` on a cell, with `LatLng::lat` and `LatLng::lng`: the
/// centre of the cell, latitude then longitude, in degrees. The centre comes
/// out of floating-point trigonometry, and nothing is claimed of it.
#[verifier::external_body]
fn center_of(cell: h3o::CellIndex) -> (r: (Double, Double)) {
    let center = h3o::LatLng::from(cell);
    (Double { bits: center.lat().to_bits() }, Double { bits: center.lng().to_bits() })
}

#[verifier::external_type_specification]
#[verifier::external_body]
pub struct ExLatLng(h3o::LatLng);

/// The resolution that a cell identifier holds, in its bits 52 to 55.
pub open spec fn cell_resolution(cell_id: u64) -> int {
    (cell_id as int / 0x0010_0000_0000_0000) % 16
}

/// What holds of the cells of a coordinate, whichever they are: the cell at
/// each resolution is a cell of the tiling scheme, and of that resolution.
pub open spec fn scheme_cells(cells: Seq<u64>) -> bool {
    forall|resolution: int|
        0 <= resolution < RESOLUTIONS ==> cell_resolution(#[trigger] cells[resolution])
            == resolution && is_cell_index(cells[resolution])
}

/// `h3o::LatLng::to_cell`, with `h3o::Resolution::try_from` for the
/// resolution and `u64::from` for the cell: the identifier of the cell that
/// holds a coordinate at a resolution. There is one for every resolution up
/// to 15. It is a cell of that resolution, and an identifier that
/// `h3o::CellIndex::try_from` accepts: the tiling scheme makes no other.
/// Which cell it is comes out of floating-point trigonometry, and nothing is
/// claimed of that.
#[verifier::external_body]
fn cell_at(coord: h3o::LatLng, resolution: u8) -> (r: Option<u64>)
    ensures
        r is Some <==> resolution <= 15,
        r matches Some(cell) ==> cell_resolution(cell) == resolution && is_cell_index(cell),
{
    match h3o::Resolution::try_from(resolution) {
        Ok(r) => Some(u64::from(coord.to_cell(r))),
        Err(_) => None,
    }
}

/// The cell of a coordinate at each resolution from 0 to 8.
pub fn cells_of(coord: h3o::LatLng) -> (cells: [u64; 9])
    ensures
        scheme_cells(cells@),
{
    let mut cells: [u64; 9] = [0; 9];
    let mut resolution: u8 = 0;
    while resolution < 9
        invariant
            resolution <= 9,
            forall|r: int|
                0 <= r < resolution ==> cell_resolution(#[trigger] cells[r]) == r
                    && is_cell_index(cells[r]),
        decreases 9 - resolution,
    {
        match cell_at(coord, resolution) {
            Some(cell) => {
                cells[resolution as usize] = cell;
            },
            None => {},
        }
        resolution = resolution + 1;
    }
    cells
}

/// A map with `key` bound to `value` unless `key` was bound already.
pub open spec fn insert_first<V>(m: Map<u64, V>, key: u64, value: V) -> Map<u64, V> {
    if m.contains_key(key) {
        m
    } else {
        m.insert(key, value)
    }
}

/// Whether some entry claims `cell` at `resolution`.
pub open spec fn claimed(entries: Seq<GazetteerEntryView>, resolution: int, cell: u64) -> bool {
    exists|i: int| 0 <= i < entries.len() && (#[trigger] entries[i]).claims(resolution, cell)
}

/// Whether entry `i` is the first to claim `cell` at `resolution`.
pub open spec fn first_claim(
    entries: Seq<GazetteerEntryView>,
    resolution: int,
    cell: u64,
    i: int,
) -> bool {
    &&& 0 <= i < entries.len()
    &&& entries[i].claims(resolution, cell)
    &&& forall|j: int| 0 <= j < i ==> !(#[trigger] entries[j]).claims(resolution, cell)
}

/// What an index built from `entries` holds: at each resolution, exactly the
/// claimed cells, each with the region of the first entry that claimed it.
pub open spec fn holds_first_claims(index: H3Geocoder, entries: Seq<GazetteerEntryView>) -> bool {
    forall|resolution: int, cell: u64|
        0 <= resolution < RESOLUTIONS ==> {
            &&& #[trigger] index.regions(resolution).contains_key(cell) <==> claimed(
                entries,
                resolution,
                cell,
            )
            &&& forall|i: int|
                first_claim(entries, resolution, cell, i) ==> index.regions(resolution)[cell]
                    == (#[trigger] entries[i]).region
        }
}

/// The spatial index.
pub struct H3Geocoder {
    region_maps: [HashMap<u64, RegionInfo>; 9],
}

impl H3Geocoder {
    /// The map of one resolution, from cell to region.
    pub closed spec fn regions(&self, resolution: int) -> Map<u64, RegionInfoView> {
        self.region_maps[resolution]@.map_values(|r: RegionInfo| r@)
    }

    /// Whether the map of `resolution` holds the coordinate's cell there.
    pub open spec fn hit(&self, cells: Seq<u64>, resolution: int) -> bool {
        self.regions(resolution).contains_key(cells[resolution])
    }

    /// The finest resolution below `below` whose map holds the coordinate's
    /// cell there.
    pub open spec fn finest_hit(&self, cells: Seq<u64>, below: int) -> Option<int>
        decreases below,
    {
        if below <= 0 {
            None
        } else if self.hit(cells, below - 1) {
            Some(below - 1)
        } else {
            self.finest_hit(cells, below - 1)
        }
    }

    /// What a lookup finds: for a valid coordinate with a hit, the region at
    /// the finest resolution that has one.
    pub open spec fn resolve(
        &self,
        latitude: Double,
        longitude: Double,
        cells: Seq<u64>,
    ) -> Option<LocationResultView> {
        if !valid_coordinate(latitude, longitude) {
            None
        } else {
            match self.finest_hit(cells, RESOLUTIONS as int) {
                Some(resolution) => Some(
                    LocationResultView {
                        region: self.regions(resolution)[cells[resolution]],
                        h3_cells: cells,
                        resolution_used: resolution as u8,
                    },
                ),
                None => None,
            }
        }
    }

    /// An index without regions.
    pub fn new() -> (r: Self)
        ensures
            forall|resolution: int|
                0 <= resolution < RESOLUTIONS ==> r.regions(resolution) == Map::<
                    u64,
                    RegionInfoView,
                >::empty(),
    {
        let r = H3Geocoder {
            region_maps: [
                HashMap::new(),
                HashMap::new(),
                HashMap::new(),
                HashMap::new(),
                HashMap::new(),
                HashMap::new(),
                HashMap::new(),
                HashMap::new(),
                HashMap::new(),
            ],
        };
        proof {
            assert forall|resolution: int| 0 <= resolution < RESOLUTIONS implies r.regions(
                resolution,
            ) == Map::<u64, RegionInfoView>::empty() by {
                assert(r.regions(resolution) =~= Map::<u64, RegionInfoView>::empty());
            }
        }
        r
    }

    /// The number of cells that have a region, at each resolution.
    pub fn cell_counts(&self) -> (counts: [usize; 9])
        ensures
            forall|resolution: int|
                0 <= resolution < RESOLUTIONS ==> counts[resolution] == self.regions(
                    resolution,
                ).len(),
    {
        let mut counts: [usize; 9] = [0; 9];
        let mut resolution: usize = 0;
        while resolution < RESOLUTIONS
            invariant
                resolution <= RESOLUTIONS,
                forall|r: int| 0 <= r < resolution ==> counts[r] == self.regions(r).len(),
            decreases RESOLUTIONS - resolution,
        {
            counts[resolution] = self.region_maps[resolution].len();
            proof {
                assert(self.regions(resolution as int).dom() =~= self.region_maps[resolution as int]@.dom());
            }
            resolution = resolution + 1;
        }
        counts
    }

    /// Adds one gazetteer entry: at each resolution its cell gets its region,
    /// unless the cell has one already. An entry whose coordinate is not valid
    /// is skipped; the result says whether the entry was taken.
    pub fn insert(&mut self, entry: &GazetteerEntry) -> (taken: bool)
        ensures
            taken == valid_coordinate(entry.latitude, entry.longitude),
            forall|resolution: int|
                0 <= resolution < RESOLUTIONS ==> #[trigger] final(self).regions(resolution) == (
                if taken {
                    insert_first(
                        old(self).regions(resolution),
                        entry.cells[resolution],
                        entry.region@,
                    )
                } else {
                    old(self).regions(resolution)
                }),
    {
        if !is_valid_coordinate(entry.latitude, entry.longitude) {
            return false;
        }
        let mut resolution: usize = 0;
        while resolution < RESOLUTIONS
            invariant
                resolution <= RESOLUTIONS,
                forall|r: int|
                    0 <= r < resolution ==> #[trigger] self.regions(r) == insert_first(
                        old(self).regions(r),
                        entry.cells[r],
                        entry.region@,
                    ),
                forall|r: int|
                    resolution <= r < RESOLUTIONS ==> self.region_maps[r] == old(
                        self,
                    ).region_maps[r],
            decreases RESOLUTIONS - resolution,
        {
            let cell: u64 = entry.cells[resolution];
            let ghost before = *self;
            if !self.region_maps[resolution].contains_key(&cell) {
                self.region_maps[resolution].insert(cell, entry.region.clone());
                proof {
                    assert(self.regions(resolution as int) =~= before.regions(
                        resolution as int,
                    ).insert(cell, entry.region@));
                }
            }
            proof {
                assert forall|r: int| 0 <= r < resolution implies #[trigger] self.regions(r)
                    == insert_first(old(self).regions(r), entry.cells[r], entry.region@) by {
                    assert(self.region_maps[r] == before.region_maps[r]);
                    assert(before.regions(r) == insert_first(
                        old(self).regions(r),
                        entry.cells[r],
                        entry.region@,
                    ));
                }
            }
            resolution = resolution + 1;
        }
        true
    }

    /// Builds the index from the entries of a gazetteer, in file order. At
    /// every resolution the first valid entry to reach a cell gives the cell
    /// its region; later entries that map to the same cell leave it as it is.
    pub fn from_geonames_file(entries: &Vec<GazetteerEntry>) -> (index: Self)
        ensures
            holds_first_claims(index, entries@.map_values(|e: GazetteerEntry| e@)),
    {
        let ghost all = entries@.map_values(|e: GazetteerEntry| e@);
        let mut index = H3Geocoder::new();
        let mut n: usize = 0;
        while n < entries.len()
            invariant
                n <= entries.len(),
                all == entries@.map_values(|e: GazetteerEntry| e@),
                holds_first_claims(index, all.take(n as int)),
            decreases entries.len() - n,
        {
            let ghost before = index;
            index.insert(&entries[n]);
            proof {
                lemma_insert_keeps_first_claims(before, index, all.take(n as int), all[n as int]);
                assert(all.take(n as int).push(all[n as int]) =~= all.take(n + 1));
            }
            n = n + 1;
        }
        proof {
            assert(all.take(n as int) =~= all);
        }
        index
    }

    /// Looks a coordinate up. `cells` holds the coordinate's cell at each
    /// resolution. A coordinate that is not valid has no result. Otherwise the
    /// resolutions are tried from the finest to the coarsest, and the first
    /// whose map holds the coordinate's cell gives the region.
    pub fn get_complete_location_info(
        &self,
        latitude: Double,
        longitude: Double,
        cells: &[u64; 9],
    ) -> (r: Option<LocationResult>)
        ensures
            location_view(r) == self.resolve(latitude, longitude, cells@),
            r is Some <==> valid_coordinate(latitude, longitude) && exists|resolution: int|
                0 <= resolution < RESOLUTIONS && #[trigger] self.hit(cells@, resolution),
            r matches Some(found) ==> {
                &&& found.h3_cells@ == cells@
                &&& found.resolution_used < RESOLUTIONS
                &&& self.hit(cells@, found.resolution_used as int)
                &&& forall|finer: int|
                    found.resolution_used < finer < RESOLUTIONS ==> !#[trigger] self.hit(
                        cells@,
                        finer,
                    )
                &&& found@.region == self.regions(found.resolution_used as int)[cells[found.resolution_used as int]]
            },
    {
        if !is_valid_coordinate(latitude, longitude) {
            return None;
        }
        let mut resolution: usize = RESOLUTIONS;
        while resolution > 0
            invariant
                resolution <= RESOLUTIONS,
                valid_coordinate(latitude, longitude),
                self.finest_hit(cells@, RESOLUTIONS as int) == self.finest_hit(
                    cells@,
                    resolution as int,
                ),
                forall|finer: int|
                    resolution <= finer < RESOLUTIONS ==> !#[trigger] self.hit(cells@, finer),
            decreases resolution,
        {
            resolution = resolution - 1;
            let cell: u64 = cells[resolution];
            match self.region_maps[resolution].get(&cell) {
                Some(region) => {
                    assert(self.hit(cells@, resolution as int));
                    return Some(
                        LocationResult {
                            country: region.country.clone(),
                            region: region.region.clone(),
                            timezone: region.timezone.clone(),
                            nearest_place: region.nearest_place.clone(),
                            h3_cells: *cells,
                            resolution_used: resolution as u8,
                        },
                    );
                },
                None => {},
            }
        }
        None
    }

    /// The coordinate's cell at one resolution, taken from `cells`, which
    /// holds its cell at each. There is none for a resolution above 8 or a
    /// coordinate that is not valid.
    pub fn get_cell_id(
        &self,
        latitude: Double,
        longitude: Double,
        cells: &[u64; 9],
        resolution: u8,
    ) -> (r: Option<u64>)
        ensures
            r == (if resolution < RESOLUTIONS && valid_coordinate(latitude, longitude) {
                Some(cells[resolution as int])
            } else {
                None::<u64>
            }),
    {
        if resolution > 8 {
            return None;
        }
        if !is_valid_coordinate(latitude, longitude) {
            return None;
        }
        Some(cells[resolution as usize])
    }

    /// The centre of a cell, latitude then longitude, in degrees. There is
    /// none for an identifier that is not a cell's.
    pub fn cell_to_center(&self, cell_id: u64) -> (r: Option<(Double, Double)>)
        ensures
            r is Some <==> is_cell_index(cell_id),
    {
        match cell_index(cell_id) {
            Some(cell) => Some(center_of(cell)),
            None => None,
        }
    }
}

/// The cell of a coordinate has a centre, at each of the nine resolutions:
/// what [`cells_of`] ensures of its cells is what
/// [`H3Geocoder::cell_to_center`] needs of an identifier to give its centre.
pub proof fn lemma_cells_have_centers(cells: Seq<u64>, resolution: int)
    requires
        scheme_cells(cells),
        0 <= resolution < RESOLUTIONS,
    ensures
        is_cell_index(cells[resolution]),
{
}

/// A lookup finds a region exactly for a valid coordinate with a hit at some
/// resolution. What it finds holds the coordinate's cell at all nine
/// resolutions and the region of the finest resolution with a hit: no finer
/// resolution has one.
pub proof fn lemma_resolve_uses_finest_hit(
    index: H3Geocoder,
    latitude: Double,
    longitude: Double,
    cells: Seq<u64>,
)
    ensures
        index.resolve(latitude, longitude, cells) is Some <==> valid_coordinate(
            latitude,
            longitude,
        ) && exists|resolution: int|
            0 <= resolution < RESOLUTIONS && #[trigger] index.hit(cells, resolution),
        index.resolve(latitude, longitude, cells) matches Some(found) ==> {
            &&& found.h3_cells == cells
            &&& found.resolution_used < RESOLUTIONS
            &&& index.hit(cells, found.resolution_used as int)
            &&& forall|finer: int|
                found.resolution_used < finer < RESOLUTIONS ==> !#[trigger] index.hit(cells, finer)
            &&& found.region == index.regions(found.resolution_used as int)[cells[found.resolution_used as int]]
        },
{
    lemma_finest_hit(index, cells, RESOLUTIONS as int);
}

/// The finest hit below a bound is a hit below the bound with no hit between
/// it and the bound; there is none exactly when no resolution below the bound
/// has a hit.
proof fn lemma_finest_hit(index: H3Geocoder, cells: Seq<u64>, below: int)
    requires
        0 <= below <= RESOLUTIONS,
    ensures
        index.finest_hit(cells, below) is None <==> forall|resolution: int|
            0 <= resolution < below ==> !#[trigger] index.hit(cells, resolution),
        index.finest_hit(cells, below) matches Some(found) ==> {
            &&& 0 <= found < below
            &&& index.hit(cells, found)
            &&& forall|finer: int| found < finer < below ==> !#[trigger] index.hit(cells, finer)
        },
    decreases below,
{
    if below > 0 {
        lemma_finest_hit(index, cells, below - 1);
    }
}

/// Inserting an entry into an index that holds the first claims of the
/// entries before it gives an index that holds the first claims of them all.
pub proof fn lemma_insert_keeps_first_claims(
    before: H3Geocoder,
    after: H3Geocoder,
    entries: Seq<GazetteerEntryView>,
    entry: GazetteerEntryView,
)
    requires
        holds_first_claims(before, entries),
        forall|resolution: int|
            0 <= resolution < RESOLUTIONS ==> #[trigger] after.regions(resolution) == (
            if valid_coordinate(entry.latitude, entry.longitude) {
                insert_first(before.regions(resolution), entry.cells[resolution], entry.region)
            } else {
                before.regions(resolution)
            }),
    ensures
        holds_first_claims(after, entries.push(entry)),
{
    let longer = entries.push(entry);
    let last = entries.len() as int;
    assert forall|resolution: int, cell: u64| 0 <= resolution < RESOLUTIONS implies {
        &&& #[trigger] after.regions(resolution).contains_key(cell) <==> claimed(
            longer,
            resolution,
            cell,
        )
        &&& forall|i: int|
            first_claim(longer, resolution, cell, i) ==> after.regions(resolution)[cell] == (
            #[trigger] longer[i]).region
    } by {
        let old_map = before.regions(resolution);
        let new_map = after.regions(resolution);
        assert(old_map.contains_key(cell) <==> claimed(entries, resolution, cell));
        if claimed(entries, resolution, cell) {
            let i = choose|i: int|
                0 <= i < entries.len() && (#[trigger] entries[i]).claims(resolution, cell);
            assert(longer[i].claims(resolution, cell));
        }
        if claimed(longer, resolution, cell) {
            let i = choose|i: int|
                0 <= i < longer.len() && (#[trigger] longer[i]).claims(resolution, cell);
            if i < last {
                assert(entries[i].claims(resolution, cell));
            }
        }
        if entry.claims(resolution, cell) {
            assert(longer[last].claims(resolution, cell));
        }
        assert forall|i: int| first_claim(longer, resolution, cell, i) implies new_map[cell] == (
        #[trigger] longer[i]).region by {
            if i < last {
                assert(entries[i].claims(resolution, cell));
                assert forall|j: int| 0 <= j < i implies !(#[trigger] entries[j]).claims(
                    resolution,
                    cell,
                ) by {
                    assert(!longer[j].claims(resolution, cell));
                }
                assert(first_claim(entries, resolution, cell, i));
            } else {
                if claimed(entries, resolution, cell) {
                    let j = choose|j: int|
                        0 <= j < entries.len() && (#[trigger] entries[j]).claims(resolution, cell);
                    assert(longer[j].claims(resolution, cell));
                }
            }
        }
    }
}

} // verus!
