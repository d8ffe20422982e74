use processor::double::Double;
use processor::geo::{parse_gazetteer_line, GazetteerEntry, H3Geocoder, RegionInfo};

fn double(x: f64) -> Double {
    Double::from_bits(x.to_bits())
}

fn cells_of(lat: f64, lng: f64) -> [u64; 9] {
    processor::geo::cells_of(h3o::LatLng::new(lat, lng).unwrap())
}

fn region(country: &str, place: &str) -> RegionInfo {
    RegionInfo {
        country: country.to_string(),
        region: "13".to_string(),
        timezone: "Asia/Tokyo".to_string(),
        nearest_place: place.to_string(),
    }
}

fn entry(lat: f64, lng: f64, cells: [u64; 9], place: &str) -> GazetteerEntry {
    GazetteerEntry {
        latitude: double(lat),
        longitude: double(lng),
        cells,
        region: region("JP", place),
    }
}

const TOKYO_LINE: &str = "1850147\tTokyo\tTokyo\tEdo,Tokio\t35.5\t139.5\tP\tPPLC\tJP\t\t40\t\t\t\t8336599\t\t44\tAsia/Tokyo\t2022-01-01";

#[test]
fn gazetteer_line_gives_its_fields() {
    let record = parse_gazetteer_line(TOKYO_LINE).unwrap();
    assert_eq!(record.region.nearest_place, "Tokyo");
    assert_eq!(record.latitude, "35.5");
    assert_eq!(record.longitude, "139.5");
    assert_eq!(record.region.country, "JP");
    assert_eq!(record.region.region, "40");
    assert_eq!(record.region.timezone, "Asia/Tokyo");
}

#[test]
fn gazetteer_line_of_eighteen_fields_is_read() {
    let line = "0\t1\t2\t3\t4\t5\t6\t7\t8\t9\t10\t11\t12\t13\t14\t15\t16\t17";
    let record = parse_gazetteer_line(line).unwrap();
    assert_eq!(record.region.nearest_place, "1");
    assert_eq!(record.latitude, "4");
    assert_eq!(record.longitude, "5");
    assert_eq!(record.region.country, "8");
    assert_eq!(record.region.region, "10");
    assert_eq!(record.region.timezone, "17");
}

#[test]
fn gazetteer_line_of_seventeen_fields_is_skipped() {
    let line = "0\t1\t2\t3\t4\t5\t6\t7\t8\t9\t10\t11\t12\t13\t14\t15\t16";
    assert!(parse_gazetteer_line(line).is_none());
    assert!(parse_gazetteer_line("").is_none());
    assert!(parse_gazetteer_line("Tokyo 35.5 139.5").is_none());
}

#[test]
fn gazetteer_line_keeps_empty_and_wide_fields() {
    let line = "0\t東京\t\t\t35.5\t139.5\t\t\tJP\t\t\t\t\t\t\t\t\tAsia/Tokyo\t";
    let record = parse_gazetteer_line(line).unwrap();
    assert_eq!(record.region.nearest_place, "東京");
    assert_eq!(record.region.country, "JP");
    assert_eq!(record.region.region, "");
    assert_eq!(record.region.timezone, "Asia/Tokyo");
}

#[test]
fn empty_index_finds_nothing() {
    let index = H3Geocoder::new();
    let cells = cells_of(35.5, 139.5);
    assert!(index.get_complete_location_info(double(35.5), double(139.5), &cells).is_none());
}

#[test]
fn first_entry_keeps_its_cell() {
    let entries = vec![
        entry(35.5, 139.5, [1, 2, 3, 4, 5, 6, 7, 8, 9], "Tokyo"),
        entry(35.6, 139.6, [1, 2, 3, 4, 5, 6, 7, 80, 90], "Kawasaki"),
    ];
    let index = H3Geocoder::from_geonames_file(&entries);
    let at_first = index
        .get_complete_location_info(double(35.5), double(139.5), &[1, 2, 3, 4, 5, 6, 7, 8, 9])
        .unwrap();
    assert_eq!(at_first.nearest_place, "Tokyo");
    assert_eq!(at_first.resolution_used, 8);
    // The second entry is first at the two finest resolutions only.
    let at_second = index
        .get_complete_location_info(double(35.6), double(139.6), &[1, 2, 3, 4, 5, 6, 7, 80, 90])
        .unwrap();
    assert_eq!(at_second.nearest_place, "Kawasaki");
    assert_eq!(at_second.resolution_used, 8);
    let at_seven = index
        .get_complete_location_info(double(35.6), double(139.6), &[1, 2, 3, 4, 5, 6, 7, 80, 91])
        .unwrap();
    assert_eq!(at_seven.nearest_place, "Kawasaki");
    assert_eq!(at_seven.resolution_used, 7);
    let coarse = index
        .get_complete_location_info(double(35.6), double(139.6), &[1, 2, 3, 4, 5, 6, 7, 81, 91])
        .unwrap();
    assert_eq!(coarse.nearest_place, "Tokyo");
    assert_eq!(coarse.resolution_used, 6);
    assert_eq!(coarse.h3_cells, [1, 2, 3, 4, 5, 6, 7, 81, 91]);
}

#[test]
fn insert_reports_whether_the_entry_was_taken() {
    let mut index = H3Geocoder::new();
    assert!(index.insert(&entry(35.5, 139.5, [1; 9], "Tokyo")));
    assert!(!index.insert(&entry(95.0, 139.5, [2; 9], "Nowhere")));
    assert!(!index.insert(&entry(35.5, 181.0, [3; 9], "Nowhere")));
    assert!(!index.insert(&entry(f64::NAN, 0.0, [4; 9], "Nowhere")));
    assert!(index.get_complete_location_info(double(0.0), double(0.0), &[2; 9]).is_none());
    assert!(index.get_complete_location_info(double(0.0), double(0.0), &[3; 9]).is_none());
    assert!(index.get_complete_location_info(double(0.0), double(0.0), &[4; 9]).is_none());
    let found = index.get_complete_location_info(double(0.0), double(0.0), &[1; 9]).unwrap();
    assert_eq!(found.nearest_place, "Tokyo");
}

#[test]
fn lookup_uses_the_finest_resolution_with_a_hit() {
    let mut index = H3Geocoder::new();
    index.insert(&entry(10.0, 10.0, [10, 11, 12, 13, 14, 15, 16, 17, 18], "Fine"));
    let found = index
        .get_complete_location_info(double(10.0), double(10.0), &[10, 11, 12, 13, 0, 0, 0, 0, 0])
        .unwrap();
    assert_eq!(found.resolution_used, 3);
    assert_eq!(found.h3_cells, [10, 11, 12, 13, 0, 0, 0, 0, 0]);
    let found = index
        .get_complete_location_info(double(10.0), double(10.0), &[10, 0, 0, 0, 0, 0, 0, 0, 0])
        .unwrap();
    assert_eq!(found.resolution_used, 0);
    assert!(index
        .get_complete_location_info(double(10.0), double(10.0), &[0, 0, 0, 0, 0, 0, 0, 0, 0])
        .is_none());
}

#[test]
fn lookup_rejects_coordinates_out_of_range() {
    let mut index = H3Geocoder::new();
    index.insert(&entry(10.0, 10.0, [1; 9], "Place"));
    for (lat, lng) in [
        (90.000001, 0.0),
        (-90.000001, 0.0),
        (0.0, 180.000001),
        (0.0, -180.000001),
        (f64::NAN, 0.0),
        (0.0, f64::NAN),
        (f64::INFINITY, 0.0),
        (0.0, f64::NEG_INFINITY),
    ] {
        assert!(index.get_complete_location_info(double(lat), double(lng), &[1; 9]).is_none());
    }
    for (lat, lng) in [(90.0, 180.0), (-90.0, -180.0), (0.0, 0.0), (-0.0, 0.0)] {
        assert!(index.get_complete_location_info(double(lat), double(lng), &[1; 9]).is_some());
    }
}

#[test]
fn cell_id_needs_a_resolution_up_to_eight() {
    let index = H3Geocoder::new();
    let cells = cells_of(35.5, 139.5);
    for resolution in 0..=8u8 {
        assert_eq!(
            index.get_cell_id(double(35.5), double(139.5), &cells, resolution),
            Some(cells[resolution as usize])
        );
    }
    assert_eq!(index.get_cell_id(double(35.5), double(139.5), &cells, 9), None);
    assert_eq!(index.get_cell_id(double(35.5), double(139.5), &cells, 255), None);
    assert_eq!(index.get_cell_id(double(91.0), double(139.5), &cells, 3), None);
    assert_eq!(index.get_cell_id(double(35.5), double(-181.0), &cells, 3), None);
}

#[test]
fn cell_center_lies_near_the_coordinate() {
    let index = H3Geocoder::new();
    let here = h3o::LatLng::new(35.5, 139.5).unwrap();
    // Upper bounds on the distance from a point of a cell to its centre, in km.
    let reach = [1300.0, 500.0, 190.0, 72.0, 27.0, 10.0, 4.0, 1.5, 0.6];
    for (resolution, cell) in cells_of(35.5, 139.5).iter().enumerate() {
        let (lat, lng) = index.cell_to_center(*cell).unwrap();
        let center =
            h3o::LatLng::new(f64::from_bits(lat.to_bits()), f64::from_bits(lng.to_bits()))
                .unwrap();
        assert!(here.distance_km(center) <= reach[resolution], "resolution {resolution}");
    }
}

#[test]
fn cell_center_needs_a_cell() {
    let index = H3Geocoder::new();
    assert!(index.cell_to_center(0).is_none());
    assert!(index.cell_to_center(u64::MAX).is_none());
    assert!(index.cell_to_center(1).is_none());
    assert!(index.cell_to_center(0x8a2a1072b59ffff).is_some());
}

#[test]
fn cell_counts_follow_the_entries() {
    let mut index = H3Geocoder::new();
    assert_eq!(index.cell_counts(), [0; 9]);
    index.insert(&entry(35.5, 139.5, [1, 2, 3, 4, 5, 6, 7, 8, 9], "Tokyo"));
    assert_eq!(index.cell_counts(), [1; 9]);
    index.insert(&entry(35.6, 139.6, [1, 2, 3, 4, 5, 6, 7, 80, 90], "Kawasaki"));
    assert_eq!(index.cell_counts(), [1, 1, 1, 1, 1, 1, 1, 2, 2]);
    index.insert(&entry(95.0, 139.6, [11, 12, 13, 14, 15, 16, 17, 18, 19], "Nowhere"));
    assert_eq!(index.cell_counts(), [1, 1, 1, 1, 1, 1, 1, 2, 2]);
}

#[test]
fn index_of_a_gazetteer_skips_entries_out_of_range() {
    let entries = vec![
        entry(-91.0, 0.0, [1; 9], "Below"),
        entry(0.0, 0.0, [1; 9], "Origin"),
        entry(0.0, 0.0, [1; 9], "Late"),
    ];
    let index = H3Geocoder::from_geonames_file(&entries);
    let found = index.get_complete_location_info(double(1.0), double(1.0), &[1; 9]).unwrap();
    assert_eq!(found.nearest_place, "Origin");
    assert_eq!(found.country, "JP");
    assert_eq!(found.region, "13");
    assert_eq!(found.timezone, "Asia/Tokyo");
    assert_eq!(index.cell_counts(), [1; 9]);
}

#[test]
fn cells_are_those_of_the_tiling_scheme() {
    let coord = h3o::LatLng::new(48.864716, 2.349014).unwrap();
    let cells = processor::geo::cells_of(coord);
    for (res, cell) in cells.iter().enumerate() {
        let resolution = h3o::Resolution::try_from(res as u8).unwrap();
        assert_eq!(*cell, u64::from(coord.to_cell(resolution)));
        let index = h3o::CellIndex::try_from(*cell).unwrap();
        assert_eq!(u8::from(index.resolution()), res as u8);
        assert_eq!((*cell >> 52) & 0xf, res as u64);
    }
    let other = processor::geo::cells_of(h3o::LatLng::new(-33.9, 18.4).unwrap());
    assert_ne!(cells, other);
}

#[test]
fn cells_of_a_coordinate_have_centres() {
    let index = H3Geocoder::new();
    for (lat, lng) in [
        (35.5, 139.5),
        (-33.9, 18.4),
        (90.0, 0.0),
        (-90.0, 180.0),
        (0.0, 0.0),
        (64.13, -21.9),
        (-54.8, -68.3),
    ] {
        let cells = processor::geo::cells_of(h3o::LatLng::new(lat, lng).unwrap());
        for (resolution, cell) in cells.iter().enumerate() {
            assert!(index.cell_to_center(*cell).is_some(), "{lat} {lng} at {resolution}");
            assert_eq!((*cell >> 52) & 0xf, resolution as u64);
            assert!(h3o::CellIndex::try_from(*cell).is_ok());
        }
    }
}
