use processor::config::{ProcessingConfig, ValidationRules};
use processor::double::Double;
use processor::geo::{parse_gazetteer_line, GazetteerEntry, H3Geocoder};
use processor::processor::{
    decimal, to_dew_point, to_fahrenheit, to_flow_rate_m3_per_hour, to_heart_rate_percentage,
    to_kelvin, to_population_density, to_pressure_psi, DataProcessor, EnrichedData,
    ProcessedPoint,
};
use processor::proto::DataPoint;

fn double(x: f64) -> Double {
    Double::from_bits(x.to_bits())
}

fn float(x: Double) -> f64 {
    f64::from_bits(x.to_bits())
}

fn cells_of(lat: f64, lng: f64) -> Option<[u64; 9]> {
    let coord = h3o::LatLng::new(lat, lng).ok()?;
    Some(processor::geo::cells_of(coord))
}

fn reading(category: &str, variable: &str, value: f64) -> DataPoint {
    DataPoint {
        source: "sensor1".to_string(),
        category: category.to_string(),
        variable: variable.to_string(),
        value: double(value),
        units: "unit".to_string(),
        lat: double(35.5),
        lon: double(139.5),
        epoch_ms: 1_700_000_000_000,
    }
}

const TOKYO_LINE: &str = "1850147\tTokyo\tTokyo\tEdo,Tokio\t35.5\t139.5\tP\tPPLC\tJP\t\t40\t\t\t\t8336599\t\t44\tAsia/Tokyo\t2022-01-01";

fn tokyo_index() -> H3Geocoder {
    let record = parse_gazetteer_line(TOKYO_LINE).unwrap();
    let lat: f64 = record.latitude.parse().unwrap();
    let lng: f64 = record.longitude.parse().unwrap();
    let entries = vec![GazetteerEntry {
        latitude: double(lat),
        longitude: double(lng),
        cells: cells_of(lat, lng).unwrap(),
        region: record.region,
    }];
    H3Geocoder::from_geonames_file(&entries)
}

fn pipeline() -> DataProcessor {
    DataProcessor::new(&ProcessingConfig::default(), tokyo_index())
}

fn pipeline_with(config: ProcessingConfig) -> DataProcessor {
    DataProcessor::new(&config, tokyo_index())
}

fn run(processor: &DataProcessor, point: DataPoint) -> Vec<ProcessedPoint> {
    let cells = cells_of(float(point.lat), float(point.lon));
    processor.process(point, cells)
}

fn accepts(category: &str, variable: &str, value: f64) -> bool {
    pipeline().validate_point(&reading(category, variable, value))
}

fn field_names(enriched: &EnrichedData) -> Vec<String> {
    enriched.calculated_fields.iter().map(|f| f.name.clone()).collect()
}

fn field_value(enriched: &EnrichedData, name: &str) -> f64 {
    let found: Vec<f64> = enriched
        .calculated_fields
        .iter()
        .filter(|f| f.name == name)
        .map(|f| float(f.value))
        .collect();
    assert_eq!(found.len(), 1, "{name}");
    found[0]
}

fn derived_of(category: &str, variable: &str, value: f64) -> EnrichedData {
    let point = reading(category, variable, value);
    pipeline().enrich_point(&point, cells_of(35.5, 139.5))
}

#[test]
fn default_rules_are_the_documented_bounds() {
    let rules = ValidationRules::default();
    assert_eq!(float(rules.temperature_min), -100.0);
    assert_eq!(float(rules.temperature_max), 100.0);
    assert_eq!(float(rules.humidity_min), 0.0);
    assert_eq!(float(rules.humidity_max), 100.0);
    let config = ProcessingConfig::default();
    assert!(config.enable_validation && config.enable_enrichment && config.enable_aggregation);
    assert_eq!(config.batch_size, 100);
}

#[test]
fn humidity_passes_at_its_bounds_and_fails_beyond() {
    assert!(accepts("environmental", "humidity", 0.0));
    assert!(accepts("environmental", "humidity", 100.0));
    assert!(accepts("environmental", "humidity", 55.5));
    assert!(!accepts("environmental", "humidity", -5e-324));
    assert!(!accepts("environmental", "humidity", -0.000001));
    assert!(!accepts("environmental", "humidity", 100.00000000000001));
    assert!(!accepts("environmental", "humidity", 100.1));
}

#[test]
fn humidity_follows_the_configured_bounds() {
    let mut config = ProcessingConfig::default();
    config.validation_rules.humidity_min = double(12.5);
    config.validation_rules.humidity_max = double(87.25);
    let processor = pipeline_with(config);
    let check = |value: f64| processor.validate_point(&reading("environmental", "humidity", value));
    assert!(check(12.5));
    assert!(check(87.25));
    assert!(check(50.0));
    assert!(!check(12.499999999999998));
    assert!(!check(87.25000000000001));
    assert!(!check(0.0));
    assert!(!check(100.0));
}

#[test]
fn environmental_temperature_follows_the_configured_bounds() {
    assert!(accepts("environmental", "temperature", -100.0));
    assert!(accepts("environmental", "temperature", 100.0));
    assert!(accepts("environmental", "temperature", 25.0));
    assert!(!accepts("environmental", "temperature", -100.00000000000001));
    assert!(!accepts("environmental", "temperature", 100.00000000000001));
}

#[test]
fn air_quality_is_not_negative() {
    for variable in ["air_quality", "pm2.5", "pm10"] {
        assert!(accepts("environmental", variable, 0.0));
        assert!(accepts("environmental", variable, -0.0));
        assert!(accepts("environmental", variable, 12.0));
        assert!(!accepts("environmental", variable, -0.1));
    }
}

#[test]
fn heart_rate_lies_between_30_and_250() {
    assert!(!accepts("health", "heart_rate", 29.9));
    assert!(accepts("health", "heart_rate", 30.0));
    assert!(accepts("health", "heart_rate", 250.0));
    assert!(!accepts("health", "heart_rate", 250.1));
}

#[test]
fn body_temperature_lies_between_35_and_42() {
    assert!(!accepts("health", "temperature", 34.9));
    assert!(accepts("health", "temperature", 35.0));
    assert!(accepts("health", "temperature", 42.0));
    assert!(!accepts("health", "temperature", 42.1));
    // The environmental range does not apply to a body.
    assert!(accepts("environmental", "temperature", 60.0));
    assert!(!accepts("health", "temperature", 60.0));
}

#[test]
fn infrastructure_rules() {
    assert!(accepts("infrastructure", "temperature", -50.0));
    assert!(accepts("infrastructure", "temperature", 200.0));
    assert!(!accepts("infrastructure", "temperature", -50.1));
    assert!(!accepts("infrastructure", "temperature", 200.1));
    assert!(accepts("infrastructure", "pressure", 5e-324));
    assert!(accepts("infrastructure", "pressure", 1.0));
    assert!(!accepts("infrastructure", "pressure", 0.0));
    assert!(!accepts("infrastructure", "pressure", -0.0));
    assert!(!accepts("infrastructure", "pressure", -1.0));
    assert!(accepts("infrastructure", "flow_rate", 0.0));
    assert!(accepts("infrastructure", "flow_rate", 3.5));
    assert!(!accepts("infrastructure", "flow_rate", -0.5));
}

#[test]
fn economic_values_are_not_negative() {
    for variable in ["price", "cost", "revenue"] {
        assert!(accepts("economic", variable, 0.0));
        assert!(accepts("economic", variable, 19.99));
        assert!(!accepts("economic", variable, -0.01));
    }
    assert!(accepts("economic", "balance", -250.0));
}

#[test]
fn social_counts_are_whole_and_not_negative() {
    for variable in ["population", "count"] {
        assert!(accepts("social", variable, 0.0));
        assert!(accepts("social", variable, 1000.0));
        assert!(!accepts("social", variable, -5.0));
        assert!(!accepts("social", variable, 10.5));
    }
    for variable in ["percentage", "rate"] {
        assert!(accepts("social", variable, 0.0));
        assert!(accepts("social", variable, 100.0));
        assert!(accepts("social", variable, 33.3));
        assert!(!accepts("social", variable, -0.1));
        assert!(!accepts("social", variable, 100.1));
    }
}

#[test]
fn unlisted_variables_need_a_finite_value() {
    for category in ["environmental", "health", "infrastructure", "economic", "social"] {
        assert!(accepts(category, "anything", -1234.5));
        assert!(!accepts(category, "anything", f64::NAN));
        assert!(!accepts(category, "anything", f64::INFINITY));
        assert!(!accepts(category, "anything", f64::NEG_INFINITY));
    }
}

#[test]
fn listed_variables_need_a_finite_value_too() {
    assert!(!accepts("environmental", "temperature", f64::NAN));
    assert!(!accepts("health", "heart_rate", f64::NAN));
    assert!(!accepts("infrastructure", "pressure", f64::INFINITY));
    assert!(!accepts("economic", "price", f64::INFINITY));
    assert!(!accepts("social", "population", f64::INFINITY));
    assert!(!accepts("environmental", "pm10", f64::NAN));
}

#[test]
fn unknown_category_is_rejected() {
    assert!(!accepts("weather", "temperature", 25.0));
    assert!(!accepts("Environmental", "temperature", 25.0));
    assert!(!accepts("environmental ", "temperature", 25.0));
}

#[test]
fn names_are_required() {
    let processor = pipeline();
    let mut point = reading("environmental", "temperature", 25.0);
    point.source = String::new();
    assert!(!processor.validate_point(&point));
    let mut point = reading("environmental", "temperature", 25.0);
    point.variable = String::new();
    assert!(!processor.validate_point(&point));
    let mut point = reading("environmental", "temperature", 25.0);
    point.category = String::new();
    assert!(!processor.validate_point(&point));
}

#[test]
fn coordinates_must_be_in_range() {
    let processor = pipeline();
    for (lat, lon, expected) in [
        (90.0, 180.0, true),
        (-90.0, -180.0, true),
        (0.0, 0.0, true),
        (90.00000000000001, 0.0, false),
        (-90.00000000000001, 0.0, false),
        (0.0, 180.00000000000003, false),
        (0.0, -180.00000000000003, false),
        (f64::NAN, 0.0, false),
        (0.0, f64::NAN, false),
        (f64::INFINITY, 0.0, false),
    ] {
        let mut point = reading("environmental", "temperature", 25.0);
        point.lat = double(lat);
        point.lon = double(lon);
        assert_eq!(processor.validate_coordinates(&point), expected, "{lat} {lon}");
        assert_eq!(processor.validate_point(&point), expected, "{lat} {lon}");
    }
}

#[test]
fn aggregation_returns_the_reading() {
    let processor = pipeline();
    for (point, enriched) in [
        (reading("environmental", "temperature", 25.0), EnrichedData::default()),
        (reading("", "", f64::NAN), derived_of("social", "population", 1000.0)),
    ] {
        let aggregated = processor.aggregate_point(&point, &enriched);
        assert_eq!(aggregated.len(), 1);
        assert_eq!(aggregated[0].source, point.source);
        assert_eq!(aggregated[0].category, point.category);
        assert_eq!(aggregated[0].variable, point.variable);
        assert_eq!(aggregated[0].value.to_bits(), point.value.to_bits());
        assert_eq!(aggregated[0].units, point.units);
        assert_eq!(aggregated[0].lat, point.lat);
        assert_eq!(aggregated[0].lon, point.lon);
        assert_eq!(aggregated[0].epoch_ms, point.epoch_ms);
    }
}

#[test]
fn temperature_in_tokyo_is_enriched() {
    let processed = run(&pipeline(), reading("environmental", "temperature", 25.0));
    assert_eq!(processed.len(), 1);
    let point = &processed[0];
    assert_eq!(point.data_point.source, "sensor1");
    assert_eq!(float(point.data_point.value), 25.0);
    let enriched = &point.enriched_data;
    assert_eq!(field_names(enriched), ["temperature_fahrenheit", "temperature_kelvin"]);
    assert_eq!(field_value(enriched, "temperature_fahrenheit"), 77.0);
    assert_eq!(field_value(enriched, "temperature_kelvin"), 298.15);
    assert_eq!(enriched.country.as_deref(), Some("JP"));
    assert_eq!(enriched.region.as_deref(), Some("40"));
    assert_eq!(enriched.timezone.as_deref(), Some("Asia/Tokyo"));
    assert_eq!(enriched.nearest_place.as_deref(), Some("Tokyo"));
    assert_eq!(enriched.resolution_used, Some(8));
    assert_eq!(enriched.h3_cells, cells_of(35.5, 139.5));
}

#[test]
fn empty_category_is_rejected_outright() {
    let processor = pipeline();
    assert!(run(&processor, reading("", "temperature", 25.0)).is_empty());
    assert!(run(&processor, reading("", "population", 1000.0)).is_empty());
    assert!(run(&processor, reading("", "", 0.0)).is_empty());
}

#[test]
fn population_must_not_be_negative() {
    let processor = pipeline();
    assert!(run(&processor, reading("social", "population", -5.0)).is_empty());
    let processed = run(&processor, reading("social", "population", 1000.0));
    assert_eq!(processed.len(), 1);
    let enriched = &processed[0].enriched_data;
    assert_eq!(field_names(enriched), ["population_density"]);
    assert_eq!(field_value(enriched, "population_density"), 1.0);
}

#[test]
fn derived_values_follow_their_formulas() {
    let humidity = derived_of("environmental", "humidity", 60.0);
    assert_eq!(field_names(&humidity), ["dew_point"]);
    assert_eq!(field_value(&humidity, "dew_point"), 52.0);
    let heart = derived_of("health", "heart_rate", 95.0);
    assert_eq!(field_names(&heart), ["heart_rate_percentage"]);
    assert_eq!(field_value(&heart, "heart_rate_percentage"), 50.0);
    let body = derived_of("health", "temperature", 37.0);
    assert_eq!(field_names(&body), ["body_temperature_fahrenheit"]);
    assert_eq!(field_value(&body, "body_temperature_fahrenheit"), 98.6);
    let flow = derived_of("infrastructure", "flow_rate", 1000.0);
    assert_eq!(field_names(&flow), ["flow_rate_m3_per_hour"]);
    assert_eq!(field_value(&flow, "flow_rate_m3_per_hour"), 3.6);
    let pressure = derived_of("infrastructure", "pressure", 2.0);
    assert_eq!(field_names(&pressure), ["pressure_psi"]);
    assert_eq!(field_value(&pressure, "pressure_psi"), 29.0076);
    let price = derived_of("economic", "price", 19.99);
    assert_eq!(field_names(&price), ["price_per_unit"]);
    assert_eq!(field_value(&price, "price_per_unit"), 19.99);
    let people = derived_of("social", "population", 2500.0);
    assert_eq!(field_names(&people), ["population_density"]);
    assert_eq!(field_value(&people, "population_density"), 2.5);
}

#[test]
fn other_pairs_have_no_derived_values() {
    for (category, variable) in [
        ("environmental", "pm10"),
        ("environmental", "pressure"),
        ("health", "population"),
        ("infrastructure", "temperature"),
        ("economic", "cost"),
        ("economic", "temperature"),
        ("social", "count"),
        ("social", "price"),
        ("weather", "temperature"),
        ("", "temperature"),
    ] {
        let enriched = derived_of(category, variable, 10.0);
        assert!(enriched.calculated_fields.is_empty(), "{category} {variable}");
        assert_eq!(enriched.country.as_deref(), Some("JP"));
    }
}

#[test]
fn enrichment_without_a_region_leaves_the_place_open() {
    let processor = pipeline();
    let mut point = reading("environmental", "temperature", 25.0);
    point.lat = double(-33.9);
    point.lon = double(18.4);
    let enriched = processor.enrich_point(&point, cells_of(-33.9, 18.4));
    assert!(enriched.country.is_none());
    assert!(enriched.region.is_none());
    assert!(enriched.timezone.is_none());
    assert!(enriched.nearest_place.is_none());
    assert!(enriched.h3_cells.is_none());
    assert!(enriched.resolution_used.is_none());
    assert_eq!(field_value(&enriched, "temperature_fahrenheit"), 77.0);
    // Without cells there is nothing to look up.
    let tokyo = reading("environmental", "temperature", 25.0);
    let enriched = processor.enrich_point(&tokyo, None);
    assert!(enriched.country.is_none());
    assert!(enriched.h3_cells.is_none());
}

#[test]
fn coarser_resolution_serves_a_neighbour() {
    let processor = pipeline();
    let mut point = reading("environmental", "humidity", 40.0);
    point.lat = double(35.6);
    point.lon = double(139.7);
    let processed = run(&processor, point);
    assert_eq!(processed.len(), 1);
    let enriched = &processed[0].enriched_data;
    assert_eq!(enriched.country.as_deref(), Some("JP"));
    let used = enriched.resolution_used.unwrap();
    assert!(used < 8);
    let here = cells_of(35.6, 139.7).unwrap();
    let tokyo = cells_of(35.5, 139.5).unwrap();
    assert_eq!(here[used as usize], tokyo[used as usize]);
    for finer in (used as usize + 1)..9 {
        assert_ne!(here[finer], tokyo[finer]);
    }
}

#[test]
fn stages_can_be_switched_off() {
    let mut config = ProcessingConfig::default();
    config.enable_validation = false;
    let processed = run(&pipeline_with(config), reading("", "temperature", f64::NAN));
    assert_eq!(processed.len(), 1);
    assert!(processed[0].enriched_data.calculated_fields.is_empty());
    assert_eq!(processed[0].enriched_data.country.as_deref(), Some("JP"));

    let mut config = ProcessingConfig::default();
    config.enable_enrichment = false;
    let processed = run(&pipeline_with(config), reading("environmental", "temperature", 25.0));
    assert_eq!(processed.len(), 1);
    let enriched = &processed[0].enriched_data;
    assert!(enriched.country.is_none());
    assert!(enriched.region.is_none());
    assert!(enriched.timezone.is_none());
    assert!(enriched.nearest_place.is_none());
    assert!(enriched.h3_cells.is_none());
    assert!(enriched.resolution_used.is_none());
    assert!(enriched.calculated_fields.is_empty());

    let mut config = ProcessingConfig::default();
    config.enable_aggregation = false;
    let processed = run(&pipeline_with(config), reading("environmental", "temperature", 25.0));
    assert_eq!(processed.len(), 1);
    assert_eq!(processed[0].data_point.variable, "temperature");
    assert_eq!(field_value(&processed[0].enriched_data, "temperature_kelvin"), 298.15);
}

#[test]
fn empty_enrichment_is_the_default() {
    let enriched = EnrichedData::default();
    assert!(enriched.country.is_none());
    assert!(enriched.region.is_none());
    assert!(enriched.timezone.is_none());
    assert!(enriched.nearest_place.is_none());
    assert!(enriched.h3_cells.is_none());
    assert!(enriched.resolution_used.is_none());
    assert!(enriched.calculated_fields.is_empty());
}

fn values() -> Vec<f64> {
    let mut values = vec![
        0.0, -0.0, 1.0, -1.0, 25.0, 37.0, 60.0, 95.0, 100.0, 1000.0, 2500.0, 19.99, 0.1, -40.0,
        -273.15, 36.6, 98.6, 1e-9, 1e9, 1e300, -1e300, 5e-324, f64::MAX, f64::MIN,
        f64::INFINITY, f64::NEG_INFINITY, f64::NAN,
    ];
    let mut seed: u64 = 0x2545_F491_4F6C_DD1D;
    for _ in 0..200 {
        seed = seed.wrapping_mul(6364136223846793005).wrapping_add(1442695040888963407);
        values.push(f64::from_bits(seed));
        values.push(((seed >> 11) as f64) / 9007199254740992.0 * 400.0 - 150.0);
    }
    values
}

fn same(ours: Double, theirs: f64) -> bool {
    if theirs.is_nan() {
        float(ours).is_nan()
    } else {
        ours.to_bits() == theirs.to_bits()
    }
}

#[test]
fn decimal_constants_are_the_nearest_doubles() {
    assert_eq!(float(decimal(27315, 100)), 273.15);
    assert_eq!(float(decimal(36, 10)), 3.6);
    assert_eq!(float(decimal(145038, 10000)), 14.5038);
}

#[test]
fn formulas_agree_with_floating_point() {
    for v in values() {
        let x = double(v);
        assert!(same(to_fahrenheit(x), (v * 9.0 / 5.0) + 32.0), "fahrenheit {v:e}");
        assert!(same(to_kelvin(x), v + 273.15), "kelvin {v:e}");
        assert!(same(to_dew_point(x), v - ((100.0 - v) / 5.0)), "dew point {v:e}");
        assert!(
            same(to_heart_rate_percentage(x), (v / (220.0 - 30.0)) * 100.0),
            "heart rate {v:e}"
        );
        assert!(same(to_flow_rate_m3_per_hour(x), v * 3.6 / 1000.0), "flow rate {v:e}");
        assert!(same(to_pressure_psi(x), v * 14.5038), "pressure {v:e}");
        assert!(same(to_population_density(x), v / 1000.0), "density {v:e}");
    }
}

#[test]
fn quality_score_follows_its_factors() {
    let processor = pipeline();
    for at_origin in [false, true] {
        for unknown in [false, true] {
            for located in [false, true] {
                let mut point = reading("environmental", "temperature", 25.0);
                if at_origin {
                    point.lat = double(0.0);
                    point.lon = double(-0.0);
                }
                if unknown {
                    point.source = "unknown".to_string();
                }
                let mut enriched = EnrichedData::default();
                if located {
                    enriched.country = Some("JP".to_string());
                }
                let mut expected: f64 = 1.0;
                if at_origin {
                    expected *= 0.7;
                }
                if unknown {
                    expected *= 0.8;
                }
                if located {
                    expected *= 1.1;
                }
                let expected = expected.clamp(0.0, 1.0);
                let score = float(processor.quality_score(&point, &enriched));
                assert_eq!(score, expected, "{at_origin} {unknown} {located}");
                assert!((0.0..=1.0).contains(&score));
            }
        }
    }
    // One zero coordinate is not the origin.
    let mut point = reading("environmental", "temperature", 25.0);
    point.lat = double(0.0);
    assert_eq!(float(processor.quality_score(&point, &EnrichedData::default())), 1.0);
}
