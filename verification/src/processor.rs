//! The pipeline for one reading: validation, enrichment, aggregation.
//!
//! The pipeline works on plain values. The cells of a reading's coordinate
//! are handed in with the reading; [`crate::geo::cells_of`] makes them.

use crate::config::{ProcessingConfig, ValidationRules};
use crate::double::{unit, Double};
use crate::geo::{is_valid_coordinate, valid_coordinate, H3Geocoder, LocationResultView};
use crate::proto::{DataPoint, DataPointView};
use crate::text::str_eq;
use vstd::arithmetic::mul::lemma_mul_basics;
use crate::rounding::lemma_infinity_magnitude;
use vstd::arithmetic::power2::{lemma_pow2_pos, lemma_pow2_strictly_increases};
use vstd::prelude::*;
use vstd::string::StringExecFns;

verus! {

/// `numerator / denominator`, rounded: the double nearest to a decimal
/// constant.
pub open spec fn ratio(numerator: i32, denominator: i32) -> Double {
    Double::from_int(numerator).over(Double::from_int(denominator))
}

/// Degrees Fahrenheit of degrees Celsius: `v * 9 / 5 + 32`.
pub open spec fn fahrenheit(v: Double) -> Double {
    v.times(Double::from_int(9)).over(Double::from_int(5)).plus(Double::from_int(32))
}

/// Kelvin of degrees Celsius: `v + 273.15`.
pub open spec fn kelvin(v: Double) -> Double {
    v.plus(ratio(27315, 100))
}

/// A rough dew point of a relative humidity: `v - (100 - v) / 5`.
pub open spec fn dew_point(v: Double) -> Double {
    v.minus(Double::from_int(100).minus(v).over(Double::from_int(5)))
}

/// A heart rate as a percentage of the maximal rate at the age of 30:
/// `v / (220 - 30) * 100`.
pub open spec fn heart_rate_percentage(v: Double) -> Double {
    v.over(Double::from_int(220).minus(Double::from_int(30))).times(Double::from_int(100))
}

/// Cubic metres per hour of litres per second: `v * 3.6 / 1000`.
pub open spec fn flow_rate_m3_per_hour(v: Double) -> Double {
    v.times(ratio(36, 10)).over(Double::from_int(1000))
}

/// Pounds per square inch of bar: `v * 14.5038`.
pub open spec fn pressure_psi(v: Double) -> Double {
    v.times(ratio(145038, 10000))
}

/// The price per unit: the price itself.
pub open spec fn price_per_unit(v: Double) -> Double {
    v
}

/// People per area, with 1000 for the area: `v / 1000`.
pub open spec fn population_density(v: Double) -> Double {
    v.over(Double::from_int(1000))
}

/// A value derived from a reading, under its name.
#[derive(Debug)]
pub struct CalculatedField {
    pub name: String,
    pub value: Double,
}

impl View for CalculatedField {
    type V = (Seq<char>, Double);

    open spec fn view(&self) -> (Seq<char>, Double) {
        (self.name@, self.value)
    }
}

impl Clone for CalculatedField {
    fn clone(&self) -> (r: Self)
        ensures
            r@ == self@,
    {
        CalculatedField { name: self.name.clone(), value: self.value }
    }
}

/// What enrichment adds to a reading: the region of its coordinate, where the
/// index has one, and the values derived from it.
#[derive(Debug)]
pub struct EnrichedData {
    pub country: Option<String>,
    pub region: Option<String>,
    pub timezone: Option<String>,
    pub nearest_place: Option<String>,
    pub h3_cells: Option<[u64; 9]>,
    pub resolution_used: Option<u8>,
    /// The derived values; no name occurs twice.
    pub calculated_fields: Vec<CalculatedField>,
}

pub struct EnrichedDataView {
    pub country: Option<Seq<char>>,
    pub region: Option<Seq<char>>,
    pub timezone: Option<Seq<char>>,
    pub nearest_place: Option<Seq<char>>,
    pub h3_cells: Option<Seq<u64>>,
    pub resolution_used: Option<u8>,
    pub calculated_fields: Seq<(Seq<char>, Double)>,
}

/// The view of a text that may be absent.
pub open spec fn text_view(text: Option<String>) -> Option<Seq<char>> {
    match text {
        Some(s) => Some(s@),
        None => None,
    }
}

/// The view of a set of cells that may be absent.
pub open spec fn cells_view(cells: Option<[u64; 9]>) -> Option<Seq<u64>> {
    match cells {
        Some(c) => Some(c@),
        None => None,
    }
}

/// The views of derived values.
pub open spec fn field_views(fields: Seq<CalculatedField>) -> Seq<(Seq<char>, Double)> {
    fields.map_values(|f: CalculatedField| f@)
}

impl View for EnrichedData {
    type V = EnrichedDataView;

    open spec fn view(&self) -> EnrichedDataView {
        EnrichedDataView {
            country: text_view(self.country),
            region: text_view(self.region),
            timezone: text_view(self.timezone),
            nearest_place: text_view(self.nearest_place),
            h3_cells: cells_view(self.h3_cells),
            resolution_used: self.resolution_used,
            calculated_fields: field_views(self.calculated_fields@),
        }
    }
}

impl EnrichedDataView {
    /// No two derived values have the same name.
    pub open spec fn names_differ(self) -> bool {
        forall|i: int, j: int|
            0 <= i < j < self.calculated_fields.len() ==> self.calculated_fields[i].0
                != self.calculated_fields[j].0
    }

    /// No region, no cells, no derived values.
    pub open spec fn empty() -> EnrichedDataView {
        EnrichedDataView {
            country: None,
            region: None,
            timezone: None,
            nearest_place: None,
            h3_cells: None,
            resolution_used: None,
            calculated_fields: Seq::empty(),
        }
    }
}

fn clone_text(text: &Option<String>) -> (r: Option<String>)
    ensures
        text_view(r) == text_view(*text),
{
    match text {
        Some(s) => Some(s.clone()),
        None => None,
    }
}

impl Default for EnrichedData {
    fn default() -> (r: Self)
        ensures
            r@ == EnrichedDataView::empty(),
            r@.names_differ(),
    {
        let r = EnrichedData {
            country: None,
            region: None,
            timezone: None,
            nearest_place: None,
            h3_cells: None,
            resolution_used: None,
            calculated_fields: Vec::new(),
        };
        assert(field_views(r.calculated_fields@) =~= Seq::empty());
        r
    }
}

impl Clone for EnrichedData {
    fn clone(&self) -> (r: Self)
        ensures
            r@ == self@,
    {
        let mut calculated_fields: Vec<CalculatedField> = Vec::new();
        let mut i: usize = 0;
        while i < self.calculated_fields.len()
            invariant
                i <= self.calculated_fields.len(),
                calculated_fields.len() == i,
                forall|j: int| 0 <= j < i ==> calculated_fields@[j]@ == self.calculated_fields@[j]@,
            decreases self.calculated_fields.len() - i,
        {
            calculated_fields.push(self.calculated_fields[i].clone());
            i = i + 1;
        }
        assert(field_views(calculated_fields@) =~= field_views(self.calculated_fields@));
        EnrichedData {
            country: clone_text(&self.country),
            region: clone_text(&self.region),
            timezone: clone_text(&self.timezone),
            nearest_place: clone_text(&self.nearest_place),
            h3_cells: self.h3_cells,
            resolution_used: self.resolution_used,
            calculated_fields,
        }
    }
}

/// A reading that passed the pipeline, with what enrichment added.
#[derive(Debug)]
pub struct ProcessedPoint {
    pub data_point: DataPoint,
    pub enriched_data: EnrichedData,
}

pub struct ProcessedPointView {
    pub data_point: DataPointView,
    pub enriched_data: EnrichedDataView,
}

impl View for ProcessedPoint {
    type V = ProcessedPointView;

    open spec fn view(&self) -> ProcessedPointView {
        ProcessedPointView { data_point: self.data_point@, enriched_data: self.enriched_data@ }
    }
}

impl Clone for ProcessedPoint {
    fn clone(&self) -> (r: Self)
        ensures
            r@ == self@,
    {
        ProcessedPoint {
            data_point: self.data_point.clone(),
            enriched_data: self.enriched_data.clone(),
        }
    }
}

/// The views of readings.
pub open spec fn point_views(points: Seq<DataPoint>) -> Seq<DataPointView> {
    points.map_values(|p: DataPoint| p@)
}

/// The views of processed readings.
pub open spec fn processed_views(points: Seq<ProcessedPoint>) -> Seq<ProcessedPointView> {
    points.map_values(|p: ProcessedPoint| p@)
}

/// A value is outside configured bounds when it is below the lower or above
/// the upper one.
pub open spec fn within_bounds(value: Double, min: Double, max: Double) -> bool {
    !value.spec_lt(min) && !value.spec_gt(max)
}

/// The rule on the value of an environmental reading.
pub open spec fn environmental_rule(
    rules: ValidationRules,
    variable: Seq<char>,
    value: Double,
) -> bool {
    if variable == "temperature"@ {
        within_bounds(value, rules.temperature_min, rules.temperature_max)
    } else if variable == "humidity"@ {
        within_bounds(value, rules.humidity_min, rules.humidity_max)
    } else if variable == "air_quality"@ || variable == "pm2.5"@ || variable == "pm10"@ {
        value.at_least_int(0)
    } else {
        true
    }
}

/// The rule on the value of a health reading: a heart rate in `[30, 250]`, a
/// body temperature in `[35, 42]`.
pub open spec fn health_rule(variable: Seq<char>, value: Double) -> bool {
    if variable == "heart_rate"@ {
        value.within_ints(30, 250)
    } else if variable == "temperature"@ {
        value.within_ints(35, 42)
    } else {
        true
    }
}

/// The rule on the value of an infrastructure reading: a temperature in
/// `[-50, 200]`, a pressure above 0, a flow rate of 0 or more.
pub open spec fn infrastructure_rule(variable: Seq<char>, value: Double) -> bool {
    if variable == "temperature"@ {
        value.within_ints(-50, 200)
    } else if variable == "pressure"@ {
        value.above_int(0)
    } else if variable == "flow_rate"@ {
        value.at_least_int(0)
    } else {
        true
    }
}

/// The rule on the value of an economic reading: no negative price, cost or
/// revenue.
pub open spec fn economic_rule(variable: Seq<char>, value: Double) -> bool {
    if variable == "price"@ || variable == "cost"@ || variable == "revenue"@ {
        value.at_least_int(0)
    } else {
        true
    }
}

/// The rule on the value of a social reading: a population or count is a
/// whole number of 0 or more, a percentage or rate lies in `[0, 100]`.
pub open spec fn social_rule(variable: Seq<char>, value: Double) -> bool {
    if variable == "population"@ || variable == "count"@ {
        value.at_least_int(0) && value.spec_is_integer()
    } else if variable == "percentage"@ || variable == "rate"@ {
        value.within_ints(0, 100)
    } else {
        true
    }
}

/// The rule of a reading's category on its value. A category that is not
/// known has no rule that a reading could meet.
pub open spec fn category_rule(rules: ValidationRules, point: DataPointView) -> bool {
    if point.category == "environmental"@ {
        environmental_rule(rules, point.variable, point.value)
    } else if point.category == "health"@ {
        health_rule(point.variable, point.value)
    } else if point.category == "infrastructure"@ {
        infrastructure_rule(point.variable, point.value)
    } else if point.category == "economic"@ {
        economic_rule(point.variable, point.value)
    } else if point.category == "social"@ {
        social_rule(point.variable, point.value)
    } else {
        false
    }
}

/// What holds of every valid reading: a finite value at a valid coordinate.
pub open spec fn well_placed(point: DataPointView) -> bool {
    point.value.spec_is_finite() && valid_coordinate(point.lat, point.lon)
}

/// A valid reading: it names its source, variable and category, meets the
/// rule of its category, and has a finite value at a valid coordinate.
pub open spec fn valid_point(rules: ValidationRules, point: DataPointView) -> bool {
    &&& point.source.len() > 0
    &&& point.variable.len() > 0
    &&& point.category.len() > 0
    &&& category_rule(rules, point)
    &&& well_placed(point)
}

/// One derived value.
pub open spec fn one_field(name: Seq<char>, value: Double) -> Seq<(Seq<char>, Double)> {
    seq![(name, value)]
}

/// The values derived from an environmental reading.
pub open spec fn environmental_fields(variable: Seq<char>, value: Double) -> Seq<
    (Seq<char>, Double),
> {
    if variable == "temperature"@ {
        seq![
            ("temperature_fahrenheit"@, fahrenheit(value)),
            ("temperature_kelvin"@, kelvin(value)),
        ]
    } else if variable == "humidity"@ {
        one_field("dew_point"@, dew_point(value))
    } else {
        Seq::empty()
    }
}

/// The values derived from a health reading.
pub open spec fn health_fields(variable: Seq<char>, value: Double) -> Seq<
    (Seq<char>, Double),
> {
    if variable == "heart_rate"@ {
        one_field("heart_rate_percentage"@, heart_rate_percentage(value))
    } else if variable == "temperature"@ {
        one_field("body_temperature_fahrenheit"@, fahrenheit(value))
    } else {
        Seq::empty()
    }
}

/// The values derived from an infrastructure reading.
pub open spec fn infrastructure_fields(variable: Seq<char>, value: Double) -> Seq<
    (Seq<char>, Double),
> {
    if variable == "flow_rate"@ {
        one_field("flow_rate_m3_per_hour"@, flow_rate_m3_per_hour(value))
    } else if variable == "pressure"@ {
        one_field("pressure_psi"@, pressure_psi(value))
    } else {
        Seq::empty()
    }
}

/// The values derived from an economic reading.
pub open spec fn economic_fields(variable: Seq<char>, value: Double) -> Seq<
    (Seq<char>, Double),
> {
    if variable == "price"@ {
        one_field("price_per_unit"@, price_per_unit(value))
    } else {
        Seq::empty()
    }
}

/// The values derived from a social reading.
pub open spec fn social_fields(variable: Seq<char>, value: Double) -> Seq<
    (Seq<char>, Double),
> {
    if variable == "population"@ {
        one_field("population_density"@, population_density(value))
    } else {
        Seq::empty()
    }
}

/// The values derived from a reading, by its category and variable.
pub open spec fn derived_fields(point: DataPointView) -> Seq<
    (Seq<char>, Double),
> {
    if point.category == "environmental"@ {
        environmental_fields(point.variable, point.value)
    } else if point.category == "health"@ {
        health_fields(point.variable, point.value)
    } else if point.category == "infrastructure"@ {
        infrastructure_fields(point.variable, point.value)
    } else if point.category == "economic"@ {
        economic_fields(point.variable, point.value)
    } else if point.category == "social"@ {
        social_fields(point.variable, point.value)
    } else {
        Seq::empty()
    }
}

/// What a lookup of the reading's coordinate finds, given the coordinate's
/// cells; nothing without them.
pub open spec fn located(
    geocoder: H3Geocoder,
    point: DataPointView,
    cells: Option<Seq<u64>>,
) -> Option<LocationResultView> {
    match cells {
        Some(c) => geocoder.resolve(point.lat, point.lon, c),
        None => None,
    }
}

/// What enrichment adds to a reading.
pub open spec fn enriched(
    geocoder: H3Geocoder,
    point: DataPointView,
    cells: Option<Seq<u64>>,
) -> EnrichedDataView {
    let fields = derived_fields(point);
    match located(geocoder, point, cells) {
        Some(found) => EnrichedDataView {
            country: Some(found.region.country),
            region: Some(found.region.region),
            timezone: Some(found.region.timezone),
            nearest_place: Some(found.region.nearest_place),
            h3_cells: Some(found.h3_cells),
            resolution_used: Some(found.resolution_used),
            calculated_fields: fields,
        },
        None => EnrichedDataView {
            country: None,
            region: None,
            timezone: None,
            nearest_place: None,
            h3_cells: None,
            resolution_used: None,
            calculated_fields: fields,
        },
    }
}

/// The readings that aggregation makes of one reading: the reading itself.
pub open spec fn aggregated(point: DataPointView, enriched: EnrichedDataView) -> Seq<
    DataPointView,
> {
    seq![point]
}

/// No two values derived from a reading have the same name.
pub proof fn lemma_derived_names_differ(point: DataPointView)
    ensures
        forall|i: int, j: int|
            0 <= i < j < derived_fields(point).len() ==> derived_fields(point)[i].0
                != derived_fields(point)[j].0,
{
    reveal_strlit("temperature_fahrenheit");
    reveal_strlit("temperature_kelvin");
    assert("temperature_fahrenheit"@.len() != "temperature_kelvin"@.len());
}

/// A reading with an empty category gives no output while validation is
/// enabled, whatever its other fields hold.
pub proof fn lemma_empty_category_is_rejected(
    processor: DataProcessor,
    point: DataPointView,
    cells: Option<Seq<u64>>,
)
    requires
        processor.config.enable_validation,
        point.category.len() == 0,
    ensures
        processor.processed(point, cells) == Seq::<ProcessedPointView>::empty(),
{
}

/// An environmental humidity reading that names its source and is well
/// placed is valid exactly when its value is neither below the configured
/// minimum nor above the configured maximum. So with bounds in order, a value
/// at either bound passes, and a value beyond either fails.
pub proof fn lemma_humidity_bounds(rules: ValidationRules, point: DataPointView)
    requires
        point.source.len() > 0,
        point.category == "environmental"@,
        point.variable == "humidity"@,
        well_placed(point),
    ensures
        valid_point(rules, point) <==> !point.value.spec_lt(rules.humidity_min)
            && !point.value.spec_gt(rules.humidity_max),
        rules.humidity_min.spec_le(rules.humidity_max) && (point.value == rules.humidity_min
            || point.value == rules.humidity_max) ==> valid_point(rules, point),
        point.value.spec_lt(rules.humidity_min) || point.value.spec_gt(rules.humidity_max)
            ==> !valid_point(rules, point),
{
    reveal_strlit("environmental");
    reveal_strlit("humidity");
    reveal_strlit("temperature");
    assert("humidity"@.len() != "temperature"@.len());
}

/// A health heart-rate reading that names its source and is well placed is
/// valid exactly when its value lies in `[30, 250]`.
pub proof fn lemma_heart_rate_bounds(rules: ValidationRules, point: DataPointView)
    requires
        point.source.len() > 0,
        point.category == "health"@,
        point.variable == "heart_rate"@,
        well_placed(point),
    ensures
        valid_point(rules, point) <==> point.value.within_ints(30, 250),
{
    reveal_strlit("environmental");
    reveal_strlit("health");
    reveal_strlit("heart_rate");
    assert("environmental"@.len() != "health"@.len());
}

/// A score kept between 0 and 1: 1 for a score above 1, and 0 for one below
/// 0 or one that is not a number.
pub open spec fn clamped(score: Double) -> Double {
    if score.gt(Double::from_int(1)) {
        Double::from_int(1)
    } else if score.ge(Double::from_int(0)) {
        score
    } else {
        Double::from_int(0)
    }
}

/// The confidence in a reading: 1, times 0.7 for a coordinate of exactly
/// zero and zero, times 0.8 for the source `unknown`, times 1.1 for a country
/// that enrichment found, and kept between 0 and 1.
pub open spec fn quality(point: DataPointView, enriched: EnrichedDataView) -> Double {
    let one = Double::from_int(1);
    let placed = if point.lat.is_zero() && point.lon.is_zero() {
        one.times(ratio(7, 10))
    } else {
        one
    };
    let sourced = if point.source == "unknown"@ {
        placed.times(ratio(8, 10))
    } else {
        placed
    };
    let located = if enriched.country is Some {
        sourced.times(ratio(11, 10))
    } else {
        sourced
    };
    clamped(located)
}

/// The double nearest to `numerator / denominator`.
pub fn decimal(numerator: i32, denominator: i32) -> (r: Double)
    ensures
        r == ratio(numerator, denominator),
        denominator != 0 ==> !r.spec_is_nan(),
{
    proof {
        if denominator != 0 {
            lemma_pow2_pos(1074);
            assert(denominator * unit() != 0) by (nonlinear_arith)
                requires
                    denominator != 0,
                    unit() > 0,
            ;
        }
    }
    Double::from_int(numerator).over(Double::from_int(denominator))
}

/// Degrees Fahrenheit of degrees Celsius.
pub fn to_fahrenheit(v: Double) -> (r: Double)
    ensures
        r == fahrenheit(v),
{
    v.times(Double::from_int(9)).over(Double::from_int(5)).plus(Double::from_int(32))
}

/// Kelvin of degrees Celsius.
pub fn to_kelvin(v: Double) -> (r: Double)
    ensures
        r == kelvin(v),
{
    v.plus(decimal(27315, 100))
}

/// A rough dew point of a relative humidity.
pub fn to_dew_point(v: Double) -> (r: Double)
    ensures
        r == dew_point(v),
{
    v.minus(Double::from_int(100).minus(v).over(Double::from_int(5)))
}

/// A heart rate as a percentage of the maximal rate at the age of 30.
pub fn to_heart_rate_percentage(v: Double) -> (r: Double)
    ensures
        r == heart_rate_percentage(v),
{
    let max_hr = Double::from_int(220).minus(Double::from_int(30));
    v.over(max_hr).times(Double::from_int(100))
}

/// Cubic metres per hour of litres per second.
pub fn to_flow_rate_m3_per_hour(v: Double) -> (r: Double)
    ensures
        r == flow_rate_m3_per_hour(v),
{
    v.times(decimal(36, 10)).over(Double::from_int(1000))
}

/// Pounds per square inch of bar.
pub fn to_pressure_psi(v: Double) -> (r: Double)
    ensures
        r == pressure_psi(v),
{
    v.times(decimal(145038, 10000))
}

/// People per area, with 1000 for the area.
pub fn to_population_density(v: Double) -> (r: Double)
    ensures
        r == population_density(v),
{
    v.over(Double::from_int(1000))
}

fn push_field(fields: &mut Vec<CalculatedField>, name: &str, value: Double)
    ensures
        field_views(final(fields)@) == field_views(old(fields)@) + one_field(name@, value),
{
    fields.push(CalculatedField { name: String::from_str(name), value });
    assert(field_views(fields@) =~= field_views(old(fields)@) + one_field(name@, value));
}

/// The pipeline, with its configuration and its spatial index.
pub struct DataProcessor {
    pub config: ProcessingConfig,
    pub geocoder: H3Geocoder,
}

impl DataProcessor {
    pub fn new(config: &ProcessingConfig, geocoder: H3Geocoder) -> (r: Self)
        ensures
            r.config == *config,
            r.geocoder == geocoder,
    {
        DataProcessor { config: *config, geocoder }
    }

    /// What the pipeline makes of a reading: nothing of a reading that
    /// validation rejects; otherwise each reading that aggregation gives, with
    /// what enrichment added. A stage that is switched off is passed over.
    pub open spec fn processed(
        &self,
        point: DataPointView,
        cells: Option<Seq<u64>>,
    ) -> Seq<ProcessedPointView> {
        if self.config.enable_validation && !valid_point(self.config.validation_rules, point) {
            Seq::empty()
        } else {
            let enriched_data = if self.config.enable_enrichment {
                enriched(self.geocoder, point, cells)
            } else {
                EnrichedDataView::empty()
            };
            if self.config.enable_aggregation {
                aggregated(point, enriched_data).map_values(
                    |p: DataPointView| ProcessedPointView { data_point: p, enriched_data },
                )
            } else {
                seq![ProcessedPointView { data_point: point, enriched_data }]
            }
        }
    }

    /// Runs one reading through the pipeline. `cells` holds the cell of the
    /// reading's coordinate at each resolution, where the coordinate has
    /// cells.
    pub fn process(&self, data_point: DataPoint, cells: Option<[u64; 9]>) -> (r: Vec<
        ProcessedPoint,
    >)
        ensures
            processed_views(r@) == self.processed(data_point@, cells_view(cells)),
    {
        let mut processed_points: Vec<ProcessedPoint> = Vec::new();
        if self.config.enable_validation && !self.validate_point(&data_point) {
            assert(processed_views(processed_points@) =~= Seq::empty());
            return processed_points;
        }
        let enriched_data = if self.config.enable_enrichment {
            self.enrich_point(&data_point, cells)
        } else {
            EnrichedData::default()
        };
        if self.config.enable_aggregation {
            let aggregated_points = self.aggregate_point(&data_point, &enriched_data);
            let mut i: usize = 0;
            while i < aggregated_points.len()
                invariant
                    i <= aggregated_points.len(),
                    processed_points.len() == i,
                    forall|j: int|
                        0 <= j < i ==> processed_points@[j]@ == (ProcessedPointView {
                            data_point: aggregated_points@[j]@,
                            enriched_data: enriched_data@,
                        }),
                decreases aggregated_points.len() - i,
            {
                processed_points.push(
                    ProcessedPoint {
                        data_point: aggregated_points[i].clone(),
                        enriched_data: enriched_data.clone(),
                    },
                );
                i = i + 1;
            }
            assert(processed_views(processed_points@) =~= self.processed(
                data_point@,
                cells_view(cells),
            ));
        } else {
            processed_points.push(ProcessedPoint { data_point, enriched_data });
            assert(processed_views(processed_points@) =~= self.processed(
                data_point@,
                cells_view(cells),
            ));
        }
        processed_points
    }

    /// Whether a reading is valid.
    pub fn validate_point(&self, point: &DataPoint) -> (r: bool)
        ensures
            r == valid_point(self.config.validation_rules, point@),
    {
        if point.source.as_str().is_empty() {
            return false;
        }
        if point.variable.as_str().is_empty() {
            return false;
        }
        if point.category.as_str().is_empty() {
            return false;
        }
        let category = point.category.as_str();
        if str_eq(category, "environmental") {
            self.validate_environmental_point(point)
        } else if str_eq(category, "health") {
            self.validate_health_point(point)
        } else if str_eq(category, "infrastructure") {
            self.validate_infrastructure_point(point)
        } else if str_eq(category, "economic") {
            self.validate_economic_point(point)
        } else if str_eq(category, "social") {
            self.validate_social_point(point)
        } else {
            false
        }
    }

    /// Whether a reading meets the environmental rule and is well placed.
    pub fn validate_environmental_point(&self, point: &DataPoint) -> (r: bool)
        ensures
            r == (environmental_rule(self.config.validation_rules, point.variable@, point.value)
                && well_placed(point@)),
    {
        let variable = point.variable.as_str();
        let rules = &self.config.validation_rules;
        if str_eq(variable, "temperature") {
            if point.value.lt(rules.temperature_min) || point.value.gt(rules.temperature_max) {
                return false;
            }
        } else if str_eq(variable, "humidity") {
            if point.value.lt(rules.humidity_min) || point.value.gt(rules.humidity_max) {
                return false;
            }
        } else if str_eq(variable, "air_quality") || str_eq(variable, "pm2.5") || str_eq(
            variable,
            "pm10",
        ) {
            if point.value.lt(Double::from_int(0)) {
                return false;
            }
        }
        self.validate_placement(point)
    }

    /// Whether a reading meets the health rule and is well placed.
    pub fn validate_health_point(&self, point: &DataPoint) -> (r: bool)
        ensures
            r == (health_rule(point.variable@, point.value) && well_placed(point@)),
    {
        let variable = point.variable.as_str();
        if str_eq(variable, "heart_rate") {
            if point.value.lt(Double::from_int(30)) || point.value.gt(Double::from_int(250)) {
                return false;
            }
        } else if str_eq(variable, "temperature") {
            if point.value.lt(Double::from_int(35)) || point.value.gt(Double::from_int(42)) {
                return false;
            }
        }
        self.validate_placement(point)
    }

    /// Whether a reading meets the infrastructure rule and is well placed.
    pub fn validate_infrastructure_point(&self, point: &DataPoint) -> (r: bool)
        ensures
            r == (infrastructure_rule(point.variable@, point.value) && well_placed(point@)),
    {
        let variable = point.variable.as_str();
        if str_eq(variable, "temperature") {
            if point.value.lt(Double::from_int(-50)) || point.value.gt(Double::from_int(200)) {
                return false;
            }
        } else if str_eq(variable, "pressure") {
            if point.value.le(Double::from_int(0)) {
                return false;
            }
        } else if str_eq(variable, "flow_rate") {
            if point.value.lt(Double::from_int(0)) {
                return false;
            }
        }
        self.validate_placement(point)
    }

    /// Whether a reading meets the economic rule and is well placed.
    pub fn validate_economic_point(&self, point: &DataPoint) -> (r: bool)
        ensures
            r == (economic_rule(point.variable@, point.value) && well_placed(point@)),
    {
        let variable = point.variable.as_str();
        if str_eq(variable, "price") || str_eq(variable, "cost") || str_eq(variable, "revenue") {
            if point.value.lt(Double::from_int(0)) {
                return false;
            }
        }
        self.validate_placement(point)
    }

    /// Whether a reading meets the social rule and is well placed.
    pub fn validate_social_point(&self, point: &DataPoint) -> (r: bool)
        ensures
            r == (social_rule(point.variable@, point.value) && well_placed(point@)),
    {
        let variable = point.variable.as_str();
        if str_eq(variable, "population") || str_eq(variable, "count") {
            if point.value.lt(Double::from_int(0)) || !point.value.is_integer() {
                return false;
            }
        } else if str_eq(variable, "percentage") || str_eq(variable, "rate") {
            if point.value.lt(Double::from_int(0)) || point.value.gt(Double::from_int(100)) {
                return false;
            }
        }
        self.validate_placement(point)
    }

    /// Whether a reading has a finite value at a valid coordinate.
    pub fn validate_placement(&self, point: &DataPoint) -> (r: bool)
        ensures
            r == well_placed(point@),
    {
        point.value.is_finite() && self.validate_coordinates(point)
    }

    /// Whether a reading's coordinate is valid.
    pub fn validate_coordinates(&self, point: &DataPoint) -> (r: bool)
        ensures
            r == valid_coordinate(point.lat, point.lon),
    {
        is_valid_coordinate(point.lat, point.lon)
    }

    /// What enrichment adds to a reading: the region that the index has for
    /// its coordinate, and the values derived from it.
    pub fn enrich_point(&self, point: &DataPoint, cells: Option<[u64; 9]>) -> (r: EnrichedData)
        ensures
            r@ == enriched(self.geocoder, point@, cells_view(cells)),
            r@.names_differ(),
    {
        proof {
            lemma_derived_names_differ(point@);
        }
        let mut enriched = EnrichedData::default();
        let mut calculated_fields: Vec<CalculatedField> = Vec::new();
        assert(field_views(calculated_fields@) =~= Seq::empty());
        let location = match cells {
            Some(c) => self.geocoder.get_complete_location_info(point.lat, point.lon, &c),
            None => None,
        };
        match location {
            Some(found) => {
                enriched.country = Some(found.country);
                enriched.region = Some(found.region);
                enriched.timezone = Some(found.timezone);
                enriched.nearest_place = Some(found.nearest_place);
                enriched.h3_cells = Some(found.h3_cells);
                enriched.resolution_used = Some(found.resolution_used);
            },
            None => {},
        }
        let category = point.category.as_str();
        if str_eq(category, "environmental") {
            self.add_environmental_calculations(point, &mut calculated_fields);
        } else if str_eq(category, "health") {
            self.add_health_calculations(point, &mut calculated_fields);
        } else if str_eq(category, "infrastructure") {
            self.add_infrastructure_calculations(point, &mut calculated_fields);
        } else if str_eq(category, "economic") {
            self.add_economic_calculations(point, &mut calculated_fields);
        } else if str_eq(category, "social") {
            self.add_social_calculations(point, &mut calculated_fields);
        }
        assert(field_views(calculated_fields@) =~= derived_fields(point@));
        enriched.calculated_fields = calculated_fields;
        enriched
    }

    /// Adds the values derived from an environmental reading.
    pub fn add_environmental_calculations(
        &self,
        point: &DataPoint,
        calculated_fields: &mut Vec<CalculatedField>,
    )
        ensures
            field_views(final(calculated_fields)@) == field_views(old(calculated_fields)@)
                + environmental_fields(point.variable@, point.value),
    {
        let variable = point.variable.as_str();
        if str_eq(variable, "temperature") {
            push_field(calculated_fields, "temperature_fahrenheit", to_fahrenheit(point.value));
            push_field(calculated_fields, "temperature_kelvin", to_kelvin(point.value));
            assert(field_views(calculated_fields@) =~= field_views(old(calculated_fields)@)
                + environmental_fields(point.variable@, point.value));
        } else if str_eq(variable, "humidity") {
            push_field(calculated_fields, "dew_point", to_dew_point(point.value));
        } else {
            assert(field_views(calculated_fields@) =~= field_views(old(calculated_fields)@)
                + environmental_fields(point.variable@, point.value));
        }
    }

    /// Adds the values derived from a health reading.
    pub fn add_health_calculations(
        &self,
        point: &DataPoint,
        calculated_fields: &mut Vec<CalculatedField>,
    )
        ensures
            field_views(final(calculated_fields)@) == field_views(old(calculated_fields)@)
                + health_fields(point.variable@, point.value),
    {
        let variable = point.variable.as_str();
        if str_eq(variable, "heart_rate") {
            push_field(
                calculated_fields,
                "heart_rate_percentage",
                to_heart_rate_percentage(point.value),
            );
        } else if str_eq(variable, "temperature") {
            push_field(
                calculated_fields,
                "body_temperature_fahrenheit",
                to_fahrenheit(point.value),
            );
        } else {
            assert(field_views(calculated_fields@) =~= field_views(old(calculated_fields)@)
                + health_fields(point.variable@, point.value));
        }
    }

    /// Adds the values derived from an infrastructure reading.
    pub fn add_infrastructure_calculations(
        &self,
        point: &DataPoint,
        calculated_fields: &mut Vec<CalculatedField>,
    )
        ensures
            field_views(final(calculated_fields)@) == field_views(old(calculated_fields)@)
                + infrastructure_fields(point.variable@, point.value),
    {
        let variable = point.variable.as_str();
        if str_eq(variable, "flow_rate") {
            push_field(
                calculated_fields,
                "flow_rate_m3_per_hour",
                to_flow_rate_m3_per_hour(point.value),
            );
        } else if str_eq(variable, "pressure") {
            push_field(calculated_fields, "pressure_psi", to_pressure_psi(point.value));
        } else {
            assert(field_views(calculated_fields@) =~= field_views(old(calculated_fields)@)
                + infrastructure_fields(point.variable@, point.value));
        }
    }

    /// Adds the values derived from an economic reading.
    pub fn add_economic_calculations(
        &self,
        point: &DataPoint,
        calculated_fields: &mut Vec<CalculatedField>,
    )
        ensures
            field_views(final(calculated_fields)@) == field_views(old(calculated_fields)@)
                + economic_fields(point.variable@, point.value),
    {
        let variable = point.variable.as_str();
        if str_eq(variable, "price") {
            push_field(calculated_fields, "price_per_unit", point.value);
        } else {
            assert(field_views(calculated_fields@) =~= field_views(old(calculated_fields)@)
                + economic_fields(point.variable@, point.value));
        }
    }

    /// Adds the values derived from a social reading.
    pub fn add_social_calculations(
        &self,
        point: &DataPoint,
        calculated_fields: &mut Vec<CalculatedField>,
    )
        ensures
            field_views(final(calculated_fields)@) == field_views(old(calculated_fields)@)
                + social_fields(point.variable@, point.value),
    {
        let variable = point.variable.as_str();
        if str_eq(variable, "population") {
            push_field(
                calculated_fields,
                "population_density",
                to_population_density(point.value),
            );
        } else {
            assert(field_views(calculated_fields@) =~= field_views(old(calculated_fields)@)
                + social_fields(point.variable@, point.value));
        }
    }

    /// The confidence in a reading, between 0 and 1.
    pub fn quality_score(&self, point: &DataPoint, enriched: &EnrichedData) -> (r: Double)
        ensures
            r == quality(point@, enriched@),
            r.within_ints(0, 1),
    {
        let one = Double::from_int(1);
        let mut score = one;
        if point.lat.is_zero() && point.lon.is_zero() {
            score = score.times(decimal(7, 10));
        }
        if str_eq(point.source.as_str(), "unknown") {
            score = score.times(decimal(8, 10));
        }
        if enriched.country.is_some() {
            score = score.times(decimal(11, 10));
        }
        let zero = Double::from_int(0);
        proof {
            // An infinite score is not between 0 and 1.
            lemma_mul_basics(unit());
            lemma_pow2_pos(1074);
            lemma_infinity_magnitude();
            lemma_pow2_strictly_increases(1074, 2098);
        }
        if score.gt(one) {
            one
        } else if score.ge(zero) {
            score
        } else {
            zero
        }
    }

    /// The readings that aggregation makes of a reading: for now the reading
    /// itself, whatever enrichment added.
    pub fn aggregate_point(&self, point: &DataPoint, enriched: &EnrichedData) -> (r: Vec<
        DataPoint,
    >)
        ensures
            point_views(r@) == aggregated(point@, enriched@),
    {
        let mut r: Vec<DataPoint> = Vec::new();
        r.push(point.clone());
        assert(point_views(r@) =~= aggregated(point@, enriched@));
        r
    }
}

} // verus!
