//! The time-series records of processed readings.
//!
//! A processed reading gives one record of the reading itself, one of its
//! cells where it has cells, and one for each value derived from it. The
//! records are plain values; sending them is the caller's part.

use crate::double::Double;
use crate::processor::{
    processed_views, text_view, EnrichedData, EnrichedDataView, ProcessedPoint,
    ProcessedPointView,
};
use crate::text::str_eq;
use vstd::prelude::*;
use vstd::string::StringExecFns;

verus! {

/// The value of a record's field.
#[derive(Clone, Copy, Debug, PartialEq, Eq, Structural)]
pub enum FieldValue {
    Float(Double),
    Integer(i64),
}

/// A tag of a record: a name and a text.
#[derive(Debug)]
pub struct Tag {
    pub name: String,
    pub value: String,
}

/// A field of a record: a name and a number.
#[derive(Debug)]
pub struct Field {
    pub name: String,
    pub value: FieldValue,
}

/// A record for the time-series store.
#[derive(Debug)]
pub struct WriteRecord {
    pub measurement: String,
    pub epoch_ms: i64,
    pub tags: Vec<Tag>,
    pub fields: Vec<Field>,
}

pub struct WriteRecordView {
    pub measurement: Seq<char>,
    pub epoch_ms: i64,
    pub tags: Seq<(Seq<char>, Seq<char>)>,
    pub fields: Seq<(Seq<char>, FieldValue)>,
}

impl View for Tag {
    type V = (Seq<char>, Seq<char>);

    open spec fn view(&self) -> (Seq<char>, Seq<char>) {
        (self.name@, self.value@)
    }
}

impl View for Field {
    type V = (Seq<char>, FieldValue);

    open spec fn view(&self) -> (Seq<char>, FieldValue) {
        (self.name@, self.value)
    }
}

/// The views of tags.
pub open spec fn tag_views(tags: Seq<Tag>) -> Seq<(Seq<char>, Seq<char>)> {
    tags.map_values(|t: Tag| t@)
}

/// The views of fields.
pub open spec fn field_views(fields: Seq<Field>) -> Seq<(Seq<char>, FieldValue)> {
    fields.map_values(|f: Field| f@)
}

impl View for WriteRecord {
    type V = WriteRecordView;

    open spec fn view(&self) -> WriteRecordView {
        WriteRecordView {
            measurement: self.measurement@,
            epoch_ms: self.epoch_ms,
            tags: tag_views(self.tags@),
            fields: field_views(self.fields@),
        }
    }
}

/// The views of records.
pub open spec fn record_views(records: Seq<WriteRecord>) -> Seq<WriteRecordView> {
    records.map_values(|r: WriteRecord| r@)
}

/// The unit of a derived value, by its name and the reading's category;
/// `unknown` where the category has no derived value of that name.
pub open spec fn units_for_calculated_field(field_name: Seq<char>, category: Seq<char>) -> Seq<
    char,
> {
    if category == "environmental"@ {
        if field_name == "temperature_fahrenheit"@ {
            "fahrenheit"@
        } else if field_name == "temperature_kelvin"@ {
            "kelvin"@
        } else if field_name == "dew_point"@ {
            "celsius"@
        } else {
            "unknown"@
        }
    } else if category == "health"@ {
        if field_name == "body_temperature_fahrenheit"@ {
            "fahrenheit"@
        } else if field_name == "heart_rate_percentage"@ {
            "percentage"@
        } else {
            "unknown"@
        }
    } else if category == "infrastructure"@ {
        if field_name == "flow_rate_m3_per_hour"@ {
            "m³/h"@
        } else if field_name == "pressure_psi"@ {
            "psi"@
        } else {
            "unknown"@
        }
    } else if category == "economic"@ {
        if field_name == "price_per_unit"@ {
            "currency/unit"@
        } else {
            "unknown"@
        }
    } else if category == "social"@ {
        if field_name == "population_density"@ {
            "people/km²"@
        } else {
            "unknown"@
        }
    } else {
        "unknown"@
    }
}

/// The unit of a derived value, by its name and the reading's category.
pub fn get_units_for_calculated_field(field_name: &str, category: &str) -> (r: String)
    ensures
        r@ == units_for_calculated_field(field_name@, category@),
{
    let unit: &str = if str_eq(category, "environmental") {
        if str_eq(field_name, "temperature_fahrenheit") {
            "fahrenheit"
        } else if str_eq(field_name, "temperature_kelvin") {
            "kelvin"
        } else if str_eq(field_name, "dew_point") {
            "celsius"
        } else {
            "unknown"
        }
    } else if str_eq(category, "health") {
        if str_eq(field_name, "body_temperature_fahrenheit") {
            "fahrenheit"
        } else if str_eq(field_name, "heart_rate_percentage") {
            "percentage"
        } else {
            "unknown"
        }
    } else if str_eq(category, "infrastructure") {
        if str_eq(field_name, "flow_rate_m3_per_hour") {
            "m³/h"
        } else if str_eq(field_name, "pressure_psi") {
            "psi"
        } else {
            "unknown"
        }
    } else if str_eq(category, "economic") {
        if str_eq(field_name, "price_per_unit") {
            "currency/unit"
        } else {
            "unknown"
        }
    } else if str_eq(category, "social") {
        if str_eq(field_name, "population_density") {
            "people/km²"
        } else {
            "unknown"
        }
    } else {
        "unknown"
    };
    String::from_str(unit)
}

/// A text, or `unknown` in its absence.
pub open spec fn or_unknown(text: Option<Seq<char>>) -> Seq<char> {
    match text {
        Some(s) => s,
        None => "unknown"@,
    }
}

/// The 64 bits of a cell identifier, read as a signed integer.
pub open spec fn as_signed(cell_id: u64) -> i64 {
    if cell_id <= i64::MAX {
        cell_id as i64
    } else {
        (cell_id - 0x1_0000_0000_0000_0000) as i64
    }
}

/// The digit of a resolution.
pub open spec fn resolution_digit(resolution: int) -> Seq<char> {
    if resolution == 0 {
        "0"@
    } else if resolution == 1 {
        "1"@
    } else if resolution == 2 {
        "2"@
    } else if resolution == 3 {
        "3"@
    } else if resolution == 4 {
        "4"@
    } else if resolution == 5 {
        "5"@
    } else if resolution == 6 {
        "6"@
    } else if resolution == 7 {
        "7"@
    } else {
        "8"@
    }
}

/// The name of the field that holds the cell of one resolution.
pub open spec fn cell_field_name(resolution: int) -> Seq<char> {
    "h3_cell_res_"@ + resolution_digit(resolution)
}

/// The tags of the place, as far as enrichment found one.
pub open spec fn place_tags(enriched: EnrichedDataView) -> Seq<(Seq<char>, Seq<char>)> {
    let nearest = match enriched.nearest_place {
        Some(place) => seq![("nearest_place"@, place)],
        None => Seq::empty(),
    };
    let timezone = match enriched.timezone {
        Some(zone) => seq![("timezone"@, zone)],
        None => Seq::empty(),
    };
    nearest + timezone
}

/// The fields of the cells, one per resolution, where enrichment found cells.
pub open spec fn cell_fields(enriched: EnrichedDataView) -> Seq<(Seq<char>, FieldValue)> {
    match enriched.h3_cells {
        Some(cells) => Seq::new(
            9,
            |i: int| (cell_field_name(i), FieldValue::Integer(as_signed(cells[i]))),
        ),
        None => Seq::empty(),
    }
}

/// The field of the resolution used, where enrichment found a region.
pub open spec fn resolution_fields(enriched: EnrichedDataView) -> Seq<(Seq<char>, FieldValue)> {
    match enriched.resolution_used {
        Some(resolution) => seq![
            ("h3_resolution_used"@, FieldValue::Integer(resolution as i64)),
        ],
        None => Seq::empty(),
    }
}

/// The fields that every record of a reading ends with: where it is.
pub open spec fn position_fields(point: ProcessedPointView) -> Seq<(Seq<char>, FieldValue)> {
    seq![
        ("lat"@, FieldValue::Float(point.data_point.lat)),
        ("lon"@, FieldValue::Float(point.data_point.lon)),
    ] + cell_fields(point.enriched_data) + resolution_fields(point.enriched_data)
}

/// The tags of the region, `unknown` where enrichment found none, and of the
/// place.
pub open spec fn region_tags(enriched: EnrichedDataView) -> Seq<(Seq<char>, Seq<char>)> {
    seq![
        ("country"@, or_unknown(enriched.country)),
        ("region"@, or_unknown(enriched.region)),
    ] + place_tags(enriched)
}

/// The record of the reading itself.
pub open spec fn data_point_record(point: ProcessedPointView) -> WriteRecordView {
    WriteRecordView {
        measurement: "data_points"@,
        epoch_ms: point.data_point.epoch_ms,
        tags: seq![
            ("source"@, point.data_point.source),
            ("category"@, point.data_point.category),
            ("variable"@, point.data_point.variable),
            ("units"@, point.data_point.units),
        ] + region_tags(point.enriched_data),
        fields: seq![("value"@, FieldValue::Float(point.data_point.value))] + position_fields(
            point,
        ),
    }
}

/// The record of the reading's cells.
pub open spec fn spatial_record(point: ProcessedPointView) -> WriteRecordView {
    WriteRecordView {
        measurement: "h3_spatial"@,
        epoch_ms: point.data_point.epoch_ms,
        tags: seq![
            ("source"@, point.data_point.source),
            ("category"@, point.data_point.category),
            ("variable"@, point.data_point.variable),
        ] + region_tags(point.enriched_data),
        fields: position_fields(point),
    }
}

/// The record of one value derived from the reading, tagged with the unit of
/// the derived value.
pub open spec fn calculated_record(
    point: ProcessedPointView,
    name: Seq<char>,
    value: Double,
) -> WriteRecordView {
    WriteRecordView {
        measurement: "calculated_fields"@,
        epoch_ms: point.data_point.epoch_ms,
        tags: seq![
            ("source"@, point.data_point.source),
            ("category"@, point.data_point.category),
            ("variable"@, name),
            ("original_variable"@, point.data_point.variable),
            ("units"@, units_for_calculated_field(name, point.data_point.category)),
        ] + region_tags(point.enriched_data),
        fields: seq![("value"@, FieldValue::Float(value))] + position_fields(point),
    }
}

/// The record of the reading's cells, where it has cells.
pub open spec fn spatial_records(point: ProcessedPointView) -> Seq<WriteRecordView> {
    if point.enriched_data.h3_cells is Some {
        seq![spatial_record(point)]
    } else {
        Seq::empty()
    }
}

/// The records of the values derived from a reading, in their order.
pub open spec fn calculated_records(point: ProcessedPointView) -> Seq<WriteRecordView> {
    Seq::new(
        point.enriched_data.calculated_fields.len(),
        |i: int|
            calculated_record(
                point,
                point.enriched_data.calculated_fields[i].0,
                point.enriched_data.calculated_fields[i].1,
            ),
    )
}

/// The records of one processed reading.
pub open spec fn records_of(point: ProcessedPointView) -> Seq<WriteRecordView> {
    seq![data_point_record(point)] + spatial_records(point) + calculated_records(point)
}

/// The records of processed readings, reading after reading.
pub open spec fn records_of_all(points: Seq<ProcessedPointView>) -> Seq<WriteRecordView>
    decreases points.len(),
{
    if points.len() == 0 {
        Seq::empty()
    } else {
        records_of_all(points.drop_last()) + records_of(points.last())
    }
}

fn push_tag(tags: &mut Vec<Tag>, name: &str, value: &str)
    ensures
        tag_views(final(tags)@) == tag_views(old(tags)@).push((name@, value@)),
{
    tags.push(Tag { name: String::from_str(name), value: String::from_str(value) });
    assert(tag_views(tags@) =~= tag_views(old(tags)@).push((name@, value@)));
}

fn push_field(fields: &mut Vec<Field>, name: String, value: FieldValue)
    ensures
        field_views(final(fields)@) == field_views(old(fields)@).push((name@, value)),
{
    fields.push(Field { name, value });
    assert(field_views(fields@) =~= field_views(old(fields)@).push((name@, value)));
}

fn text_or_unknown(text: &Option<String>) -> (r: &str)
    ensures
        r@ == or_unknown(text_view(*text)),
{
    match text {
        Some(s) => s.as_str(),
        None => "unknown",
    }
}

/// The 64 bits of a cell identifier, read as a signed integer.
pub fn cell_as_signed(cell_id: u64) -> (r: i64)
    ensures
        r == as_signed(cell_id),
{
    if cell_id < 0x8000_0000_0000_0000 {
        cell_id as i64
    } else {
        ((cell_id - 0x8000_0000_0000_0000) as i64) + i64::MIN
    }
}

fn resolution_digit_text(resolution: usize) -> (r: &'static str)
    requires
        resolution < 9,
    ensures
        r@ == resolution_digit(resolution as int),
{
    if resolution == 0 {
        "0"
    } else if resolution == 1 {
        "1"
    } else if resolution == 2 {
        "2"
    } else if resolution == 3 {
        "3"
    } else if resolution == 4 {
        "4"
    } else if resolution == 5 {
        "5"
    } else if resolution == 6 {
        "6"
    } else if resolution == 7 {
        "7"
    } else {
        "8"
    }
}

fn push_region_tags(tags: &mut Vec<Tag>, enriched: &EnrichedData)
    ensures
        tag_views(final(tags)@) == tag_views(old(tags)@) + region_tags(enriched@),
{
    push_tag(tags, "country", text_or_unknown(&enriched.country));
    push_tag(tags, "region", text_or_unknown(&enriched.region));
    match &enriched.nearest_place {
        Some(place) => {
            push_tag(tags, "nearest_place", place.as_str());
        },
        None => {},
    }
    match &enriched.timezone {
        Some(zone) => {
            push_tag(tags, "timezone", zone.as_str());
        },
        None => {},
    }
    assert(tag_views(tags@) =~= tag_views(old(tags)@) + region_tags(enriched@));
}

fn push_position_fields(fields: &mut Vec<Field>, point: &ProcessedPoint)
    ensures
        field_views(final(fields)@) == field_views(old(fields)@) + position_fields(point@),
{
    let enriched = &point.enriched_data;
    push_field(fields, String::from_str("lat"), FieldValue::Float(point.data_point.lat));
    push_field(fields, String::from_str("lon"), FieldValue::Float(point.data_point.lon));
    let ghost start = field_views(fields@);
    match &enriched.h3_cells {
        Some(cells) => {
            let mut resolution: usize = 0;
            while resolution < 9
                invariant
                    resolution <= 9,
                    enriched.h3_cells == Some(*cells),
                    field_views(fields@) == start + cell_fields(enriched@).take(resolution as int),
                decreases 9 - resolution,
            {
                let mut name = String::from_str("h3_cell_res_");
                name.append(resolution_digit_text(resolution));
                push_field(fields, name, FieldValue::Integer(cell_as_signed(cells[resolution])));
                assert(field_views(fields@) =~= start + cell_fields(enriched@).take(
                    resolution + 1,
                ));
                resolution = resolution + 1;
            }
            assert(cell_fields(enriched@).take(9) =~= cell_fields(enriched@));
        },
        None => {
            assert(field_views(fields@) =~= start + cell_fields(enriched@));
        },
    }
    match enriched.resolution_used {
        Some(resolution) => {
            push_field(
                fields,
                String::from_str("h3_resolution_used"),
                FieldValue::Integer(resolution as i64),
            );
        },
        None => {},
    }
    assert(field_views(fields@) =~= field_views(old(fields)@) + position_fields(point@));
}

/// The record of the reading itself.
pub fn data_point_query(point: &ProcessedPoint) -> (r: WriteRecord)
    ensures
        r@ == data_point_record(point@),
{
    let reading = &point.data_point;
    let mut tags: Vec<Tag> = Vec::new();
    let mut fields: Vec<Field> = Vec::new();
    assert(tag_views(tags@) =~= Seq::empty());
    assert(field_views(fields@) =~= Seq::empty());
    push_tag(&mut tags, "source", reading.source.as_str());
    push_tag(&mut tags, "category", reading.category.as_str());
    push_tag(&mut tags, "variable", reading.variable.as_str());
    push_tag(&mut tags, "units", reading.units.as_str());
    push_region_tags(&mut tags, &point.enriched_data);
    push_field(&mut fields, String::from_str("value"), FieldValue::Float(reading.value));
    push_position_fields(&mut fields, point);
    assert(tag_views(tags@) =~= data_point_record(point@).tags);
    assert(field_views(fields@) =~= data_point_record(point@).fields);
    WriteRecord {
        measurement: String::from_str("data_points"),
        epoch_ms: reading.epoch_ms,
        tags,
        fields,
    }
}

/// The record of the reading's cells.
pub fn spatial_query(point: &ProcessedPoint) -> (r: WriteRecord)
    ensures
        r@ == spatial_record(point@),
{
    let reading = &point.data_point;
    let mut tags: Vec<Tag> = Vec::new();
    let mut fields: Vec<Field> = Vec::new();
    assert(tag_views(tags@) =~= Seq::empty());
    assert(field_views(fields@) =~= Seq::empty());
    push_tag(&mut tags, "source", reading.source.as_str());
    push_tag(&mut tags, "category", reading.category.as_str());
    push_tag(&mut tags, "variable", reading.variable.as_str());
    push_region_tags(&mut tags, &point.enriched_data);
    push_position_fields(&mut fields, point);
    assert(tag_views(tags@) =~= spatial_record(point@).tags);
    assert(field_views(fields@) =~= spatial_record(point@).fields);
    WriteRecord {
        measurement: String::from_str("h3_spatial"),
        epoch_ms: reading.epoch_ms,
        tags,
        fields,
    }
}

/// The record of one value derived from the reading.
pub fn calculated_query(point: &ProcessedPoint, field_name: &str, field_value: Double) -> (r:
    WriteRecord)
    ensures
        r@ == calculated_record(point@, field_name@, field_value),
{
    let reading = &point.data_point;
    let mut tags: Vec<Tag> = Vec::new();
    let mut fields: Vec<Field> = Vec::new();
    assert(tag_views(tags@) =~= Seq::empty());
    assert(field_views(fields@) =~= Seq::empty());
    let units = get_units_for_calculated_field(field_name, reading.category.as_str());
    push_tag(&mut tags, "source", reading.source.as_str());
    push_tag(&mut tags, "category", reading.category.as_str());
    push_tag(&mut tags, "variable", field_name);
    push_tag(&mut tags, "original_variable", reading.variable.as_str());
    push_tag(&mut tags, "units", units.as_str());
    push_region_tags(&mut tags, &point.enriched_data);
    push_field(&mut fields, String::from_str("value"), FieldValue::Float(field_value));
    push_position_fields(&mut fields, point);
    assert(tag_views(tags@) =~= calculated_record(point@, field_name@, field_value).tags);
    assert(field_views(fields@) =~= calculated_record(point@, field_name@, field_value).fields);
    WriteRecord {
        measurement: String::from_str("calculated_fields"),
        epoch_ms: reading.epoch_ms,
        tags,
        fields,
    }
}

/// The records to write for processed readings: for each reading in turn the
/// record of the reading, the record of its cells where it has cells, and
/// one record for each value derived from it.
pub fn write_queries(points: &Vec<ProcessedPoint>) -> (r: Vec<WriteRecord>)
    ensures
        record_views(r@) == records_of_all(processed_views(points@)),
{
    let mut write_queries: Vec<WriteRecord> = Vec::new();
    assert(record_views(write_queries@) =~= Seq::empty());
    let ghost all = processed_views(points@);
    let mut n: usize = 0;
    while n < points.len()
        invariant
            n <= points.len(),
            all == processed_views(points@),
            record_views(write_queries@) == records_of_all(all.take(n as int)),
        decreases points.len() - n,
    {
        let point = &points[n];
        let ghost before = record_views(write_queries@);
        write_queries.push(data_point_query(point));
        if point.enriched_data.h3_cells.is_some() {
            write_queries.push(spatial_query(point));
        }
        assert(record_views(write_queries@) =~= before + seq![data_point_record(point@)]
            + spatial_records(point@));
        let ghost middle = record_views(write_queries@);
        let calculated = &point.enriched_data.calculated_fields;
        let mut i: usize = 0;
        while i < calculated.len()
            invariant
                i <= calculated.len(),
                calculated == &point.enriched_data.calculated_fields,
                record_views(write_queries@) == middle + calculated_records(point@).take(i as int),
            decreases calculated.len() - i,
        {
            let ghost so_far = record_views(write_queries@);
            write_queries.push(
                calculated_query(point, calculated[i].name.as_str(), calculated[i].value),
            );
            proof {
                let derived = point@.enriched_data.calculated_fields;
                assert(derived.len() == calculated@.len());
                assert(derived[i as int] == calculated@[i as int]@);
                assert(calculated_records(point@)[i as int] == calculated_record(
                    point@,
                    calculated@[i as int].name@,
                    calculated@[i as int].value,
                ));
                assert(record_views(write_queries@) =~= so_far.push(
                    calculated_records(point@)[i as int],
                ));
                assert(calculated_records(point@).take(i + 1) =~= calculated_records(point@).take(
                    i as int,
                ).push(calculated_records(point@)[i as int]));
            }
            assert(record_views(write_queries@) =~= middle + calculated_records(point@).take(
                i + 1,
            ));
            i = i + 1;
        }
        proof {
            assert(calculated_records(point@).take(i as int) =~= calculated_records(point@));
            assert(all.take(n + 1).drop_last() =~= all.take(n as int));
            assert(all.take(n + 1).last() == point@);
            assert(record_views(write_queries@) =~= before + records_of(point@));
        }
        n = n + 1;
    }
    assert(all.take(n as int) =~= all);
    write_queries
}

} // verus!
