//! Configuration of the pipeline and of the services around it.

use crate::double::Double;
use vstd::prelude::*;
use vstd::string::StringExecFns;

verus! {

/// Where readings come from.
#[derive(Debug)]
pub struct KafkaConfig {
    pub bootstrap_servers: String,
    pub group_id: String,
    pub topic: String,
    pub auto_offset_reset: String,
}

/// The bounds that environmental temperature and humidity are held to.
#[derive(Clone, Copy, Debug)]
pub struct ValidationRules {
    pub temperature_min: Double,
    pub temperature_max: Double,
    pub humidity_min: Double,
    pub humidity_max: Double,
}

/// Which stages of the pipeline run, and with which rules.
#[derive(Clone, Copy, Debug)]
pub struct ProcessingConfig {
    pub enable_validation: bool,
    pub enable_enrichment: bool,
    pub enable_aggregation: bool,
    pub batch_size: usize,
    pub validation_rules: ValidationRules,
}

/// Where processed readings go.
#[derive(Debug)]
pub struct InfluxDbConfig {
    pub host: String,
    pub port: u16,
    pub org: String,
    pub bucket: String,
    pub token: String,
}

/// Where the gazetteer is.
#[derive(Debug)]
pub struct GeocoderConfig {
    pub geonames_file_path: String,
}

/// The whole configuration.
#[derive(Debug)]
pub struct ProcessorConfig {
    pub kafka: KafkaConfig,
    pub processing: ProcessingConfig,
    pub influxdb: InfluxDbConfig,
    pub geocoder: GeocoderConfig,
}

impl Default for KafkaConfig {
    fn default() -> (r: Self)
        ensures
            r.bootstrap_servers@ == "localhost:9092"@,
            r.group_id@ == "climate-processor"@,
            r.topic@ == "weather.raw"@,
            r.auto_offset_reset@ == "earliest"@,
    {
        KafkaConfig {
            bootstrap_servers: String::from_str("localhost:9092"),
            group_id: String::from_str("climate-processor"),
            topic: String::from_str("weather.raw"),
            auto_offset_reset: String::from_str("earliest"),
        }
    }
}

impl Default for ValidationRules {
    /// Temperatures from -100 to 100, humidity from 0 to 100.
    fn default() -> (r: Self)
        ensures
            r.temperature_min.equals_int(-100),
            r.temperature_max.equals_int(100),
            r.humidity_min.equals_int(0),
            r.humidity_max.equals_int(100),
    {
        ValidationRules {
            temperature_min: Double::from_int(-100),
            temperature_max: Double::from_int(100),
            humidity_min: Double::from_int(0),
            humidity_max: Double::from_int(100),
        }
    }
}

impl Default for ProcessingConfig {
    /// Every stage enabled, batches of 100, the default rules.
    fn default() -> (r: Self)
        ensures
            r.enable_validation,
            r.enable_enrichment,
            r.enable_aggregation,
            r.batch_size == 100,
            r.validation_rules.temperature_min.equals_int(-100),
            r.validation_rules.temperature_max.equals_int(100),
            r.validation_rules.humidity_min.equals_int(0),
            r.validation_rules.humidity_max.equals_int(100),
    {
        ProcessingConfig {
            enable_validation: true,
            enable_enrichment: true,
            enable_aggregation: true,
            batch_size: 100,
            validation_rules: ValidationRules::default(),
        }
    }
}

impl Default for InfluxDbConfig {
    fn default() -> (r: Self)
        ensures
            r.host@ == "localhost"@,
            r.port == 8086,
            r.org@ == "emma"@,
            r.bucket@ == "climate"@,
            r.token@ == "emma-token"@,
    {
        InfluxDbConfig {
            host: String::from_str("localhost"),
            port: 8086,
            org: String::from_str("emma"),
            bucket: String::from_str("climate"),
            token: String::from_str("emma-token"),
        }
    }
}

impl Default for GeocoderConfig {
    fn default() -> (r: Self)
        ensures
            r.geonames_file_path@ == "allCountries.txt"@,
    {
        GeocoderConfig { geonames_file_path: String::from_str("allCountries.txt") }
    }
}

impl Default for ProcessorConfig {
    /// The default of each part.
    fn default() -> (r: Self)
        ensures
            r.kafka.bootstrap_servers@ == "localhost:9092"@,
            r.kafka.group_id@ == "climate-processor"@,
            r.kafka.topic@ == "weather.raw"@,
            r.kafka.auto_offset_reset@ == "earliest"@,
            r.processing.enable_validation,
            r.processing.enable_enrichment,
            r.processing.enable_aggregation,
            r.processing.batch_size == 100,
            r.processing.validation_rules.temperature_min.equals_int(-100),
            r.processing.validation_rules.temperature_max.equals_int(100),
            r.processing.validation_rules.humidity_min.equals_int(0),
            r.processing.validation_rules.humidity_max.equals_int(100),
            r.influxdb.host@ == "localhost"@,
            r.influxdb.port == 8086,
            r.influxdb.org@ == "emma"@,
            r.influxdb.bucket@ == "climate"@,
            r.influxdb.token@ == "emma-token"@,
            r.geocoder.geonames_file_path@ == "allCountries.txt"@,
    {
        ProcessorConfig {
            kafka: KafkaConfig::default(),
            processing: ProcessingConfig::default(),
            influxdb: InfluxDbConfig::default(),
            geocoder: GeocoderConfig::default(),
        }
    }
}

} // verus!
