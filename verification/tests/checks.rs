use sensor_qc::boundary::{boundary_check, Boundary};
use sensor_qc::condition::condition_check;
use sensor_qc::config::{unit_seconds, Condition, ConditionMode, ModuleType, QCConfig};
use sensor_qc::database::capitalize;
use sensor_qc::flag::QCFlag;
use sensor_qc::metadata::{Header, HeaderInner, HeaderVecInner, Parameter};
use sensor_qc::value::DataType;

fn names(list: &[&str]) -> Vec<String> {
    list.iter().map(|s| s.to_string()).collect()
}

#[test]
fn boundary_inside_and_edges() {
    // Fixed-point scale of 10: the range [-10.0, 50.0].
    let b = Boundary { min: -100, max: 500 };
    assert!(boundary_check(&b, &DataType::Numeric(0)));
    assert!(boundary_check(&b, &DataType::Numeric(-100)));
    assert!(boundary_check(&b, &DataType::Numeric(500)));
    assert!(boundary_check(&b, &DataType::Integer(499)));
    assert!(!boundary_check(&b, &DataType::Numeric(501)));
    assert!(!boundary_check(&b, &DataType::Numeric(-101)));
    assert!(!boundary_check(&b, &DataType::Numeric(550)));
}

#[test]
fn boundary_rejects_non_numbers() {
    let b = Boundary { min: -100, max: 500 };
    assert!(!boundary_check(&b, &DataType::NotANumber));
    assert!(!boundary_check(&b, &DataType::Null));
    assert!(!boundary_check(&b, &DataType::Text("20".to_string())));
    assert!(!boundary_check(&b, &DataType::Datetime(0)));
}

#[test]
fn unit_mapping() {
    assert_eq!(unit_seconds("m"), 60);
    assert_eq!(unit_seconds("min"), 60);
    assert_eq!(unit_seconds("minute"), 60);
    assert_eq!(unit_seconds("h"), 3600);
    assert_eq!(unit_seconds("hr"), 3600);
    assert_eq!(unit_seconds("hour"), 3600);
    assert_eq!(unit_seconds("d"), 86400);
    assert_eq!(unit_seconds("day"), 86400);
    assert_eq!(unit_seconds("s"), 1);
    assert_eq!(unit_seconds(""), 1);
    assert_eq!(unit_seconds("Min"), 1);
}

#[test]
fn module_kind_names() {
    assert_eq!(ModuleType::from_name("general"), ModuleType::General);
    assert_eq!(ModuleType::from_name("GENERAL"), ModuleType::General);
    assert_eq!(ModuleType::from_name("c"), ModuleType::General);
    assert_eq!(ModuleType::from_name("Rust"), ModuleType::General);
    assert_eq!(ModuleType::from_name("python"), ModuleType::Python);
    assert_eq!(ModuleType::from_name("Python"), ModuleType::Python);
    assert_eq!(ModuleType::from_name("lua"), ModuleType::Unknown);
}

#[test]
fn capitalize_table_names() {
    assert_eq!(capitalize("integer"), "Integer");
    assert_eq!(capitalize("float"), "Float");
    assert_eq!(capitalize("text"), "Text");
    assert_eq!(capitalize(""), "");
    assert_eq!(capitalize("X"), "X");
}

#[test]
fn flag_bits_roundtrip() {
    let mut f = QCFlag::new();
    assert_eq!(f.bits, 0);
    f.set_warning(0);
    assert_eq!(f.bits, 1);
    f.set_warning(3);
    assert_eq!(f.warning_bits(), 0b1001);
    f.set_error(3);
    assert_eq!(f.error_bits(), 0b1000);
    assert!(!f.is_invalid());
    f.set_invalid();
    assert!(f.is_invalid());
    // Setting the sentinel keeps every other bit.
    assert_eq!(f.warning_bits(), 0b1001);
    f.clear_all();
    assert_eq!(f.bits, 0);
    f.set_bit(5);
    f.clear();
    assert_eq!(f.bits, 0);
}

#[test]
fn config_level_bounds() {
    assert!(QCConfig::new(Vec::new()).is_none());
    let levels: Vec<_> = (0..31).map(|_| sensor_qc::config::LevelPattern::empty()).collect();
    let cfg = QCConfig::new(levels).unwrap();
    assert_eq!(cfg.max_level(), 30);
    let too_many: Vec<_> = (0..32).map(|_| sensor_qc::config::LevelPattern::empty()).collect();
    assert!(QCConfig::new(too_many).is_none());
}

#[test]
fn condition_nonzero_and_valid() {
    let row = vec![
        ("pressure".to_string(), DataType::Numeric(0)),
        ("humidity".to_string(), DataType::Numeric(55)),
        ("windspeed".to_string(), DataType::NotANumber),
    ];
    let nonzero_pressure = Condition { valid: names(&["pressure"]), mode: ConditionMode::NonZero };
    assert!(!condition_check(&nonzero_pressure, &row));
    let nonzero_humidity = Condition { valid: names(&["humidity"]), mode: ConditionMode::NonZero };
    assert!(condition_check(&nonzero_humidity, &row));
    // A non-number is not exactly zero.
    let nonzero_wind = Condition { valid: names(&["windspeed"]), mode: ConditionMode::NonZero };
    assert!(condition_check(&nonzero_wind, &row));
    let valid_wind = Condition { valid: names(&["windspeed"]), mode: ConditionMode::Valid };
    assert!(!condition_check(&valid_wind, &row));
    let valid_humidity = Condition { valid: names(&["humidity"]), mode: ConditionMode::Valid };
    assert!(condition_check(&valid_humidity, &row));
    // An unresolvable sibling name fails closed.
    let missing = Condition { valid: names(&["rainfall"]), mode: ConditionMode::Valid };
    assert!(!condition_check(&missing, &row));
}

fn sample_header() -> Header {
    Header {
        datetime: Some(HeaderInner { header: Some("time".to_string()) }),
        temperature: Some(HeaderVecInner {
            header: Some(names(&["temp_a", "temp_b"])),
            primary: Some("temp_a".to_string()),
        }),
        humidity: Some(HeaderVecInner { header: Some(names(&["rh"])), primary: None }),
        pressure: None,
        windspeed: None,
        winddirection: None,
        rainfull: None,
        shortwavedown: None,
        shortwaveup: None,
        longwavedown: None,
        longwaveup: None,
    }
}

#[test]
fn header_index_positions() {
    let h = sample_header();
    assert_eq!(h.index(Parameter::Temperature, "temp_b"), Some(1));
    assert_eq!(h.index(Parameter::Temperature, "rh"), None);
    assert_eq!(h.index(Parameter::Humidity, "rh"), Some(0));
    assert_eq!(h.index(Parameter::Pressure, "anything"), None);
    assert_eq!(h.index(Parameter::Datetime, "anything"), Some(0));
}

#[test]
fn header_find_order() {
    let h = sample_header();
    assert!(matches!(h.find("temp_a"), Some((Parameter::Temperature, 0))));
    assert!(matches!(h.find("rh"), Some((Parameter::Humidity, 0))));
    // An unknown name falls through to the datetime column.
    assert!(matches!(h.find("nothing"), Some((Parameter::Datetime, 0))));
}
