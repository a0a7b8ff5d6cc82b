use sensor_qc::boundary::Boundary;
use sensor_qc::config::{Condition, ConditionMode, ConsistRule, ExtModule, LevelPattern, ModuleType, QCConfig};
use sensor_qc::flag::QCFlag;
use sensor_qc::module_api::PassModule;
use sensor_qc::timerange::{BlackListInner, ConfigError, QCL0WBList, WBList, WhiteListInner};
use sensor_qc::value::DataType;
use sensor_qc::worker::{AppendResult, QCStatus, QCworker, WorkerInner};

const WARN0: u64 = 1;
const WARN1: u64 = 1 << 1;
const ERR0: u64 = 1 << 32;
const INVALID: u64 = 1 << 31;

fn level_with(
    boundary: Option<Boundary>,
    consist: Vec<ConsistRule>,
    condition: Option<Condition>,
    errorflag: bool,
) -> LevelPattern {
    LevelPattern { boundary, consist, condition, module: Vec::new(), errorflag }
}

fn worker_for(name: &str, levels: Vec<LevelPattern>, wblist: WBList) -> WorkerInner<PassModule> {
    let nlevels = levels.len();
    let config = QCConfig::new(levels).unwrap();
    let modules: Vec<Vec<PassModule>> = (0..nlevels).map(|_| Vec::new()).collect();
    WorkerInner::new(name.to_string(), config, wblist, modules)
}

fn registry_with(name: &str, levels: Vec<LevelPattern>, wblist: WBList) -> QCworker<PassModule> {
    let mut qc = QCworker::new();
    assert!(qc.register(worker_for(name, levels, wblist)));
    qc
}

fn flag_of(qc: &QCworker<PassModule>, name: &str) -> (i64, DataType, QCFlag) {
    for (n, entry) in qc.get_report() {
        if n == name {
            return entry;
        }
    }
    panic!("no report for {}", name);
}

#[test]
fn main_case1() {}

#[test]
fn warning_level_keeps_value() {
    // Boundary {min -10.0, max 50.0} at scale 10, errorflag off, input
    // 55.0: the level's warning bit is set and the value is retained.
    let levels = vec![level_with(Some(Boundary { min: -100, max: 500 }), Vec::new(), None, false)];
    let mut qc = registry_with("temperature", levels, WBList::empty());
    let r = qc.append("temperature", 0, DataType::Numeric(550), &Vec::new());
    assert!(matches!(r, AppendResult::Evaluated(_)));
    let (ts, value, flag) = flag_of(&qc, "temperature");
    assert_eq!(ts, 0);
    assert_eq!(value, DataType::Numeric(550));
    assert_eq!(flag.bits, WARN0);
}

#[test]
fn error_level_nulls_and_stops() {
    // Same boundary with errorflag on: warning and error bits both set,
    // the value becomes null, and the next level never runs even though
    // its boundary would also fail.
    let levels = vec![
        level_with(Some(Boundary { min: -100, max: 500 }), Vec::new(), None, true),
        level_with(Some(Boundary { min: 0, max: 1 }), Vec::new(), None, false),
    ];
    let mut qc = registry_with("temperature", levels, WBList::empty());
    let r = qc.append("temperature", 0, DataType::Numeric(550), &Vec::new());
    match r {
        AppendResult::Evaluated(v) => assert_eq!(v.len(), 1),
        _ => panic!("expected an evaluation"),
    }
    let (_, value, flag) = flag_of(&qc, "temperature");
    assert_eq!(value, DataType::Null);
    assert_eq!(flag.bits, WARN0 | ERR0);
}

#[test]
fn second_level_runs_after_plain_warning() {
    let levels = vec![
        level_with(Some(Boundary { min: -100, max: 500 }), Vec::new(), None, false),
        level_with(Some(Boundary { min: 0, max: 1 }), Vec::new(), None, false),
    ];
    let mut qc = registry_with("temperature", levels, WBList::empty());
    let _ = qc.append("temperature", 0, DataType::Numeric(550), &Vec::new());
    let (_, value, flag) = flag_of(&qc, "temperature");
    assert_eq!(value, DataType::Numeric(550));
    assert_eq!(flag.bits, WARN0 | WARN1);
}

#[test]
fn drift_over_samples_sets_warning() {
    // Consistency rule {600 s, 2.0} at scale 10: steady 20.0 readings
    // pass, then 25.0 at 550 s exceeds the scaled allowance.
    let rule = ConsistRule { interval: 600, unit: "s".to_string(), difference: 20 };
    let levels = vec![level_with(None, vec![rule], None, false)];
    let mut qc = registry_with("temperature", levels, WBList::empty());
    for k in 0..5i64 {
        let _ = qc.append("temperature", k * 100, DataType::Numeric(200), &Vec::new());
        let (_, _, flag) = flag_of(&qc, "temperature");
        assert_eq!(flag.bits, 0);
    }
    let _ = qc.append("temperature", 550, DataType::Numeric(250), &Vec::new());
    let (_, _, flag) = flag_of(&qc, "temperature");
    assert_eq!(flag.bits, WARN0);
}

fn blacklist_temperature() -> WBList {
    let config = QCL0WBList {
        whitelist: None,
        blacklist: Some(BlackListInner {
            datetimelst: Some(vec![vec![
                "1970-01-01 00:10:00".to_string(),
                "1970-01-01 00:20:00".to_string(),
                "temperature".to_string(),
            ]]),
        }),
    };
    WBList::new(config).unwrap()
}

#[test]
fn blacklist_window_nulls_listed_parameter() {
    let levels = vec![level_with(None, Vec::new(), None, false)];
    let mut qc = registry_with("temperature", levels, blacklist_temperature());
    // Before the window: untouched.
    let _ = qc.append("temperature", 300, DataType::Numeric(250), &Vec::new());
    let (_, value, flag) = flag_of(&qc, "temperature");
    assert_eq!(value, DataType::Numeric(250));
    assert_eq!(flag.bits, 0);
    // Inside [t1, t2]: the sentinel is set and the value is nulled out.
    let _ = qc.append("temperature", 900, DataType::Numeric(250), &Vec::new());
    let (_, value, flag) = flag_of(&qc, "temperature");
    assert!(matches!(value, DataType::NotANumber));
    assert_eq!(flag.bits, INVALID);
    assert!(flag.is_invalid());
    // After the window: untouched again.
    let _ = qc.append("temperature", 1300, DataType::Numeric(250), &Vec::new());
    let (_, value, flag) = flag_of(&qc, "temperature");
    assert_eq!(value, DataType::Numeric(250));
    assert_eq!(flag.bits, 0);
}

#[test]
fn blacklist_spares_unlisted_parameter() {
    let levels = vec![level_with(None, Vec::new(), None, false)];
    let mut qc = registry_with("humidity", levels, blacklist_temperature());
    let _ = qc.append("humidity", 900, DataType::Numeric(77), &Vec::new());
    let (_, value, flag) = flag_of(&qc, "humidity");
    // The rule covers the time, so the reading is marked, but only the
    // listed parameter's value is nulled.
    assert_eq!(flag.bits, INVALID);
    assert_eq!(value, DataType::Numeric(77));
}

#[test]
fn whitelist_carries_no_action() {
    let config = QCL0WBList {
        whitelist: Some(WhiteListInner {
            datetimelst: Some(vec![vec![
                "1970-01-01 00:10:00".to_string(),
                "1970-01-01 00:20:00".to_string(),
                "temperature".to_string(),
            ]]),
        }),
        blacklist: None,
    };
    let levels = vec![level_with(None, Vec::new(), None, false)];
    let mut qc = registry_with("temperature", levels, WBList::new(config).unwrap());
    let _ = qc.append("temperature", 900, DataType::Numeric(250), &Vec::new());
    let (_, value, flag) = flag_of(&qc, "temperature");
    assert_eq!(value, DataType::Numeric(250));
    assert_eq!(flag.bits, 0);
}

#[test]
fn timerange_rules_parse_and_sort() {
    let config = QCL0WBList {
        whitelist: None,
        blacklist: Some(BlackListInner {
            datetimelst: Some(vec![
                vec![
                    "1970-01-01 01:00:00".to_string(),
                    "1970-01-01 02:00:00".to_string(),
                    "all".to_string(),
                ],
                vec!["1970-01-01 00:10:00".to_string(), "1970-01-01 00:20:00".to_string()],
            ]),
        }),
    };
    let w = WBList::new(config).unwrap();
    assert_eq!(w.inner.len(), 2);
    // Parsed to epoch seconds and sorted ascending by start.
    assert_eq!(w.inner[0].starttime, 600);
    assert_eq!(w.inner[0].endtime, 1200);
    assert_eq!(w.inner[1].starttime, 3600);
    assert!(w.inner[1].blacklist);
}

#[test]
fn timerange_rejects_bad_config() {
    let short = QCL0WBList {
        whitelist: None,
        blacklist: Some(BlackListInner {
            datetimelst: Some(vec![vec!["1970-01-01 00:10:00".to_string()]]),
        }),
    };
    assert_eq!(WBList::new(short).unwrap_err(), ConfigError::MalformedRule);
    let bad = QCL0WBList {
        whitelist: Some(WhiteListInner {
            datetimelst: Some(vec![vec![
                "not a datetime".to_string(),
                "1970-01-01 00:20:00".to_string(),
            ]]),
        }),
        blacklist: None,
    };
    assert_eq!(WBList::new(bad).unwrap_err(), ConfigError::MalformedDatetime);
}

#[test]
fn condition_failure_ignores_own_value() {
    // Mode "nonzero" requiring sibling `pressure`: a zero sibling fails
    // the check no matter what the checked parameter reads.
    let cond = Condition {
        valid: vec!["pressure".to_string()],
        mode: ConditionMode::NonZero,
    };
    let levels = vec![level_with(None, Vec::new(), Some(cond), false)];
    let mut qc = registry_with("temperature", levels, WBList::empty());
    let row = vec![("pressure".to_string(), DataType::Numeric(0))];
    let _ = qc.append("temperature", 0, DataType::Numeric(250), &row);
    let (_, value, flag) = flag_of(&qc, "temperature");
    assert_eq!(flag.bits, WARN0);
    assert_eq!(value, DataType::Numeric(250));
    let good_row = vec![("pressure".to_string(), DataType::Numeric(10132))];
    let _ = qc.append("temperature", 10, DataType::Numeric(250), &good_row);
    let (_, _, flag) = flag_of(&qc, "temperature");
    assert_eq!(flag.bits, 0);
}

#[test]
fn registry_bookkeeping() {
    let levels = vec![level_with(None, Vec::new(), None, false)];
    let mut qc = registry_with("temperature", levels, WBList::empty());
    // A duplicate name is refused.
    let dup = worker_for("temperature", vec![level_with(None, Vec::new(), None, false)],
        WBList::empty());
    assert!(!qc.register(dup));
    // An unknown parameter changes nothing.
    let r = qc.append("humidity", 0, DataType::Numeric(1), &Vec::new());
    assert!(matches!(r, AppendResult::Unknown));
    // A sample older than one already seen is rejected.
    let _ = qc.append("temperature", 100, DataType::Numeric(1), &Vec::new());
    let r = qc.append("temperature", 50, DataType::Numeric(2), &Vec::new());
    assert!(matches!(r, AppendResult::Rejected));
    let (ts, value, _) = flag_of(&qc, "temperature");
    assert_eq!(ts, 100);
    assert_eq!(value, DataType::Numeric(1));
    qc.set_database("database");
    qc.change_status("temperature", QCStatus::Running);
    assert_eq!(qc.map[0].status, QCStatus::Running);
}

#[test]
fn report_lists_evaluated_parameters() {
    let mut qc = QCworker::<PassModule>::new();
    assert!(qc.register(worker_for(
        "temperature",
        vec![level_with(None, Vec::new(), None, false)],
        WBList::empty(),
    )));
    assert!(qc.register(worker_for(
        "humidity",
        vec![level_with(None, Vec::new(), None, false)],
        WBList::empty(),
    )));
    assert!(qc.get_report().is_empty());
    let _ = qc.append("humidity", 7, DataType::Integer(55), &Vec::new());
    let report = qc.get_report();
    assert_eq!(report.len(), 1);
    assert_eq!(report[0].0, "humidity");
    assert_eq!(report[0].1 .0, 7);
    assert_eq!(report[0].1 .1, DataType::Integer(55));
}

#[test]
fn identical_runs_reproduce_flags() {
    let make = || {
        registry_with(
            "temperature",
            vec![level_with(Some(Boundary { min: -100, max: 500 }), Vec::new(), None, false)],
            WBList::empty(),
        )
    };
    let mut a = make();
    let mut b = make();
    for (ts, v) in [(0i64, 550i64), (10, 30), (20, 700)] {
        let _ = a.append("temperature", ts, DataType::Numeric(v), &Vec::new());
        let _ = b.append("temperature", ts, DataType::Numeric(v), &Vec::new());
        let (_, va, fa) = flag_of(&a, "temperature");
        let (_, vb, fb) = flag_of(&b, "temperature");
        assert_eq!(fa, fb);
        assert_eq!(va, vb);
    }
}

#[test]
fn row_datetime_selection() {
    let row = vec![
        ("temperature".to_string(), DataType::Numeric(200)),
        ("datetime".to_string(), DataType::Datetime(1234)),
    ];
    assert_eq!(sensor_qc::worker::row_datetime(&row, 99), 1234);
    let no_time = vec![("temperature".to_string(), DataType::Numeric(200))];
    assert_eq!(sensor_qc::worker::row_datetime(&no_time, 99), 99);
}

struct FixedModule {
    verdict: Result<bool, ()>,
}

impl sensor_qc::module_api::QCModule for FixedModule {
    fn run(
        &mut self,
        _level: usize,
        _datetime: i64,
        _data: &DataType,
    ) -> Result<bool, sensor_qc::module_api::ModuleError> {
        match self.verdict {
            Ok(b) => Ok(b),
            Err(()) => Err(sensor_qc::module_api::ModuleError { message: "broken".to_string() }),
        }
    }
}

fn module_worker(
    kinds: Vec<ModuleType>,
    instances: Vec<FixedModule>,
    errorflag: bool,
) -> QCworker<FixedModule> {
    let module = kinds
        .into_iter()
        .map(|k| ExtModule {
            name: "m".to_string(),
            module_type: k,
            path: "unused".to_string(),
            errorflag: false,
        })
        .collect();
    let levels = vec![LevelPattern { boundary: None, consist: Vec::new(), condition: None, module, errorflag }];
    let config = QCConfig::new(levels).unwrap();
    let w = WorkerInner::new("temperature".to_string(), config, WBList::empty(), vec![instances]);
    let mut qc = QCworker::new();
    assert!(qc.register(w));
    qc
}

#[test]
fn module_verdicts_drive_the_flag() {
    let mut qc = module_worker(
        vec![ModuleType::General, ModuleType::Python],
        vec![FixedModule { verdict: Ok(true) }, FixedModule { verdict: Ok(false) }],
        false,
    );
    let r = qc.append("temperature", 0, DataType::Numeric(1), &Vec::new());
    match r {
        AppendResult::Evaluated(v) => assert_eq!(v, vec![vec![true, false]]),
        _ => panic!("expected an evaluation"),
    }
    let report = qc.get_report();
    assert_eq!(report[0].1 .2.bits, WARN0);
}

#[test]
fn module_error_counts_as_failure() {
    let mut qc = module_worker(
        vec![ModuleType::General],
        vec![FixedModule { verdict: Err(()) }],
        true,
    );
    let _ = qc.append("temperature", 0, DataType::Numeric(1), &Vec::new());
    let report = qc.get_report();
    assert_eq!(report[0].1 .2.bits, WARN0 | ERR0);
    assert_eq!(report[0].1 .1, DataType::Null);
}

#[test]
fn unknown_module_kind_is_skipped() {
    let mut qc = module_worker(
        vec![ModuleType::Unknown],
        vec![FixedModule { verdict: Err(()) }],
        false,
    );
    let r = qc.append("temperature", 0, DataType::Numeric(1), &Vec::new());
    match r {
        AppendResult::Evaluated(v) => assert_eq!(v, vec![vec![true]]),
        _ => panic!("expected an evaluation"),
    }
    let report = qc.get_report();
    assert_eq!(report[0].1 .2.bits, 0);
}
