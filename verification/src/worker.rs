//! The per-parameter worker and the level pipeline it drives.
//!
//! A worker owns one parameter's rule configuration, its sliding-window
//! state, its time-range scan and its module instances. Submitting a
//! sample clears the flag, runs the time-range override, then evaluates
//! every configured level in ascending order — boundary, consistency,
//! condition, modules, in fixed order — accumulating warning bits; a
//! failing level whose `errorflag` is set records its error bit, nulls
//! the value and stops evaluation. The worker keeps the outcome as its
//! latest state for reporting.

use vstd::prelude::*;

use crate::boundary::{boundary_check, spec_boundary_pass};
use crate::condition::{condition_check, spec_condition_fails};
use crate::config::{LevelPattern, ModuleType, QCConfig};
use crate::consist::{spec_consist_fails, spec_evict_max, spec_evict_min, spec_prune, ConsistWindow};
use crate::flag::{bit_set, QCFlag, ERROR_SHIFT, INVALID_BIT, MAX_LEVEL};
use crate::module_api::QCModule;
use crate::timerange::WBList;
use crate::value::{num64_of, DataType, DataValue};

verus! {

/// Lifecycle of a worker. Tracked as an external control surface; the
/// pipeline itself does not gate on it.
#[derive(Debug, Clone, Copy, PartialEq, Eq, Structural)]
pub enum QCStatus {
    Unknown,
    Init,
    Training,
    Running,
    Stop,
}

/// How one rule's window moves when a sample arrives: a finite number
/// is inserted after pruning and back-eviction; anything else leaves
/// the window untouched.
pub open spec fn window_stepped(
    pre: ConsistWindow,
    post: ConsistWindow,
    ts: i64,
    vnum: Option<i64>,
) -> bool {
    match vnum {
        Some(n) => {
            &&& post.dur == pre.dur
            &&& post.last == ts
            &&& post.hist@ == pre.hist@.push((ts, n))
            &&& post.max_q@ == spec_evict_max(
                spec_prune(pre.max_q@, ts as int, pre.dur as int),
                n as int,
            ).push((ts, n))
            &&& post.min_q@ == spec_evict_min(
                spec_prune(pre.min_q@, ts as int, pre.dur as int),
                n as int,
            ).push((ts, n))
        },
        Option::None => post == pre,
    }
}

/// One consistency rule's verdict on a value: a non-number always
/// fails; a number fails when its drift exceeds the rule's allowance.
pub open spec fn spec_consist_rule_fails(w: ConsistWindow, ts: i64, v: DataValue, diff: i64) -> bool {
    match num64_of(v) {
        Some(n) => spec_consist_fails(w, ts as int, n as int, diff as int),
        Option::None => true,
    }
}

/// Some deterministic check of the level — boundary, consistency or
/// condition — fails on this sample.
pub open spec fn spec_level_det_fails(
    lp: LevelPattern,
    wins: Seq<ConsistWindow>,
    ts: i64,
    v: DataValue,
    siblings: Seq<(String, DataType)>,
) -> bool {
    ||| (lp.boundary matches Some(b) && !spec_boundary_pass(b, v))
    ||| (exists|j: int|
        0 <= j < lp.consist@.len() && spec_consist_rule_fails(
            wins[j],
            ts,
            v,
            lp.consist@[j].difference,
        ))
    ||| (lp.condition matches Some(c) && spec_condition_fails(c, siblings))
}

/// Some check of the level fails: a deterministic one, or a module
/// whose verdict came back negative.
pub open spec fn spec_level_fails(
    lp: LevelPattern,
    wins: Seq<ConsistWindow>,
    ts: i64,
    v: DataValue,
    siblings: Seq<(String, DataType)>,
    verdicts: Seq<bool>,
) -> bool {
    ||| spec_level_det_fails(lp, wins, ts, v, siblings)
    ||| (exists|j: int| 0 <= j < verdicts.len() && !verdicts[j])
}

/// Evaluates the deterministic checks and the modules of one level, in
/// fixed order, updating that level's windows and returning whether the
/// level failed together with each module's verdict.
fn eval_level<M: QCModule>(
    lp: &LevelPattern,
    wins: &mut Vec<ConsistWindow>,
    mods: &mut Vec<M>,
    level: usize,
    datetime: i64,
    current: &DataType,
    siblings: &Vec<(String, DataType)>,
) -> (r: (bool, Vec<bool>))
    requires
        old(wins)@.len() == lp.consist@.len(),
        old(mods)@.len() == lp.module@.len(),
        forall|j: int|
            0 <= j < old(wins)@.len() ==> (#[trigger] old(wins)@[j]).wf() && datetime >= old(
                wins,
            )@[j].last,
    ensures
        final(wins)@.len() == old(wins)@.len(),
        final(mods)@.len() == old(mods)@.len(),
        forall|j: int|
            0 <= j < final(wins)@.len() ==> window_stepped(
                old(wins)@[j],
                #[trigger] final(wins)@[j],
                datetime,
                num64_of(current@),
            ) && final(wins)@[j].wf(),
        r.1@.len() == lp.module@.len(),
        forall|j: int|
            0 <= j < r.1@.len() && (#[trigger] lp.module@[j]).module_type is Unknown ==> r.1@[j],
        r.0 == spec_level_fails(*lp, old(wins)@, datetime, current@, siblings@, r.1@),
{
    let vnum = current.to_number();
    let mut failed_boundary = false;
    if let Some(b) = &lp.boundary {
        if !boundary_check(b, current) {
            failed_boundary = true;
        }
    }
    assert(failed_boundary == (lp.boundary matches Some(b) && !spec_boundary_pass(b, current@)));

    let ghost wins0 = wins@;
    let mut failed_consist = false;
    let nrules = lp.consist.len();
    let mut j: usize = 0;
    while j < nrules
        invariant
            j <= nrules,
            nrules == lp.consist@.len(),
            wins@.len() == wins0.len(),
            nrules == wins0.len(),
            vnum == num64_of(current@),
            forall|k: int|
                j <= k < wins0.len() ==> wins@[k] == wins0[k] && (#[trigger] wins0[k]).wf()
                    && datetime >= wins0[k].last,
            forall|k: int|
                0 <= k < j ==> window_stepped(
                    wins0[k],
                    #[trigger] wins@[k],
                    datetime,
                    num64_of(current@),
                ) && wins@[k].wf(),
            failed_consist == (exists|k: int|
                0 <= k < j && spec_consist_rule_fails(
                    wins0[k],
                    datetime,
                    current@,
                    lp.consist@[k].difference,
                )),
        decreases nrules - j,
    {
        proof {
            assert(wins@[j as int] == wins0[j as int]);
            assert(wins0[j as int].wf() && datetime >= wins0[j as int].last);
        }
        let rule_fail: bool = match vnum {
            Some(_) => wins[j].check_insert(datetime, vnum, lp.consist[j].difference),
            Option::None => true,
        };
        proof {
            assert(window_stepped(wins0[j as int], wins@[j as int], datetime, num64_of(current@)));
            assert(rule_fail == spec_consist_rule_fails(
                wins0[j as int],
                datetime,
                current@,
                lp.consist@[j as int].difference,
            ));
        }
        if rule_fail {
            failed_consist = true;
        }
        j += 1;
    }

    let mut failed_condition = false;
    if let Some(c) = &lp.condition {
        if !condition_check(c, siblings) {
            failed_condition = true;
        }
    }

    let nmods = mods.len();
    let mut verdicts: Vec<bool> = Vec::new();
    let mut failed_module = false;
    let mut m: usize = 0;
    while m < nmods
        invariant
            m <= nmods,
            nmods == lp.module@.len(),
            mods@.len() == nmods,
            verdicts@.len() == m,
            forall|k: int|
                0 <= k < m && (#[trigger] lp.module@[k]).module_type is Unknown ==> verdicts@[k],
            failed_module == (exists|k: int| 0 <= k < m && !verdicts@[k]),
        decreases nmods - m,
    {
        let verdict: bool = match lp.module[m].module_type {
            ModuleType::Unknown => true,
            _ => match mods[m].run(level, datetime, current) {
                Ok(status) => status,
                Err(_) => false,
            },
        };
        let ghost prev = verdicts@;
        verdicts.push(verdict);
        proof {
            assert(verdicts@[m as int] == verdict);
            assert(forall|k: int| 0 <= k < m ==> verdicts@[k] == prev[k]);
        }
        if !verdict {
            failed_module = true;
        }
        m += 1;
    }

    let failed = failed_boundary || failed_consist || failed_condition || failed_module;
    proof {
        assert(failed_consist == (exists|k: int|
            0 <= k < lp.consist@.len() && spec_consist_rule_fails(
                wins0[k],
                datetime,
                current@,
                lp.consist@[k].difference,
            )));
        assert(failed == spec_level_fails(*lp, wins0, datetime, current@, siblings@, verdicts@));
    }
    (failed, verdicts)
}

/// The per-parameter worker: configuration, sliding-window state,
/// time-range scan, module instances, and the latest evaluated reading.
pub struct WorkerInner<M: QCModule> {
    pub name: String,
    pub config: QCConfig,
    pub windows: Vec<Vec<ConsistWindow>>,
    pub wblist: WBList,
    pub modules: Vec<Vec<M>>,
    pub data: Option<(i64, DataType)>,
    pub status: QCStatus,
    pub flag: QCFlag,
    pub last_seen: i64,
}

impl<M: QCModule> WorkerInner<M> {
    /// The window and module tables mirror the configuration level by
    /// level, every window is well-formed with its rule's duration, and
    /// no window has seen a sample newer than the worker has.
    pub open spec fn wf(self) -> bool {
        &&& self.config.wf()
        &&& self.windows@.len() == self.config.levels@.len()
        &&& (forall|i: int|
            0 <= i < self.windows@.len() ==> (#[trigger] self.windows@[i])@.len()
                == self.config.levels@[i].consist@.len())
        &&& (forall|i: int, j: int|
            0 <= i < self.windows@.len() && 0 <= j < self.windows@[i]@.len()
                ==> (#[trigger] self.windows@[i]@[j]).wf() && self.windows@[i]@[j].dur
                == self.config.levels@[i].consist@[j].spec_window_secs()
                && self.windows@[i]@[j].last <= self.last_seen)
        &&& self.modules@.len() == self.config.levels@.len()
        &&& (forall|i: int|
            0 <= i < self.modules@.len() ==> (#[trigger] self.modules@[i])@.len()
                == self.config.levels@[i].module@.len())
        &&& self.wblist.wf()
    }

    /// Builds a worker for one parameter from its configuration, its
    /// time-range rules and one module instance per configured module
    /// reference, with fresh windows and a clear flag.
    pub fn new(name: String, config: QCConfig, wblist: WBList, modules: Vec<Vec<M>>) -> (r:
        WorkerInner<M>)
        requires
            config.wf(),
            wblist.wf(),
            modules@.len() == config.levels@.len(),
            forall|i: int|
                0 <= i < modules@.len() ==> (#[trigger] modules@[i])@.len()
                    == config.levels@[i].module@.len(),
        ensures
            r.wf(),
            r.name == name,
            r.config == config,
            r.wblist == wblist,
            r.modules == modules,
            r.data is None,
            r.status == QCStatus::Init,
            r.flag.bits == 0,
            r.last_seen == i64::MIN,
            forall|i: int, j: int|
                0 <= i < r.windows@.len() && 0 <= j < r.windows@[i]@.len()
                    ==> (#[trigger] r.windows@[i]@[j]).hist@ == Seq::<(i64, i64)>::empty()
                    && r.windows@[i]@[j].last == i64::MIN,
    {
        let nlevels = config.levels.len();
        let mut windows: Vec<Vec<ConsistWindow>> = Vec::new();
        let mut i: usize = 0;
        while i < nlevels
            invariant
                i <= nlevels,
                nlevels == config.levels@.len(),
                windows@.len() == i,
                forall|a: int|
                    0 <= a < i ==> (#[trigger] windows@[a])@.len()
                        == config.levels@[a].consist@.len(),
                forall|a: int, b: int|
                    0 <= a < i && 0 <= b < windows@[a]@.len()
                        ==> (#[trigger] windows@[a]@[b]).wf() && windows@[a]@[b].dur
                        == config.levels@[a].consist@[b].spec_window_secs()
                        && windows@[a]@[b].last == i64::MIN && windows@[a]@[b].hist@ == Seq::<
                        (i64, i64),
                    >::empty(),
            decreases nlevels - i,
        {
            let nrules = config.levels[i].consist.len();
            let mut row: Vec<ConsistWindow> = Vec::new();
            let mut j: usize = 0;
            while j < nrules
                invariant
                    j <= nrules,
                    i < nlevels,
                    nlevels == config.levels@.len(),
                    nrules == config.levels@[i as int].consist@.len(),
                    row@.len() == j,
                    forall|b: int|
                        0 <= b < j ==> (#[trigger] row@[b]).wf() && row@[b].dur
                            == config.levels@[i as int].consist@[b].spec_window_secs()
                            && row@[b].last == i64::MIN && row@[b].hist@ == Seq::<
                            (i64, i64),
                        >::empty(),
                decreases nrules - j,
            {
                let dur = config.levels[i].consist[j].window_secs();
                proof {
                    let rule = config.levels@[i as int].consist@[j as int];
                    assert((rule.interval as int) * (crate::config::spec_unit_seconds(rule.unit@)
                        as int) <= 4294967295int * 86400int) by (nonlinear_arith)
                        requires
                            rule.interval <= 4294967295u32,
                            crate::config::spec_unit_seconds(rule.unit@) <= 86400u32,
                    ;
                }
                row.push(ConsistWindow::new(dur));
                j += 1;
            }
            windows.push(row);
            i += 1;
        }
        WorkerInner {
            name,
            config,
            windows,
            wblist,
            modules,
            data: None,
            status: QCStatus::Init,
            flag: QCFlag::new(),
            last_seen: i64::MIN,
        }
    }

    /// Clears the status flag; flags never persist across readings.
    pub fn clean_flag(&mut self)
        ensures
            final(self).flag.bits == 0,
            final(self).name == old(self).name,
            final(self).config == old(self).config,
            final(self).windows == old(self).windows,
            final(self).wblist == old(self).wblist,
            final(self).modules == old(self).modules,
            final(self).data == old(self).data,
            final(self).status == old(self).status,
            final(self).last_seen == old(self).last_seen,
    {
        self.flag.clear_all();
    }
}

/// Whether level `lvl` fails on this sample, given the pre-evaluation
/// window state and the module verdicts that came back.
pub open spec fn spec_fails_at(
    config: QCConfig,
    wins: Seq<Vec<ConsistWindow>>,
    ts: i64,
    v0: DataValue,
    sibs: Seq<(String, DataType)>,
    verdicts: Seq<Vec<bool>>,
    lvl: int,
) -> bool {
    spec_level_fails(config.levels@[lvl], wins[lvl]@, ts, v0, sibs, verdicts[lvl]@)
}

/// Everything `qc_handle` promises of the worker's transition on one
/// sample, given the module verdicts that came back: the flag bits, the
/// stored reading, the window updates, the cursor movement and the
/// stop-on-error shape are an exact function of the prior state, the
/// sample and those verdicts.
pub open spec fn handle_post<M: QCModule>(
    pre: WorkerInner<M>,
    post: WorkerInner<M>,
    datetime: i64,
    value: DataValue,
    siblings: Seq<(String, DataType)>,
    verdicts: Seq<Vec<bool>>,
) -> bool {
    &&& post.name == pre.name
    &&& post.config == pre.config
    &&& post.status == pre.status
    &&& post.last_seen == datetime
    &&& post.wblist.inner == pre.wblist.inner
    &&& post.wblist.cursor == crate::timerange::spec_advance(
        pre.wblist.inner@,
        pre.wblist.cursor as int,
        datetime as int,
    )
    &&& pre.wblist.cursor <= post.wblist.cursor
    &&& ({
        let cfg = pre.config;
        let wins0 = pre.windows@;
        let blacked = crate::timerange::spec_blacklisted(pre.wblist, datetime as int);
        let nulled = crate::timerange::spec_nulled(pre.wblist, datetime as int, pre.name@);
        let v0 = if nulled {
            DataValue::NotANumber
        } else {
            value
        };
        let n = verdicts.len() as int;
        let errored = cfg.levels@[n - 1].errorflag && spec_fails_at(
            cfg,
            wins0,
            datetime,
            v0,
            siblings,
            verdicts,
            n - 1,
        );
        &&& 1 <= n <= cfg.levels@.len()
        &&& (forall|i: int|
            0 <= i < n ==> (#[trigger] verdicts[i])@.len() == cfg.levels@[i].module@.len())
        &&& (forall|i: int, j: int|
            0 <= i < n && 0 <= j < verdicts[i]@.len() && (#[trigger] cfg.levels@[i].module@[
                j
            ]).module_type is Unknown ==> verdicts[i]@[j])
        &&& (forall|i: int|
            0 <= i < n - 1 ==> !((#[trigger] cfg.levels@[i]).errorflag && spec_fails_at(
                cfg,
                wins0,
                datetime,
                v0,
                siblings,
                verdicts,
                i,
            )))
        &&& (n < cfg.levels@.len() ==> errored)
        &&& (forall|lvl: u64|
            lvl <= MAX_LEVEL ==> post.flag.spec_warning(lvl) == (lvl < n && spec_fails_at(
                cfg,
                wins0,
                datetime,
                v0,
                siblings,
                verdicts,
                lvl as int,
            )))
        &&& (forall|lvl: u64|
            lvl <= MAX_LEVEL ==> post.flag.spec_error(lvl) == (lvl < n && spec_fails_at(
                cfg,
                wins0,
                datetime,
                v0,
                siblings,
                verdicts,
                lvl as int,
            ) && cfg.levels@[lvl as int].errorflag))
        &&& post.flag.spec_invalid() == blacked
        &&& !bit_set(post.flag.bits, 63)
        &&& post.windows@.len() == wins0.len()
        &&& (forall|i: int|
            0 <= i < wins0.len() ==> (#[trigger] post.windows@[i])@.len() == wins0[i]@.len())
        &&& (forall|i: int, j: int|
            0 <= i < n && 0 <= j < wins0[i]@.len() ==> window_stepped(
                wins0[i]@[j],
                #[trigger] post.windows@[i]@[j],
                datetime,
                num64_of(v0),
            ))
        &&& (forall|i: int| n <= i < wins0.len() ==> #[trigger] post.windows@[i] == pre.windows@[i])
        &&& (post.data matches Some(d) && d.0 == datetime && d.1@ == (if errored {
            DataValue::Null
        } else {
            v0
        }))
    })
}

impl<M: QCModule> WorkerInner<M> {
    /// Evaluates one sample through the whole pipeline. The time-range
    /// override runs first: an active blacklist rule sets the sentinel
    /// invalid bit, and makes the value not-a-number when the rule
    /// targets this parameter. Then every configured level runs in
    /// ascending order; a failing level sets its warning bit, and a
    /// failing level with `errorflag` also sets its error bit, nulls
    /// the value and stops evaluation. The outcome is stored as the
    /// worker's latest reading. Module verdicts are returned: the flag
    /// and the stored value are an exact function of the sample, the
    /// prior state and those verdicts.
    #[verifier::loop_isolation(false)]
    #[verifier::rlimit(100)]
    #[verifier::spinoff_prover]
    pub fn qc_handle(&mut self, datetime: i64, data: DataType, siblings: &Vec<(String, DataType)>)
        -> (verdicts: Vec<Vec<bool>>)
        requires
            old(self).wf(),
            old(self).flag.bits == 0,
            datetime >= old(self).last_seen,
        ensures
            final(self).wf(),
            handle_post(*old(self), *final(self), datetime, data@, siblings@, verdicts@),
    {
        let ghost pre = *self;
        self.last_seen = datetime;
        let nm = self.name.clone();
        let (blacked, nulled) = self.wblist.apply(datetime, nm.as_str());
        let ghost wb1 = self.wblist;
        if blacked {
            self.flag.set_invalid();
        }
        let current: DataType = if nulled {
            DataType::NotANumber
        } else {
            data
        };
        let ghost v0 = current@;
        proof {
            assert forall|b: u64| b < 64 implies bit_set(self.flag.bits, b) == (b == INVALID_BIT
                && blacked) by {
                crate::flag::lemma_zero_bits(b);
                if blacked {
                    crate::flag::lemma_set_bit(0u64, INVALID_BIT, b);
                }
            }
        }
        let max_level = self.config.max_level();
        let mut verdicts: Vec<Vec<bool>> = Vec::new();
        let mut level: usize = 0;
        let mut aborted = false;
        while level <= max_level && !aborted
            invariant
                self.wf(),
                self.name == pre.name,
                self.config == pre.config,
                self.status == pre.status,
                self.data == pre.data,
                self.wblist == wb1,
                self.last_seen == datetime,
                level <= max_level + 1,
                verdicts@.len() == level,
                current@ == v0,
                self.windows@.len() == pre.windows@.len(),
                forall|i: int|
                    0 <= i < pre.windows@.len() ==> (#[trigger] self.windows@[i])@.len()
                        == pre.windows@[i]@.len(),
                forall|i: int|
                    level <= i < pre.windows@.len() ==> #[trigger] self.windows@[i]
                        == pre.windows@[i],
                forall|i: int, j: int|
                    0 <= i < level && 0 <= j < pre.windows@[i]@.len() ==> window_stepped(
                        pre.windows@[i]@[j],
                        #[trigger] self.windows@[i]@[j],
                        datetime,
                        num64_of(v0),
                    ),
                forall|i: int|
                    0 <= i < level ==> (#[trigger] verdicts@[i])@.len()
                        == pre.config.levels@[i].module@.len(),
                forall|i: int, j: int|
                    0 <= i < level && 0 <= j < verdicts@[i]@.len() && (#[trigger] pre.config.levels@[
                        i
                    ].module@[j]).module_type is Unknown ==> verdicts@[i]@[j],
                forall|i: int|
                    0 <= i < level && !(aborted && i == level - 1) ==> !((
                    #[trigger] pre.config.levels@[i]).errorflag && spec_fails_at(
                        pre.config,
                        pre.windows@,
                        datetime,
                        v0,
                        siblings@,
                        verdicts@,
                        i,
                    )),
                aborted ==> level >= 1 && pre.config.levels@[level - 1].errorflag && spec_fails_at(
                    pre.config,
                    pre.windows@,
                    datetime,
                    v0,
                    siblings@,
                    verdicts@,
                    level - 1,
                ),
                forall|lvl: u64|
                    lvl <= MAX_LEVEL ==> self.flag.spec_warning(lvl) == (lvl < level
                        && spec_fails_at(
                        pre.config,
                        pre.windows@,
                        datetime,
                        v0,
                        siblings@,
                        verdicts@,
                        lvl as int,
                    )),
                forall|lvl: u64|
                    lvl <= MAX_LEVEL ==> self.flag.spec_error(lvl) == (lvl < level
                        && spec_fails_at(
                        pre.config,
                        pre.windows@,
                        datetime,
                        v0,
                        siblings@,
                        verdicts@,
                        lvl as int,
                    ) && pre.config.levels@[lvl as int].errorflag),
                self.flag.spec_invalid() == blacked,
                !bit_set(self.flag.bits, 63),
            decreases max_level + 1 - level,
        {
            let ghost row0 = self.windows@[level as int];
            proof {
                assert(self.windows@[level as int] == pre.windows@[level as int]);
            }
            let (failed, vlevel) = eval_level(
                &self.config.levels[level],
                &mut self.windows[level],
                &mut self.modules[level],
                level,
                datetime,
                &current,
                siblings,
            );
            let ghost verdicts0 = verdicts@;
            verdicts.push(vlevel);
            proof {
                assert(verdicts@[level as int] == vlevel);
                assert(forall|i: int| 0 <= i < level ==> verdicts@[i] == verdicts0[i]);
                assert(failed == spec_fails_at(
                    pre.config,
                    pre.windows@,
                    datetime,
                    v0,
                    siblings@,
                    verdicts@,
                    level as int,
                ));
                assert forall|l2: int| 0 <= l2 < level implies spec_fails_at(
                    pre.config,
                    pre.windows@,
                    datetime,
                    v0,
                    siblings@,
                    verdicts@,
                    l2,
                ) == spec_fails_at(
                    pre.config,
                    pre.windows@,
                    datetime,
                    v0,
                    siblings@,
                    verdicts0,
                    l2,
                ) by {
                    assert(verdicts@[l2] == verdicts0[l2]);
                }
            }
            let errorflag = self.config.levels[level].errorflag;
            let ghost flag_entry = self.flag;
            let ghost bits_entry = self.flag.bits;
            if failed {
                self.flag.set_warning(level);
                if errorflag {
                    self.flag.set_error(level);
                    aborted = true;
                }
                proof {
                    assert forall|b: u64| b < 64 implies bit_set(self.flag.bits, b) == (bit_set(
                        bits_entry,
                        b,
                    ) || b == level as u64 || (errorflag && b == (ERROR_SHIFT + level as u64)))
                        by {
                        if errorflag {
                            crate::flag::lemma_set_bit(
                                (bits_entry | (1u64 << (level as u64))) as u64,
                                (ERROR_SHIFT + level as u64) as u64,
                                b,
                            );
                        }
                        crate::flag::lemma_set_bit(bits_entry, level as u64, b);
                    }
                }
            }
            proof {
                assert(level as u64 <= MAX_LEVEL);
                assert forall|lvl: u64| lvl <= MAX_LEVEL implies self.flag.spec_warning(lvl) == (
                lvl < level + 1 && spec_fails_at(
                    pre.config,
                    pre.windows@,
                    datetime,
                    v0,
                    siblings@,
                    verdicts@,
                    lvl as int,
                )) by {
                    let b: u64 = lvl;
                    assert(flag_entry.spec_warning(lvl) == (lvl < level && spec_fails_at(
                        pre.config,
                        pre.windows@,
                        datetime,
                        v0,
                        siblings@,
                        verdicts0,
                        lvl as int,
                    )));
                    assert(flag_entry.spec_warning(lvl) == bit_set(bits_entry, b));
                    assert(self.flag.spec_warning(lvl) == bit_set(self.flag.bits, b));
                    if failed {
                        assert(bit_set(self.flag.bits, b) == (bit_set(bits_entry, b) || b
                            == level as u64 || (errorflag && b == (ERROR_SHIFT + level as u64))));
                    } else {
                        assert(self.flag.bits == bits_entry);
                    }
                }
                assert forall|lvl: u64| lvl <= MAX_LEVEL implies self.flag.spec_error(lvl) == (lvl
                    < level + 1 && spec_fails_at(
                    pre.config,
                    pre.windows@,
                    datetime,
                    v0,
                    siblings@,
                    verdicts@,
                    lvl as int,
                ) && pre.config.levels@[lvl as int].errorflag) by {
                    let b: u64 = (ERROR_SHIFT + lvl) as u64;
                    assert(flag_entry.spec_error(lvl) == (lvl < level && spec_fails_at(
                        pre.config,
                        pre.windows@,
                        datetime,
                        v0,
                        siblings@,
                        verdicts0,
                        lvl as int,
                    ) && pre.config.levels@[lvl as int].errorflag));
                    assert(flag_entry.spec_error(lvl) == bit_set(bits_entry, b));
                    assert(self.flag.spec_error(lvl) == bit_set(self.flag.bits, b));
                    if failed {
                        assert(bit_set(self.flag.bits, b) == (bit_set(bits_entry, b) || b
                            == level as u64 || (errorflag && b == (ERROR_SHIFT + level as u64))));
                        assert(b != level as u64);
                        assert((b == (ERROR_SHIFT + level as u64)) == (lvl == level as u64));
                    } else {
                        assert(self.flag.bits == bits_entry);
                    }
                }
                assert(bit_set(self.flag.bits, INVALID_BIT) == blacked) by {
                    assert(flag_entry.spec_invalid() == blacked);
                    if failed {
                        assert(bit_set(self.flag.bits, INVALID_BIT) == (bit_set(
                            bits_entry,
                            INVALID_BIT,
                        ) || INVALID_BIT == level as u64 || (errorflag && INVALID_BIT == (
                        ERROR_SHIFT + level as u64))));
                    }
                }
                assert(!bit_set(self.flag.bits, 63)) by {
                    if failed {
                        assert(bit_set(self.flag.bits, 63) == (bit_set(bits_entry, 63) || 63
                            == level as u64 || (errorflag && 63 == (ERROR_SHIFT + level
                            as u64))));
                    }
                }
            }
            level += 1;
        }
        let stored: DataType = if aborted {
            DataType::Null
        } else {
            current
        };
        self.data = Some((datetime, stored));
        verdicts
    }
}

/// Re-running the pipeline with identical configuration, window state,
/// time-range state and sample — and the same module verdicts —
/// reproduces the identical flag word and stored value.
pub proof fn lemma_submit_reproducible<M: QCModule>(
    pre1: WorkerInner<M>,
    post1: WorkerInner<M>,
    pre2: WorkerInner<M>,
    post2: WorkerInner<M>,
    datetime: i64,
    value: DataValue,
    siblings: Seq<(String, DataType)>,
    verdicts: Seq<Vec<bool>>,
)
    requires
        handle_post(pre1, post1, datetime, value, siblings, verdicts),
        handle_post(pre2, post2, datetime, value, siblings, verdicts),
        pre1.config == pre2.config,
        pre1.name@ == pre2.name@,
        pre1.windows@ == pre2.windows@,
        pre1.wblist == pre2.wblist,
    ensures
        post1.flag == post2.flag,
        (post1.data matches Some(d1) && (post2.data matches Some(d2) && d1.0 == d2.0 && d1.1@
            == d2.1@)),
{
    assert forall|b: u64| b < 64 implies bit_set(post1.flag.bits, b) == bit_set(
        post2.flag.bits,
        b,
    ) by {
        if b <= MAX_LEVEL {
            assert(post1.flag.spec_warning(b) == post2.flag.spec_warning(b));
        } else if b == INVALID_BIT {
            assert(post1.flag.spec_invalid() == post2.flag.spec_invalid());
        } else if b == 63 {
            assert(!bit_set(post1.flag.bits, 63) && !bit_set(post2.flag.bits, 63));
        } else {
            let lvl = (b - ERROR_SHIFT) as u64;
            assert(lvl <= MAX_LEVEL);
            assert(post1.flag.spec_error(lvl) == post2.flag.spec_error(lvl));
            assert((ERROR_SHIFT + lvl) as u64 == b);
        }
    }
    crate::flag::lemma_bits_determine(post1.flag.bits, post2.flag.bits);
}

/// Index of the worker that owns a parameter name, if any.
pub open spec fn spec_find_worker<M: QCModule>(map: Seq<WorkerInner<M>>, name: Seq<char>) -> Option<
    int,
>
    decreases map.len(),
{
    if map.len() == 0 {
        Option::None
    } else if map[0].name@ == name {
        Some(0int)
    } else {
        match spec_find_worker(map.drop_first(), name) {
            Some(i) => Some(i + 1),
            Option::None => Option::None,
        }
    }
}

/// What one submission did.
pub enum AppendResult {
    /// No worker owns this parameter; nothing changed.
    Unknown,
    /// The sample is older than one the worker has seen; rejected
    /// before the pipeline, nothing changed.
    Rejected,
    /// The pipeline ran; these module verdicts came back, per level.
    Evaluated(Vec<Vec<bool>>),
}

/// The registry of per-parameter workers.
pub struct QCworker<M: QCModule> {
    pub map: Vec<WorkerInner<M>>,
    pub database: Option<String>,
}

impl<M: QCModule> QCworker<M> {
    /// Every worker is well-formed and owns a distinct parameter name.
    pub open spec fn wf(self) -> bool {
        &&& (forall|i: int| 0 <= i < self.map@.len() ==> (#[trigger] self.map@[i]).wf())
        &&& (forall|i: int, j: int|
            0 <= i < j < self.map@.len() ==> self.map@[i].name@ != self.map@[j].name@)
    }

    /// An empty registry.
    pub fn new() -> (r: QCworker<M>)
        ensures
            r.wf(),
            r.map@.len() == 0,
            r.database is None,
    {
        QCworker { map: Vec::new(), database: None }
    }

    /// Index of the worker that owns `target`, if any.
    fn find(&self, target: &str) -> (r: Option<usize>)
        ensures
            match r {
                Some(i) => i < self.map@.len() && spec_find_worker(self.map@, target@) == Some(
                    i as int,
                ),
                Option::None => spec_find_worker(self.map@, target@) is None,
            },
    {
        let n = self.map.len();
        let mut i: usize = 0;
        proof {
            assert(self.map@.skip(0) =~= self.map@);
        }
        while i < n
            invariant
                i <= n,
                n == self.map@.len(),
                (match spec_find_worker(self.map@.skip(i as int), target@) {
                    Some(p) => spec_find_worker(self.map@, target@) == Some(p + i),
                    Option::None => spec_find_worker(self.map@, target@) is None,
                }),
            decreases n - i,
        {
            let ghost rest = self.map@.skip(i as int);
            proof {
                assert(rest[0] == self.map@[i as int]);
                assert(rest.drop_first() =~= self.map@.skip(i as int + 1));
            }
            if crate::textutil::string_eq_str(self.map[i].name.as_str(), target) {
                return Some(i);
            }
            i += 1;
        }
        proof {
            assert(self.map@.skip(n as int) =~= Seq::<WorkerInner<M>>::empty());
        }
        None
    }

    /// Adds a worker for a parameter no present worker owns; refuses a
    /// duplicate name and leaves the registry unchanged.
    pub fn register(&mut self, w: WorkerInner<M>) -> (r: bool)
        requires
            old(self).wf(),
            w.wf(),
        ensures
            final(self).wf(),
            final(self).database == old(self).database,
            r == (spec_find_worker(old(self).map@, w.name@) is None),
            r ==> final(self).map@ == old(self).map@.push(w),
            !r ==> final(self).map@ == old(self).map@,
    {
        match self.find(w.name.as_str()) {
            Some(_) => {
                proof {
                    lemma_find_worker_witness(self.map@, w.name@);
                }
                false
            },
            Option::None => {
                proof {
                    lemma_find_worker_absent(self.map@, w.name@);
                }
                let ghost before = self.map@;
                self.map.push(w);
                proof {
                    assert forall|i: int, j: int| 0 <= i < j < self.map@.len() implies
                        self.map@[i].name@ != self.map@[j].name@ by {
                        if j < before.len() {
                            assert(self.map@[i] == before[i]);
                            assert(self.map@[j] == before[j]);
                        } else {
                            assert(self.map@[j] == w);
                            assert(self.map@[i] == before[i]);
                        }
                    }
                }
                true
            },
        }
    }

    /// Stores where reports should be persisted.
    pub fn set_database(&mut self, path: &str)
        ensures
            final(self).map == old(self).map,
            (final(self).database matches Some(p) && p@ == path@),
    {
        self.database = Some(path.to_owned());
    }

    /// Moves one parameter's worker to a lifecycle state; a name no
    /// worker owns changes nothing.
    pub fn change_status(&mut self, target: &str, status: QCStatus)
        requires
            old(self).wf(),
        ensures
            final(self).wf(),
            final(self).database == old(self).database,
            final(self).map@.len() == old(self).map@.len(),
            (match spec_find_worker(old(self).map@, target@) {
                Some(i) => (forall|k: int|
                    0 <= k < old(self).map@.len() && k != i ==> final(self).map@[k] == old(
                        self,
                    ).map@[k]) && final(self).map@[i].status == status && final(self).map@[i]
                    == WorkerInner { status, ..old(self).map@[i] },
                Option::None => final(self).map@ == old(self).map@,
            }),
    {
        match self.find(target) {
            Some(i) => {
                let w = &mut self.map[i];
                w.status = status;
                proof {
                    assert forall|a: int, b: int| 0 <= a < b < self.map@.len() implies
                        self.map@[a].name@ != self.map@[b].name@ by {
                        assert(old(self).map@[a].name@ != old(self).map@[b].name@);
                    }
                }
            },
            Option::None => {},
        }
    }
}

/// A found index names a worker with that name.
proof fn lemma_find_worker_witness<M: QCModule>(map: Seq<WorkerInner<M>>, name: Seq<char>)
    ensures
        (spec_find_worker(map, name) matches Some(i) ==> 0 <= i < map.len() && map[i].name@
            == name),
    decreases map.len(),
{
    if map.len() > 0 && map[0].name@ != name {
        lemma_find_worker_absent(map, name);
        lemma_find_worker_witness(map.drop_first(), name);
    }
}

/// An absent name matches no worker.
proof fn lemma_find_worker_absent<M: QCModule>(map: Seq<WorkerInner<M>>, name: Seq<char>)
    ensures
        spec_find_worker(map, name) is None ==> forall|i: int|
            0 <= i < map.len() ==> (#[trigger] map[i]).name@ != name,
    decreases map.len(),
{
    if map.len() > 0 {
        lemma_find_worker_absent(map.drop_first(), name);
        if spec_find_worker(map, name) is None {
            assert forall|i: int| 0 <= i < map.len() implies (#[trigger] map[i]).name@ != name by {
                if i > 0 {
                    assert(map.drop_first()[i - 1] == map[i]);
                }
            }
        }
    }
}

/// The report rows the registry yields: one per worker that has
/// evaluated a reading, in registry order — its name, timestamp, value
/// and flag word.
pub open spec fn spec_report<M: QCModule>(map: Seq<WorkerInner<M>>) -> Seq<
    (Seq<char>, (i64, DataValue, u64)),
>
    decreases map.len(),
{
    if map.len() == 0 {
        Seq::empty()
    } else {
        let rest = spec_report(map.drop_first());
        match map[0].data {
            Some(d) => seq![(map[0].name@, (d.0, d.1@, map[0].flag.bits))] + rest,
            Option::None => rest,
        }
    }
}

impl<M: QCModule> QCworker<M> {
    /// Submits one sample to the worker that owns `target`: clears its
    /// flag and runs the pipeline. A name no worker owns, or a sample
    /// older than one already seen, is reported and changes nothing.
    pub fn append(&mut self, target: &str, datetime: i64, data: DataType, siblings: &Vec<
        (String, DataType),
    >) -> (r: AppendResult)
        requires
            old(self).wf(),
        ensures
            final(self).wf(),
            final(self).database == old(self).database,
            final(self).map@.len() == old(self).map@.len(),
            (match r {
                AppendResult::Unknown => spec_find_worker(old(self).map@, target@) is None
                    && final(self).map@ == old(self).map@,
                AppendResult::Rejected => (spec_find_worker(old(self).map@, target@) matches Some(i)
                    && datetime < old(self).map@[i].last_seen
                    && final(self).map@ == old(self).map@),
                AppendResult::Evaluated(v) => (spec_find_worker(old(self).map@, target@) matches
                    Some(i) && datetime >= old(self).map@[i].last_seen && (forall|k: int|
                    0 <= k < old(self).map@.len() && k != i
                        ==> final(self).map@[k] == old(self).map@[k]) && handle_post(
                    WorkerInner { flag: QCFlag { bits: 0u64 }, ..old(self).map@[i] },
                    final(self).map@[i],
                    datetime,
                    data@,
                    siblings@,
                    v@,
                )),
            }),
    {
        match self.find(target) {
            Option::None => AppendResult::Unknown,
            Some(i) => {
                if datetime < self.map[i].last_seen {
                    return AppendResult::Rejected;
                }
                let ghost before = self.map@;
                let w = &mut self.map[i];
                w.clean_flag();
                let verdicts = w.qc_handle(datetime, data, siblings);
                proof {
                    assert forall|a: int, b: int| 0 <= a < b < self.map@.len() implies
                        self.map@[a].name@ != self.map@[b].name@ by {
                        assert(before[a].name@ != before[b].name@);
                    }
                }
                AppendResult::Evaluated(verdicts)
            },
        }
    }

    /// The latest reading and flag of every worker that has one:
    /// `(name, (timestamp, value, flag))`, in registry order.
    #[verifier::loop_isolation(false)]
    pub fn get_report(&self) -> (r: Vec<(String, (i64, DataType, QCFlag))>)
        ensures
            r@.map_values(
                |e: (String, (i64, DataType, QCFlag))| (e.0@, (e.1.0, e.1.1@, e.1.2.bits)),
            ) == spec_report(self.map@),
    {
        let ghost f = |e: (String, (i64, DataType, QCFlag))| (e.0@, (e.1.0, e.1.1@, e.1.2.bits));
        let n = self.map.len();
        let mut out: Vec<(String, (i64, DataType, QCFlag))> = Vec::new();
        let mut i: usize = 0;
        proof {
            assert(self.map@.skip(0) =~= self.map@);
            assert(out@.map_values(f) =~= Seq::<(Seq<char>, (i64, DataValue, u64))>::empty());
            assert(out@.map_values(f) + spec_report(self.map@) =~= spec_report(self.map@));
        }
        while i < n
            invariant
                i <= n,
                n == self.map@.len(),
                out@.map_values(f) + spec_report(self.map@.skip(i as int)) == spec_report(
                    self.map@,
                ),
            decreases n - i,
        {
            let ghost rest = self.map@.skip(i as int);
            proof {
                assert(rest[0] == self.map@[i as int]);
                assert(rest.drop_first() =~= self.map@.skip(i as int + 1));
            }
            let wr = &self.map[i];
            if let Some(d) = &wr.data {
                let ghost prev = out@.map_values(f);
                out.push((wr.name.clone(), (d.0, d.1.clone(), wr.flag)));
                proof {
                    let item = (self.map@[i as int].name@, (
                        d.0,
                        d.1@,
                        self.map@[i as int].flag.bits,
                    ));
                    assert(out@.map_values(f) =~= prev.push(item));
                    assert(spec_report(rest) == seq![item] + spec_report(rest.drop_first()));
                    assert(prev.push(item) + spec_report(rest.drop_first()) =~= prev + (
                    seq![item] + spec_report(rest.drop_first())));
                }
            }
            i += 1;
        }
        proof {
            assert(self.map@.skip(n as int) =~= Seq::<WorkerInner<M>>::empty());
            assert(out@.map_values(f) + Seq::<(Seq<char>, (i64, DataValue, u64))>::empty()
                =~= out@.map_values(f));
        }
        out
    }
}

/// The timestamp a decoded row carries: its first datetime entry, or
/// the caller's fallback when it has none.
pub open spec fn spec_row_datetime(row: Seq<(String, DataType)>, fallback: i64) -> i64
    decreases row.len(),
{
    if row.len() == 0 {
        fallback
    } else {
        match row[0].1 {
            DataType::Datetime(t) => t,
            _ => spec_row_datetime(row.drop_first(), fallback),
        }
    }
}

/// Picks the timestamp of a decoded row: the first datetime entry it
/// carries, or `fallback` (the arrival time) when it has none.
pub fn row_datetime(row: &Vec<(String, DataType)>, fallback: i64) -> (r: i64)
    ensures
        r == spec_row_datetime(row@, fallback),
{
    let n = row.len();
    let mut i: usize = 0;
    proof {
        assert(row@.skip(0) =~= row@);
    }
    while i < n
        invariant
            i <= n,
            n == row@.len(),
            spec_row_datetime(row@, fallback) == spec_row_datetime(row@.skip(i as int), fallback),
        decreases n - i,
    {
        let ghost rest = row@.skip(i as int);
        proof {
            assert(rest[0] == row@[i as int]);
            assert(rest.drop_first() =~= row@.skip(i as int + 1));
        }
        if let DataType::Datetime(t) = row[i].1 {
            return t;
        }
        i += 1;
    }
    proof {
        assert(row@.skip(n as int) =~= Seq::<(String, DataType)>::empty());
    }
    fallback
}

} // verus!
