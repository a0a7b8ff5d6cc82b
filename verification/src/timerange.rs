//! Blacklist/whitelist invalidation of readings by time window.
//!
//! Raw rule entries are `[start, end, parameter...]` with the two
//! timestamps as text. A loaded rule set is sorted ascending by start
//! time and scanned once per stream with a cursor that only advances,
//! assuming samples arrive in non-decreasing time order. A blacklist rule
//! covering a sample's time marks the reading invalid and nulls the value
//! of every targeted parameter; whitelist rules are parsed into the same
//! structure but deliberately carry no enforcement action.

use vstd::prelude::*;

use crate::textutil::string_eq_str;

verus! {

/// What `chrono::NaiveDateTime::parse_from_str` with format
/// `%Y-%m-%d %H:%M:%S` yields for a text, as epoch seconds: a function
/// of the text alone.
pub uninterp spec fn spec_parse_datetime(s: Seq<char>) -> Option<i64>;

/// Relies on `chrono::NaiveDateTime::parse_from_str` with the fixed
/// format `%Y-%m-%d %H:%M:%S`, whose outcome depends on the text alone;
/// a parsed datetime is carried to epoch seconds through
/// `NaiveDateTime::and_utc` and `DateTime::timestamp`.
#[verifier::external_body]
fn parse_datetime(s: &str) -> (r: Option<i64>)
    ensures
        r == spec_parse_datetime(s@),
{
    match chrono::NaiveDateTime::parse_from_str(s, "%Y-%m-%d %H:%M:%S") {
        Ok(dt) => Some(dt.and_utc().timestamp()),
        Err(_) => None,
    }
}

/// Why a time-range rule set was rejected at load time.
#[derive(Debug, Clone, Copy, PartialEq, Eq, Structural)]
pub enum ConfigError {
    /// A raw rule holds fewer than the two timestamps.
    MalformedRule,
    /// A timestamp text does not parse.
    MalformedDatetime,
}

/// Raw blacklist section: each entry `[start, end, parameter...]`.
#[derive(Debug)]
pub struct BlackListInner {
    pub datetimelst: Option<Vec<Vec<String>>>,
}

/// Raw whitelist section, same shape as the blacklist.
#[derive(Debug)]
pub struct WhiteListInner {
    pub datetimelst: Option<Vec<Vec<String>>>,
}

/// The raw, already-decoded time-range configuration.
#[derive(Debug)]
pub struct QCL0WBList {
    pub whitelist: Option<WhiteListInner>,
    pub blacklist: Option<BlackListInner>,
}

/// One loaded rule: an inclusive time range, its kind, and the
/// parameters it names.
#[derive(Debug)]
pub struct TimeRangeRule {
    pub starttime: i64,
    pub endtime: i64,
    pub blacklist: bool,
    pub parameters: Vec<String>,
}

/// Mathematical image of a loaded rule.
pub ghost struct RuleV {
    pub starttime: i64,
    pub endtime: i64,
    pub blacklist: bool,
    pub parameters: Seq<Seq<char>>,
}

impl View for TimeRangeRule {
    type V = RuleV;

    open spec fn view(&self) -> RuleV {
        RuleV {
            starttime: self.starttime,
            endtime: self.endtime,
            blacklist: self.blacklist,
            parameters: self.parameters@.map_values(|s: String| s@),
        }
    }
}

/// The rules a raw section yields, in order, or the first reason it is
/// rejected.
pub open spec fn spec_build(lst: Seq<Vec<String>>, blacklist: bool) -> Result<
    Seq<RuleV>,
    ConfigError,
>
    decreases lst.len(),
{
    if lst.len() == 0 {
        Ok(Seq::empty())
    } else {
        let raw = lst[0]@;
        if raw.len() < 2 {
            Err(ConfigError::MalformedRule)
        } else {
            match spec_parse_datetime(raw[0]@) {
                Some(st) => match spec_parse_datetime(raw[1]@) {
                    Some(et) => match spec_build(lst.drop_first(), blacklist) {
                        Ok(rest) => Ok(
                            seq![
                                RuleV {
                                    starttime: st,
                                    endtime: et,
                                    blacklist,
                                    parameters: raw.skip(2).map_values(|s: String| s@),
                                },
                            ] + rest,
                        ),
                        Err(e) => Err(e),
                    },
                    Option::None => Err(ConfigError::MalformedDatetime),
                },
                Option::None => Err(ConfigError::MalformedDatetime),
            }
        }
    }
}

/// The raw whitelist entries of a configuration.
pub open spec fn spec_white(config: QCL0WBList) -> Seq<Vec<String>> {
    match config.whitelist {
        Some(w) => match w.datetimelst {
            Some(l) => l@,
            Option::None => Seq::empty(),
        },
        Option::None => Seq::empty(),
    }
}

/// The raw blacklist entries of a configuration.
pub open spec fn spec_black(config: QCL0WBList) -> Seq<Vec<String>> {
    match config.blacklist {
        Some(b) => match b.datetimelst {
            Some(l) => l@,
            Option::None => Seq::empty(),
        },
        Option::None => Seq::empty(),
    }
}

/// Builds the rules of one raw section onto `out`; on the first bad
/// entry reports why and leaves the partial contents to be discarded.
fn build_rules(lst: &Vec<Vec<String>>, blacklist: bool, out: &mut Vec<TimeRangeRule>) -> (r: Option<
    ConfigError,
>)
    ensures
        match r {
            Option::None => spec_build(lst@, blacklist) matches Ok(built) && final(out)@.map_values(
                |t: TimeRangeRule| t@,
            ) == old(out)@.map_values(|t: TimeRangeRule| t@) + built,
            Some(e) => spec_build(lst@, blacklist) == Err::<Seq<RuleV>, ConfigError>(e),
        },
{
    let ghost orig = out@.map_values(|t: TimeRangeRule| t@);
    let ghost mut acc: Seq<RuleV> = Seq::empty();
    let n = lst.len();
    let mut i: usize = 0;
    proof {
        assert(lst@.skip(0) =~= lst@);
        assert(orig + acc =~= orig);
    }
    while i < n
        invariant
            i <= n,
            n == lst@.len(),
            out@.map_values(|t: TimeRangeRule| t@) == orig + acc,
            spec_build(lst@, blacklist) == (match spec_build(lst@.skip(i as int), blacklist) {
                Ok(rest) => Ok::<Seq<RuleV>, ConfigError>(acc + rest),
                Err(e) => Err(e),
            }),
        decreases n - i,
    {
        let ghost rest_lst = lst@.skip(i as int);
        proof {
            assert(rest_lst[0] == lst@[i as int]);
            assert(rest_lst.drop_first() =~= lst@.skip(i as int + 1));
        }
        let raw: &Vec<String> = &lst[i];
        if raw.len() < 2 {
            return Some(ConfigError::MalformedRule);
        }
        let st = match parse_datetime(raw[0].as_str()) {
            Some(st) => st,
            Option::None => {
                return Some(ConfigError::MalformedDatetime);
            },
        };
        let et = match parse_datetime(raw[1].as_str()) {
            Some(et) => et,
            Option::None => {
                return Some(ConfigError::MalformedDatetime);
            },
        };
        let mut params: Vec<String> = Vec::new();
        let mut k: usize = 2;
        while k < raw.len()
            invariant
                2 <= k <= raw.len(),
                params@.map_values(|s: String| s@) == raw@.subrange(2, k as int).map_values(
                    |s: String| s@,
                ),
            decreases raw.len() - k,
        {
            let ghost before = params@.map_values(|s: String| s@);
            params.push(raw[k].clone());
            proof {
                assert(params@.map_values(|s: String| s@) =~= before.push(raw@[k as int]@));
                assert(raw@.subrange(2, k as int + 1).map_values(|s: String| s@) =~= raw@.subrange(
                    2,
                    k as int,
                ).map_values(|s: String| s@).push(raw@[k as int]@));
            }
            k += 1;
        }
        let rule = TimeRangeRule { starttime: st, endtime: et, blacklist, parameters: params };
        let ghost rv = RuleV {
            starttime: st,
            endtime: et,
            blacklist,
            parameters: raw@.skip(2).map_values(|s: String| s@),
        };
        proof {
            assert(raw@.subrange(2, raw@.len() as int) =~= raw@.skip(2));
            assert(rule@ =~= rv);
        }
        let ghost before_out = out@.map_values(|t: TimeRangeRule| t@);
        out.push(rule);
        proof {
            assert(out@.map_values(|t: TimeRangeRule| t@) =~= before_out.push(rv));
            assert(orig + acc.push(rv) =~= (orig + acc).push(rv));
            assert(rest_lst.len() > 0);
            assert(rest_lst[0]@ == raw@);
            assert(raw@.len() >= 2);
            assert(spec_parse_datetime(raw@[0]@) == Some(st));
            assert(spec_parse_datetime(raw@[1]@) == Some(et));
            let acc1 = acc.push(rv);
            match spec_build(lst@.skip(i as int + 1), blacklist) {
                Ok(rest) => {
                    assert(spec_build(rest_lst, blacklist) == Ok::<Seq<RuleV>, ConfigError>(
                        seq![rv] + rest,
                    ));
                    assert(acc1 + rest =~= acc + (seq![rv] + rest));
                    assert(spec_build(lst@, blacklist) == Ok::<Seq<RuleV>, ConfigError>(
                        acc1 + rest,
                    ));
                },
                Err(e) => {
                    assert(spec_build(rest_lst, blacklist) == Err::<Seq<RuleV>, ConfigError>(e));
                },
            }
            acc = acc1;
        }
        i += 1;
    }
    proof {
        assert(lst@.skip(n as int) =~= Seq::<Vec<String>>::empty());
        assert(acc + Seq::<RuleV>::empty() =~= acc);
    }
    None
}

/// Rules are ordered by ascending start time.
pub open spec fn sorted_by_start(rules: Seq<TimeRangeRule>) -> bool {
    forall|i: int, j: int|
        0 <= i < j < rules.len() ==> rules[i].starttime <= rules[j].starttime
}

/// Sorts rules ascending by start time, keeping the same rules.
#[verifier::loop_isolation(false)]
fn sort_rules(input: Vec<TimeRangeRule>) -> (out: Vec<TimeRangeRule>)
    ensures
        sorted_by_start(out@),
        out@.map_values(|t: TimeRangeRule| t@).to_multiset() == input@.map_values(
            |t: TimeRangeRule| t@,
        ).to_multiset(),
{
    broadcast use vstd::seq_lib::group_to_multiset_ensures;
    broadcast use vstd::multiset::group_multiset_axioms;

    let ghost whole = input@.map_values(|t: TimeRangeRule| t@);
    let mut rest = input;
    let mut out: Vec<TimeRangeRule> = Vec::new();
    proof {
        assert(out@.map_values(|t: TimeRangeRule| t@) =~= Seq::<RuleV>::empty());
        assert(out@.map_values(|t: TimeRangeRule| t@).to_multiset().add(
            rest@.map_values(|t: TimeRangeRule| t@).to_multiset(),
        ) =~= whole.to_multiset());
    }
    while rest.len() > 0
        invariant
            sorted_by_start(out@),
            out@.map_values(|t: TimeRangeRule| t@).to_multiset().add(
                rest@.map_values(|t: TimeRangeRule| t@).to_multiset(),
            ) == whole.to_multiset(),
        decreases rest@.len(),
    {
        let ghost rest_v = rest@.map_values(|t: TimeRangeRule| t@);
        let x = rest.remove(0);
        proof {
            assert(rest_v.len() > 0);
            assert(rest_v[0] == x@);
            assert(rest_v.contains(x@));
            assert(rest@.map_values(|t: TimeRangeRule| t@) =~= rest_v.remove(0));
            assert(rest_v.remove(0).to_multiset() =~= rest_v.to_multiset().remove(rest_v[0]));
            assert(rest_v.to_multiset().count(x@) > 0);
        }
        let mut pos: usize = 0;
        while pos < out.len() && out[pos].starttime <= x.starttime
            invariant
                pos <= out@.len(),
                forall|k: int| 0 <= k < pos ==> out@[k].starttime <= x.starttime,
            decreases out@.len() - pos,
        {
            pos += 1;
        }
        let ghost out_v = out@.map_values(|t: TimeRangeRule| t@);
        let ghost old_out = out@;
        out.insert(pos, x);
        proof {
            assert(out@.map_values(|t: TimeRangeRule| t@) =~= out_v.insert(pos as int, x@));
            assert(out_v.insert(pos as int, x@).to_multiset() =~= out_v.to_multiset().insert(x@));
            assert forall|i: int, j: int| 0 <= i < j < out@.len() implies
                out@[i].starttime <= out@[j].starttime by {
                if i < pos && j > pos {
                    assert(out@[i] == old_out[i]);
                    assert(out@[j] == old_out[j - 1]);
                } else if i == pos && j > pos {
                    assert(out@[j] == old_out[j - 1]);
                    assert(old_out[j - 1].starttime > x.starttime || j - 1 < pos);
                } else if j == pos {
                    assert(out@[i] == old_out[i]);
                }
            }
            assert(out@.map_values(|t: TimeRangeRule| t@).to_multiset().add(
                rest@.map_values(|t: TimeRangeRule| t@).to_multiset(),
            ) =~= whole.to_multiset());
        }
    }
    proof {
        assert(rest@.map_values(|t: TimeRangeRule| t@) =~= Seq::<RuleV>::empty());
        assert(out@.map_values(|t: TimeRangeRule| t@).to_multiset().add(
            Seq::<RuleV>::empty().to_multiset(),
        ) =~= out@.map_values(|t: TimeRangeRule| t@).to_multiset());
    }
    out
}

/// A loaded time-range rule set with its scan cursor.
#[derive(Debug)]
pub struct WBList {
    pub inner: Vec<TimeRangeRule>,
    pub cursor: usize,
}

/// Where the cursor stands after skipping every rule that ended before
/// `ts`: the first candidate from `c` on whose end is not yet past.
pub open spec fn spec_advance(rules: Seq<TimeRangeRule>, c: int, ts: int) -> int
    decreases rules.len() - c,
{
    if c < rules.len() && rules[c].endtime < ts {
        spec_advance(rules, c + 1, ts)
    } else {
        c
    }
}

/// The rule targets the parameter: it lists its name, or lists `all`.
/// A listed `none` targets nothing, by the sentinel's meaning.
pub open spec fn spec_targets(params: Seq<String>, name: Seq<char>) -> bool {
    exists|i: int|
        0 <= i < params.len() && (params[i]@ == "all"@ || (params[i]@ == name && name
            != "none"@))
}

impl WBList {
    /// The rule list is sorted and the cursor stays inside it.
    pub open spec fn wf(self) -> bool {
        &&& sorted_by_start(self.inner@)
        &&& self.cursor <= self.inner@.len()
    }

    /// An empty rule set: no rule ever applies.
    pub fn empty() -> (r: WBList)
        ensures
            r.wf(),
            r.inner@.len() == 0,
            r.cursor == 0,
    {
        WBList { inner: Vec::new(), cursor: 0 }
    }

    /// Loads a rule set from its raw form: every timestamp must parse
    /// and every entry must hold at least the two timestamps, else the
    /// whole set is rejected, whitelist entries first. The loaded rules
    /// are exactly the raw ones, sorted ascending by start time.
    pub fn new(config: QCL0WBList) -> (r: Result<WBList, ConfigError>)
        ensures
            ({
                let wl = spec_build(spec_white(config), false);
                let bl = spec_build(spec_black(config), true);
                match r {
                    Ok(w) => wl matches Ok(wrules) && bl matches Ok(brules) && w.wf() && w.cursor
                        == 0 && w.inner@.map_values(|t: TimeRangeRule| t@).to_multiset() == (wrules
                        + brules).to_multiset(),
                    Err(e) => (wl matches Err(e1) && e == e1) || (wl is Ok && (bl matches Err(e2)
                        && e == e2)),
                }
            }),
    {
        broadcast use vstd::seq_lib::group_to_multiset_ensures;

        let mut rules: Vec<TimeRangeRule> = Vec::new();
        if let Some(w) = &config.whitelist {
            if let Some(l) = &w.datetimelst {
                if let Some(e) = build_rules(l, false, &mut rules) {
                    return Err(e);
                }
            }
        }
        let ghost white_part = rules@.map_values(|t: TimeRangeRule| t@);
        proof {
            assert(spec_build(spec_white(config), false) == Ok::<Seq<RuleV>, ConfigError>(
                white_part,
            )) by {
                if spec_white(config).len() == 0 {
                    assert(white_part =~= Seq::<RuleV>::empty());
                } else {
                    assert(Seq::<RuleV>::empty() + spec_build(
                        spec_white(config),
                        false,
                    )->Ok_0 =~= spec_build(spec_white(config), false)->Ok_0);
                }
            }
        }
        if let Some(b) = &config.blacklist {
            if let Some(l) = &b.datetimelst {
                if let Some(e) = build_rules(l, true, &mut rules) {
                    return Err(e);
                }
            }
        }
        proof {
            let bl = spec_build(spec_black(config), true);
            assert(rules@.map_values(|t: TimeRangeRule| t@) == white_part + bl->Ok_0) by {
                if spec_black(config).len() == 0 {
                    assert(white_part + bl->Ok_0 =~= white_part);
                }
            }
        }
        let sorted = sort_rules(rules);
        Ok(WBList { inner: sorted, cursor: 0 })
    }
}

/// The active rule for `ts` after advancing, if its range has begun.
pub open spec fn spec_active_rule(w: WBList, ts: int) -> Option<int> {
    let c = spec_advance(w.inner@, w.cursor as int, ts);
    if c < w.inner@.len() && w.inner@[c].starttime <= ts {
        Some(c)
    } else {
        Option::None
    }
}

/// A blacklist rule covers `ts`: the reading is marked invalid.
pub open spec fn spec_blacklisted(w: WBList, ts: int) -> bool {
    match spec_active_rule(w, ts) {
        Some(c) => w.inner@[c].blacklist,
        Option::None => false,
    }
}

/// The covering blacklist rule also targets this parameter: its value
/// is nulled.
pub open spec fn spec_nulled(w: WBList, ts: int, name: Seq<char>) -> bool {
    match spec_active_rule(w, ts) {
        Some(c) => w.inner@[c].blacklist && spec_targets(w.inner@[c].parameters@, name),
        Option::None => false,
    }
}

/// Whether a listed parameter name targets `name`.
fn targets_check(params: &Vec<String>, name: &str) -> (r: bool)
    ensures
        r == spec_targets(params@, name@),
{
    let name_is_none = string_eq_str(name, "none");
    let n = params.len();
    let mut i: usize = 0;
    while i < n
        invariant
            i <= n,
            n == params@.len(),
            name_is_none == (name@ == "none"@),
            forall|k: int|
                0 <= k < i ==> !(params@[k]@ == "all"@ || (params@[k]@ == name@ && name@
                    != "none"@)),
        decreases n - i,
    {
        if string_eq_str(params[i].as_str(), "all") {
            return true;
        }
        if !name_is_none && string_eq_str(params[i].as_str(), name) {
            return true;
        }
        i += 1;
    }
    false
}

impl WBList {
    /// Advances the cursor past every rule whose range ended before
    /// `ts` — it only ever moves forward — and reports what the rule now
    /// under it does to the named parameter at `ts`: whether a blacklist
    /// rule covers the time, and whether that rule also targets the
    /// parameter, so its value must be nulled.
    pub fn apply(&mut self, ts: i64, name: &str) -> (r: (bool, bool))
        requires
            old(self).wf(),
        ensures
            final(self).wf(),
            final(self).inner == old(self).inner,
            final(self).cursor == spec_advance(old(self).inner@, old(self).cursor as int, ts as int),
            old(self).cursor <= final(self).cursor,
            r.0 == spec_blacklisted(*old(self), ts as int),
            r.1 == spec_nulled(*old(self), ts as int, name@),
    {
        proof {
            lemma_advance_geq(self.inner@, self.cursor as int, ts as int);
        }
        while self.cursor < self.inner.len() && self.inner[self.cursor].endtime < ts
            invariant
                self.inner == old(self).inner,
                self.cursor <= self.inner@.len(),
                old(self).cursor <= self.cursor,
                spec_advance(self.inner@, self.cursor as int, ts as int) == spec_advance(
                    old(self).inner@,
                    old(self).cursor as int,
                    ts as int,
                ),
            decreases self.inner@.len() - self.cursor,
        {
            self.cursor += 1;
        }
        if self.cursor < self.inner.len() {
            let rule = &self.inner[self.cursor];
            if ts >= rule.starttime && rule.blacklist {
                let nulled = targets_check(&rule.parameters, name);
                return (true, nulled);
            }
        }
        (false, false)
    }
}

/// The scan cursor never moves backward and stays inside the list.
pub proof fn lemma_advance_geq(rules: Seq<TimeRangeRule>, c: int, ts: int)
    requires
        0 <= c <= rules.len(),
    ensures
        c <= spec_advance(rules, c, ts) <= rules.len(),
    decreases rules.len() - c,
{
    if c < rules.len() && rules[c].endtime < ts {
        lemma_advance_geq(rules, c + 1, ts);
    }
}

/// With non-decreasing sample times the scan never revisits a rule:
/// advancing for an earlier time and then a later one lands exactly
/// where advancing once for the later time would.
pub proof fn lemma_advance_monotone(rules: Seq<TimeRangeRule>, c: int, ts1: int, ts2: int)
    requires
        0 <= c <= rules.len(),
        ts1 <= ts2,
    ensures
        spec_advance(rules, spec_advance(rules, c, ts1), ts2) == spec_advance(rules, c, ts2),
    decreases rules.len() - c,
{
    if c < rules.len() && rules[c].endtime < ts1 {
        lemma_advance_monotone(rules, c + 1, ts1, ts2);
    }
}

} // verus!
