//! The header layout of column-oriented reading files: which physical
//! parameter each column name belongs to, and at which position.

use vstd::prelude::*;

use crate::textutil::string_eq_str;

verus! {

/// The physical parameters a column can carry.
#[derive(Debug, Clone, Copy, PartialEq, Eq, Structural)]
pub enum Parameter {
    Datetime,
    Temperature,
    Humidity,
    Pressure,
    Windspeed,
    WindDirection,
    Rainfall,
    ShortWaveDown,
    ShortWaveUp,
    LongWaveDown,
    LongWaveUp,
}

/// The single column name of the datetime column, if declared.
#[derive(Debug)]
pub struct HeaderInner {
    pub header: Option<String>,
}

/// The column names of one parameter, and which of them is primary.
#[derive(Debug)]
pub struct HeaderVecInner {
    pub header: Option<Vec<String>>,
    pub primary: Option<String>,
}

/// The whole declared header layout, one section per parameter.
#[derive(Debug)]
pub struct Header {
    pub datetime: Option<HeaderInner>,
    pub temperature: Option<HeaderVecInner>,
    pub humidity: Option<HeaderVecInner>,
    pub pressure: Option<HeaderVecInner>,
    pub windspeed: Option<HeaderVecInner>,
    pub winddirection: Option<HeaderVecInner>,
    pub rainfull: Option<HeaderVecInner>,
    pub shortwavedown: Option<HeaderVecInner>,
    pub shortwaveup: Option<HeaderVecInner>,
    pub longwavedown: Option<HeaderVecInner>,
    pub longwaveup: Option<HeaderVecInner>,
}

/// Position of the first occurrence of `target` in a name list.
pub open spec fn spec_position(names: Seq<String>, target: Seq<char>) -> Option<int>
    decreases names.len(),
{
    if names.len() == 0 {
        Option::None
    } else if names[0]@ == target {
        Some(0int)
    } else {
        match spec_position(names.drop_first(), target) {
            Some(i) => Some(i + 1),
            Option::None => Option::None,
        }
    }
}

/// What `index` answers for one optional section.
pub open spec fn spec_section_index(section: Option<HeaderVecInner>, target: Seq<char>) -> Option<
    int,
> {
    match section {
        Some(inner) => match inner.header {
            Some(names) => spec_position(names@, target),
            Option::None => Option::None,
        },
        Option::None => Option::None,
    }
}

/// Position of the first occurrence of `target`, if any.
fn position_of(names: &Vec<String>, target: &str) -> (r: Option<usize>)
    ensures
        match r {
            Some(i) => spec_position(names@, target@) == Some(i as int),
            Option::None => spec_position(names@, target@) is None,
        },
{
    let n = names.len();
    let mut i: usize = 0;
    proof {
        assert(names@.skip(0) =~= names@);
    }
    while i < n
        invariant
            i <= n,
            n == names@.len(),
            forall|k: int| 0 <= k < i ==> names@[k]@ != target@,
            (match spec_position(names@.skip(i as int), target@) {
                Some(p) => spec_position(names@, target@) == Some(p + i),
                Option::None => spec_position(names@, target@) is None,
            }),
        decreases n - i,
    {
        let ghost rest = names@.skip(i as int);
        proof {
            assert(rest[0] == names@[i as int]);
            assert(rest.drop_first() =~= names@.skip(i as int + 1));
        }
        if string_eq_str(names[i].as_str(), target) {
            return Some(i);
        }
        i += 1;
    }
    proof {
        assert(names@.skip(n as int) =~= Seq::<String>::empty());
    }
    None
}

impl Header {
    /// The column position of `header` within one parameter's declared
    /// name list. The datetime parameter always sits at column 0.
    pub fn index(&self, parameter: Parameter, header: &str) -> (r: Option<usize>)
        ensures
            ({
                let expected = match parameter {
                    Parameter::Datetime => Some(0int),
                    Parameter::Temperature => spec_section_index(self.temperature, header@),
                    Parameter::Humidity => spec_section_index(self.humidity, header@),
                    Parameter::Pressure => spec_section_index(self.pressure, header@),
                    Parameter::Windspeed => spec_section_index(self.windspeed, header@),
                    Parameter::WindDirection => spec_section_index(self.winddirection, header@),
                    Parameter::Rainfall => spec_section_index(self.rainfull, header@),
                    Parameter::ShortWaveDown => spec_section_index(self.shortwavedown, header@),
                    Parameter::ShortWaveUp => spec_section_index(self.shortwaveup, header@),
                    Parameter::LongWaveDown => spec_section_index(self.longwavedown, header@),
                    Parameter::LongWaveUp => spec_section_index(self.longwaveup, header@),
                };
                match r {
                    Some(i) => expected == Some(i as int),
                    Option::None => expected is None,
                }
            }),
    {
        let section: &Option<HeaderVecInner> = match parameter {
            Parameter::Datetime => {
                return Some(0);
            },
            Parameter::Temperature => &self.temperature,
            Parameter::Humidity => &self.humidity,
            Parameter::Pressure => &self.pressure,
            Parameter::Windspeed => &self.windspeed,
            Parameter::WindDirection => &self.winddirection,
            Parameter::Rainfall => &self.rainfull,
            Parameter::ShortWaveDown => &self.shortwavedown,
            Parameter::ShortWaveUp => &self.shortwaveup,
            Parameter::LongWaveDown => &self.longwavedown,
            Parameter::LongWaveUp => &self.longwaveup,
        };
        match section {
            Some(inner) => match &inner.header {
                Some(names) => position_of(names, header),
                Option::None => None,
            },
            Option::None => None,
        }
    }

    /// The first parameter, in a fixed physical order, whose declared
    /// names hold `header`, with its position. The datetime parameter
    /// answers for any name, so a lookup always resolves.
    pub fn find(&self, header: &str) -> (r: Option<(Parameter, usize)>)
        ensures
            r is Some,
            r matches Some(pi) ==> match pi.0 {
                Parameter::Temperature => spec_section_index(self.temperature, header@) == Some(
                    pi.1 as int,
                ),
                Parameter::Datetime => pi.1 == 0 && spec_section_index(self.temperature, header@)
                    is None,
                _ => true,
            },
    {
        if let Some(idx) = self.index(Parameter::Temperature, header) {
            return Some((Parameter::Temperature, idx));
        }
        if let Some(idx) = self.index(Parameter::Humidity, header) {
            return Some((Parameter::Humidity, idx));
        }
        if let Some(idx) = self.index(Parameter::Pressure, header) {
            return Some((Parameter::Pressure, idx));
        }
        if let Some(idx) = self.index(Parameter::Windspeed, header) {
            return Some((Parameter::Windspeed, idx));
        }
        if let Some(idx) = self.index(Parameter::WindDirection, header) {
            return Some((Parameter::WindDirection, idx));
        }
        if let Some(idx) = self.index(Parameter::Rainfall, header) {
            return Some((Parameter::Rainfall, idx));
        }
        if let Some(idx) = self.index(Parameter::ShortWaveDown, header) {
            return Some((Parameter::ShortWaveDown, idx));
        }
        if let Some(idx) = self.index(Parameter::ShortWaveUp, header) {
            return Some((Parameter::ShortWaveUp, idx));
        }
        if let Some(idx) = self.index(Parameter::LongWaveDown, header) {
            return Some((Parameter::LongWaveDown, idx));
        }
        if let Some(idx) = self.index(Parameter::LongWaveUp, header) {
            return Some((Parameter::LongWaveUp, idx));
        }
        if let Some(idx) = self.index(Parameter::Datetime, header) {
            return Some((Parameter::Datetime, idx));
        }
        None
    }
}

} // verus!
