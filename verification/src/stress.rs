//! Bookkeeping of the stress test: expected classes, per-group tallies, the
//! acceptance counts, and the command-line arguments that select it.

use vstd::prelude::*;

use crate::dataset::string_views;
use crate::model::{VerificationClass, VerifyError};
use crate::text::{ascii_lower_seq, chars_eq, chars_of, lower_chars, str_is};

verus! {

/// Minimum number of samples each class needs for the acceptance bar.
pub const MIN_SAMPLES_PER_CLASS: u32 = 25u32;

/// The class a dataset folder claims for its images.
#[derive(Debug, Clone, Copy, PartialEq, Eq, Hash, Structural)]
pub enum ExpectedClass {
    Authentic,
    Suspicious,
    Synthetic,
}

impl ExpectedClass {
    /// Name of the dataset folder holding the class.
    pub fn folder_name(self) -> (s: &'static str)
        ensures
            self == ExpectedClass::Authentic ==> s@ == "authentic"@,
            self == ExpectedClass::Suspicious ==> s@ == "edited"@,
            self == ExpectedClass::Synthetic ==> s@ == "synthetic"@,
    {
        match self {
            ExpectedClass::Authentic => "authentic",
            ExpectedClass::Suspicious => "edited",
            ExpectedClass::Synthetic => "synthetic",
        }
    }

    /// Label of the class in reports.
    pub fn as_label(self) -> (s: &'static str)
        ensures
            self == ExpectedClass::Authentic ==> s@ == "Authentic"@,
            self == ExpectedClass::Suspicious ==> s@ == "Suspicious"@,
            self == ExpectedClass::Synthetic ==> s@ == "Synthetic"@,
    {
        match self {
            ExpectedClass::Authentic => "Authentic",
            ExpectedClass::Suspicious => "Suspicious",
            ExpectedClass::Synthetic => "Synthetic",
        }
    }
}

/// A prediction matches when the verdict is the expected class; an
/// indeterminate verdict never matches.
pub open spec fn is_match(expected: ExpectedClass, predicted: VerificationClass) -> bool {
    match (expected, predicted) {
        (ExpectedClass::Authentic, VerificationClass::Authentic) => true,
        (ExpectedClass::Suspicious, VerificationClass::Suspicious) => true,
        (ExpectedClass::Synthetic, VerificationClass::Synthetic) => true,
        _ => false,
    }
}

/// Outcome counts of a group of samples.
#[derive(Debug, Clone, Copy, PartialEq, Eq, Structural)]
pub struct GroupStats {
    pub total: u32,
    pub matched: u32,
    pub as_authentic: u32,
    pub as_suspicious: u32,
    pub as_synthetic: u32,
}

/// Counts of an empty group.
pub open spec fn empty_stats() -> GroupStats {
    GroupStats { total: 0, matched: 0, as_authentic: 0, as_suspicious: 0, as_synthetic: 0 }
}

impl Default for GroupStats {
    fn default() -> (s: Self)
        ensures
            s == empty_stats(),
    {
        GroupStats { total: 0, matched: 0, as_authentic: 0, as_suspicious: 0, as_synthetic: 0 }
    }
}

/// Counts that can arise from recording samples: no count exceeds the total.
pub open spec fn stats_wf(s: GroupStats) -> bool {
    &&& s.matched <= s.total
    &&& s.as_authentic + s.as_suspicious + s.as_synthetic <= s.total
}

/// The counts after one more sample.
pub open spec fn recorded(s: GroupStats, expected: ExpectedClass, predicted: VerificationClass) -> GroupStats {
    GroupStats {
        total: (s.total + 1) as u32,
        matched: if is_match(expected, predicted) { (s.matched + 1) as u32 } else { s.matched },
        as_authentic: if predicted == VerificationClass::Authentic { (s.as_authentic + 1) as u32 } else { s.as_authentic },
        as_suspicious: if predicted == VerificationClass::Suspicious { (s.as_suspicious + 1) as u32 } else { s.as_suspicious },
        as_synthetic: if predicted == VerificationClass::Synthetic { (s.as_synthetic + 1) as u32 } else { s.as_synthetic },
    }
}

impl GroupStats {
    /// Counts one sample of class `expected` that was classified `predicted`.
    pub fn record(&mut self, expected: ExpectedClass, predicted: VerificationClass)
        requires
            stats_wf(*old(self)),
            old(self).total < u32::MAX,
        ensures
            *final(self) == recorded(*old(self), expected, predicted),
            stats_wf(*final(self)),
    {
        self.total = self.total + 1;
        match predicted {
            VerificationClass::Authentic => self.as_authentic = self.as_authentic + 1,
            VerificationClass::Suspicious => self.as_suspicious = self.as_suspicious + 1,
            VerificationClass::Synthetic => self.as_synthetic = self.as_synthetic + 1,
            VerificationClass::Indeterminate => {},
        }
        let is_match = match (expected, predicted) {
            (ExpectedClass::Authentic, VerificationClass::Authentic) => true,
            (ExpectedClass::Suspicious, VerificationClass::Suspicious) => true,
            (ExpectedClass::Synthetic, VerificationClass::Synthetic) => true,
            _ => false,
        };
        if is_match {
            self.matched = self.matched + 1;
        }
    }
}

// ─── Command line ───────────────────────────────────────────────────────────

/// Arguments after the program name, without `--config` and the argument
/// that follows it, from position `i` on.
pub open spec fn positional_from(args: Seq<Seq<char>>, i: int, skip_next: bool) -> Seq<Seq<char>>
    decreases args.len() - i,
{
    if i < 0 || i >= args.len() {
        Seq::empty()
    } else if skip_next {
        positional_from(args, i + 1, false)
    } else if args[i] == "--config"@ {
        positional_from(args, i + 1, true)
    } else {
        seq![args[i]] + positional_from(args, i + 1, false)
    }
}

/// The positional arguments: everything after the program name except
/// `--config <path>` pairs.
pub open spec fn positional_args(args: Seq<Seq<char>>) -> Seq<Seq<char>> {
    positional_from(args, 1, false)
}

pub open spec fn str_views(v: Seq<&str>) -> Seq<Seq<char>> {
    v.map_values(|s: &str| s@)
}

pub fn filter_positional_args(args: &[String]) -> (res: Vec<&str>)
    ensures
        str_views(res@) == positional_args(string_views(args@)),
{
    let ghost full = string_views(args@);
    let mut result: Vec<&str> = Vec::new();
    let mut skip_next = false;
    let mut i: usize = 1;
    if args.len() == 0 {
        proof {
            assert(str_views(result@) =~= positional_args(full));
        }
        return result;
    }
    while i < args.len()
        invariant
            full == string_views(args@),
            1 <= i <= args@.len(),
            str_views(result@) + positional_from(full, i as int, skip_next) == positional_args(full),
        decreases args@.len() - i,
    {
        let arg = args[i].as_str();
        if skip_next {
            skip_next = false;
        } else if str_is(arg, "--config") {
            skip_next = true;
        } else {
            let ghost before = result@;
            result.push(arg);
            proof {
                assert(str_views(result@) =~= str_views(before).push(full[i as int]));
                assert(str_views(before) + (seq![full[i as int]] + positional_from(full, i + 1, false))
                    =~= str_views(before).push(full[i as int]) + positional_from(full, i + 1, false));
            }
        }
        i = i + 1;
    }
    proof {
        assert(str_views(result@) + Seq::<Seq<char>>::empty() =~= str_views(result@));
    }
    result
}

/// Where the command line asks for a calibration file.
pub enum ConfigArg<'a> {
    /// No `--config` argument.
    Absent,
    /// The path that follows the first `--config`.
    Path(&'a str),
    /// `--config` is the last argument.
    MissingPath,
}

/// Index of the first `--config` at or after `i`.
pub open spec fn first_config_flag(args: Seq<Seq<char>>, i: int) -> Option<int>
    decreases args.len() - i,
{
    if i < 0 || i >= args.len() {
        None
    } else if args[i] == "--config"@ {
        Some(i)
    } else {
        first_config_flag(args, i + 1)
    }
}

/// Finds the calibration file named by the first `--config` argument.
pub fn find_config_path(args: &[String]) -> (res: ConfigArg)
    ensures
        ({
            let full = string_views(args@);
            match first_config_flag(full, 0) {
                None => res is Absent,
                Some(i) => if i + 1 < full.len() {
                    res matches ConfigArg::Path(p) && p@ == full[i + 1]
                } else {
                    res is MissingPath
                },
            }
        }),
{
    let ghost full = string_views(args@);
    let mut i: usize = 0;
    while i < args.len()
        invariant
            full == string_views(args@),
            i <= args@.len(),
            first_config_flag(full, 0) == first_config_flag(full, i as int),
        decreases args@.len() - i,
    {
        if str_is(args[i].as_str(), "--config") {
            if i + 1 < args.len() {
                return ConfigArg::Path(args[i + 1].as_str());
            } else {
                return ConfigArg::MissingPath;
            }
        }
        i = i + 1;
    }
    ConfigArg::Absent
}

/// The dataset root when the positional arguments ask for a stress test: the
/// first is `stress` in any ASCII case and a second one follows.
pub open spec fn stress_root(positional: Seq<Seq<char>>) -> Option<Seq<char>> {
    if positional.len() >= 2 && ascii_lower_seq(positional[0]) == "stress"@ {
        Some(positional[1])
    } else {
        None
    }
}

pub fn stress_dataset_root<'a>(positional: &Vec<&'a str>) -> (res: Option<&'a str>)
    ensures
        match res {
            Some(p) => stress_root(str_views(positional@)) == Some(p@),
            None => stress_root(str_views(positional@)) is None,
        },
{
    if positional.len() < 2 {
        return None;
    }
    let first = chars_of(positional[0]);
    let lowered = lower_chars(&first);
    let command = chars_of("stress");
    if chars_eq(&lowered, &command) {
        Some(positional[1])
    } else {
        None
    }
}


// ─── Run tally ──────────────────────────────────────────────────────────────

/// Running counts of a stress test.
#[derive(Debug, Clone, Copy)]
pub struct StressTally {
    /// Every verified sample.
    pub overall: GroupStats,
    /// Samples by expected class.
    pub authentic: GroupStats,
    pub suspicious: GroupStats,
    pub synthetic: GroupStats,
    /// Samples that claimed a supported format but did not decode.
    pub decode_errors: u32,
}

pub open spec fn tally_wf(t: StressTally) -> bool {
    &&& stats_wf(t.overall)
    &&& stats_wf(t.authentic)
    &&& stats_wf(t.suspicious)
    &&& stats_wf(t.synthetic)
    &&& t.authentic.total + t.suspicious.total + t.synthetic.total == t.overall.total
}

pub open spec fn class_stats(t: StressTally, c: ExpectedClass) -> GroupStats {
    match c {
        ExpectedClass::Authentic => t.authentic,
        ExpectedClass::Suspicious => t.suspicious,
        ExpectedClass::Synthetic => t.synthetic,
    }
}

/// The tally after one verification outcome for a sample of class `expected`:
/// a verdict is counted overall and for its class, a decode failure is
/// counted apart, and any other error leaves the tally as it was.
pub open spec fn tallied(t: StressTally, expected: ExpectedClass, outcome: Result<VerificationClass, VerifyError>) -> StressTally {
    match outcome {
        Ok(c) => StressTally {
            overall: recorded(t.overall, expected, c),
            authentic: if expected == ExpectedClass::Authentic { recorded(t.authentic, expected, c) } else { t.authentic },
            suspicious: if expected == ExpectedClass::Suspicious { recorded(t.suspicious, expected, c) } else { t.suspicious },
            synthetic: if expected == ExpectedClass::Synthetic { recorded(t.synthetic, expected, c) } else { t.synthetic },
            decode_errors: t.decode_errors,
        },
        Err(VerifyError::DecodeFailed) => StressTally { decode_errors: (t.decode_errors + 1) as u32, ..t },
        Err(_) => t,
    }
}

impl StressTally {
    pub fn new() -> (t: StressTally)
        ensures
            tally_wf(t),
            t == (StressTally {
                overall: empty_stats(),
                authentic: empty_stats(),
                suspicious: empty_stats(),
                synthetic: empty_stats(),
                decode_errors: 0,
            }),
    {
        StressTally {
            overall: GroupStats::default(),
            authentic: GroupStats::default(),
            suspicious: GroupStats::default(),
            synthetic: GroupStats::default(),
            decode_errors: 0,
        }
    }

    /// Whether one more outcome can be counted without a counter overflowing.
    pub fn has_room(&self) -> (b: bool)
        ensures
            b == (self.overall.total < u32::MAX && self.decode_errors < u32::MAX),
    {
        self.overall.total < u32::MAX && self.decode_errors < u32::MAX
    }

    /// Counts the outcome of verifying one sample of class `expected`. Errors
    /// other than a decode failure end the run: they are handed back.
    pub fn record_outcome(&mut self, expected: ExpectedClass, outcome: Result<VerificationClass, VerifyError>) -> (res: Result<(), VerifyError>)
        requires
            tally_wf(*old(self)),
            old(self).overall.total < u32::MAX,
            old(self).decode_errors < u32::MAX,
        ensures
            *final(self) == tallied(*old(self), expected, outcome),
            tally_wf(*final(self)),
            match outcome {
                Ok(_) => res is Ok,
                Err(VerifyError::DecodeFailed) => res is Ok,
                Err(e) => res == Err::<(), VerifyError>(e),
            },
    {
        match outcome {
            Ok(predicted) => {
                self.overall.record(expected, predicted);
                match expected {
                    ExpectedClass::Authentic => self.authentic.record(expected, predicted),
                    ExpectedClass::Suspicious => self.suspicious.record(expected, predicted),
                    ExpectedClass::Synthetic => self.synthetic.record(expected, predicted),
                }
                Ok(())
            },
            Err(VerifyError::DecodeFailed) => {
                self.decode_errors = self.decode_errors + 1;
                Ok(())
            },
            Err(e) => Err(e),
        }
    }
}

/// The counts the acceptance bar is judged on.
#[derive(Debug, Clone, Copy, PartialEq, Eq, Structural)]
pub struct AcceptanceCounts {
    pub authentic_total: u32,
    pub edited_total: u32,
    pub synthetic_total: u32,
    /// Authentic samples classified suspicious or synthetic.
    pub authentic_false_positives: u32,
    /// Edited samples classified authentic.
    pub edited_misses: u32,
    /// Synthetic samples classified authentic.
    pub synthetic_misses: u32,
}

pub open spec fn acceptance_of(t: StressTally) -> AcceptanceCounts {
    AcceptanceCounts {
        authentic_total: t.authentic.total,
        edited_total: t.suspicious.total,
        synthetic_total: t.synthetic.total,
        authentic_false_positives: (t.authentic.as_suspicious + t.authentic.as_synthetic) as u32,
        edited_misses: t.suspicious.as_authentic,
        synthetic_misses: t.synthetic.as_authentic,
    }
}

pub fn acceptance_counts(tally: &StressTally) -> (c: AcceptanceCounts)
    requires
        tally_wf(*tally),
    ensures
        c == acceptance_of(*tally),
        c.authentic_false_positives <= c.authentic_total,
        c.edited_misses <= c.edited_total,
        c.synthetic_misses <= c.synthetic_total,
{
    AcceptanceCounts {
        authentic_total: tally.authentic.total,
        edited_total: tally.suspicious.total,
        synthetic_total: tally.synthetic.total,
        authentic_false_positives: tally.authentic.as_suspicious + tally.authentic.as_synthetic,
        edited_misses: tally.suspicious.as_authentic,
        synthetic_misses: tally.synthetic.as_authentic,
    }
}

/// Classes with fewer than `min` samples, in the order authentic, edited,
/// synthetic.
pub open spec fn undersampled(c: AcceptanceCounts, min: u32) -> Seq<ExpectedClass> {
    let s1 = if c.authentic_total < min { seq![ExpectedClass::Authentic] } else { Seq::empty() };
    let s2 = if c.edited_total < min { s1.push(ExpectedClass::Suspicious) } else { s1 };
    if c.synthetic_total < min { s2.push(ExpectedClass::Synthetic) } else { s2 }
}

pub fn undersampled_classes(counts: &AcceptanceCounts, min: u32) -> (v: Vec<ExpectedClass>)
    ensures
        v@ == undersampled(*counts, min),
{
    let mut v: Vec<ExpectedClass> = Vec::new();
    if counts.authentic_total < min {
        v.push(ExpectedClass::Authentic);
    }
    if counts.edited_total < min {
        v.push(ExpectedClass::Suspicious);
    }
    if counts.synthetic_total < min {
        v.push(ExpectedClass::Synthetic);
    }
    proof {
        assert(v@ =~= undersampled(*counts, min));
    }
    v
}

} // verus!
