//! The detector: it counts the lines of a text and those among them that are
//! log lines, and decides from the two counts whether the text is Cloud
//! Foundry application log output.

use crate::line::{line_matches, parse_line, LineError};
use crate::search::{first_index_of, lemma_first_index_of};
use vstd::prelude::*;

verus! {

/// The counts of one scan.
pub struct ClassificationTally {
    /// The lines that were looked at.
    pub total_lines: nat,
    /// Those among them that are log lines.
    pub matching_lines: nat,
}

impl ClassificationTally {
    /// No more lines match than were looked at.
    pub open spec fn well_formed(self) -> bool {
        self.matching_lines <= self.total_lines
    }

    /// The counts of this scan and of `other` together.
    pub open spec fn plus(self, other: ClassificationTally) -> ClassificationTally {
        ClassificationTally {
            total_lines: self.total_lines + other.total_lines,
            matching_lines: self.matching_lines + other.matching_lines,
        }
    }

    /// The matching lines in whole percent of the lines looked at, rounded
    /// down; 0 where no line was looked at.
    pub open spec fn percentage(self) -> nat {
        if self.total_lines > 0 {
            self.matching_lines * 100 / self.total_lines
        } else {
            0
        }
    }
}

/// How many of `outcomes` are `true`.
pub open spec fn count_matches(outcomes: Seq<bool>) -> nat
    decreases outcomes.len(),
{
    if outcomes.len() == 0 {
        0
    } else {
        count_matches(outcomes.drop_last()) + if outcomes.last() {
            1nat
        } else {
            0nat
        }
    }
}

/// The counts of a scan over lines of which `outcomes` says, in order,
/// whether each is a log line.
///
/// Every line is looked at, unless the scan is to stop on the first match and
/// there is one: then the scan ends with that line.
pub open spec fn classify(outcomes: Seq<bool>, stop_on_first_match: bool) -> ClassificationTally {
    if stop_on_first_match && outcomes.contains(true) {
        ClassificationTally {
            total_lines: (first_index_of(outcomes, true)->0 + 1) as nat,
            matching_lines: 1,
        }
    } else {
        ClassificationTally {
            total_lines: outcomes.len(),
            matching_lines: count_matches(outcomes),
        }
    }
}

/// For each of `lines`, whether it is a log line.
pub open spec fn line_outcomes(lines: Seq<Seq<char>>) -> Seq<bool> {
    lines.map_values(|line: Seq<char>| line_matches(line))
}

/// The texts of `lines`.
pub open spec fn line_texts(lines: Seq<String>) -> Seq<Seq<char>> {
    lines.map_values(|line: String| line@)
}

/// A detector as its contracts see it: how it was set up, and its counts.
pub struct DetectorView {
    /// The least percentage of matching lines that makes a text a log.
    pub trigger_percentage: nat,
    /// Whether one matching line is enough, and ends the scan.
    pub one_line_match: bool,
    pub tally: ClassificationTally,
}

impl DetectorView {
    /// The detector after one more line, of which `matched` says whether it
    /// is a log line.
    pub open spec fn record(self, matched: bool) -> DetectorView {
        DetectorView {
            tally: self.tally.plus(
                ClassificationTally {
                    total_lines: 1,
                    matching_lines: if matched { 1 } else { 0 },
                },
            ),
            ..self
        }
    }

    /// Whether a scan ends with a line of which `matched` says whether it is
    /// a log line.
    pub open spec fn stops_after(self, matched: bool) -> bool {
        matched && self.one_line_match
    }

    /// The detector after a scan over lines with the given outcomes.
    pub open spec fn scan(self, outcomes: Seq<bool>) -> DetectorView {
        DetectorView { tally: self.tally.plus(classify(outcomes, self.one_line_match)), ..self }
    }

    /// The detector after a scan over `lines`.
    pub open spec fn scan_lines(self, lines: Seq<Seq<char>>) -> DetectorView {
        self.scan(line_outcomes(lines))
    }

    /// Whether the lines looked at make a log: the percentage of matching
    /// lines reaches the trigger, or one matching line is enough and there is
    /// one.
    pub open spec fn is_matching(self) -> bool {
        self.tally.percentage() >= self.trigger_percentage || (self.tally.matching_lines > 0
            && self.one_line_match)
    }
}

/// Decides whether a text is Cloud Foundry application log output from the
/// share of its lines that are log lines.
pub struct CfAppLogDetector {
    one_line_match: bool,
    total_log_lines: usize,
    log_lines_matching: usize,
    trigger_percentage: usize,
}

impl View for CfAppLogDetector {
    type V = DetectorView;

    closed spec fn view(&self) -> DetectorView {
        DetectorView {
            trigger_percentage: self.trigger_percentage as nat,
            one_line_match: self.one_line_match,
            tally: ClassificationTally {
                total_lines: self.total_log_lines as nat,
                matching_lines: self.log_lines_matching as nat,
            },
        }
    }
}

impl CfAppLogDetector {
    #[verifier::type_invariant]
    spec fn counts_are_consistent(self) -> bool {
        self.log_lines_matching <= self.total_log_lines
    }

    /// A detector that has seen no line yet.
    pub fn new(trigger_percentage: usize, one_line_match: bool) -> (detector: CfAppLogDetector)
        ensures
            detector@ == (DetectorView {
                trigger_percentage: trigger_percentage as nat,
                one_line_match,
                tally: ClassificationTally { total_lines: 0, matching_lines: 0 },
            }),
    {
        CfAppLogDetector {
            trigger_percentage,
            one_line_match,
            total_log_lines: 0,
            log_lines_matching: 0,
        }
    }

    /// The least percentage of matching lines that makes a text a log.
    pub fn trigger_percentage(&self) -> (percentage: usize)
        ensures
            percentage == self@.trigger_percentage,
    {
        self.trigger_percentage
    }

    /// Whether one matching line is enough, and ends the scan.
    pub fn one_line_match(&self) -> (enough: bool)
        ensures
            enough == self@.one_line_match,
    {
        self.one_line_match
    }

    /// The lines that were looked at so far.
    pub fn total_log_lines(&self) -> (count: usize)
        ensures
            count == self@.tally.total_lines,
            self@.tally.well_formed(),
    {
        proof {
            use_type_invariant(self);
        }
        self.total_log_lines
    }

    /// The log lines among the lines that were looked at so far.
    pub fn log_lines_matching(&self) -> (count: usize)
        ensures
            count == self@.tally.matching_lines,
            self@.tally.well_formed(),
    {
        proof {
            use_type_invariant(self);
        }
        self.log_lines_matching
    }

    /// Takes the escape sequences out of a line and tries the grammar on what
    /// is left: `Ok(true)` for a log line, `Ok(false)` for a line that is
    /// none, and an error for a line that could not be tried.
    pub fn parse_line(line: &str) -> (outcome: Result<bool, LineError>)
        ensures
            outcome == crate::line::spec_parse_line(line@),
    {
        parse_line(line)
    }

    /// Counts one line, of which `matched` says whether it is a log line, and
    /// says whether the scan ends with it.
    pub fn record(&mut self, matched: bool) -> (stop: bool)
        requires
            old(self)@.tally.total_lines < usize::MAX,
        ensures
            final(self)@ == old(self)@.record(matched),
            final(self)@.tally.total_lines == old(self)@.tally.total_lines + 1,
            final(self)@.tally.matching_lines == old(self)@.tally.matching_lines + if matched {
                1nat
            } else {
                0nat
            },
            stop == old(self)@.stops_after(matched),
            final(self)@.tally.well_formed(),
    {
        proof {
            use_type_invariant(&*self);
        }
        self.total_log_lines = self.total_log_lines + 1;
        if matched {
            self.log_lines_matching = self.log_lines_matching + 1;
        }
        matched && self.one_line_match
    }

    /// Looks at one line: counts it, and counts it as matching if it is a log
    /// line. A line that cannot be tried on the grammar counts as a line that
    /// does not match. Says whether the scan ends with this line.
    pub fn process_line(&mut self, line: &str) -> (stop: bool)
        requires
            old(self)@.tally.total_lines < usize::MAX,
        ensures
            final(self)@ == old(self)@.record(line_matches(line@)),
            stop == old(self)@.stops_after(line_matches(line@)),
            final(self)@.tally.well_formed(),
    {
        let matched = match parse_line(line) {
            Ok(matched) => matched,
            Err(_) => false,
        };
        self.record(matched)
    }

    /// Scans `lines` in order: looks at each, and stops after the first log
    /// line where one matching line is enough.
    pub fn process_lines(&mut self, lines: &Vec<String>)
        requires
            old(self)@.tally.total_lines + lines.len() <= usize::MAX,
        ensures
            final(self)@ == old(self)@.scan_lines(line_texts(lines@)),
            final(self)@.tally.well_formed(),
    {
        let ghost start = self@;
        let ghost outcomes = line_outcomes(line_texts(lines@));
        proof {
            use_type_invariant(&*self);
            assert(outcomes.take(0) == Seq::<bool>::empty());
            assert(!outcomes.take(0).contains(true));
            lemma_classify_is_well_formed(outcomes, start.one_line_match);
        }
        let mut seen: usize = 0;
        loop
            invariant_except_break
                seen <= lines@.len(),
                self@ == start.scan(outcomes.take(seen as int)),
                !(start.one_line_match && outcomes.take(seen as int).contains(true)),
            invariant
                outcomes == line_outcomes(line_texts(lines@)),
                start.tally.total_lines + lines@.len() <= usize::MAX,
            ensures
                self@ == start.scan(outcomes),
            decreases lines@.len() - seen,
        {
            if seen >= lines.len() {
                assert(outcomes.take(seen as int) == outcomes);
                break ;
            }
            proof {
                let before = outcomes.take(seen as int);
                assert(outcomes.take(seen as int + 1) == before.push(outcomes[seen as int]));
                assert(outcomes[seen as int] == line_matches(lines@[seen as int]@));
                lemma_classify_step(before, outcomes[seen as int], start.one_line_match);
                lemma_classify_is_well_formed(before, start.one_line_match);
            }
            let stop = self.process_line(lines[seen].as_str());
            seen = seen + 1;
            if stop {
                proof {
                    let before = outcomes.take(seen as int);
                    assert(before[seen as int - 1]);
                    assert(before + outcomes.skip(seen as int) == outcomes);
                    lemma_classify_after_match(before, outcomes.skip(seen as int));
                }
                break ;
            }
            proof {
                let before = outcomes.take(seen as int);
                if start.one_line_match && before.contains(true) {
                    let at = choose|at: int| 0 <= at < before.len() && before[at];
                    if at < seen - 1 {
                        assert(outcomes.take(seen as int - 1)[at] == before[at]);
                    }
                }
            }
        }
    }

    /// The matching lines in whole percent of the lines looked at, rounded
    /// down; 0 where no line was looked at.
    pub fn percentage_matching(&self) -> (percentage: usize)
        ensures
            percentage == self@.tally.percentage(),
            percentage <= 100,
    {
        proof {
            use_type_invariant(self);
        }
        proof {
            lemma_percentage_is_bounded(self@.tally);
        }
        if self.total_log_lines > 0 {
            let matching: u128 = self.log_lines_matching as u128;
            let total: u128 = self.total_log_lines as u128;
            (matching * 100 / total) as usize
        } else {
            0
        }
    }

    /// The verdict on the lines looked at so far.
    pub fn is_matching(&self) -> (verdict: bool)
        ensures
            verdict == self@.is_matching(),
    {
        self.percentage_matching() >= self.trigger_percentage || (self.log_lines_matching > 0
            && self.one_line_match)
    }
}

/// Where no outcome is `true`, none is counted.
pub proof fn lemma_count_without_match(outcomes: Seq<bool>)
    requires
        !outcomes.contains(true),
    ensures
        count_matches(outcomes) == 0,
    decreases outcomes.len(),
{
    if outcomes.len() > 0 {
        assert(!outcomes.last()) by {
            assert(outcomes[outcomes.len() - 1] == outcomes.last());
        }
        let shorter = outcomes.drop_last();
        assert forall|j: int| 0 <= j < shorter.len() implies !shorter[j] by {
            assert(outcomes[j] == shorter[j]);
        }
        lemma_count_without_match(shorter);
    }
}

/// No more outcomes are counted than there are.
pub proof fn lemma_count_is_bounded(outcomes: Seq<bool>)
    ensures
        count_matches(outcomes) <= outcomes.len(),
    decreases outcomes.len(),
{
    if outcomes.len() > 0 {
        lemma_count_is_bounded(outcomes.drop_last());
    }
}

/// In the counts of a scan, no more lines match than were looked at, and no
/// more were looked at than there are.
pub proof fn lemma_classify_is_well_formed(outcomes: Seq<bool>, stop_on_first_match: bool)
    ensures
        classify(outcomes, stop_on_first_match).well_formed(),
        classify(outcomes, stop_on_first_match).total_lines <= outcomes.len(),
{
    lemma_count_is_bounded(outcomes);
    lemma_first_index_of(outcomes, true);
}

/// One more line after a scan. Where the scan had ended with a match, the
/// line is not looked at; else it is counted, and counted as matching if it
/// is a log line.
pub proof fn lemma_classify_step(outcomes: Seq<bool>, matched: bool, stop_on_first_match: bool)
    ensures
        classify(outcomes.push(matched), stop_on_first_match) == if stop_on_first_match
            && outcomes.contains(true) {
            classify(outcomes, stop_on_first_match)
        } else {
            classify(outcomes, stop_on_first_match).plus(
                ClassificationTally { total_lines: 1, matching_lines: if matched { 1 } else { 0 } },
            )
        },
{
    let longer = outcomes.push(matched);
    assert(longer.drop_last() == outcomes);
    lemma_first_index_of(outcomes, true);
    lemma_first_index_of(longer, true);
    if outcomes.contains(true) {
        let first = first_index_of(outcomes, true)->0;
        assert(longer[first]);
        assert forall|j: int| 0 <= j < first implies !longer[j] by {
            assert(longer[j] == outcomes[j]);
        }
    } else {
        lemma_count_without_match(outcomes);
        assert forall|j: int| 0 <= j < outcomes.len() implies !longer[j] by {
            assert(longer[j] == outcomes[j]);
        }
        if matched {
            assert(longer[outcomes.len() as int]);
        } else {
            assert(!longer.contains(true));
        }
    }
}

/// Where the scan is to stop on the first match, lines after a match are not
/// looked at: they change no count.
pub proof fn lemma_classify_after_match(outcomes: Seq<bool>, later: Seq<bool>)
    requires
        outcomes.contains(true),
    ensures
        classify(outcomes + later, true) == classify(outcomes, true),
{
    let all = outcomes + later;
    lemma_first_index_of(outcomes, true);
    lemma_first_index_of(all, true);
    let first = first_index_of(outcomes, true)->0;
    assert(all[first]);
    assert forall|j: int| 0 <= j < first implies !all[j] by {
        assert(all[j] == outcomes[j]);
    }
}

/// The percentage lies between 0 and 100. It is 100 where every line that was
/// looked at matches, and 0 where none does.
pub proof fn lemma_percentage_is_bounded(tally: ClassificationTally)
    requires
        tally.well_formed(),
    ensures
        tally.percentage() <= 100,
        tally.total_lines > 0 && tally.matching_lines == tally.total_lines
            ==> tally.percentage() == 100,
        tally.matching_lines == 0 ==> tally.percentage() == 0,
{
    if tally.total_lines > 0 {
        let matching = tally.matching_lines as int;
        let total = tally.total_lines as int;
        assert(matching * 100 / total <= 100) by (nonlinear_arith)
            requires
                0 <= matching <= total,
                0 < total,
        ;
        assert(matching == total ==> matching * 100 / total == 100) by (nonlinear_arith)
            requires
                0 < total,
        ;
        assert(0int * 100 / total == 0) by (nonlinear_arith)
            requires
                0 < total,
        ;
    }
}

/// A scan can be repeated. Two detectors that hold the same counts, and
/// agree on whether one matching line is enough, hold the same counts after
/// each has scanned the same lines; if they also have the same trigger
/// percentage, they give the same verdict.
pub proof fn lemma_scan_is_repeatable(
    first: DetectorView,
    second: DetectorView,
    lines: Seq<Seq<char>>,
)
    requires
        first.one_line_match == second.one_line_match,
        first.tally == second.tally,
    ensures
        first.scan_lines(lines).tally == second.scan_lines(lines).tally,
        first.trigger_percentage == second.trigger_percentage ==> first.scan_lines(
            lines,
        ).is_matching() == second.scan_lines(lines).is_matching(),
{
}

/// A scan never lowers a count.
pub proof fn lemma_scan_only_adds(detector: DetectorView, lines: Seq<Seq<char>>)
    requires
        detector.tally.well_formed(),
    ensures
        detector.scan_lines(lines).tally.well_formed(),
        detector.scan_lines(lines).tally.total_lines >= detector.tally.total_lines,
        detector.scan_lines(lines).tally.matching_lines >= detector.tally.matching_lines,
        detector.scan_lines(lines).tally.total_lines <= detector.tally.total_lines + lines.len(),
{
    lemma_classify_is_well_formed(line_outcomes(lines), detector.one_line_match);
}

/// A scan over no lines: a detector that had seen no line has still seen
/// none, its percentage is 0, and with a trigger percentage above 0 its
/// verdict is negative.
pub proof fn lemma_scan_of_nothing(detector: DetectorView)
    requires
        detector.tally == (ClassificationTally { total_lines: 0, matching_lines: 0 }),
        detector.trigger_percentage > 0,
    ensures
        detector.scan_lines(Seq::empty()).tally == (ClassificationTally {
            total_lines: 0,
            matching_lines: 0,
        }),
        detector.scan_lines(Seq::empty()).tally.percentage() == 0,
        !detector.scan_lines(Seq::empty()).is_matching(),
{
    let outcomes = line_outcomes(Seq::<Seq<char>>::empty());
    assert(outcomes.len() == 0);
    assert(!outcomes.contains(true));
}

/// Where one matching line is enough, the scan ends with the first log line:
/// a detector that had seen no line has then looked at the lines up to that
/// one, and counted one match.
pub proof fn lemma_scan_ends_at_first_match(
    detector: DetectorView,
    lines: Seq<Seq<char>>,
    first: int,
)
    requires
        detector.one_line_match,
        detector.tally == (ClassificationTally { total_lines: 0, matching_lines: 0 }),
        0 <= first < lines.len(),
        line_matches(lines[first]),
        forall|i: int| 0 <= i < first ==> !line_matches(#[trigger] lines[i]),
    ensures
        detector.scan_lines(lines).tally == (ClassificationTally {
            total_lines: (first + 1) as nat,
            matching_lines: 1,
        }),
{
    let outcomes = line_outcomes(lines);
    assert(outcomes[first]);
    lemma_first_index_of(outcomes, true);
    let found = first_index_of(outcomes, true)->0;
    assert(outcomes[found] == line_matches(lines[found]));
}

/// Where one matching line is enough, one log line among the lines makes the
/// verdict positive, whatever the trigger percentage and wherever the line
/// stands.
pub proof fn lemma_one_match_is_enough(detector: DetectorView, lines: Seq<Seq<char>>, at: int)
    requires
        detector.one_line_match,
        0 <= at < lines.len(),
        line_matches(lines[at]),
    ensures
        detector.scan_lines(lines).is_matching(),
{
    let outcomes = line_outcomes(lines);
    assert(outcomes[at]);
}

} // verus!
