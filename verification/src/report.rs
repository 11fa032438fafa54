//! Warning records describing the useless substitutions the pass found, and
//! their construction from the final classification.

use vstd::prelude::*;
use vstd::string::StringExecFns;

use crate::error_code::ReportCode;
use crate::info::{InfoV, SubsInfo, info_set, lemma_info_set_push};

verus! {

/// Which of the two warnings about a useless substitution this is.
#[derive(Clone, Copy, PartialEq, Eq, Structural, Debug)]
pub enum WarningKind {
    /// The substitution is never read and its right-hand side mentions
    /// signals.
    ContainsSignals,
    /// The substitution was written by the programmer, not synthesised.
    NotArtificial,
}

/// One warning about one useless substitution.
pub struct Report {
    /// The diagnostic code; always `UselessSubstitution` for this pass.
    pub code: ReportCode,
    /// Which warning this is.
    pub kind: WarningKind,
    /// The element id of the substitution the warning is about.
    pub subs_id: usize,
    /// The name of the assigned variable.
    pub var_name: String,
    /// Start of the source range of the substitution.
    pub start: usize,
    /// End of the source range of the substitution.
    pub end: usize,
    /// The file the substitution comes from. Kept as the tree supplied
    /// it: a warning about a substitution without a file id carries `None`
    /// here, where the surrounding compiler demanded a file id for every
    /// warning-producing substitution and aborted without one.
    pub file_id: Option<usize>,
    /// Whether the substitution initialises a constant.
    pub is_constant: bool,
}

/// Mathematical view of a [`Report`].
pub struct ReportV {
    pub code: ReportCode,
    pub kind: WarningKind,
    pub subs_id: usize,
    pub var_name: Seq<char>,
    pub start: usize,
    pub end: usize,
    pub file_id: Option<usize>,
    pub is_constant: bool,
}

impl View for Report {
    type V = ReportV;

    open spec fn view(&self) -> ReportV {
        ReportV {
            code: self.code,
            kind: self.kind,
            subs_id: self.subs_id,
            var_name: self.var_name@,
            start: self.start,
            end: self.end,
            file_id: self.file_id,
            is_constant: self.is_constant,
        }
    }
}

/// The warning text of a report.
pub open spec fn message_text(r: ReportV) -> Seq<char> {
    match r.kind {
        WarningKind::ContainsSignals => r.var_name
            + " variable substitution is never read and contains signals"@,
        WarningKind::NotArtificial => r.var_name
            + " variable substitution is useless but not artificial"@ + (if r.is_constant {
            ". However, it is a constant"@
        } else {
            Seq::<char>::empty()
        }),
    }
}

impl Report {
    /// The headline every warning of this pass carries.
    pub fn title(&self) -> (r: &'static str)
        ensures
            r@ == "Useless substitution"@,
    {
        "Useless substitution"
    }

    /// Assemble the warning text.
    pub fn message(&self) -> (r: String)
        ensures
            r@ == message_text(self@),
    {
        match self.kind {
            WarningKind::ContainsSignals => self.var_name.clone().concat(
                " variable substitution is never read and contains signals",
            ),
            WarningKind::NotArtificial => {
                let base = self.var_name.clone().concat(
                    " variable substitution is useless but not artificial",
                );
                if self.is_constant {
                    base.concat(". However, it is a constant")
                } else {
                    proof {
                        assert(base@ =~= message_text(self@));
                    }
                    base
                }
            },
        }
    }
}

/// The warning that a useless substitution contains signals.
pub open spec fn signal_report(i: InfoV) -> ReportV {
    ReportV {
        code: ReportCode::UselessSubstitution,
        kind: WarningKind::ContainsSignals,
        subs_id: i.id,
        var_name: i.var_name,
        start: i.start,
        end: i.end,
        file_id: i.file_id,
        is_constant: i.is_constant,
    }
}

/// The warning that a useless substitution was written by the programmer.
pub open spec fn artificial_report(i: InfoV) -> ReportV {
    ReportV {
        code: ReportCode::UselessSubstitution,
        kind: WarningKind::NotArtificial,
        subs_id: i.id,
        var_name: i.var_name,
        start: i.start,
        end: i.end,
        file_id: i.file_id,
        is_constant: i.is_constant,
    }
}

/// The views of a report vector.
pub open spec fn report_views(s: Seq<Report>) -> Seq<ReportV> {
    s.map_values(|r: Report| r@)
}

/// The set of report views held by a report vector.
pub open spec fn report_set(s: Seq<Report>) -> Set<ReportV> {
    report_views(s).to_set()
}

/// The warnings owed to one useless substitution: the signal warning when
/// its right-hand side holds signals, and the not-artificial warning when
/// the programmer wrote it.
pub open spec fn owed_reports(i: InfoV) -> Set<ReportV> {
    (if i.contains_signal {
        Set::<ReportV>::empty().insert(signal_report(i))
    } else {
        Set::empty()
    }).union(
        if !i.is_artificial {
            Set::<ReportV>::empty().insert(artificial_report(i))
        } else {
            Set::empty()
        },
    )
}

/// The set of warnings owed to a set of useless substitutions.
pub open spec fn expected_reports(useless: Set<InfoV>) -> Set<ReportV> {
    Set::new(
        |r: ReportV|
            exists|i: InfoV| #[trigger]
                useless.contains(i) && ((i.contains_signal && r == signal_report(i)) || (
                !i.is_artificial && r == artificial_report(i))),
    )
}

/// Membership in `report_set` is existence of an element with that view.
pub broadcast proof fn lemma_report_set_contains(v: Seq<Report>, x: ReportV)
    ensures
        #[trigger] report_set(v).contains(x) <==> exists|j: int| 0 <= j < v.len() && v[j]@ == x,
{
    let m = report_views(v);
    if exists|j: int| 0 <= j < v.len() && v[j]@ == x {
        let j = choose|j: int| 0 <= j < v.len() && v[j]@ == x;
        assert(m[j] == x);
    }
}

/// Pushing a report inserts its view into the set.
pub broadcast proof fn lemma_report_set_push(v: Seq<Report>, r: Report)
    ensures
        #[trigger] report_set(v.push(r)) == report_set(v).insert(r@),
{
    let w = v.push(r);
    assert forall|x: ReportV|
        report_set(w).contains(x) <==> report_set(v).insert(r@).contains(x) by {
        lemma_report_set_contains(w, x);
        lemma_report_set_contains(v, x);
        if report_set(v).insert(r@).contains(x) {
            if report_set(v).contains(x) {
                let j = choose|j: int| 0 <= j < v.len() && v[j]@ == x;
                assert(w[j]@ == x);
            } else {
                assert(w[v.len() as int]@ == x);
            }
        }
    }
    assert(report_set(w) =~= report_set(v).insert(r@));
}

/// Extending the useless set by one record extends the owed warnings by
/// that record's own.
proof fn lemma_expected_insert(s: Set<InfoV>, i: InfoV)
    ensures
        expected_reports(s.insert(i)) == expected_reports(s).union(owed_reports(i)),
{
    assert forall|r: ReportV|
        expected_reports(s.insert(i)).contains(r) <==> expected_reports(s).union(
            owed_reports(i),
        ).contains(r) by {
        if expected_reports(s.insert(i)).contains(r) {
            let w = choose|w: InfoV| #[trigger]
                s.insert(i).contains(w) && ((w.contains_signal && r == signal_report(w)) || (
                !w.is_artificial && r == artificial_report(w)));
            if s.contains(w) {
                assert(expected_reports(s).contains(r));
            }
        }
        if expected_reports(s).contains(r) {
            let w = choose|w: InfoV| #[trigger]
                s.contains(w) && ((w.contains_signal && r == signal_report(w)) || (
                !w.is_artificial && r == artificial_report(w)));
            assert(s.insert(i).contains(w));
        }
        if owed_reports(i).contains(r) {
            assert(s.insert(i).contains(i));
        }
    }
    assert(expected_reports(s.insert(i)) =~= expected_reports(s).union(owed_reports(i)));
}

/// Compare two reports field by field.
fn same_report(a: &Report, b: &Report) -> (r: bool)
    ensures
        r == (a@ == b@),
{
    let files_match = match (a.file_id, b.file_id) {
        (Some(x), Some(y)) => x == y,
        (None, None) => true,
        _ => false,
    };
    a.code == b.code && a.kind == b.kind && a.subs_id == b.subs_id && a.var_name == b.var_name
        && a.start == b.start && a.end == b.end && files_match && a.is_constant == b.is_constant
}

/// Scan a report vector for a report equal to `x`.
fn contains_report(v: &Vec<Report>, x: &Report) -> (r: bool)
    ensures
        r == report_views(v@).contains(x@),
{
    let mut j: usize = 0;
    while j < v.len()
        invariant
            j <= v@.len(),
            forall|k: int| 0 <= k < j ==> v@[k]@ != x@,
        decreases v@.len() - j,
    {
        if same_report(&v[j], x) {
            proof {
                assert(report_views(v@)[j as int] == v@[j as int]@);
            }
            return true;
        }
        j += 1;
    }
    proof {
        if report_views(v@).contains(x@) {
            let k = choose|k: int|
                0 <= k < report_views(v@).len() && report_views(v@)[k] == x@;
            assert(v@[k]@ == x@);
        }
    }
    false
}

/// Append `w` unless an equal report is already there.
fn push_fresh(reports: &mut Vec<Report>, w: Report)
    ensures
        report_set(final(reports)@) == report_set(old(reports)@).insert(w@),
        report_views(old(reports)@).no_duplicates() ==> report_views(
            final(reports)@,
        ).no_duplicates(),
{
    if !contains_report(reports, &w) {
        let ghost pre = reports@;
        let ghost wv = w@;
        reports.push(w);
        proof {
            lemma_report_set_push(pre, reports@[pre.len() as int]);
            assert(report_views(reports@) =~= report_views(pre).push(wv));
            if report_views(pre).no_duplicates() {
                let s = report_views(pre);
                let t = report_views(reports@);
                assert forall|a: int, b: int|
                    0 <= a < t.len() && 0 <= b < t.len() && a != b implies t[a] != t[b] by {
                    if a < s.len() && b < s.len() {
                    } else {
                        let c = if a < s.len() {
                            a
                        } else {
                            b
                        };
                        if c < s.len() && t[c] == wv {
                            assert(s[c] == wv);
                            assert(s.contains(wv));
                        }
                    }
                }
            }
        }
    } else {
        proof {
            assert(report_views(reports@).contains(w@));
            assert(report_set(reports@).contains(w@));
            assert(report_set(reports@) =~= report_set(reports@).insert(w@));
        }
    }
}

/// Append to `reports` the warnings for every record of `useless`: for each
/// record the signal warning where owed, then the warning that the
/// substitution is not artificial. Each owed warning appears exactly once —
/// a warning equal to one already present is not appended again.
///
/// A record whose `file_id` is `None` still warns; the report then carries
/// `None` in place of a file. This is deliberate: the warning record keeps
/// the option as the tree supplied it, where the surrounding compiler
/// demanded a file id for every warning-producing substitution and aborted
/// without one.
pub fn add_warnings(useless: &Vec<SubsInfo>, reports: &mut Vec<Report>)
    ensures
        report_set(final(reports)@) == report_set(old(reports)@).union(
            expected_reports(info_set(useless@)),
        ),
        report_views(old(reports)@).no_duplicates() ==> report_views(
            final(reports)@,
        ).no_duplicates(),
{
    let ghost r0 = reports@;
    let mut j: usize = 0;
    proof {
        assert(useless@.take(0) =~= Seq::<SubsInfo>::empty());
        assert forall|r: ReportV|
            !expected_reports(info_set(useless@.take(0))).contains(r) by {
            if expected_reports(info_set(useless@.take(0))).contains(r) {
                let i = choose|i: InfoV| #[trigger]
                    info_set(useless@.take(0)).contains(i) && ((i.contains_signal && r
                        == signal_report(i)) || (!i.is_artificial && r == artificial_report(i)));
                crate::info::lemma_info_set_contains(useless@.take(0), i);
            }
        }
        assert(report_set(reports@) =~= report_set(r0).union(
            expected_reports(info_set(useless@.take(0))),
        ));
    }
    while j < useless.len()
        invariant
            j <= useless@.len(),
            report_set(reports@) == report_set(r0).union(
                expected_reports(info_set(useless@.take(j as int))),
            ),
            report_views(r0).no_duplicates() ==> report_views(reports@).no_duplicates(),
        decreases useless@.len() - j,
    {
        let ghost pre_iter = reports@;
        let info = &useless[j];
        if info.contains_signal {
            let w = Report {
                code: ReportCode::UselessSubstitution,
                kind: WarningKind::ContainsSignals,
                subs_id: info.id,
                var_name: info.var_name.clone(),
                start: info.start,
                end: info.end,
                file_id: info.file_id,
                is_constant: info.is_constant,
            };
            proof {
                assert(w@ == signal_report(info@));
            }
            push_fresh(reports, w);
        }
        if !info.is_artificial {
            let w = Report {
                code: ReportCode::UselessSubstitution,
                kind: WarningKind::NotArtificial,
                subs_id: info.id,
                var_name: info.var_name.clone(),
                start: info.start,
                end: info.end,
                file_id: info.file_id,
                is_constant: info.is_constant,
            };
            proof {
                assert(w@ == artificial_report(info@));
            }
            push_fresh(reports, w);
        }
        proof {
            assert(useless@.take(j as int).push(useless@[j as int]) =~= useless@.take(j + 1));
            lemma_info_set_push(useless@.take(j as int), useless@[j as int]);
            lemma_expected_insert(info_set(useless@.take(j as int)), useless@[j as int]@);
            assert(report_set(reports@) =~= report_set(pre_iter).union(
                owed_reports(useless@[j as int]@),
            ));
            assert(report_set(reports@) =~= report_set(r0).union(
                expected_reports(info_set(useless@.take(j + 1))),
            ));
        }
        j += 1;
    }
    proof {
        assert(useless@.take(useless@.len() as int) =~= useless@);
    }
}

} // verus!
