//! The printed form of the duplicate report.

use vstd::prelude::*;
use vstd::string::StringExecFns;
use crate::grouper::Group;
use crate::grouper::GroupRecord;
use crate::hex::hex_of;
use crate::hex::to_hex;

verus! {

/// The printed form of one duplicate group: a header naming the digest in
/// lowercase hex, each path on its own line, then a blank line.
pub open spec fn group_lines(g: GroupRecord) -> Seq<Seq<char>> {
    seq!["Duplicate hash "@ + hex_of(g.digest)] + g.paths + seq![Seq::<char>::empty()]
}

/// The printed form of the whole report, group after group.
pub open spec fn report_lines(groups: Seq<GroupRecord>) -> Seq<Seq<char>>
    decreases groups.len(),
{
    if groups.len() == 0 {
        Seq::empty()
    } else {
        report_lines(groups.drop_last()) + group_lines(groups.last())
    }
}

/// Render the report as the exact sequence of lines to print.
#[verifier::loop_isolation(false)]
pub fn render_report(report: &Vec<Group>) -> (lines: Vec<String>)
    ensures
        lines.deep_view() == report_lines(report.deep_view()),
{
    let ghost recs = report.deep_view();
    let mut lines: Vec<String> = Vec::new();
    proof {
        assert(recs.take(0) =~= Seq::<GroupRecord>::empty());
        assert(lines.deep_view() =~= report_lines(recs.take(0)));
    }
    let mut i: usize = 0;
    while i < report.len()
        invariant
            i <= report.len(),
            lines.deep_view() == report_lines(recs.take(i as int)),
        decreases report.len() - i,
    {
        let ghost before = lines.deep_view();
        let hex = to_hex(&report[i].digest);
        let header = String::from_str("Duplicate hash ").concat(hex.as_str());
        let ghost hdr = header@;
        proof {
            assert(hdr == "Duplicate hash "@ + hex_of(recs[i as int].digest));
        }
        lines.push(header);
        proof {
            assert(lines.deep_view() =~= before.push(hdr));
            assert(before.push(hdr) =~= before.push(hdr) + recs[i as int].paths.take(0));
        }
        let mut j: usize = 0;
        while j < report[i].paths.len()
            invariant
                i < report.len(),
                j <= report[i as int].paths.len(),
                lines.deep_view() == before.push(hdr) + recs[i as int].paths.take(j as int),
            decreases report[i as int].paths.len() - j,
        {
            let ghost mid = lines.deep_view();
            lines.push(report[i].paths[j].clone());
            proof {
                assert(lines.deep_view() =~= mid.push(recs[i as int].paths[j as int]));
                assert(lines.deep_view() =~= before.push(hdr) + recs[i as int].paths.take(
                    j + 1,
                ));
            }
            j += 1;
        }
        proof {
            assert(recs[i as int].paths.take(recs[i as int].paths.len() as int) =~= recs[
                i as int
            ].paths);
        }
        let ghost whole = lines.deep_view();
        lines.push(String::new());
        proof {
            assert(lines.deep_view() =~= whole.push(Seq::<char>::empty()));
            assert(lines.deep_view() =~= before + group_lines(recs[i as int]));
            assert(recs.take(i + 1).drop_last() =~= recs.take(i as int));
            assert(recs.take(i + 1).last() == recs[i as int]);
            assert(lines.deep_view() =~= report_lines(recs.take(i + 1)));
        }
        i += 1;
    }
    proof {
        assert(recs.take(recs.len() as int) =~= recs);
    }
    lines
}

} // verus!
