//! Startup schema check and the statistics counts.

use vstd::prelude::*;
use vstd::string::*;
use crate::model::AppStats;
use crate::text::views;

verus! {

/// The tables that the readers use.
pub open spec fn required_tables() -> Seq<Seq<char>> {
    seq![
        "Command"@,
        "CommandSection"@,
        "Tip"@,
        "TipSection"@,
        "BasicCategory"@,
        "BasicGroup"@,
        "BasicCommand"@,
    ]
}

/// The tables that the readers use.
pub fn required_table_names() -> (r: Vec<&'static str>)
    ensures
        r@.len() == required_tables().len(),
        forall|i: int| 0 <= i < r@.len() ==> (#[trigger] r@[i])@ == required_tables()[i],
{
    let r = vec![
        "Command",
        "CommandSection",
        "Tip",
        "TipSection",
        "BasicCategory",
        "BasicGroup",
        "BasicCommand",
    ];
    assert(r@.len() == 7);
    r
}

/// Which required tables the store has and which it lacks, each in the
/// order of `required_tables`.
#[derive(Clone, Debug, PartialEq, Eq)]
pub struct SchemaReport {
    pub present: Vec<String>,
    pub missing: Vec<String>,
}

/// A table named `t` is among `existing`.
pub open spec fn has_table(existing: Seq<String>, t: Seq<char>) -> bool {
    exists|i: int| 0 <= i < existing.len() && #[trigger] existing[i]@ == t
}

/// Required tables that the store has.
pub open spec fn present_test(existing: Seq<String>) -> spec_fn(Seq<char>) -> bool {
    |t: Seq<char>| has_table(existing, t)
}

/// Required tables that the store lacks.
pub open spec fn missing_test(existing: Seq<String>) -> spec_fn(Seq<char>) -> bool {
    |t: Seq<char>| !has_table(existing, t)
}

/// Sorts the required tables by whether `existing`, the names of the
/// store's tables, holds them. A missing table is reported, never fatal.
pub fn check_schema(existing: &Vec<String>) -> (r: SchemaReport)
    ensures
        views(r.present@) == required_tables().filter(present_test(existing@)),
        views(r.missing@) == required_tables().filter(missing_test(existing@)),
{
    let names = required_table_names();
    let ghost req = required_tables();
    assert(names@.len() == req.len());
    let mut present: Vec<String> = Vec::new();
    let mut missing: Vec<String> = Vec::new();
    let mut i: usize = 0;
    while i < names.len()
        invariant
            i <= names@.len(),
            names@.len() == req.len(),
            req == required_tables(),
            forall|k: int| 0 <= k < names@.len() ==> (#[trigger] names@[k])@ == req[k],
            views(present@) == req.take(i as int).filter(present_test(existing@)),
            views(missing@) == req.take(i as int).filter(missing_test(existing@)),
        decreases names@.len() - i,
    {
        let wanted = String::from_str(names[i]);
        let mut found = false;
        let mut j: usize = 0;
        while j < existing.len()
            invariant
                j <= existing@.len(),
                found == exists|k: int| 0 <= k < j && #[trigger] existing@[k]@ == wanted@,
            decreases existing@.len() - j,
        {
            if existing[j] == wanted {
                found = true;
            }
            j += 1;
        }
        assert(found == has_table(existing@, req[i as int]));
        proof {
            assert(req.take(i + 1) =~= req.take(i as int).push(req[i as int]));
            req.take(i as int).lemma_filter_push(req[i as int], present_test(existing@));
            req.take(i as int).lemma_filter_push(req[i as int], missing_test(existing@));
        }
        let ghost old_present = present@;
        let ghost old_missing = missing@;
        if found {
            present.push(wanted);
            assert(views(present@) =~= views(old_present).push(req[i as int]));
        } else {
            missing.push(wanted);
            assert(views(missing@) =~= views(old_missing).push(req[i as int]));
        }
        i += 1;
    }
    assert(req.take(req.len() as int) =~= req);
    SchemaReport { present, missing }
}

impl AppStats {
    /// The statistics from the store's counts. Both category totals are
    /// the count of browsing categories; the count of distinct legacy
    /// categories is not reported.
    pub fn from_counts(total_commands: i64, total_tips: i64, total_basic_categories: i64) -> (r:
        AppStats)
        ensures
            r.total_commands == total_commands,
            r.total_categories == total_basic_categories,
            r.total_tips == total_tips,
            r.total_basic_categories == total_basic_categories,
    {
        AppStats {
            total_commands,
            total_categories: total_basic_categories,
            total_tips,
            total_basic_categories,
        }
    }
}

} // verus!
