//! Tip selection: one tip picked by a random draw, with its sections in
//! position order.

use vstd::prelude::*;
use vstd::string::*;
use crate::model::{AppError, Tip, TipRow, TipSection, TipSectionRow};
use crate::order::{sort_by, sorted_by};

verus! {

/// Tip sections in ascending position.
pub open spec fn tip_position_order() -> spec_fn(TipSectionRow, TipSectionRow) -> bool {
    |a: TipSectionRow, b: TipSectionRow| a.position <= b.position
}

/// Sections of the tip `tip_id`.
pub open spec fn tip_section_test(tip_id: i64) -> spec_fn(TipSectionRow) -> bool {
    |s: TipSectionRow| s.tip_id == tip_id
}

/// `t` shows the stored section `s`.
pub open spec fn shows_tip_section(t: TipSection, s: TipSectionRow) -> bool {
    &&& t.section_type == s.section_type
    &&& t.data1@ == s.data1@
    &&& t.data2@ == s.data2@
    &&& t.extra@ == s.extra@
}

/// The index of the tip that `draw` picks among `count` tips.
pub open spec fn drawn_index(count: int, draw: u64) -> int {
    draw as int % count
}

/// The tip that `draw` picks among `tips`, with its sections in ascending
/// position. With a uniform draw every tip is about equally likely. Having
/// no tip at all is a store failure.
pub fn random_tip(tips: &Vec<TipRow>, sections: &Vec<TipSectionRow>, draw: u64) -> (r: Result<
    Tip,
    AppError,
>)
    ensures
        match r {
            Err(e) => tips@.len() == 0 && e is DatabaseError,
            Ok(t) => {
                let row = tips@[drawn_index(tips@.len() as int, draw)];
                &&& tips@.len() > 0
                &&& t.id == row.id
                &&& t.title == row.title
                &&& exists|s: Seq<TipSectionRow>|
                    {
                        &&& sorted_by(s, tip_position_order())
                        &&& #[trigger] s.to_multiset() == sections@.filter(
                            tip_section_test(row.id),
                        ).to_multiset()
                        &&& t.sections@.len() == s.len()
                        &&& forall|i: int|
                            0 <= i < s.len() ==> shows_tip_section(#[trigger] t.sections@[i], s[i])
                    }
            },
        },
{
    if tips.len() == 0 {
        return Err(AppError::DatabaseError(String::from_str("no tip is stored")));
    }
    let index = (draw % (tips.len() as u64)) as usize;
    let row = &tips[index];
    let mut picked: Vec<TipSectionRow> = Vec::new();
    let mut i: usize = 0;
    while i < sections.len()
        invariant
            i <= sections@.len(),
            picked@ == sections@.take(i as int).filter(tip_section_test(row.id)),
        decreases sections@.len() - i,
    {
        let s = &sections[i];
        proof {
            assert(sections@.take(i + 1) =~= sections@.take(i as int).push(sections@[i as int]));
            sections@.take(i as int).lemma_filter_push(
                sections@[i as int],
                tip_section_test(row.id),
            );
        }
        if s.tip_id == row.id {
            picked.push(
                TipSectionRow {
                    id: s.id,
                    tip_id: s.tip_id,
                    position: s.position,
                    section_type: s.section_type,
                    data1: s.data1.clone(),
                    data2: s.data2.clone(),
                    extra: s.extra.clone(),
                },
            );
        }
        i += 1;
    }
    assert(sections@.take(sections@.len() as int) =~= sections@);
    let sorted = sort_by(
        picked,
        &(|a: &TipSectionRow, b: &TipSectionRow| -> (r: bool)
            ensures
                r == (a.position <= b.position),
            { a.position <= b.position }),
        Ghost(tip_position_order()),
    );
    let mut shown: Vec<TipSection> = Vec::new();
    let mut k: usize = 0;
    while k < sorted.len()
        invariant
            k <= sorted@.len(),
            shown@.len() == k,
            forall|m: int| 0 <= m < k ==> shows_tip_section(#[trigger] shown@[m], sorted@[m]),
        decreases sorted@.len() - k,
    {
        let s = &sorted[k];
        shown.push(
            TipSection {
                section_type: s.section_type,
                data1: s.data1.clone(),
                data2: s.data2.clone(),
                extra: s.extra.clone(),
            },
        );
        k += 1;
    }
    Ok(Tip { id: row.id, title: row.title.clone(), sections: shown })
}

} // verus!
