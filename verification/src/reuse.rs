//! Using compiled records again: which entry a record shape has, and which variant takes a record.
use vstd::prelude::*;

use crate::caches::FlowProgramEntry;
use crate::flow::{is_compiled, patch_views, CompiledFlowRecordProgram};
use crate::geometry::Pt;
use crate::record::{
    all_keep_layout, bound_texts, override_views, page_overrides, record_applies, FlowTextOverride,
};
use crate::text::{same, texts};

verus! {

broadcast use vstd::string::group_string_axioms;

// ---------------------------------------------------------------------------------------------
// Entries by record shape
// ---------------------------------------------------------------------------------------------
/// The entries of all record shapes, each under its key.
pub struct FlowPrograms {
    pub entries: Vec<(String, FlowProgramEntry)>,
}

impl FlowPrograms {
    /// The place of the entry under a key, from place `i` on.
    pub open spec fn place_from(self, key: Seq<char>, i: int) -> Option<int>
        decreases self.entries@.len() - i,
    {
        if i < 0 || i >= self.entries@.len() {
            None
        } else if self.entries@[i].0@ == key {
            Some(i)
        } else {
            self.place_from(key, i + 1)
        }
    }

    /// No record shape yet.
    pub fn new() -> (p: Self)
        ensures
            p.entries@.len() == 0,
    {
        FlowPrograms { entries: Vec::new() }
    }

    /// The place of the entry under a key; an entry without variants is added where there is none.
    pub fn flow_program_entry(&mut self, key: &str) -> (r: usize)
        ensures
            match old(self).place_from(key@, 0) {
                Some(i) => r == i && *final(self) == *old(self),
                None => {
                    &&& r == old(self).entries@.len()
                    &&& final(self).entries@.len() == r + 1
                    &&& final(self).entries@.take(r as int) == old(self).entries@
                    &&& final(self).entries@[r as int].0@ == key@
                    &&& final(self).entries@[r as int].1 == (FlowProgramEntry {
                        variants: 0,
                        compiling: false,
                    })
                },
            },
            final(self).place_from(key@, 0) == Some(r as int),
    {
        let ghost start = *self;
        let mut i: usize = 0;
        while i < self.entries.len()
            invariant
                i <= self.entries@.len(),
                *self == start,
                self.place_from(key@, 0) == self.place_from(key@, i as int),
            decreases self.entries@.len() - i,
        {
            if same(&self.entries[i].0, key) {
                return i;
            }
            i += 1;
        }
        self.entries.push((key.to_owned(), FlowProgramEntry { variants: 0, compiling: false }));
        proof {
            assert(self.entries@.take(i as int) =~= start.entries@);
            added_is_found(start, *self, key@, 0);
        }
        i
    }
}

proof fn added_is_found(a: FlowPrograms, b: FlowPrograms, key: Seq<char>, i: int)
    requires
        0 <= i <= a.entries@.len(),
        b.entries@.len() == a.entries@.len() + 1,
        b.entries@.take(a.entries@.len() as int) == a.entries@,
        b.entries@.last().0@ == key,
        a.place_from(key, i) is None,
    ensures
        b.place_from(key, i) == Some(a.entries@.len() as int),
    decreases a.entries@.len() - i,
{
    if i < a.entries@.len() {
        assert(b.entries@.take(a.entries@.len() as int)[i] == b.entries@[i]);
        added_is_found(a, b, key, i + 1);
    }
}

// ---------------------------------------------------------------------------------------------
// Variants of one shape
// ---------------------------------------------------------------------------------------------
/// The widths of the old and of the new texts of a variant's patches.
pub struct MeasuredTexts {
    pub before: Vec<Pt>,
    pub after: Vec<Pt>,
}

/// A variant takes the values of a record.
pub open spec fn takes(
    p: CompiledFlowRecordProgram,
    m: MeasuredTexts,
    values: Seq<Seq<char>>,
) -> bool {
    &&& record_applies(p, values)
    &&& all_keep_layout(patch_views(p.patches@), bound_texts(p, values), m.before@, m.after@)
}

/// The place of the first variant that takes the values of a record, from place `i` on.
pub open spec fn first_taking(
    programs: Seq<CompiledFlowRecordProgram>,
    measured: Seq<MeasuredTexts>,
    values: Seq<Seq<char>>,
    i: int,
) -> Option<int>
    decreases programs.len() - i,
{
    if i < 0 || i >= programs.len() {
        None
    } else if takes(programs[i], measured[i], values) {
        Some(i)
    } else {
        first_taking(programs, measured, values, i + 1)
    }
}

/// Every variant is sound, and all texts of its patches were measured.
pub open spec fn are_measured(
    programs: Seq<CompiledFlowRecordProgram>,
    measured: Seq<MeasuredTexts>,
) -> bool {
    &&& measured.len() == programs.len()
    &&& forall|i: int|
        0 <= i < programs.len() ==> {
            &&& is_compiled(#[trigger] programs[i])
            &&& measured[i].before@.len() == programs[i].patches@.len()
            &&& measured[i].after@.len() == programs[i].patches@.len()
        }
}

/// The drawn texts that change when a variant takes the values of a record, page by page.
pub open spec fn are_overrides(
    p: CompiledFlowRecordProgram,
    m: MeasuredTexts,
    values: Seq<Seq<char>>,
    pages: Seq<Vec<FlowTextOverride>>,
) -> bool {
    let patches = patch_views(p.patches@);
    &&& pages.len() == p.document.pages@.len()
    &&& forall|k: int|
        0 <= k < pages.len() ==> override_views((#[trigger] pages[k])@) == page_overrides(
            p.document@,
            patches,
            bound_texts(p, values),
            m.before@,
            m.after@,
            k,
            patches.len() as int,
        )
}

/// Fills the values of a record into the first variant that takes them.
pub fn instantiate_first(
    programs: &Vec<CompiledFlowRecordProgram>,
    measured: &Vec<MeasuredTexts>,
    values: &Vec<String>,
) -> (r: Option<(usize, Vec<Vec<FlowTextOverride>>)>)
    requires
        are_measured(programs@, measured@),
    ensures
        match first_taking(programs@, measured@, texts(values@), 0) {
            Some(i) => r matches Some((k, pages)) && k == i && are_overrides(
                programs@[i],
                measured@[i],
                texts(values@),
                pages@,
            ),
            None => r is None,
        },
{
    let mut i: usize = 0;
    while i < programs.len()
        invariant
            i <= programs@.len(),
            are_measured(programs@, measured@),
            first_taking(programs@, measured@, texts(values@), 0) == first_taking(
                programs@,
                measured@,
                texts(values@),
                i as int,
            ),
        decreases programs@.len() - i,
    {
        proof {
            assert(is_compiled(programs@[i as int]));
        }
        let filled = programs[i].instantiate(values, &measured[i].before, &measured[i].after);
        match filled {
            Some(pages) => {
                return Some((i, pages));
            },
            None => {},
        }
        i += 1;
    }
    None
}

/// The values of a record go into the first variant that takes them: no earlier one does, and where
/// none is found, none does.
pub proof fn first_variant_takes(
    programs: Seq<CompiledFlowRecordProgram>,
    measured: Seq<MeasuredTexts>,
    values: Seq<Seq<char>>,
    i: int,
)
    requires
        0 <= i <= programs.len(),
    ensures
        match first_taking(programs, measured, values, i) {
            Some(k) => {
                &&& i <= k < programs.len()
                &&& takes(programs[k], measured[k], values)
                &&& forall|j: int|
                    i <= j < k ==> !takes(#[trigger] programs[j], measured[j], values)
            },
            None => forall|j: int|
                i <= j < programs.len() ==> !takes(#[trigger] programs[j], measured[j], values),
        },
    decreases programs.len() - i,
{
    if i < programs.len() && !takes(programs[i], measured[i], values) {
        first_variant_takes(programs, measured, values, i + 1);
    }
}

} // verus!
