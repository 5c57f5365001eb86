//! Compiled documents: what is laid out once and then filled with the values of many records.
use vstd::prelude::*;

use crate::bindings::{
    collect_binding_slots, column_fault, column_is_first, is_sorted, ordered_columns_for_slots,
    place, some_names, tells, Column,
};
use crate::builder::FullBleed;
use crate::command::{Document, DocumentView};
use crate::documents::{command_total, count_commands, FullBleedError};
use crate::engine::{copy_options, same_options};
use crate::geometry::Size;
use crate::settings::{CompiledReflowOptions, PdfOptions};
use crate::text::texts;

verus! {

broadcast use vstd::string::group_string_axioms;

/// What is said when no text of a page has a slot.
pub const NO_PAGE_SLOTS: &'static str = "compiled document has no page-local {{slot}} text bindings";

/// What is said when no text of the document has a slot.
pub const NO_REFLOW_SLOTS: &'static str = "compiled document has no reflow-capable {{slot}} text bindings";

/// What is said when the slots of the pages were not compiled.
pub const NO_BINDING_PLAN: &'static str = "compiled document has no binding command plan";

/// The compiled slots of the pages.
pub struct BindingProgram {
    pub page_count: usize,
    pub command_count: usize,
}

/// The compiled slots of the document before it was laid out.
pub struct ReflowTemplate {
    pub slot_names: Vec<String>,
    pub node_count: usize,
    pub binding_text_node_count: usize,
    pub html_binding_node_count: usize,
}

/// A compiled document.
pub struct CompiledDocument {
    pub document: Document,
    pub pdf_options: PdfOptions,
    pub compile_nanos: u64,
    pub command_count: usize,
    pub binding_slots: Vec<String>,
    pub binding_plan: Option<Result<BindingProgram, String>>,
    pub reflow_plan: Option<Result<ReflowTemplate, String>>,
}

/// One of the first `n` pages draws a text with a slot called `name`.
pub open spec fn pages_name(d: DocumentView, n: int, name: Seq<char>) -> bool {
    exists|p: int| 0 <= p < n && some_names(#[trigger] d.pages[p], d.pages[p].len() as int, name)
}

/// The slots are those that some page draws, in order.
pub open spec fn are_slots(d: DocumentView, slots: Seq<Seq<char>>) -> bool {
    &&& is_sorted(slots)
    &&& forall|x: Seq<char>| #[trigger]
        slots.contains(x) <==> pages_name(d, d.pages.len() as int, x)
}

/// What is kept of a template: nothing where it has no slot.
pub open spec fn kept_template(t: Result<ReflowTemplate, String>) -> Option<
    Result<ReflowTemplate, String>,
> {
    match t {
        Ok(template) => if template.slot_names@.len() == 0 {
            None
        } else {
            Some(Ok(template))
        },
        Err(e) => Some(Err(e)),
    }
}

impl CompiledDocument {
    /// The counts and slots are those of the document, and slots were compiled if there are any.
    pub open spec fn is_valid(self) -> bool {
        &&& self.command_count == command_total(
            self.document@,
            self.document.pages@.len() as int,
        )
        &&& are_slots(self.document@, texts(self.binding_slots@))
        &&& self.binding_plan is Some <==> self.binding_slots@.len() > 0
        &&& self.reflow_plan matches Some(Ok(t)) ==> t.slot_names@.len() > 0
    }
}

fn slots_of(document: &Document) -> (slots: Vec<String>)
    ensures
        are_slots(document@, texts(slots@)),
{
    let mut slots: Vec<String> = Vec::new();
    let ghost d = document@;
    proof {
        assert(texts(slots@) =~= Seq::empty());
    }
    let mut p: usize = 0;
    while p < document.pages.len()
        invariant
            p <= document.pages@.len(),
            d == document@,
            is_sorted(texts(slots@)),
            forall|x: Seq<char>| #[trigger]
                texts(slots@).contains(x) <==> pages_name(d, p as int, x),
        decreases document.pages@.len() - p,
    {
        let ghost held = texts(slots@);
        collect_binding_slots(&document.pages[p].commands, &mut slots);
        proof {
            let page = d.pages[p as int];
            assert(page == crate::command::models(document.pages@[p as int].commands@));
            assert forall|x: Seq<char>| #[trigger] texts(slots@).contains(x) <==> pages_name(
                d,
                p + 1,
                x,
            ) by {
                assert(held.contains(x) <==> pages_name(d, p as int, x));
                if pages_name(d, p as int, x) {
                    let k = choose|k: int|
                        0 <= k < p && some_names(#[trigger] d.pages[k], d.pages[k].len() as int, x);
                    assert(some_names(d.pages[k], d.pages[k].len() as int, x));
                }
                if some_names(page, page.len() as int, x) {
                    assert(pages_name(d, p + 1, x));
                }
            }
        }
        p += 1;
    }
    slots
}

impl FullBleed {
    /// Compiles a document that was laid out: counts its commands, collects its slots, and has them
    /// compiled where there are any. `template` is what came of compiling the slots of the document
    /// before it was laid out; it is kept where it has slots, or where that failed.
    pub fn compile_document<F>(
        &self,
        document: Document,
        elapsed_nanos: u128,
        template: Result<ReflowTemplate, String>,
        compile: F,
    ) -> (r: CompiledDocument) where
        F: Fn(&Document, &Vec<String>) -> Result<BindingProgram, String>,

        requires
            command_total(document@, document.pages@.len() as int) <= usize::MAX,
            forall|d: &Document, s: &Vec<String>| #[trigger] call_requires(compile, (d, s)),
        ensures
            r.is_valid(),
            r.document == document,
            same_options(r.pdf_options, self.pdf_options),
            r.compile_nanos == (if elapsed_nanos <= u64::MAX {
                elapsed_nanos as int
            } else {
                u64::MAX as int
            }),
            r.binding_plan matches Some(plan) ==> call_ensures(
                compile,
                (&document, &r.binding_slots),
                plan,
            ),
            r.reflow_plan == kept_template(template),
    {
        let command_count: usize = count_commands(&document);
        let binding_slots = slots_of(&document);
        let binding_plan = if binding_slots.len() > 0 {
            Some(compile(&document, &binding_slots))
        } else {
            None
        };
        let reflow_plan = match template {
            Ok(t) => if t.slot_names.len() == 0 {
                None
            } else {
                Some(Ok(t))
            },
            Err(e) => Some(Err(e)),
        };
        let compile_nanos: u64 = if elapsed_nanos <= 0xffff_ffff_ffff_ffff {
            elapsed_nanos as u64
        } else {
            u64::MAX
        };
        CompiledDocument {
            document,
            pdf_options: copy_options(&self.pdf_options),
            compile_nanos,
            command_count,
            binding_slots,
            binding_plan,
            reflow_plan,
        }
    }
}

/// A bound on the bytes that `records` records take, of `per_record` bytes each.
pub open spec fn size_hint(records: int, per_record: int) -> int {
    let product = if records * per_record > usize::MAX {
        usize::MAX as int
    } else {
        records * per_record
    };
    if product + 65_536 > usize::MAX {
        usize::MAX as int
    } else {
        product + 65_536
    }
}

fn estimate(records: usize, per_record: usize) -> (r: usize)
    ensures
        r == size_hint(records as int, per_record as int),
{
    let product: usize = match records.checked_mul(per_record) {
        Some(n) => n,
        None => usize::MAX,
    };
    product.saturating_add(65_536)
}

/// Records to be filled into a document: how many, which column each slot takes, and a guess at
/// the size of the output.
pub struct BindingJob {
    pub record_count: usize,
    pub order: Vec<usize>,
    pub estimated_bytes: usize,
}

/// Columns are in the order of the slots, and each has `count` values.
pub open spec fn is_ordered(
    slots: Seq<Seq<char>>,
    columns: Seq<Column>,
    count: int,
    order: Seq<usize>,
) -> bool {
    &&& order.len() == slots.len()
    &&& forall|i: int|
        0 <= i < slots.len() ==> {
            &&& place(columns, slots[i]) == Some((#[trigger] order[i]) as int)
            &&& order[i] < columns.len()
            &&& columns[order[i] as int].values@.len() == count
        }
}

/// An error is a refusal with this message.
pub open spec fn says(e: FullBleedError, message: Seq<char>) -> bool {
    e matches FullBleedError::InvalidConfiguration(text) && text@ == message
}

/// A reflow of records: the page size and the settings of the output besides.
pub struct ReflowJob {
    pub job: BindingJob,
    pub page_size: Size,
    pub pdf_options: PdfOptions,
}

impl CompiledDocument {
    /// How many pages there are.
    pub fn page_count(&self) -> (r: usize)
        ensures
            r == self.document.pages@.len(),
    {
        self.document.pages.len()
    }

    /// How many commands there are.
    pub fn command_count(&self) -> (r: usize)
        ensures
            r == self.command_count,
    {
        self.command_count
    }

    /// The slots that the pages draw.
    pub fn binding_slots(&self) -> (r: &[String])
        ensures
            r@ == self.binding_slots@,
    {
        self.binding_slots.as_slice()
    }

    /// How many pages the compiled slots stand on.
    pub fn binding_program_page_count(&self) -> (r: usize)
        ensures
            r == (match self.binding_plan {
                Some(Ok(plan)) => plan.page_count,
                _ => 0,
            }),
    {
        match &self.binding_plan {
            Some(Ok(plan)) => plan.page_count,
            _ => 0,
        }
    }

    /// How many commands the compiled slots take.
    pub fn binding_program_command_count(&self) -> (r: usize)
        ensures
            r == (match self.binding_plan {
                Some(Ok(plan)) => plan.command_count,
                _ => 0,
            }),
    {
        match &self.binding_plan {
            Some(Ok(plan)) => plan.command_count,
            _ => 0,
        }
    }

    /// The slots of the document before it was laid out.
    pub fn reflow_binding_slots(&self) -> (r: &[String])
        ensures
            r@ == (match self.reflow_plan {
                Some(Ok(plan)) => plan.slot_names@,
                _ => Seq::empty(),
            }),
    {
        match &self.reflow_plan {
            Some(Ok(plan)) => plan.slot_names.as_slice(),
            _ => &[],
        }
    }

    /// How many nodes the template has.
    pub fn reflow_program_node_count(&self) -> (r: usize)
        ensures
            r == (match self.reflow_plan {
                Some(Ok(plan)) => plan.node_count,
                _ => 0,
            }),
    {
        match &self.reflow_plan {
            Some(Ok(plan)) => plan.node_count,
            _ => 0,
        }
    }

    /// How many text nodes of the template hold a slot.
    pub fn reflow_program_binding_text_node_count(&self) -> (r: usize)
        ensures
            r == (match self.reflow_plan {
                Some(Ok(plan)) => plan.binding_text_node_count,
                _ => 0,
            }),
    {
        match &self.reflow_plan {
            Some(Ok(plan)) => plan.binding_text_node_count,
            _ => 0,
        }
    }

    /// How many nodes of the template take HTML from a slot.
    pub fn reflow_program_html_binding_node_count(&self) -> (r: usize)
        ensures
            r == (match self.reflow_plan {
                Some(Ok(plan)) => plan.html_binding_node_count,
                _ => 0,
            }),
    {
        match &self.reflow_plan {
            Some(Ok(plan)) => plan.html_binding_node_count,
            _ => 0,
        }
    }

    /// Whether records can be laid out anew.
    pub fn reflow_program_ready(&self) -> (r: bool)
        ensures
            r == (self.reflow_plan matches Some(Ok(_))),
    {
        match &self.reflow_plan {
            Some(Ok(_)) => true,
            _ => false,
        }
    }

    /// Why records cannot be laid out anew.
    pub fn reflow_program_error(&self) -> (r: Option<&str>)
        ensures
            match self.reflow_plan {
                Some(Err(e)) => r matches Some(text) && text@ == e@,
                _ => r is None,
            },
    {
        match &self.reflow_plan {
            Some(Err(e)) => Some(e.as_str()),
            _ => None,
        }
    }

    /// The template, or why there is none.
    pub fn compiled_reflow_plan(&self) -> (r: Result<&ReflowTemplate, FullBleedError>)
        ensures
            match self.reflow_plan {
                Some(Ok(plan)) => r matches Ok(t) && *t == plan,
                Some(Err(e)) => r matches Err(x) && says(x, e@),
                None => r matches Err(x) && says(x, NO_REFLOW_SLOTS@),
            },
    {
        match &self.reflow_plan {
            Some(Ok(plan)) => Ok(plan),
            Some(Err(e)) => Err(FullBleedError::InvalidConfiguration(e.clone())),
            None => Err(FullBleedError::InvalidConfiguration(NO_REFLOW_SLOTS.to_owned())),
        }
    }

    /// Prepares to draw the document `copies` times: there must be something to draw.
    pub fn check_copies(&self, copies: usize) -> (r: Result<usize, FullBleedError>)
        ensures
            copies == 0 ==> r matches Err(FullBleedError::EmptyDocumentSet),
            copies > 0 ==> r == Ok::<usize, FullBleedError>(copies),
    {
        if copies == 0 {
            Err(FullBleedError::EmptyDocumentSet)
        } else {
            Ok(copies)
        }
    }

    /// Prepares to fill records into the pages as they are laid out.
    pub fn binding_job(&self, columns: &Vec<Column>) -> (r: Result<BindingJob, FullBleedError>)
        ensures
            match column_fault(texts(self.binding_slots@), columns@) {
                Some(fault) => r matches Err(e) && tells(
                    texts(self.binding_slots@),
                    columns@,
                    NO_PAGE_SLOTS@,
                    fault,
                    e,
                ),
                None => match self.binding_plan {
                    None => r matches Err(e) && says(e, NO_BINDING_PLAN@),
                    Some(Err(text)) => r matches Err(e) && says(e, text@),
                    Some(Ok(_)) => r matches Ok(job) && is_binding_job(*self, columns@, job),
                },
            },
    {
        match ordered_columns_for_slots(&self.binding_slots, columns, NO_PAGE_SLOTS) {
            Err(e) => Err(e),
            Ok((record_count, order)) => match &self.binding_plan {
                None => Err(FullBleedError::InvalidConfiguration(NO_BINDING_PLAN.to_owned())),
                Some(Err(text)) => Err(FullBleedError::InvalidConfiguration(text.clone())),
                Some(Ok(_)) => {
                    let estimated_bytes: usize = estimate(record_count, 512);
                    Ok(BindingJob { record_count, order, estimated_bytes })
                },
            },
        }
    }

    /// Prepares to lay records out anew. `first_page` is the size of the first page template,
    /// where there is one.
    pub fn reflow_job(
        &self,
        columns: &Vec<Column>,
        options: CompiledReflowOptions,
        cancelled: bool,
        first_page: Option<Size>,
    ) -> (r: Result<ReflowJob, FullBleedError>)
        ensures
            match self.reflow_plan {
                None => r matches Err(e) && says(e, NO_REFLOW_SLOTS@),
                Some(Err(text)) => r matches Err(e) && says(e, text@),
                Some(Ok(plan)) => match column_fault(texts(plan.slot_names@), columns@) {
                    Some(fault) => r matches Err(e) && tells(
                        texts(plan.slot_names@),
                        columns@,
                        NO_REFLOW_SLOTS@,
                        fault,
                        e,
                    ),
                    None => if cancelled {
                        r matches Err(FullBleedError::Cancelled)
                    } else if first_page is None {
                        r matches Err(FullBleedError::MissingPageTemplate)
                    } else {
                        r matches Ok(x) && x.job.record_count > 0 && is_ordered(
                            texts(plan.slot_names@),
                            columns@,
                            x.job.record_count as int,
                            x.job.order@,
                        ) && x.job.estimated_bytes == size_hint(x.job.record_count as int, 4096)
                            && Some(x.page_size) == first_page && same_options(
                            x.pdf_options,
                            PdfOptions { compression: options.compression, ..self.pdf_options },
                        )
                    },
                },
            },
    {
        let plan = match self.compiled_reflow_plan() {
            Ok(plan) => plan,
            Err(e) => {
                return Err(e);
            },
        };
        match ordered_columns_for_slots(&plan.slot_names, columns, NO_REFLOW_SLOTS) {
            Err(e) => Err(e),
            Ok((record_count, order)) => if cancelled {
                Err(FullBleedError::Cancelled)
            } else {
                match first_page {
                    None => Err(FullBleedError::MissingPageTemplate),
                    Some(page_size) => {
                        let estimated_bytes: usize = estimate(record_count, 4096);
                        let mut pdf_options = copy_options(&self.pdf_options);
                        pdf_options.compression = options.compression;
                        Ok(
                            ReflowJob {
                                job: BindingJob { record_count, order, estimated_bytes },
                                page_size,
                                pdf_options,
                            },
                        )
                    },
                }
            },
        }
    }
}

/// What came of writing records into a document.
pub enum WriteOutcome<E> {
    /// So many bytes were written.
    Done(usize),
    /// The writer was interrupted between two records.
    Interrupted,
    /// The writer failed.
    Failed(E),
}

/// Why a job gave nothing.
#[derive(Debug)]
pub enum JobError<E> {
    /// The engine refused it.
    Refused(FullBleedError),
    /// The writer failed.
    Failed(E),
}

/// What a job gives: the bytes that were written. A writer that was interrupted means that the job
/// was called off.
pub open spec fn ends<E>(outcome: WriteOutcome<E>, r: Result<usize, JobError<E>>) -> bool {
    match outcome {
        WriteOutcome::Done(bytes) => r == Ok::<usize, JobError<E>>(bytes),
        WriteOutcome::Interrupted => r == Err::<usize, JobError<E>>(
            JobError::Refused(FullBleedError::Cancelled),
        ),
        WriteOutcome::Failed(e) => r == Err::<usize, JobError<E>>(JobError::Failed(e)),
    }
}

/// What a job gives once its records have been written.
pub fn write_result<E>(outcome: WriteOutcome<E>) -> (r: Result<usize, JobError<E>>)
    ensures
        ends(outcome, r),
{
    match outcome {
        WriteOutcome::Done(bytes) => Ok(bytes),
        WriteOutcome::Interrupted => Err(JobError::Refused(FullBleedError::Cancelled)),
        WriteOutcome::Failed(e) => Err(JobError::Failed(e)),
    }
}

/// A job fills every slot of the pages with a column, record by record.
pub open spec fn is_binding_job(
    c: CompiledDocument,
    columns: Seq<Column>,
    job: BindingJob,
) -> bool {
    &&& job.record_count > 0
    &&& is_ordered(texts(c.binding_slots@), columns, job.record_count as int, job.order@)
    &&& job.estimated_bytes == size_hint(job.record_count as int, 512)
}

impl CompiledDocument {
    /// Fills records into the pages as they are laid out. `write` writes the records of a job, and
    /// looks between them whether it was called off.
    pub fn render_bindings<E, W: Fn(&BindingJob) -> WriteOutcome<E>>(
        &self,
        columns: &Vec<Column>,
        write: W,
    ) -> (r: Result<usize, JobError<E>>)
        requires
            forall|job: &BindingJob| #[trigger] call_requires(write, (job,)),
        ensures
            match column_fault(texts(self.binding_slots@), columns@) {
                Some(fault) => r matches Err(JobError::Refused(e)) && tells(
                    texts(self.binding_slots@),
                    columns@,
                    NO_PAGE_SLOTS@,
                    fault,
                    e,
                ),
                None => match self.binding_plan {
                    None => r matches Err(JobError::Refused(e)) && says(e, NO_BINDING_PLAN@),
                    Some(Err(text)) => r matches Err(JobError::Refused(e)) && says(e, text@),
                    Some(Ok(_)) => exists|job: BindingJob, outcome: WriteOutcome<E>|
                        is_binding_job(*self, columns@, job) && #[trigger] call_ensures(
                            write,
                            (&job,),
                            outcome,
                        ) && ends(outcome, r),
                },
            },
    {
        match self.binding_job(columns) {
            Err(e) => Err(JobError::Refused(e)),
            Ok(job) => {
                let outcome = write(&job);
                let ghost given = outcome;
                let r = write_result(outcome);
                proof {
                    assert(is_binding_job(*self, columns@, job));
                    assert(call_ensures(write, (&job,), given));
                    assert(ends(given, r));
                }
                r
            },
        }
    }
}

/// A valid compiled document always has a compiled plan to go with its slots, so only the columns
/// or the compilation itself can refuse a job.
pub proof fn slots_have_a_plan(c: CompiledDocument, columns: Seq<Column>)
    requires
        c.is_valid(),
        column_fault(texts(c.binding_slots@), columns) is None,
    ensures
        c.binding_plan is Some,
{
}

/// Every slot takes the first column that bears its name, and each of these columns has a value for
/// every record.
pub proof fn columns_go_to_their_slots(
    slots: Seq<Seq<char>>,
    columns: Seq<Column>,
    count: int,
    order: Seq<usize>,
    i: int,
)
    requires
        is_ordered(slots, columns, count, order),
        0 <= i < slots.len(),
    ensures
        order[i] < columns.len(),
        columns[order[i] as int].slot@ == slots[i],
        columns[order[i] as int].values@.len() == count,
        forall|j: int| 0 <= j < order[i] ==> (#[trigger] columns[j]).slot@ != slots[i],
{
    assert(place(columns, slots[i]) == Some(order[i] as int));
    column_is_first(columns, columns.len() as int, slots[i]);
}

/// The guess at a size never falls short of the records and of the least that a file takes, as far
/// as it can be counted.
pub proof fn guesses_cover_the_records(records: int, per_record: int)
    requires
        0 <= records,
        0 <= per_record,
    ensures
        size_hint(records, per_record) <= usize::MAX,
        records * per_record + 65_536 <= usize::MAX ==> size_hint(records, per_record) == records
            * per_record + 65_536,
        records * per_record + 65_536 > usize::MAX ==> size_hint(records, per_record) == usize::MAX,
{
    assert(records * per_record >= 0) by (nonlinear_arith)
        requires
            0 <= records,
            0 <= per_record,
    ;
}

} // verus!
