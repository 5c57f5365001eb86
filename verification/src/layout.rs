//! Layout passes: how often a document is laid out, and when it has settled.
use vstd::prelude::*;

use crate::command::{emit, models, Command, CommandView};
use crate::geometry::{pt, Color, Pt, Real, Rect};
use crate::shrink::META_HTML_CANVAS_BACKGROUND_KEY;
use crate::text::same;

verus! {

broadcast use vstd::string::group_string_axioms;

/// Whether a document is laid out once, or until it settles.
#[derive(Clone, Copy, Debug, PartialEq, Eq, Structural)]
pub enum LayoutStrategy {
    Eager,
    Lazy,
}

/// The name of a layout strategy.
pub fn layout_strategy_str(strategy: LayoutStrategy) -> (r: &'static str)
    ensures
        strategy == LayoutStrategy::Eager ==> r@ == "eager"@,
        strategy == LayoutStrategy::Lazy ==> r@ == "lazy"@,
{
    match strategy {
        LayoutStrategy::Eager => "eager",
        LayoutStrategy::Lazy => "lazy",
    }
}

/// How many passes a strategy allows.
pub open spec fn pass_limit(strategy: LayoutStrategy, lazy_max_passes: int) -> int {
    match strategy {
        LayoutStrategy::Eager => 1,
        LayoutStrategy::Lazy => if lazy_max_passes < 1 {
            1
        } else {
            lazy_max_passes
        },
    }
}

/// How many passes a strategy allows.
pub fn layout_pass_limit(strategy: LayoutStrategy, lazy_max_passes: usize) -> (r: usize)
    ensures
        r == pass_limit(strategy, lazy_max_passes as int),
{
    match strategy {
        LayoutStrategy::Eager => 1,
        LayoutStrategy::Lazy => if lazy_max_passes < 1 {
            1
        } else {
            lazy_max_passes
        },
    }
}

/// The targets of a list name the same pages as those of another.
pub open spec fn same_targets(a: Seq<(String, usize)>, b: Seq<(String, usize)>) -> bool {
    &&& a.len() == b.len()
    &&& forall|i: int| 0 <= i < a.len() ==> target_in(b, (#[trigger] a[i]).0@, a[i].1)
}

/// A list names this page for this id.
pub open spec fn target_in(list: Seq<(String, usize)>, id: Seq<char>, page: usize) -> bool {
    exists|k: int| 0 <= k < list.len() && (#[trigger] list[k]).0@ == id && list[k].1 == page
}

fn has_target(list: &Vec<(String, usize)>, id: &str, page: usize) -> (r: bool)
    ensures
        r == target_in(list@, id@, page),
{
    let mut k: usize = 0;
    while k < list.len()
        invariant
            k <= list@.len(),
            forall|m: int|
                0 <= m < k ==> !((#[trigger] list@[m]).0@ == id@ && list@[m].1 == page),
        decreases list@.len() - k,
    {
        if list[k].1 == page && same(&list[k].0, id) {
            return true;
        }
        k += 1;
    }
    false
}

fn targets_equal(a: &Vec<(String, usize)>, b: &Vec<(String, usize)>) -> (r: bool)
    ensures
        r == same_targets(a@, b@),
{
    if a.len() != b.len() {
        return false;
    }
    let mut i: usize = 0;
    while i < a.len()
        invariant
            i <= a@.len(),
            a@.len() == b@.len(),
            forall|k: int| 0 <= k < i ==> target_in(b@, (#[trigger] a@[k]).0@, a@[k].1),
        decreases a@.len() - i,
    {
        if !has_target(b, &a[i].0, a[i].1) {
            return false;
        }
        i += 1;
    }
    true
}

/// The passes of one document: what is asked for, and what the last pass gave.
pub struct LayoutRun {
    pub lazy: bool,
    pub uses_targets: bool,
    pub limit: usize,
    pub passes: usize,
    pub converged: bool,
    pub budget_hit: bool,
    pub signature: Option<u64>,
    pub targets: Vec<(String, usize)>,
}

/// The larger of two numbers.
pub open spec fn most(a: int, b: int) -> int {
    if a > b {
        a
    } else {
        b
    }
}

/// Whether a pass settles the document: a lazy layout gives what the pass before gave, and the
/// pages of all targets are those that the pass before gave.
pub open spec fn settles(run: LayoutRun, signature: u64, targets: Seq<(String, usize)>) -> bool {
    &&& run.lazy ==> run.signature == Some(signature)
    &&& run.uses_targets ==> run.passes > 0 && same_targets(run.targets@, targets)
}

/// Whether one more pass is to start: there is one left, nothing has settled, and time is left.
/// The budget binds a lazy layout only, not its first pass, and not where targets are counted.
pub open spec fn starts(run: LayoutRun, over_budget: bool) -> bool {
    &&& run.passes < run.limit
    &&& !run.converged
    &&& !run.budget_hit
    &&& !is_cut(run, over_budget)
}

/// The budget ends the run.
pub open spec fn is_cut(run: LayoutRun, over_budget: bool) -> bool {
    run.lazy && !run.uses_targets && run.passes > 0 && over_budget
}

impl LayoutRun {
    /// There is room for a pass, no more were made than allowed, and only one that has been made
    /// can have settled or used up the budget.
    pub open spec fn is_valid(self) -> bool {
        &&& 1 <= self.limit
        &&& self.passes <= self.limit
        &&& self.converged ==> self.passes > 0
        &&& self.budget_hit ==> self.passes > 0
    }

    /// The run before its first pass. Counting targets takes at least four passes.
    pub fn new(strategy: LayoutStrategy, lazy_max_passes: usize, uses_targets: bool) -> (run: Self)
        ensures
            run.is_valid(),
            run.lazy == (strategy == LayoutStrategy::Lazy),
            run.uses_targets == uses_targets,
            run.limit == most(
                pass_limit(strategy, lazy_max_passes as int),
                if uses_targets {
                    4
                } else {
                    1
                },
            ),
            run.passes == 0,
            !run.converged,
            !run.budget_hit,
            run.signature is None,
            run.targets@.len() == 0,
    {
        let asked: usize = layout_pass_limit(strategy, lazy_max_passes);
        let least: usize = if uses_targets {
            4
        } else {
            1
        };
        let limit: usize = if asked > least {
            asked
        } else {
            least
        };
        LayoutRun {
            lazy: match strategy {
                LayoutStrategy::Eager => false,
                LayoutStrategy::Lazy => true,
            },
            uses_targets,
            limit,
            passes: 0,
            converged: false,
            budget_hit: false,
            signature: None,
            targets: Vec::new(),
        }
    }

    /// Decides whether one more pass is to start, and notes when the budget is the reason not to.
    pub fn start_pass(&mut self, over_budget: bool) -> (r: bool)
        requires
            old(self).is_valid(),
        ensures
            final(self).is_valid(),
            r == starts(*old(self), over_budget),
            final(self).budget_hit == (old(self).budget_hit || (old(self).passes < old(self).limit
                && !old(self).converged && is_cut(*old(self), over_budget))),
            final(self).lazy == old(self).lazy,
            final(self).uses_targets == old(self).uses_targets,
            final(self).limit == old(self).limit,
            final(self).passes == old(self).passes,
            final(self).converged == old(self).converged,
            final(self).signature == old(self).signature,
            final(self).targets == old(self).targets,
    {
        if self.passes >= self.limit || self.converged || self.budget_hit {
            return false;
        }
        if self.lazy && !self.uses_targets && self.passes > 0 && over_budget {
            self.budget_hit = true;
            return false;
        }
        true
    }

    /// Takes in what a pass gave.
    pub fn finish_pass(&mut self, signature: u64, targets: Vec<(String, usize)>)
        requires
            old(self).is_valid(),
            old(self).passes < old(self).limit,
        ensures
            final(self).is_valid(),
            final(self).passes == old(self).passes + 1,
            final(self).converged == settles(*old(self), signature, targets@),
            final(self).signature == Some(signature),
            final(self).targets == targets,
            final(self).lazy == old(self).lazy,
            final(self).uses_targets == old(self).uses_targets,
            final(self).limit == old(self).limit,
            final(self).budget_hit == old(self).budget_hit,
    {
        let targets_settled = !self.uses_targets || (self.passes > 0 && targets_equal(
            &self.targets,
            &targets,
        ));
        let layout_settled = if self.lazy {
            match self.signature {
                Some(last) => last == signature,
                None => false,
            }
        } else {
            true
        };
        self.converged = layout_settled && targets_settled;
        self.passes = self.passes + 1;
        self.signature = Some(signature);
        self.targets = targets;
    }
}

/// The first pass always starts, whatever the budget: every document is laid out at least once.
pub proof fn first_pass_starts(run: LayoutRun, over_budget: bool)
    requires
        run.is_valid(),
        run.passes == 0,
    ensures
        starts(run, over_budget),
{
}

/// An eager layout without counted targets settles in its first pass.
pub proof fn eager_layout_settles(run: LayoutRun, signature: u64, targets: Seq<(String, usize)>)
    requires
        !run.lazy,
        !run.uses_targets,
    ensures
        settles(run, signature, targets),
{
}

/// A lazy layout cannot settle in its first pass, nor can one whose targets are counted.
pub proof fn first_pass_alone_never_settles(
    run: LayoutRun,
    signature: u64,
    targets: Seq<(String, usize)>,
)
    requires
        run.is_valid(),
        run.passes == 0,
        run.signature is None,
        run.lazy || run.uses_targets,
    ensures
        !settles(run, signature, targets),
{
}

/// A run that has settled, or has used its passes or its budget, does not start another pass.
pub proof fn ended_run_stays_ended(run: LayoutRun, over_budget: bool)
    requires
        run.converged || run.budget_hit || run.passes >= run.limit,
    ensures
        !starts(run, over_budget),
{
}

// ---------------------------------------------------------------------------------------------
// The background of the root
// ---------------------------------------------------------------------------------------------
/// Whether a single-precision number is below one.
pub open spec fn below_one(r: Real) -> bool {
    r.bits < 0x3f80_0000 || 0x8000_0000 <= r.bits <= 0xff80_0000
}

/// How far the background stays below the upper edge of its frame.
pub open spec fn frame_guard(frame: Rect) -> Pt {
    if frame.y.milli > 0 && frame.height.milli > 1 {
        pt(1)
    } else {
        pt(0)
    }
}

/// The commands that paint the background of the root behind a frame.
pub open spec fn root_background(frame: Rect, color: Color, alpha: Real) -> Seq<CommandView> {
    let start = Seq::<CommandView>::empty().push(
        CommandView::Meta { key: META_HTML_CANVAS_BACKGROUND_KEY@, value: "begin"@ },
    ).push(CommandView::SaveState).push(CommandView::SetFillColor(color));
    let painted = if below_one(alpha) {
        start.push(CommandView::SetOpacity { fill: alpha, stroke: alpha })
    } else {
        start
    };
    painted.push(
        CommandView::DrawRect {
            x: frame.x,
            y: frame.y.plus(frame_guard(frame)),
            width: frame.width,
            height: frame.height.minus(frame_guard(frame)),
        },
    ).push(CommandView::RestoreState).push(
        CommandView::Meta { key: META_HTML_CANVAS_BACKGROUND_KEY@, value: "end"@ },
    )
}

/// Builds the commands that paint the background of the root behind a frame.
pub fn canvas_background_commands(frame: Rect, color: Color, alpha: Real) -> (out: Vec<Command>)
    ensures
        models(out@) == root_background(frame, color, alpha),
{
    let guard = if frame.y.milli > 0 && frame.height.milli > 1 {
        Pt { milli: 1 }
    } else {
        Pt::zero()
    };
    let mut out: Vec<Command> = Vec::new();
    proof {
        assert(models(out@) =~= Seq::empty());
    }
    emit(
        &mut out,
        Command::Meta {
            key: META_HTML_CANVAS_BACKGROUND_KEY.to_owned(),
            value: "begin".to_owned(),
        },
    );
    emit(&mut out, Command::SaveState);
    emit(&mut out, Command::SetFillColor(color));
    let translucent = alpha.bits < 0x3f80_0000 || (0x8000_0000 <= alpha.bits && alpha.bits
        <= 0xff80_0000);
    if translucent {
        emit(&mut out, Command::SetOpacity { fill: alpha, stroke: alpha });
    }
    emit(
        &mut out,
        Command::DrawRect {
            x: frame.x,
            y: frame.y.plus(guard),
            width: frame.width,
            height: frame.height.minus(guard),
        },
    );
    emit(&mut out, Command::RestoreState);
    emit(
        &mut out,
        Command::Meta {
            key: META_HTML_CANVAS_BACKGROUND_KEY.to_owned(),
            value: "end".to_owned(),
        },
    );
    out
}

/// The background of the root fills its frame from side to side and down to its foot, in a state of
/// its own and between two notes; at the top it may stay a thousandth of a point inside.
pub proof fn root_background_fills_its_frame(frame: Rect, color: Color, alpha: Real)
    requires
        -0x2000_0000_0000_0000 <= frame.y.milli <= 0x2000_0000_0000_0000,
        0 <= frame.height.milli <= 0x2000_0000_0000_0000,
    ensures
        ({
            let cs = root_background(frame, color, alpha);
            let n = cs.len() as int;
            &&& n >= 6
            &&& cs[0] == (CommandView::Meta {
                key: META_HTML_CANVAS_BACKGROUND_KEY@,
                value: "begin"@,
            })
            &&& cs[1] == CommandView::SaveState
            &&& cs[2] == CommandView::SetFillColor(color)
            &&& cs[n - 3] matches CommandView::DrawRect { x, y, width, height } && {
                &&& x == frame.x
                &&& width == frame.width
                &&& frame.y.milli <= y.milli <= frame.y.milli + 1
                &&& y.milli + height.milli == frame.y.milli + frame.height.milli
            }
            &&& cs[n - 2] == CommandView::RestoreState
            &&& cs[n - 1] == (CommandView::Meta {
                key: META_HTML_CANVAS_BACKGROUND_KEY@,
                value: "end"@,
            })
            &&& below_one(alpha) ==> cs[3] == (CommandView::SetOpacity {
                fill: alpha,
                stroke: alpha,
            })
        }),
{
}

} // verus!
