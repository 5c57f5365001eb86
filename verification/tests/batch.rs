use fullbleed::batch::{
    batch_outcome, buffer_cap, link_step, reassemble, spills, worker_count, BatchError, LinkStep,
    OrderedQueue, ReflowLink, ReflowWindow, Wait,
};
use fullbleed::caches::{FlowProgramEntry, FlowStep};
use fullbleed::layout::{
    canvas_background_commands, layout_pass_limit, layout_strategy_str, LayoutRun, LayoutStrategy,
};
use fullbleed::command::Command;
use fullbleed::geometry::{Color, Pt, Real, Rect};

#[test]
fn rows_leave_in_order() {
    let mut queue: OrderedQueue<&str> = OrderedQueue::new();
    queue.insert(2, "c");
    assert_eq!(queue.pop_next(), None);
    queue.insert(0, "a");
    assert_eq!(queue.pop_next(), Some((0, "a")));
    assert_eq!(queue.pop_next(), None);
    queue.insert(1, "b");
    assert_eq!(queue.pop_next(), Some((1, "b")));
    assert_eq!(queue.pop_next(), Some((2, "c")));
    assert_eq!(queue.pop_next(), None);
}

#[test]
fn batches_are_reassembled() {
    let messages: Vec<(usize, Result<&str, i32>)> = vec![(2, Ok("c")), (0, Ok("a")), (1, Ok("b"))];
    match reassemble(3, messages) {
        Ok(rows) => assert_eq!(rows, vec!["a", "b", "c"]),
        Err(_) => panic!("a whole batch"),
    }
    let failed: Vec<(usize, Result<&str, i32>)> = vec![(2, Ok("c")), (1, Err(7)), (0, Err(8))];
    assert!(matches!(reassemble(3, failed), Err(BatchError::Failed(7))));
    let short: Vec<(usize, Result<&str, i32>)> = vec![(1, Ok("b"))];
    assert!(matches!(reassemble(2, short), Err(BatchError::Closed)));
}

#[test]
fn buffers_are_bounded() {
    assert_eq!(buffer_cap(0), 0);
    assert_eq!(buffer_cap(8), 32);
    assert_eq!(buffer_cap(64), 256);
    assert_eq!(buffer_cap(usize::MAX), 256);
    assert!(spills(true, 32, 32));
    assert!(!spills(true, 31, 32));
    assert!(!spills(false, 99, 32));
    assert_eq!(worker_count(0, 5), 1);
    assert_eq!(worker_count(8, 5), 5);
    assert_eq!(worker_count(4, 5), 4);
}

#[test]
fn a_window_lets_one_row_start_for_each_that_is_written() {
    let mut window = ReflowWindow::new(6, 1);
    assert_eq!((window.cap, window.scheduled), (4, 4));
    assert_eq!(window.commit(), Some(4));
    assert_eq!(window.commit(), Some(5));
    for _ in 0..4 {
        assert!(!window.is_complete());
        assert_eq!(window.commit(), None);
    }
    assert!(window.is_complete());
}

#[test]
fn rows_are_written_in_order_and_let_others_start() {
    let mut link: ReflowLink<String> = ReflowLink::new(6, 1);
    assert_eq!(link.window.scheduled, 4);
    link.receive(2, "c".to_string());
    assert!(link.take_next().is_none());
    link.receive(0, "a".to_string());
    let first = link.take_next().expect("row nought");
    assert_eq!((first.row, first.item.as_str(), first.start), (0, "a", Some(4)));
    assert!(link.take_next().is_none());
    for (row, item) in [(1, "b"), (3, "d"), (4, "e")] {
        link.receive(row, item.to_string());
    }
    let mut written = Vec::new();
    while let Some(w) = link.take_next() {
        written.push((w.row, w.item, w.start));
    }
    assert_eq!(written.len(), 4);
    assert_eq!(written[0], (1, "b".to_string(), Some(5)));
    assert_eq!(written[3], (4, "e".to_string(), None));
    assert!(!link.window.is_complete());
    link.receive(5, "f".to_string());
    assert_eq!(link.take_next().map(|w| w.row), Some(5));
    assert!(link.window.is_complete());
    assert!(link.take_next().is_none());
}

#[test]
fn a_cancelled_batch_gives_nothing() {
    assert_eq!(batch_outcome::<i32>(false, None), Ok(()));
    assert_eq!(batch_outcome(false, Some(7)), Err(Some(7)));
    assert_eq!(batch_outcome(true, Some(7)), Err(None));
    assert_eq!(batch_outcome::<i32>(true, None), Err(None));
}

#[test]
fn cancelled_batches_end() {
    assert_eq!(link_step(true, Wait::Message, false), LinkStep::Cancelled);
    assert_eq!(link_step(false, Wait::Timeout, true), LinkStep::WaitAgain);
    assert_eq!(link_step(false, Wait::Message, true), LinkStep::Cancelled);
    assert_eq!(link_step(false, Wait::Message, false), LinkStep::Take);
    assert_eq!(link_step(false, Wait::Disconnected, false), LinkStep::ClosedEarly);
    assert_eq!(link_step(false, Wait::Disconnected, true), LinkStep::Cancelled);
}

#[test]
fn one_renderer_compiles_at_a_time() {
    let mut entry = FlowProgramEntry { variants: 0, compiling: false };
    assert_eq!(entry.decide(0), FlowStep::Compile);
    assert_eq!(entry.decide(0), FlowStep::Wait);
    entry.finish(true);
    assert_eq!(entry.variants, 1);
    assert_eq!(entry.decide(0), FlowStep::Retry);
    assert_eq!(entry.decide(1), FlowStep::Compile);
    entry.finish(false);
    assert_eq!((entry.variants, entry.compiling), (1, false));
}

fn targets(list: &[(&str, usize)]) -> Vec<(String, usize)> {
    list.iter().map(|(id, page)| (id.to_string(), *page)).collect()
}

#[test]
fn strategies_limit_the_passes() {
    assert_eq!(layout_pass_limit(LayoutStrategy::Eager, 9), 1);
    assert_eq!(layout_pass_limit(LayoutStrategy::Lazy, 9), 9);
    assert_eq!(layout_pass_limit(LayoutStrategy::Lazy, 0), 1);
    assert_eq!(layout_strategy_str(LayoutStrategy::Eager), "eager");
    assert_eq!(layout_strategy_str(LayoutStrategy::Lazy), "lazy");
}

#[test]
fn eager_layout_takes_one_pass() {
    let mut run = LayoutRun::new(LayoutStrategy::Eager, 4, false);
    assert!(run.start_pass(true));
    run.finish_pass(1, Vec::new());
    assert!(run.converged);
    assert!(!run.start_pass(false));
    assert_eq!(run.passes, 1);
}

#[test]
fn lazy_layout_settles_when_two_passes_agree() {
    let mut run = LayoutRun::new(LayoutStrategy::Lazy, 4, false);
    for (signature, settled) in [(1, false), (2, false), (2, true)] {
        assert!(run.start_pass(false));
        run.finish_pass(signature, Vec::new());
        assert_eq!(run.converged, settled);
    }
    assert!(!run.start_pass(false));
}

#[test]
fn the_budget_ends_lazy_layout_after_its_first_pass() {
    let mut run = LayoutRun::new(LayoutStrategy::Lazy, 4, false);
    assert!(run.start_pass(true));
    run.finish_pass(1, Vec::new());
    assert!(!run.start_pass(true));
    assert!(run.budget_hit);
    assert!(!run.converged);
}

#[test]
fn counted_targets_are_laid_out_until_they_stay() {
    let mut run = LayoutRun::new(LayoutStrategy::Eager, 1, true);
    assert_eq!(run.limit, 4);
    assert!(run.targets.is_empty());
    assert!(run.start_pass(true));
    run.finish_pass(1, targets(&[("a", 1), ("b", 2)]));
    assert!(run.start_pass(true));
    run.finish_pass(2, targets(&[("a", 1), ("b", 3)]));
    assert!(!run.converged);
    assert!(run.start_pass(true));
    run.finish_pass(3, targets(&[("b", 3), ("a", 1)]));
    assert!(run.converged);
}

#[test]
fn the_root_background_stays_off_the_edge_above() {
    let milli = Pt::from_milli_i64;
    let black = Color { r: Real { bits: 0 }, g: Real { bits: 0 }, b: Real { bits: 0 } };
    let frame =
        Rect { x: milli(5), y: milli(10), width: milli(100), height: milli(200) };
    let opaque = canvas_background_commands(frame, black, Real { bits: 1.0f32.to_bits() });
    assert!(!opaque.iter().any(|c| matches!(c, Command::SetOpacity { .. })));
    assert!(opaque.iter().any(|c| matches!(
        c,
        Command::DrawRect { x, y, width, height }
            if *x == milli(5) && *y == milli(11) && *width == milli(100) && *height == milli(199)
    )));
    let top = Rect { y: milli(0), ..frame };
    let faint = canvas_background_commands(top, black, Real { bits: 0.5f32.to_bits() });
    assert!(faint.iter().any(|c| matches!(c, Command::SetOpacity { .. })));
    assert!(faint
        .iter()
        .any(|c| matches!(c, Command::DrawRect { y, height, .. } if *y == milli(0) && *height == milli(200))));
}
