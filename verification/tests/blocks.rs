use cybergrape::component::{run_stage, Component as StageComponent, ComponentError};
use cybergrape::grape_block::{Component as GrapeComponent, GrapeBlock};
use cybergrape::pipe_block::{Component as PipeComponent, PipeBlock};
use std::sync::mpsc::channel;

/// Null component for interface testing.
struct MockComponent {}

impl MockComponent {
    fn new() -> Self {
        Self {}
    }
}

impl GrapeComponent for MockComponent {
    type InData = i32;
    type OutData = i32;

    fn convert(&self, input: i32) -> i32 {
        input + 1
    }

    fn name(&self) -> String {
        "MockComponent".to_string()
    }
}

impl PipeComponent for MockComponent {
    type InData = i32;
    type OutData = i32;

    fn convert(&self, input: i32) -> i32 {
        input + 1
    }
}

/// A stateful stage for the finalizing interface.
struct CountingComponent {
    seen: i32,
}

impl StageComponent for CountingComponent {
    type InData = i32;
    type OutData = i32;

    fn convert(&mut self, input: i32) -> i32 {
        self.seen += 1;
        input + self.seen
    }

    fn finalize(&mut self) -> Result<(), ComponentError> {
        if self.seen == 0 {
            Err(ComponentError::Backend("nothing was processed".to_string()))
        } else {
            Ok(())
        }
    }

    fn name(&self) -> String {
        "CountingComponent".to_string()
    }
}

#[test]
fn test_mock_component() {
    let mock_comp = MockComponent::new();
    assert_eq!(GrapeComponent::convert(&mock_comp, 0), 1);
}

#[test]
fn pipe_block_test_mock_component() {
    let mock_comp = MockComponent::new();
    assert_eq!(PipeComponent::convert(&mock_comp, 0), 1);
}

#[test]
fn grape_block_pumps_until_its_input_closes() {
    let mock_comp = MockComponent::new();
    let (test_tx, block_rx) = channel::<i32>();
    let (block_tx, test_rx) = channel::<i32>();
    let block = GrapeBlock::new(mock_comp, block_rx, block_tx);

    test_tx.send(0).unwrap();
    test_tx.send(41).unwrap();
    drop(test_tx);

    let processed = block.run(10);
    assert_eq!(processed, 2);
    drop(block);
    assert_eq!(test_rx.recv(), Ok(1));
    assert_eq!(test_rx.recv(), Ok(42));
    assert!(test_rx.recv().is_err());
}

#[test]
fn pipe_block_respects_its_budget() {
    let mock_comp = MockComponent::new();
    let (test_tx, block_rx) = channel::<i32>();
    let (block_tx, test_rx) = channel::<i32>();
    let block = PipeBlock::new(mock_comp, block_tx, block_rx);

    test_tx.send(5).unwrap();
    test_tx.send(6).unwrap();
    test_tx.send(7).unwrap();

    let processed = block.run(2);
    assert_eq!(processed, 2);
    assert_eq!(test_rx.recv(), Ok(6));
    assert_eq!(test_rx.recv(), Ok(7));
    drop(test_tx);
}

#[test]
fn finalize_reports_an_idle_stage() {
    let mut stage = CountingComponent { seen: 0 };
    assert_eq!(
        stage.finalize(),
        Err(ComponentError::Backend("nothing was processed".to_string()))
    );
    let out = stage.convert(10);
    assert_eq!(out, 11);
    assert_eq!(stage.name(), "CountingComponent".to_string());
    assert_eq!(stage.finalize(), Ok(()));
}

#[test]
fn run_stage_finalizes_once_the_input_closes() {
    let mut stage = CountingComponent { seen: 0 };
    let (test_tx, stage_rx) = channel::<i32>();
    let (stage_tx, test_rx) = channel::<i32>();

    test_tx.send(10).unwrap();
    test_tx.send(20).unwrap();
    drop(test_tx);

    let (processed, finished) = run_stage(&mut stage, &stage_rx, &stage_tx, 10);
    assert_eq!(processed, 2);
    assert_eq!(finished, Some(Ok(())));
    drop(stage_tx);
    assert_eq!(test_rx.recv(), Ok(11));
    assert_eq!(test_rx.recv(), Ok(22));
    assert!(test_rx.recv().is_err());
}

#[test]
fn run_stage_pauses_when_the_budget_runs_out() {
    let mut stage = CountingComponent { seen: 0 };
    let (test_tx, stage_rx) = channel::<i32>();
    let (stage_tx, test_rx) = channel::<i32>();

    test_tx.send(10).unwrap();
    test_tx.send(20).unwrap();

    let (processed, finished) = run_stage(&mut stage, &stage_rx, &stage_tx, 1);
    assert_eq!(processed, 1);
    assert_eq!(finished, None);
    assert_eq!(test_rx.recv(), Ok(11));
    drop(test_tx);
    drop(stage_tx);
}
