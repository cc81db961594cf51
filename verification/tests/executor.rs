use redstone_java::compiled::executor::{
    CompiledExecutor, Diagnostic, ExecutionBackend, ExecutionConfig, ExecutionMode, ExecutorError,
    FallbackReason, OrderedPropagation, PrepareStep, RuntimeOperation,
};

fn config(mode: ExecutionMode) -> ExecutionConfig {
    ExecutionConfig {
        requested_mode: mode,
        experimental_redstone: false,
        trace_enabled: false,
        record_events: false,
    }
}

fn running(mode: ExecutionMode) -> CompiledExecutor {
    let mut executor = CompiledExecutor::new();
    executor.configure(config(mode)).unwrap();
    assert_eq!(executor.prepare(), Ok(PrepareStep::Compile));
    executor.finish_prepare(Ok(())).unwrap();
    assert!(executor.runtime_ready());
    executor
}

#[test]
fn forced_compiled_mode_rejects_experimental_redstone() {
    let mut executor = CompiledExecutor::new();
    let mut experimental = config(ExecutionMode::Compiled);
    experimental.experimental_redstone = true;
    assert_eq!(
        executor.configure(experimental),
        Err(ExecutorError::NeedsInterpreter(Diagnostic::ExperimentalRedstone))
    );

    let mut traced = config(ExecutionMode::Auto);
    traced.trace_enabled = true;
    executor.configure(traced).unwrap();
    assert_eq!(executor.backend(), ExecutionBackend::Interpreted);
    assert_eq!(
        executor.fallback_reason(),
        Some(&FallbackReason::Diagnostic(Diagnostic::TraceRecording))
    );
    assert_eq!(executor.prepare(), Ok(PrepareStep::Ready));
}

#[test]
fn permanent_failure_survives_auto_reconfiguration() {
    let mut executor = CompiledExecutor::new();
    executor.configure(config(ExecutionMode::Auto)).unwrap();
    assert_eq!(executor.prepare(), Ok(PrepareStep::Compile));
    executor.finish_prepare(Err("broken graph".to_owned())).unwrap();
    assert_eq!(executor.backend(), ExecutionBackend::Interpreted);

    let mut recording = config(ExecutionMode::Auto);
    recording.record_events = true;
    executor.configure(recording).unwrap();
    assert_eq!(executor.backend(), ExecutionBackend::Interpreted);
    assert_eq!(
        executor.fallback_reason(),
        Some(&FallbackReason::CompileFailed("broken graph".to_owned()))
    );
    assert!(!executor.runtime_ready());
    assert_eq!(executor.prepare(), Ok(PrepareStep::Ready));

    let forced = executor.configure(config(ExecutionMode::Compiled));
    assert_eq!(
        forced,
        Err(ExecutorError::Unavailable(FallbackReason::CompileFailed("broken graph".to_owned())))
    );
}

#[test]
fn forced_compile_failure_reaches_the_caller() {
    let mut executor = CompiledExecutor::new();
    executor.configure(config(ExecutionMode::Compiled)).unwrap();
    assert_eq!(
        executor.finish_prepare(Err("not a fixed point".to_owned())),
        Err(ExecutorError::CompileFailed("not a fixed point".to_owned()))
    );
    assert!(executor.permanent_fallback().is_none());
}

#[test]
fn runtime_failure_permanently_falls_back_in_auto_and_poison_forced_compiled() {
    let mut auto = running(ExecutionMode::Auto);
    auto.fail_runtime(RuntimeOperation::OrderedApplication, "injected failure".to_owned())
        .unwrap();
    assert_eq!(auto.backend(), ExecutionBackend::Interpreted);
    assert!(auto.fallback_reason().is_some());
    assert!(!auto.runtime_ready());
    assert_eq!(auto.runtime_available(), Ok(false));

    let mut forced = running(ExecutionMode::Compiled);
    assert!(forced
        .fail_runtime(RuntimeOperation::OrderedApplication, "injected failure".to_owned())
        .is_err());
    assert!(!forced.runtime_ready());
    assert!(forced.runtime_available().is_err());
}

#[test]
fn propagation_outcomes_pick_the_backend() {
    let mut auto = running(ExecutionMode::Auto);
    assert_eq!(auto.finish_propagation(Ok(true)), Ok(OrderedPropagation::Compiled));
    assert_eq!(auto.finish_propagation(Ok(false)), Ok(OrderedPropagation::Interpreted));
    assert_eq!(
        auto.finish_propagation(Err("stale wire".to_owned())),
        Ok(OrderedPropagation::FellBack)
    );
    assert!(!auto.runtime_ready());

    let mut forced = running(ExecutionMode::Compiled);
    assert!(forced.finish_propagation(Err("stale wire".to_owned())).is_err());
}

#[test]
fn frequent_recompilation_falls_back_only_in_auto_mode() {
    let mut auto = running(ExecutionMode::Auto);
    for tick in 0..10 {
        assert_eq!(auto.finish_synchronize(Ok(true), tick * 19), Ok(false));
    }
    assert_eq!(auto.finish_synchronize(Ok(true), 199), Ok(true));
    assert_eq!(auto.fallback_reason(), Some(&FallbackReason::TopologyChurn(11)));
    assert_eq!(auto.backend(), ExecutionBackend::Interpreted);

    let mut forced = running(ExecutionMode::Compiled);
    for tick in 0..20 {
        assert_eq!(forced.finish_synchronize(Ok(true), tick), Ok(false));
    }
    assert!(forced.runtime_ready());

    let mut failing = running(ExecutionMode::Auto);
    assert_eq!(failing.finish_synchronize(Err("lost".to_owned()), 5), Ok(true));
    assert!(failing.permanent_fallback().is_some());
}

#[test]
fn events_recording_disables_batched_wire_writes() {
    let mut executor = CompiledExecutor::new();
    assert!(!executor.batch_wire_writes());
    executor.configure(config(ExecutionMode::Auto)).unwrap();
    assert!(executor.batch_wire_writes());
    let mut recording = config(ExecutionMode::Auto);
    recording.record_events = true;
    executor.configure(recording).unwrap();
    assert!(!executor.batch_wire_writes());
}

#[test]
fn auto_mode_falls_back_for_experimental_redstone() {
    let mut executor = CompiledExecutor::new();
    let mut experimental = config(ExecutionMode::Auto);
    experimental.experimental_redstone = true;
    executor.configure(experimental).unwrap();

    assert_eq!(executor.backend(), ExecutionBackend::Interpreted);
    assert!(executor.fallback_reason().is_some());
}

#[test]
fn replay_event_recording_keeps_compiled_execution_available() {
    let mut executor = CompiledExecutor::new();
    let mut recording = config(ExecutionMode::Auto);
    recording.record_events = true;
    executor.configure(recording).unwrap();
    assert_eq!(executor.prepare(), Ok(PrepareStep::Compile));
    executor.finish_prepare(Ok(())).unwrap();

    assert_eq!(executor.backend(), ExecutionBackend::Compiled);
    assert!(executor.fallback_reason().is_none());
    assert!(!executor.batch_wire_writes());
}
