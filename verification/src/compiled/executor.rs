//! The decisions of the compiled executor: which backend runs, when it falls
//! back to the interpreter for good, and which failures reach the caller.
//! The work itself (compiling the graph, synchronizing it with the world,
//! propagating) is done by the other modules; each step here takes its
//! outcome.

use vstd::prelude::*;

use crate::compiled::window::{recorded, RecompileWindow};

verus! {

/// The execution mode that a caller asks for.
#[derive(Clone, Copy, Debug, PartialEq, Eq, Structural)]
pub enum ExecutionMode {
    Auto,
    Compiled,
    Interpreted,
}

/// The backend that runs.
#[derive(Clone, Copy, Debug, PartialEq, Eq, Structural)]
pub enum ExecutionBackend {
    Compiled,
    Interpreted,
}

/// What a caller configures.
#[derive(Clone, Copy, Debug, PartialEq, Eq, Structural)]
pub struct ExecutionConfig {
    pub requested_mode: ExecutionMode,
    pub experimental_redstone: bool,
    pub trace_enabled: bool,
    pub record_events: bool,
}

/// A configuration that only the interpreter can serve.
#[derive(Clone, Copy, Debug, PartialEq, Eq, Structural)]
pub enum Diagnostic {
    /// Experimental redstone requires interpreted execution.
    ExperimentalRedstone,
    /// Trace recording requires interpreted execution.
    TraceRecording,
}

/// What the compiled runtime was doing when it failed.
#[derive(Clone, Copy, Debug, PartialEq, Eq, Structural)]
pub enum RuntimeOperation {
    /// Synchronizing with the world's changes failed.
    Synchronization,
    /// An ordered wire propagation failed.
    OrderedPropagation,
    /// Applying the events of an ordered propagation failed.
    OrderedApplication,
}

/// Why the compiled backend is not running.
#[derive(Debug, PartialEq, Eq)]
pub enum FallbackReason {
    /// The configuration needs the interpreter.
    Diagnostic(Diagnostic),
    /// Compiling the graph failed with this message.
    CompileFailed(String),
    /// The runtime failed during an operation, with this detail.
    RuntimeFailed { operation: RuntimeOperation, detail: String },
    /// This many topology recompilations fell within the window.
    TopologyChurn(usize),
}

/// An error handed to the caller.
#[derive(Debug, PartialEq, Eq)]
pub enum ExecutorError {
    /// Compiled execution was forced but the configuration needs the interpreter.
    NeedsInterpreter(Diagnostic),
    /// Compiled execution was forced after a permanent failure.
    Unavailable(FallbackReason),
    /// Compiled execution was forced and compiling the graph failed.
    CompileFailed(String),
    /// Compiled execution was forced and the runtime failed.
    RuntimeFailed(FallbackReason),
}

/// How an ordered propagation ran.
#[derive(Clone, Copy, Debug, PartialEq, Eq, Structural)]
pub enum OrderedPropagation {
    Compiled,
    Interpreted,
    FellBack,
}

/// A copy of a reason.
pub fn copy_reason(reason: &FallbackReason) -> (copy: FallbackReason)
    ensures
        copy == *reason,
{
    match reason {
        FallbackReason::Diagnostic(diagnostic) => FallbackReason::Diagnostic(*diagnostic),
        FallbackReason::CompileFailed(message) => FallbackReason::CompileFailed(message.clone()),
        FallbackReason::RuntimeFailed { operation, detail } => FallbackReason::RuntimeFailed {
            operation: *operation,
            detail: detail.clone(),
        },
        FallbackReason::TopologyChurn(count) => FallbackReason::TopologyChurn(*count),
    }
}

/// The diagnostic that a configuration raises, if any: experimental
/// redstone first, then trace recording.
pub open spec fn spec_diagnostic(config: ExecutionConfig) -> Option<Diagnostic> {
    if config.experimental_redstone {
        Some(Diagnostic::ExperimentalRedstone)
    } else if config.trace_enabled {
        Some(Diagnostic::TraceRecording)
    } else {
        None
    }
}

/// The diagnostic that a configuration raises, if any.
pub fn diagnostic(config: ExecutionConfig) -> (found: Option<Diagnostic>)
    ensures
        found == spec_diagnostic(config),
{
    if config.experimental_redstone {
        Some(Diagnostic::ExperimentalRedstone)
    } else if config.trace_enabled {
        Some(Diagnostic::TraceRecording)
    } else {
        None
    }
}

/// The executor's decisions: the mode asked for, the backend that runs,
/// why it fell back, whether a compiled runtime is held, the configuration,
/// a permanent failure, and the recent recompilations.
pub struct CompiledExecutor {
    requested_mode: ExecutionMode,
    backend: ExecutionBackend,
    fallback_reason: Option<FallbackReason>,
    runtime_ready: bool,
    config: Option<ExecutionConfig>,
    permanent_fallback: Option<FallbackReason>,
    window: RecompileWindow,
}

/// What `prepare` asks for next.
#[derive(Debug, PartialEq, Eq)]
pub enum PrepareStep {
    /// Nothing to do.
    Ready,
    /// Compile the graph, then report the outcome with `finish_prepare`.
    Compile,
}

impl CompiledExecutor {
    /// The mode asked for.
    pub closed spec fn mode_of(&self) -> ExecutionMode {
        self.requested_mode
    }

    /// The backend that runs.
    pub closed spec fn backend_of(&self) -> ExecutionBackend {
        self.backend
    }

    /// Why the compiled backend fell back, if it did.
    pub closed spec fn fallback_of(&self) -> Option<FallbackReason> {
        self.fallback_reason
    }

    /// Whether a compiled runtime is held.
    pub closed spec fn ready_of(&self) -> bool {
        self.runtime_ready
    }

    /// The configuration.
    pub closed spec fn config_of(&self) -> Option<ExecutionConfig> {
        self.config
    }

    /// The permanent failure, if one happened.
    pub closed spec fn permanent_of(&self) -> Option<FallbackReason> {
        self.permanent_fallback
    }

    /// The ticks of the recent recompilations.
    pub closed spec fn window_of(&self) -> Seq<u64> {
        self.window@
    }

    /// Whether two executors hold the same state.
    pub open spec fn same_as(&self, other: &CompiledExecutor) -> bool {
        &&& self.mode_of() == other.mode_of()
        &&& self.backend_of() == other.backend_of()
        &&& self.fallback_of() == other.fallback_of()
        &&& self.ready_of() == other.ready_of()
        &&& self.config_of() == other.config_of()
        &&& self.permanent_of() == other.permanent_of()
        &&& self.window_of() == other.window_of()
    }

    /// The executor's invariant: a configuration that needs the interpreter
    /// never runs on the compiled backend, and when it asks for automatic
    /// selection the executor holds the reason it fell back.
    pub closed spec fn consistent(&self) -> bool {
        &&& (self.config matches Some(c) && spec_diagnostic(c) is Some ==> self.backend
            == ExecutionBackend::Interpreted)
        &&& (self.config matches Some(c) && c.requested_mode == ExecutionMode::Auto && spec_diagnostic(c) is Some
            ==> self.fallback_reason is Some)
    }

    /// A fresh executor: automatic mode, compiled backend, nothing held.
    pub fn new() -> (executor: CompiledExecutor)
        ensures
            executor.mode_of() == ExecutionMode::Auto,
            executor.backend_of() == ExecutionBackend::Compiled,
            executor.fallback_of() is None,
            !executor.ready_of(),
            executor.config_of() is None,
            executor.permanent_of() is None,
            executor.window_of() == Seq::<u64>::empty(),
            executor.consistent(),
    {
        CompiledExecutor {
            requested_mode: ExecutionMode::Auto,
            backend: ExecutionBackend::Compiled,
            fallback_reason: None,
            runtime_ready: false,
            config: None,
            permanent_fallback: None,
            window: RecompileWindow::new(),
        }
    }

    /// The mode asked for.
    pub fn requested_mode(&self) -> (mode: ExecutionMode)
        ensures
            mode == self.mode_of(),
    {
        self.requested_mode
    }

    /// The backend that runs.
    pub fn backend(&self) -> (backend: ExecutionBackend)
        ensures
            backend == self.backend_of(),
    {
        self.backend
    }

    /// Whether a compiled runtime is held.
    pub fn runtime_ready(&self) -> (ready: bool)
        ensures
            ready == self.ready_of(),
    {
        self.runtime_ready
    }

    /// Why the compiled backend fell back, if it did.
    pub fn fallback_reason(&self) -> (reason: Option<&FallbackReason>)
        ensures
            match reason {
                Some(r) => self.fallback_of() == Some(*r),
                None => self.fallback_of() is None,
            },
    {
        match &self.fallback_reason {
            Some(r) => Some(r),
            None => None,
        }
    }

    /// The permanent failure, if one happened.
    pub fn permanent_fallback(&self) -> (reason: Option<&FallbackReason>)
        ensures
            match reason {
                Some(r) => self.permanent_of() == Some(*r),
                None => self.permanent_of() is None,
            },
    {
        match &self.permanent_fallback {
            Some(r) => Some(r),
            None => None,
        }
    }

    /// Whether ordered wire writes may be batched: a configuration that
    /// records no events.
    pub fn batch_wire_writes(&self) -> (batch: bool)
        ensures
            batch == match self.config_of() {
                Some(config) => !config.record_events,
                None => false,
            },
    {
        match self.config {
            Some(config) => !config.record_events,
            None => false,
        }
    }

    /// Applies a configuration. Forcing compiled execution fails when the
    /// configuration needs the interpreter or after a permanent failure.
    /// The same configuration again changes nothing; another one drops the
    /// runtime and the recompilation window and picks the backend: the
    /// interpreter when asked for, after a permanent failure or for a
    /// diagnostic, else the compiled backend.
    pub fn configure(&mut self, config: ExecutionConfig) -> (result: Result<(), ExecutorError>)
        requires
            old(self).consistent(),
        ensures
            ({
                let before = *old(self);
                let after = *final(self);
                let forced = config.requested_mode == ExecutionMode::Compiled;
                let found = spec_diagnostic(config);
                if found is Some && forced {
                    &&& result == Err::<(), ExecutorError>(ExecutorError::NeedsInterpreter(found->0))
                    &&& after.same_as(&before)
                } else if before.permanent_of() is Some && forced {
                    &&& result == Err::<(), ExecutorError>(ExecutorError::Unavailable(before.permanent_of()->0))
                    &&& after.same_as(&before)
                } else if before.config_of() == Some(config) {
                    &&& result is Ok
                    &&& after.same_as(&before)
                } else {
                    &&& result is Ok
                    &&& after.config_of() == Some(config)
                    &&& !after.ready_of()
                    &&& after.window_of() == Seq::<u64>::empty()
                    &&& after.permanent_of() == before.permanent_of()
                    &&& after.mode_of() == config.requested_mode
                    &&& if config.requested_mode == ExecutionMode::Interpreted {
                        &&& after.backend_of() == ExecutionBackend::Interpreted
                        &&& after.fallback_of() is None
                    } else if before.permanent_of() is Some {
                        &&& after.backend_of() == ExecutionBackend::Interpreted
                        &&& after.fallback_of() == before.permanent_of()
                    } else if found is Some {
                        &&& after.backend_of() == ExecutionBackend::Interpreted
                        &&& after.fallback_of() == Some(FallbackReason::Diagnostic(found->0))
                    } else {
                        &&& after.backend_of() == ExecutionBackend::Compiled
                        &&& after.fallback_of() is None
                    }
                }
            }),
            final(self).consistent(),
    {
        let found = diagnostic(config);
        let forced = config.requested_mode == ExecutionMode::Compiled;
        if let Some(d) = found {
            if forced {
                return Err(ExecutorError::NeedsInterpreter(d));
            }
        }
        if forced {
            if let Some(reason) = &self.permanent_fallback {
                return Err(ExecutorError::Unavailable(copy_reason(reason)));
            }
        }
        if let Some(current) = self.config {
            if current == config {
                return Ok(());
            }
        }
        self.config = Some(config);
        self.runtime_ready = false;
        self.window.clear();
        self.requested_mode = config.requested_mode;
        if config.requested_mode == ExecutionMode::Interpreted {
            self.backend = ExecutionBackend::Interpreted;
            self.fallback_reason = None;
            return Ok(());
        }
        if let Some(reason) = &self.permanent_fallback {
            self.backend = ExecutionBackend::Interpreted;
            self.fallback_reason = Some(copy_reason(reason));
            return Ok(());
        }
        if let Some(d) = found {
            self.backend = ExecutionBackend::Interpreted;
            self.fallback_reason = Some(FallbackReason::Diagnostic(d));
            return Ok(());
        }
        self.backend = ExecutionBackend::Compiled;
        self.fallback_reason = None;
        Ok(())
    }

    /// What preparing asks for: after a permanent failure, an error when
    /// compiled execution is forced and nothing otherwise; nothing when a
    /// runtime is held or the interpreter runs; else compiling the graph.
    pub fn prepare(&self) -> (step: Result<PrepareStep, ExecutorError>)
        ensures
            ({
                let s = self;
                if s.permanent_of() is Some {
                    if s.mode_of() == ExecutionMode::Compiled {
                        step == Err::<PrepareStep, ExecutorError>(ExecutorError::Unavailable(s.permanent_of()->0))
                    } else {
                        step == Ok::<PrepareStep, ExecutorError>(PrepareStep::Ready)
                    }
                } else if s.ready_of() || s.backend_of() == ExecutionBackend::Interpreted {
                    step == Ok::<PrepareStep, ExecutorError>(PrepareStep::Ready)
                } else {
                    step == Ok::<PrepareStep, ExecutorError>(PrepareStep::Compile)
                }
            }),
    {
        if let Some(reason) = &self.permanent_fallback {
            if self.requested_mode == ExecutionMode::Compiled {
                return Err(ExecutorError::Unavailable(copy_reason(reason)));
            }
            return Ok(PrepareStep::Ready);
        }
        if self.runtime_ready || self.backend == ExecutionBackend::Interpreted {
            return Ok(PrepareStep::Ready);
        }
        Ok(PrepareStep::Compile)
    }

    /// Takes the outcome of compiling the graph, under the configured mode
    /// (automatic without a configuration): success holds the runtime on
    /// the compiled backend; a failure in automatic mode falls back to the
    /// interpreter for good; any other failure reaches the caller.
    pub fn finish_prepare(&mut self, outcome: Result<(), String>) -> (result: Result<(), ExecutorError>)
        requires
            old(self).consistent(),
            old(self).backend_of() == ExecutionBackend::Compiled,
        ensures
            ({
                let before = *old(self);
                let after = *final(self);
                let mode = match before.config_of() {
                    Some(config) => config.requested_mode,
                    None => ExecutionMode::Auto,
                };
                match outcome {
                    Ok(()) => {
                        &&& result is Ok
                        &&& after.ready_of()
                        &&& after.backend_of() == ExecutionBackend::Compiled
                        &&& after.mode_of() == mode
                        &&& after.fallback_of() is None
                        &&& after.permanent_of() == before.permanent_of()
                        &&& after.config_of() == before.config_of()
                        &&& after.window_of() == before.window_of()
                    },
                    Err(message) => if mode == ExecutionMode::Auto {
                        &&& result is Ok
                        &&& !after.ready_of()
                        &&& after.backend_of() == ExecutionBackend::Interpreted
                        &&& after.mode_of() == mode
                        &&& after.fallback_of() == Some(FallbackReason::CompileFailed(message))
                        &&& after.permanent_of() == Some(FallbackReason::CompileFailed(message))
                        &&& after.config_of() == before.config_of()
                        &&& after.window_of() == before.window_of()
                    } else {
                        &&& result == Err::<(), ExecutorError>(ExecutorError::CompileFailed(message))
                        &&& after.same_as(&before)
                    },
                }
            }),
            final(self).consistent(),
    {
        let mode = match self.config {
            Some(config) => config.requested_mode,
            None => ExecutionMode::Auto,
        };
        match outcome {
            Ok(()) => {
                self.runtime_ready = true;
                self.backend = ExecutionBackend::Compiled;
                self.requested_mode = mode;
                self.fallback_reason = None;
                Ok(())
            },
            Err(message) => {
                if mode == ExecutionMode::Auto {
                    self.permanent_fallback = Some(FallbackReason::CompileFailed(message.clone()));
                    self.runtime_ready = false;
                    self.backend = ExecutionBackend::Interpreted;
                    self.requested_mode = mode;
                    self.fallback_reason = Some(FallbackReason::CompileFailed(message));
                    Ok(())
                } else {
                    Err(ExecutorError::CompileFailed(message))
                }
            },
        }
    }

    /// Drops the runtime for good after a failure during `operation`: the
    /// reason becomes the fallback reason and the permanent failure; in
    /// automatic mode the interpreter takes over, in any other mode the
    /// failure reaches the caller.
    pub fn fail_runtime(&mut self, operation: RuntimeOperation, detail: String) -> (result: Result<(), ExecutorError>)
        requires
            old(self).consistent(),
        ensures
            (*final(self)).dropped_for(&*old(self), FallbackReason::RuntimeFailed { operation, detail }, result),
            final(self).consistent(),
    {
        self.drop_runtime(FallbackReason::RuntimeFailed { operation, detail })
    }

    /// Whether `self` is `before` with its runtime dropped for `reason`, and
    /// `result` what the caller gets.
    pub open spec fn dropped_for(&self, before: &CompiledExecutor, reason: FallbackReason, result: Result<(), ExecutorError>) -> bool {
        let after = self;
        &&& !after.ready_of()
        &&& after.fallback_of() == Some(reason)
        &&& after.permanent_of() == Some(reason)
        &&& after.mode_of() == before.mode_of()
        &&& after.config_of() == before.config_of()
        &&& after.window_of() == before.window_of()
        &&& if before.mode_of() == ExecutionMode::Auto {
            &&& result is Ok
            &&& after.backend_of() == ExecutionBackend::Interpreted
        } else {
            &&& result == Err::<(), ExecutorError>(ExecutorError::RuntimeFailed(reason))
            &&& after.backend_of() == before.backend_of()
        }
    }

    /// Drops the runtime for good for `reason`.
    fn drop_runtime(&mut self, reason: FallbackReason) -> (result: Result<(), ExecutorError>)
        requires
            old(self).consistent(),
        ensures
            ({
                let before = *old(self);
                let after = *final(self);
                &&& !after.ready_of()
                &&& after.fallback_of() == Some(reason)
                &&& after.permanent_of() == Some(reason)
                &&& after.mode_of() == before.mode_of()
                &&& after.config_of() == before.config_of()
                &&& after.window_of() == before.window_of()
                &&& if before.mode_of() == ExecutionMode::Auto {
                    &&& result is Ok
                    &&& after.backend_of() == ExecutionBackend::Interpreted
                } else {
                    &&& result == Err::<(), ExecutorError>(ExecutorError::RuntimeFailed(reason))
                    &&& after.backend_of() == before.backend_of()
                }
            }),
            final(self).consistent(),
    {
        self.runtime_ready = false;
        self.fallback_reason = Some(copy_reason(&reason));
        self.permanent_fallback = Some(copy_reason(&reason));
        if self.requested_mode == ExecutionMode::Auto {
            self.backend = ExecutionBackend::Interpreted;
            Ok(())
        } else {
            Err(ExecutorError::RuntimeFailed(reason))
        }
    }

    /// Whether a step may use the runtime: an error when compiled execution
    /// is forced after a permanent failure, else whether a runtime is held.
    pub fn runtime_available(&self) -> (available: Result<bool, ExecutorError>)
        ensures
            ({
                let s = self;
                if s.permanent_of() is Some && s.mode_of() == ExecutionMode::Compiled && !s.ready_of() {
                    available == Err::<bool, ExecutorError>(ExecutorError::Unavailable(s.permanent_of()->0))
                } else {
                    available == Ok::<bool, ExecutorError>(s.ready_of())
                }
            }),
    {
        if !self.runtime_ready && self.requested_mode == ExecutionMode::Compiled {
            if let Some(reason) = &self.permanent_fallback {
                return Err(ExecutorError::Unavailable(copy_reason(reason)));
            }
        }
        Ok(self.runtime_ready)
    }

    /// Takes the outcome of synchronizing the runtime at `tick`: whether it
    /// recompiled anything, or the failure's message. A recompilation that
    /// fills the window in automatic mode, and any failure, drops the
    /// runtime as `fail_runtime` does. True when the executor fell back.
    pub fn finish_synchronize(&mut self, outcome: Result<bool, String>, tick: u64) -> (result: Result<bool, ExecutorError>)
        requires
            old(self).ready_of(),
            old(self).consistent(),
        ensures
            ({
                let before = *old(self);
                let after = *final(self);
                let auto = before.mode_of() == ExecutionMode::Auto;
                match outcome {
                    Ok(recompiled) => if recompiled && auto {
                        let window = recorded(before.window_of(), tick);
                        if window.len() >= crate::compiled::window::AUTO_RECOMPILE_LIMIT {
                            &&& result == Ok::<bool, ExecutorError>(true)
                            &&& !after.ready_of()
                            &&& after.backend_of() == ExecutionBackend::Interpreted
                            &&& after.window_of() == window
                            &&& after.permanent_of() == Some(FallbackReason::TopologyChurn(window.len() as usize))
                            &&& after.fallback_of() == Some(FallbackReason::TopologyChurn(window.len() as usize))
                        } else {
                            &&& result == Ok::<bool, ExecutorError>(false)
                            &&& after.window_of() == window
                            &&& after.ready_of()
                            &&& after.backend_of() == before.backend_of()
                            &&& after.fallback_of() == before.fallback_of()
                            &&& after.permanent_of() == before.permanent_of()
                        }
                    } else {
                        &&& result == Ok::<bool, ExecutorError>(false)
                        &&& after.same_as(&before)
                    },
                    Err(message) => {
                        let reason = FallbackReason::RuntimeFailed {
                            operation: RuntimeOperation::Synchronization,
                            detail: message,
                        };
                        &&& !after.ready_of()
                        &&& after.permanent_of() == Some(reason)
                        &&& after.window_of() == before.window_of()
                        &&& if auto {
                            result == Ok::<bool, ExecutorError>(true)
                        } else {
                            result == Err::<bool, ExecutorError>(ExecutorError::RuntimeFailed(reason))
                        }
                    },
                }
            }),
            final(self).consistent(),
    {
        match outcome {
            Ok(recompiled) => {
                if !recompiled {
                    return Ok(false);
                }
                let auto = self.requested_mode == ExecutionMode::Auto;
                if !auto {
                    return Ok(false);
                }
                match self.window.auto_recompile_fallback_reason(true, tick) {
                    Some(count) => match self.drop_runtime(FallbackReason::TopologyChurn(count)) {
                        Ok(()) => Ok(true),
                        Err(error) => Err(error),
                    },
                    None => Ok(false),
                }
            },
            Err(message) => match self.fail_runtime(RuntimeOperation::Synchronization, message) {
                Ok(()) => Ok(true),
                Err(error) => Err(error),
            },
        }
    }

    /// Takes the outcome of an ordered propagation: compiled when it ran,
    /// interpreted when the network declined it, and on failure the runtime
    /// drops as `fail_runtime` does, the executor falling back.
    pub fn finish_propagation(&mut self, outcome: Result<bool, String>) -> (result: Result<OrderedPropagation, ExecutorError>)
        requires
            old(self).consistent(),
        ensures
            ({
                let before = *old(self);
                let after = *final(self);
                match outcome {
                    Ok(ran) => {
                        &&& after.same_as(&before)
                        &&& result == Ok::<OrderedPropagation, ExecutorError>(
                            if ran {
                                OrderedPropagation::Compiled
                            } else {
                                OrderedPropagation::Interpreted
                            },
                        )
                    },
                    Err(detail) => {
                        let reason = FallbackReason::RuntimeFailed {
                            operation: RuntimeOperation::OrderedPropagation,
                            detail,
                        };
                        &&& !after.ready_of()
                        &&& after.permanent_of() == Some(reason)
                        &&& if before.mode_of() == ExecutionMode::Auto {
                            result == Ok::<OrderedPropagation, ExecutorError>(OrderedPropagation::FellBack)
                        } else {
                            result == Err::<OrderedPropagation, ExecutorError>(ExecutorError::RuntimeFailed(reason))
                        }
                    },
                }
            }),
            final(self).consistent(),
    {
        match outcome {
            Ok(true) => Ok(OrderedPropagation::Compiled),
            Ok(false) => Ok(OrderedPropagation::Interpreted),
            Err(detail) => match self.fail_runtime(RuntimeOperation::OrderedPropagation, detail) {
                Ok(()) => Ok(OrderedPropagation::FellBack),
                Err(error) => Err(error),
            },
        }
    }
}

/// A configuration that only the interpreter can serve runs interpreted:
/// in every state the executor's own operations reach, the configured
/// diagnostic keeps the compiled backend off, and under automatic selection
/// the executor reports why it fell back.
pub proof fn law_diagnostic_runs_interpreted(executor: &CompiledExecutor)
    requires
        executor.consistent(),
    ensures
        executor.config_of() matches Some(c) && spec_diagnostic(c) is Some ==> executor.backend_of()
            == ExecutionBackend::Interpreted,
        executor.config_of() matches Some(c) && c.requested_mode == ExecutionMode::Auto && spec_diagnostic(c)
            is Some ==> executor.fallback_of() is Some,
{
}

} // verus!
