use vstd::prelude::*;

verus! {

/// The settings with which the pool and its fork-join bridge were started.
#[derive(Clone, Copy, Debug, PartialEq, Eq, Structural)]
pub struct BridgeConfig {
    /// Contexts spawned up front.
    pub initial_contexts: usize,
    /// Logical workers of the fork-join scheduler; each one occupies a
    /// context for the rest of the process.
    pub logical_workers: usize,
}

/// Why a start-up was refused.
#[derive(Clone, Copy, Debug, PartialEq, Eq, Structural)]
pub enum BootstrapError {
    /// The bridge was started before; the scheduler is never built twice.
    AlreadyInitialized,
    /// A fork-join scheduler needs at least one logical worker.
    NoWorkers,
}

/// The once-only start-up of the pool and its fork-join bridge.
pub struct Bootstrap {
    config: Option<BridgeConfig>,
}

impl View for Bootstrap {
    type V = Option<BridgeConfig>;

    closed spec fn view(&self) -> Option<BridgeConfig> {
        self.config
    }
}

/// The outcome of a start-up request made in state `s`.
pub open spec fn started(s: Option<BridgeConfig>, initial: usize, workers: usize) -> (
    Option<BridgeConfig>,
    Result<BridgeConfig, BootstrapError>,
) {
    if s.is_some() {
        (s, Err(BootstrapError::AlreadyInitialized))
    } else if workers == 0 {
        (s, Err(BootstrapError::NoWorkers))
    } else {
        let c = BridgeConfig { initial_contexts: initial, logical_workers: workers };
        (Some(c), Ok(c))
    }
}

impl Bootstrap {
    /// Nothing started yet.
    pub fn new() -> (r: Bootstrap)
        ensures
            r@.is_none(),
    {
        Bootstrap { config: None }
    }

    /// Starts the bridge with `initial` contexts and `workers` logical
    /// workers. It succeeds only the first time and only with at least one
    /// worker; a refused request changes nothing.
    pub fn start(&mut self, initial: usize, workers: usize) -> (r: Result<BridgeConfig, BootstrapError>)
        ensures
            (final(self)@, r) == started(old(self)@, initial, workers),
    {
        if self.config.is_some() {
            return Err(BootstrapError::AlreadyInitialized);
        }
        if workers == 0 {
            return Err(BootstrapError::NoWorkers);
        }
        let c = BridgeConfig { initial_contexts: initial, logical_workers: workers };
        self.config = Some(c);
        Ok(c)
    }

    /// Whether a start-up succeeded, so that tasks may be submitted.
    pub fn is_ready(&self) -> (r: bool)
        ensures
            r == self@.is_some(),
    {
        self.config.is_some()
    }

    /// The settings of the successful start-up, if any.
    pub fn config(&self) -> (r: Option<BridgeConfig>)
        ensures
            r == self@,
    {
        self.config
    }
}

/// A second start-up never succeeds and never changes the settings of the
/// first, whatever it asks for.
pub proof fn start_happens_once(s: Option<BridgeConfig>, a: usize, b: usize, c: usize, d: usize)
    requires
        started(s, a, b).1.is_ok(),
    ensures
        started(started(s, a, b).0, c, d).1 == Err::<BridgeConfig, BootstrapError>(
            BootstrapError::AlreadyInitialized,
        ),
        started(started(s, a, b).0, c, d).0 == started(s, a, b).0,
{
}

} // verus!
