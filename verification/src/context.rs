//! State of an open handle.
use vstd::prelude::*;
use crate::file_monitor::file_module::FileModule;
use crate::network::context::NetworkContext;
use crate::network::module::NetworkModule;
use crate::status::nt_success;

verus! {

/// What a handle does.
pub enum ModuleContext {
    Network(NetworkModule),
    File(FileModule),
}

impl ModuleContext {
    pub open spec fn wf(&self) -> bool {
        match self {
            ModuleContext::Network(m) => m.wf(),
            ModuleContext::File(m) => m.wf(),
        }
    }
}

#[derive(Debug, PartialEq, Eq, Clone, Copy, Structural)]
pub enum ContextState {
    Opening,
    Open,
    Closing,
    Closed,
}

impl ContextState {
    /// The number that stands for the state in memory.
    pub fn code(&self) -> (c: u8)
        ensures
            c == match self {
                ContextState::Opening => 0xA0u8,
                ContextState::Open => 0xB1,
                ContextState::Closing => 0xC2,
                ContextState::Closed => 0xD3,
            },
    {
        match self {
            ContextState::Opening => 0xA0,
            ContextState::Open => 0xB1,
            ContextState::Closing => 0xC2,
            ContextState::Closed => 0xD3,
        }
    }
}

impl Default for ContextState {
    fn default() -> (s: ContextState)
        ensures
            s == ContextState::Closed,
    {
        ContextState::Closed
    }
}

/// An open handle. Objects of the platform are named by numbers.
pub struct Context {
    pub state: ContextState,
    pub device: u64,
    pub object: u64,
    /// Requests that wait for something to arrive.
    pub recv_queue: u64,
    pub layer: u32,
    pub priority: u32,
    pub flags: u64,
    pub module: Option<ModuleContext>,
}

impl Context {
    pub open spec fn wf(&self) -> bool {
        self.module matches Some(m) ==> m.wf()
    }

    /// The network module, if the handle has one.
    pub open spec fn spec_network(&self) -> Option<NetworkModule> {
        match self.module {
            Some(ModuleContext::Network(m)) => Some(m),
            _ => None,
        }
    }

    /// A new handle. `lock` and `queue` are what making its lock and its queue gave; the queue is
    /// made only if the lock was.
    pub fn new(device: u64, object: u64, lock: Result<(), i32>, queue: (i32, u64)) -> (r: Result<
        Context,
        i32,
    >)
        ensures
            match (lock, r) {
                (Err(e), Err(f)) => f == e,
                (Ok(_), Err(f)) => queue.0 < 0 && f == queue.0,
                (Ok(_), Ok(c)) => queue.0 >= 0 && c == (Context {
                    state: ContextState::Closed,
                    device,
                    object,
                    recv_queue: queue.1,
                    layer: 0,
                    priority: 0,
                    flags: 0,
                    module: None,
                }),
                _ => false,
            },
    {
        match lock {
            Err(e) => {
                return Err(e);
            },
            Ok(_) => {},
        }
        if !nt_success(queue.0) {
            return Err(queue.0);
        }
        Ok(
            Context {
                state: ContextState::Closed,
                device,
                object,
                recv_queue: queue.1,
                layer: 0,
                priority: 0,
                flags: 0,
                module: None,
            },
        )
    }

    /// Opens the handle.
    pub fn initialize(&mut self) -> (r: Result<(), i32>)
        ensures
            r is Ok,
            *final(self) == (Context { state: ContextState::Open, ..*old(self) }),
    {
        self.set_state(ContextState::Open);
        Ok(())
    }

    pub fn is_open(&self) -> (b: bool)
        ensures
            b == (self.state == ContextState::Open),
    {
        self.state == ContextState::Open
    }

    /// Whether the handle is closing or closed.
    pub fn is_closing(&self) -> (b: bool)
        ensures
            b == (self.state == ContextState::Closing || self.state == ContextState::Closed),
    {
        matches!(self.state, ContextState::Closing | ContextState::Closed)
    }

    pub fn set_state(&mut self, new_state: ContextState)
        ensures
            *final(self) == (Context { state: new_state, ..*old(self) }),
    {
        self.state = new_state;
    }

    /// The network context, if the handle has one.
    pub fn get_network_ctx(&self) -> (r: Option<&NetworkContext>)
        ensures
            match (self.spec_network(), r) {
                (Some(m), Some(c)) => *c == m.network_ctx,
                (None, None) => true,
                _ => false,
            },
    {
        match &self.module {
            Some(ModuleContext::Network(m)) => Some(&m.network_ctx),
            _ => None,
        }
    }

    /// The network module, if the handle has one.
    pub fn get_network_module(&self) -> (r: Option<&NetworkModule>)
        ensures
            match (self.spec_network(), r) {
                (Some(m), Some(n)) => *n == m,
                (None, None) => true,
                _ => false,
            },
    {
        match &self.module {
            Some(ModuleContext::Network(m)) => Some(m),
            _ => None,
        }
    }
}

} // verus!
