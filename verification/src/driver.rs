//! Starting the driver and making its control device.
use vstd::prelude::*;
use crate::status::{nt_success, STATUS_INSUFFICIENT_RESOURCES, STATUS_SUCCESS};

verus! {

/// Tag of the driver's memory: "Fast".
pub const MEMORY_POOL_TAG: u32 = 0x7473_6146;

/// What the driver keeps for all handles.
pub struct DriverGlobals {
    /// Where the driver's settings stand in the registry, with a zero behind it; empty if unknown.
    pub registry_path: Vec<u16>,
    pub driver_object: u64,
}

impl DriverGlobals {
    pub fn new() -> (g: DriverGlobals)
        ensures
            g.registry_path@.len() == 0,
            g.driver_object == 0,
    {
        DriverGlobals { registry_path: Vec::new(), driver_object: 0 }
    }

    pub fn set_global_registry_path(&mut self, path: Vec<u16>)
        ensures
            final(self).registry_path == path,
            final(self).driver_object == old(self).driver_object,
    {
        self.registry_path = path;
    }

    pub fn get_global_registry_path(&self) -> (path: &[u16])
        ensures
            path@ == self.registry_path@,
    {
        self.registry_path.as_slice()
    }

    pub fn set_global_driver_object(&mut self, driver: u64)
        ensures
            final(self).registry_path == old(self).registry_path,
            final(self).driver_object == driver,
    {
        self.driver_object = driver;
    }

    pub fn get_global_driver_object(&self) -> (driver: u64)
        ensures
            driver == self.driver_object,
    {
        self.driver_object
    }

    /// Notes what the driver was started with: its registry path, if it was given one, and its
    /// driver object.
    pub fn driver_entry(&mut self, driver: u64, registry_path: Option<&[u16]>)
        ensures
            final(self).driver_object == driver,
            final(self).registry_path@ == (match registry_path {
                Some(path) => path@.push(0),
                None => old(self).registry_path@,
            }),
    {
        if let Some(path) = registry_path {
            let mut copy: Vec<u16> = vstd::slice::slice_to_vec(path);
            copy.push(0);
            self.set_global_registry_path(copy);
        }
        self.set_global_driver_object(driver);
    }
}

/// How far making the control device has got.
#[derive(Debug, Clone, Copy, PartialEq, Eq, Structural)]
pub enum DeviceStage {
    Allocating,
    Naming,
    Creating,
    Linking { device: u64 },
    Queueing { device: u64 },
    Done,
}

/// What the framework reports back.
#[derive(Debug, Clone, Copy, PartialEq, Eq, Structural)]
pub enum DeviceEvent {
    /// What describes the device was allocated, or not.
    Allocated(bool),
    NameAssigned(i32),
    Created { status: i32, device: u64 },
    LinkCreated(i32),
    QueueCreated(i32),
}

/// What is to be done next.
#[derive(Debug, Clone, Copy, PartialEq, Eq, Structural)]
pub enum DeviceAction {
    /// Give the device its name.
    AssignName,
    /// Set the callbacks and create the device.
    Create,
    /// Create the name that clients open.
    CreateLink { device: u64 },
    CreateQueue { device: u64 },
    /// Free what describes the device, if it is still there; let the device run, if it was made.
    Finish { free_init: bool, device: u64, status: i32 },
}

/// The event is one that a stage waits for.
pub open spec fn expects(stage: DeviceStage, event: DeviceEvent) -> bool {
    match stage {
        DeviceStage::Allocating => event is Allocated,
        DeviceStage::Naming => event is NameAssigned,
        DeviceStage::Creating => event is Created,
        DeviceStage::Linking { .. } => event is LinkCreated,
        DeviceStage::Queueing { .. } => event is QueueCreated,
        DeviceStage::Done => false,
    }
}

/// What follows an event.
pub open spec fn next(stage: DeviceStage, event: DeviceEvent) -> (DeviceStage, DeviceAction) {
    match (stage, event) {
        (_, DeviceEvent::Allocated(there)) => if there {
            (DeviceStage::Naming, DeviceAction::AssignName)
        } else {
            (
                DeviceStage::Done,
                DeviceAction::Finish {
                    free_init: false,
                    device: 0,
                    status: STATUS_INSUFFICIENT_RESOURCES,
                },
            )
        },
        (_, DeviceEvent::NameAssigned(status)) => if status >= 0 {
            (DeviceStage::Creating, DeviceAction::Create)
        } else {
            (DeviceStage::Done, DeviceAction::Finish { free_init: true, device: 0, status })
        },
        (_, DeviceEvent::Created { status, device }) => if status >= 0 {
            (DeviceStage::Linking { device }, DeviceAction::CreateLink { device })
        } else {
            (DeviceStage::Done, DeviceAction::Finish { free_init: true, device: 0, status })
        },
        (DeviceStage::Linking { device }, DeviceEvent::LinkCreated(status)) => if status >= 0 {
            (DeviceStage::Queueing { device }, DeviceAction::CreateQueue { device })
        } else {
            (DeviceStage::Done, DeviceAction::Finish { free_init: false, device: 0, status })
        },
        (DeviceStage::Queueing { device }, DeviceEvent::QueueCreated(status)) => if status >= 0 {
            (
                DeviceStage::Done,
                DeviceAction::Finish { free_init: false, device, status: STATUS_SUCCESS },
            )
        } else {
            (DeviceStage::Done, DeviceAction::Finish { free_init: false, device: 0, status })
        },
        _ => (stage, DeviceAction::AssignName),
    }
}

fn give_up(free_init: bool, status: i32) -> (r: (DeviceStage, DeviceAction))
    ensures
        r == (DeviceStage::Done, DeviceAction::Finish { free_init, device: 0, status }),
{
    (DeviceStage::Done, DeviceAction::Finish { free_init, device: 0, status })
}

/// One step of making the control device. The first thing to do is to allocate what describes it.
pub fn create_control_device(stage: DeviceStage, event: DeviceEvent) -> (r: (
    DeviceStage,
    DeviceAction,
))
    requires
        expects(stage, event),
    ensures
        r == next(stage, event),
{
    match (stage, event) {
        (_, DeviceEvent::Allocated(there)) => {
            if there {
                (DeviceStage::Naming, DeviceAction::AssignName)
            } else {
                give_up(false, STATUS_INSUFFICIENT_RESOURCES)
            }
        },
        (_, DeviceEvent::NameAssigned(status)) => {
            if nt_success(status) {
                (DeviceStage::Creating, DeviceAction::Create)
            } else {
                give_up(true, status)
            }
        },
        (_, DeviceEvent::Created { status, device }) => {
            if nt_success(status) {
                (DeviceStage::Linking { device }, DeviceAction::CreateLink { device })
            } else {
                give_up(true, status)
            }
        },
        (DeviceStage::Linking { device }, DeviceEvent::LinkCreated(status)) => {
            if nt_success(status) {
                (DeviceStage::Queueing { device }, DeviceAction::CreateQueue { device })
            } else {
                give_up(false, status)
            }
        },
        (DeviceStage::Queueing { device }, DeviceEvent::QueueCreated(status)) => {
            if nt_success(status) {
                (
                    DeviceStage::Done,
                    DeviceAction::Finish { free_init: false, device, status: STATUS_SUCCESS },
                )
            } else {
                give_up(false, status)
            }
        },
        _ => (stage, DeviceAction::AssignName),
    }
}

/// What describes the device is freed exactly where naming or creating the device failed: before,
/// there is none, and afterwards the device has it.
pub proof fn law_init_freed_before_creation(stage: DeviceStage, event: DeviceEvent)
    requires
        expects(stage, event),
    ensures
        (next(stage, event).1 matches DeviceAction::Finish { free_init, .. } && free_init) <==> (
        match event {
            DeviceEvent::NameAssigned(status) => status < 0,
            DeviceEvent::Created { status, .. } => status < 0,
            _ => false,
        }),
{
}

/// A device is named, created, linked and given a queue, in this order, and then it runs. Where a
/// step fails, that is the end, with its status and without a device.
pub proof fn law_device_is_made_in_order(stage: DeviceStage, status: i32, device: u64)
    ensures
        next(DeviceStage::Allocating, DeviceEvent::Allocated(true)) == (
            DeviceStage::Naming,
            DeviceAction::AssignName,
        ),
        status >= 0 ==> {
            &&& next(DeviceStage::Naming, DeviceEvent::NameAssigned(status)) == (
                DeviceStage::Creating,
                DeviceAction::Create,
            )
            &&& next(DeviceStage::Creating, DeviceEvent::Created { status, device }) == (
                DeviceStage::Linking { device },
                DeviceAction::CreateLink { device },
            )
            &&& next(DeviceStage::Linking { device }, DeviceEvent::LinkCreated(status)) == (
                DeviceStage::Queueing { device },
                DeviceAction::CreateQueue { device },
            )
            &&& next(DeviceStage::Queueing { device }, DeviceEvent::QueueCreated(status)).1 == (
            DeviceAction::Finish { free_init: false, device, status: 0 })
        },
        status < 0 ==> {
            &&& next(DeviceStage::Naming, DeviceEvent::NameAssigned(status)).1 == (
            DeviceAction::Finish { free_init: true, device: 0, status })
            &&& next(DeviceStage::Creating, DeviceEvent::Created { status, device }).1 == (
            DeviceAction::Finish { free_init: true, device: 0, status })
            &&& next(DeviceStage::Linking { device }, DeviceEvent::LinkCreated(status)).1 == (
            DeviceAction::Finish { free_init: false, device: 0, status })
            &&& next(DeviceStage::Queueing { device }, DeviceEvent::QueueCreated(status)).1 == (
            DeviceAction::Finish { free_init: false, device: 0, status })
        },
{
}

} // verus!
