//! Opening and installing the driver: what follows from what Windows answers.
use vstd::prelude::*;
use crate::utf16;
use crate::text;

verus! {

/// Windows' code for a file that is not there.
pub const ERROR_FILE_NOT_FOUND: u32 = 2;

/// Windows' code for a path that is not there.
pub const ERROR_PATH_NOT_FOUND: u32 = 3;

/// Windows' code for a service that is there already.
pub const ERROR_SERVICE_EXISTS: u32 = 1073;

/// Windows' code for a service that runs already.
pub const ERROR_SERVICE_ALREADY_RUNNING: u32 = 1056;

/// The same code as it also comes: 0x80070420.
pub const HRESULT_SERVICE_ALREADY_RUNNING: i32 = -0x7FF8_FBE0;

/// The result code that stands for a Windows error code: success and codes that already are result
/// codes stay; others get the number of the Win32 facility in front.
pub open spec fn hresult(code: u32) -> i32 {
    if code == 0 {
        0
    } else if code >= 0x8000_0000 {
        (code - 0x1_0000_0000) as i32
    } else {
        (code % 0x1_0000 - 0x7FF9_0000) as i32
    }
}

/// The result code that stands for a Windows error code.
pub fn hresult_of(code: u32) -> (h: i32)
    ensures
        h == hresult(code),
{
    if code == 0 {
        0
    } else if code >= 0x8000_0000 {
        (code as i64 - 0x1_0000_0000) as i32
    } else {
        (code % 0x1_0000) as i32 - 0x7FF9_0000
    }
}

/// What is to be done when the driver could not be opened.
#[derive(Debug, Clone, Copy, PartialEq, Eq, Structural)]
pub enum OpenStep {
    /// Install the driver, then try once more.
    Install,
    /// Give up with the error.
    Fail,
}

/// What is to be done when opening the driver failed with a result code.
pub open spec fn open_step(code: i32, no_install: bool) -> OpenStep {
    if (code == hresult(ERROR_FILE_NOT_FOUND) || code == hresult(ERROR_PATH_NOT_FOUND))
        && !no_install {
        OpenStep::Install
    } else {
        OpenStep::Fail
    }
}

/// Says what is to be done when opening the driver failed with a result code: it is installed if it
/// is not there, unless that is not wanted.
pub fn open_or_install_driver(code: i32, no_install: bool) -> (s: OpenStep)
    ensures
        s == open_step(code, no_install),
{
    if (code == hresult_of(ERROR_FILE_NOT_FOUND) || code == hresult_of(ERROR_PATH_NOT_FOUND))
        && !no_install {
        OpenStep::Install
    } else {
        OpenStep::Fail
    }
}

/// What is to be done when the service of the driver could not be created.
#[derive(Debug, Clone, Copy, PartialEq, Eq, Structural)]
pub enum CreateStep {
    /// Open the service that is there.
    OpenExisting,
    /// Close the service manager and give up.
    Fail,
}

/// Says what is to be done when creating the service failed with a result code.
pub fn after_create_failure(code: i32) -> (s: CreateStep)
    ensures
        s == (if code == hresult(ERROR_SERVICE_EXISTS) {
            CreateStep::OpenExisting
        } else {
            CreateStep::Fail
        }),
{
    if code == hresult_of(ERROR_SERVICE_EXISTS) {
        CreateStep::OpenExisting
    } else {
        CreateStep::Fail
    }
}

/// What starting the service comes to: one that runs already is no failure.
pub fn start_result(outcome: Result<(), i32>) -> (r: Result<(), i32>)
    ensures
        r == (match outcome {
            Err(e) if e == HRESULT_SERVICE_ALREADY_RUNNING || e == hresult(
                ERROR_SERVICE_ALREADY_RUNNING,
            ) => Ok::<(), i32>(()),
            other => other,
        }),
{
    match outcome {
        Ok(u) => Ok(u),
        Err(e) => {
            if e == HRESULT_SERVICE_ALREADY_RUNNING || e == hresult_of(
                ERROR_SERVICE_ALREADY_RUNNING,
            ) {
                Ok(())
            } else {
                Err(e)
            }
        },
    }
}

/// How far installing the driver has got, with the handles that are open: the service manager and
/// the service.
#[derive(Debug, Clone, Copy, PartialEq, Eq, Structural)]
pub enum InstallStage {
    Manager,
    Creating { manager: u64 },
    Opening { manager: u64 },
    Starting { manager: u64, service: u64 },
    Done,
}

/// What the service manager reports back: a handle, or a result code.
#[derive(Debug, Clone, Copy, PartialEq, Eq)]
pub enum InstallEvent {
    ManagerOpened(Result<u64, i32>),
    ServiceCreated(Result<u64, i32>),
    ServiceOpened(Result<u64, i32>),
    ServiceStarted(Result<(), i32>),
}

/// What failed.
#[derive(Debug, Clone, Copy, PartialEq, Eq, Structural)]
pub enum InstallFailure {
    OpenManager(i32),
    CreateService(i32),
    OpenService(i32),
    StartService(i32),
}

/// What is to be done next.
#[derive(Debug, Clone, Copy, PartialEq, Eq)]
pub enum InstallAction {
    /// Create the service, to be started on demand.
    Create { manager: u64 },
    /// Open the service that is there.
    Open { manager: u64 },
    Start { service: u64 },
    /// Close the service and the manager, where they are named, in this order.
    Finish {
        close_service: Option<u64>,
        close_manager: Option<u64>,
        result: Result<(), InstallFailure>,
    },
}

/// The event is one that a stage waits for.
pub open spec fn expects(stage: InstallStage, event: InstallEvent) -> bool {
    match stage {
        InstallStage::Manager => event is ManagerOpened,
        InstallStage::Creating { .. } => event is ServiceCreated,
        InstallStage::Opening { .. } => event is ServiceOpened,
        InstallStage::Starting { .. } => event is ServiceStarted,
        InstallStage::Done => false,
    }
}

/// The end of an installation.
pub open spec fn finished(
    close_service: Option<u64>,
    close_manager: Option<u64>,
    result: Result<(), InstallFailure>,
) -> (InstallStage, InstallAction) {
    (InstallStage::Done, InstallAction::Finish { close_service, close_manager, result })
}

/// What follows an event. A service that is there already is opened, and one that runs already
/// counts as started.
pub open spec fn next(stage: InstallStage, event: InstallEvent) -> (InstallStage, InstallAction) {
    match (stage, event) {
        (_, InstallEvent::ManagerOpened(Ok(manager))) => (
            InstallStage::Creating { manager },
            InstallAction::Create { manager },
        ),
        (_, InstallEvent::ManagerOpened(Err(e))) => finished(
            None,
            None,
            Err(InstallFailure::OpenManager(e)),
        ),
        (InstallStage::Creating { manager }, InstallEvent::ServiceCreated(Ok(service))) => (
            InstallStage::Starting { manager, service },
            InstallAction::Start { service },
        ),
        (InstallStage::Opening { manager }, InstallEvent::ServiceOpened(Ok(service))) => (
            InstallStage::Starting { manager, service },
            InstallAction::Start { service },
        ),
        (InstallStage::Creating { manager }, InstallEvent::ServiceCreated(Err(e))) => if e
            == hresult(ERROR_SERVICE_EXISTS) {
            (InstallStage::Opening { manager }, InstallAction::Open { manager })
        } else {
            finished(None, Some(manager), Err(InstallFailure::CreateService(e)))
        },
        (_, InstallEvent::ServiceOpened(Err(e))) => finished(
            None,
            None,
            Err(InstallFailure::OpenService(e)),
        ),
        (InstallStage::Starting { manager, service }, InstallEvent::ServiceStarted(r)) => finished(
            Some(service),
            Some(manager),
            match r {
                Err(e) if e != HRESULT_SERVICE_ALREADY_RUNNING && e != hresult(
                    ERROR_SERVICE_ALREADY_RUNNING,
                ) => Err(InstallFailure::StartService(e)),
                _ => Ok(()),
            },
        ),
        _ => (stage, InstallAction::Open { manager: 0 }),
    }
}

fn finish(
    close_service: Option<u64>,
    close_manager: Option<u64>,
    result: Result<(), InstallFailure>,
) -> (r: (InstallStage, InstallAction))
    ensures
        r == finished(close_service, close_manager, result),
{
    (InstallStage::Done, InstallAction::Finish { close_service, close_manager, result })
}

/// One step of installing the driver. The first thing to do is to open the service manager.
pub fn install_driver(stage: InstallStage, event: InstallEvent) -> (r: (
    InstallStage,
    InstallAction,
))
    requires
        expects(stage, event),
    ensures
        r == next(stage, event),
{
    match (stage, event) {
        (_, InstallEvent::ManagerOpened(opened)) => {
            match opened {
                Ok(manager) => (
                    InstallStage::Creating { manager },
                    InstallAction::Create { manager },
                ),
                Err(e) => finish(None, None, Err(InstallFailure::OpenManager(e))),
            }
        },
        (InstallStage::Creating { manager }, InstallEvent::ServiceCreated(created)) => {
            match created {
                Ok(service) => (
                    InstallStage::Starting { manager, service },
                    InstallAction::Start { service },
                ),
                Err(e) => {
                    match after_create_failure(e) {
                        CreateStep::OpenExisting => (
                            InstallStage::Opening { manager },
                            InstallAction::Open { manager },
                        ),
                        CreateStep::Fail => finish(
                            None,
                            Some(manager),
                            Err(InstallFailure::CreateService(e)),
                        ),
                    }
                },
            }
        },
        (InstallStage::Opening { manager }, InstallEvent::ServiceOpened(opened)) => {
            match opened {
                Ok(service) => (
                    InstallStage::Starting { manager, service },
                    InstallAction::Start { service },
                ),
                Err(e) => finish(None, None, Err(InstallFailure::OpenService(e))),
            }
        },
        (InstallStage::Starting { manager, service }, InstallEvent::ServiceStarted(started)) => {
            let result: Result<(), InstallFailure> = match start_result(started) {
                Ok(u) => Ok(u),
                Err(e) => Err(InstallFailure::StartService(e)),
            };
            finish(Some(service), Some(manager), result)
        },
        _ => (stage, InstallAction::Open { manager: 0 }),
    }
}

/// An installation that succeeds has had a service to start, and closes that service and the
/// manager.
pub proof fn law_installation_closes_its_handles(stage: InstallStage, event: InstallEvent)
    requires
        expects(stage, event),
        next(stage, event).1 matches InstallAction::Finish { result: Ok(_), .. },
    ensures
        stage matches InstallStage::Starting { manager, service } && next(stage, event).1 == (
        InstallAction::Finish {
            close_service: Some(service),
            close_manager: Some(manager),
            result: Ok(()),
        }),
{
}

/// Name under which the driver's device is opened, in UTF-16 with a zero behind it.
pub fn device_path(name: &str) -> (u: Vec<u16>)
    ensures
        u@ == utf16::encoded("\\\\.\\"@ + name@).push(0),
{
    let mut s = String::new();
    text::push_text(&mut s, "\\\\.\\");
    text::push_text(&mut s, name);
    assert(s@ =~= "\\\\.\\"@ + name@);
    wide(s.as_str())
}

/// A text in UTF-16 with a zero behind it.
pub fn wide(s: &str) -> (u: Vec<u16>)
    ensures
        u@ == utf16::encoded(s@).push(0),
{
    let mut u: Vec<u16> = utf16::encode(s);
    u.push(0);
    u
}

/// An error code is the lower half of its result code, whose upper half names the Win32 facility. A
/// result code stands for itself. Result codes are negative as signed numbers.
pub proof fn law_result_codes(code: u32)
    ensures
        hresult(0) == 0,
        0 < code < 0x1_0000 ==> hresult(code) + 0x1_0000_0000 == 0x8007_0000 + code,
        code >= 0x8000_0000 ==> hresult(code) + 0x1_0000_0000 == code,
        code > 0 ==> hresult(code) < 0,
{
}

/// The driver is installed exactly if it was not found, file or path, and installing is wanted.
pub proof fn law_missing_driver_is_installed(code: i32, no_install: bool)
    ensures
        open_step(code, no_install) is Install <==> !no_install && (code + 0x1_0000_0000
            == 0x8007_0002 || code + 0x1_0000_0000 == 0x8007_0003),
{
}

/// Where the service is there already, it is opened instead of created; where it runs already, that
/// counts as a start. Whatever else fails ends the installation with that failure.
pub proof fn law_existing_service_is_used(manager: u64, service: u64, e: i32)
    ensures
        ({
            let creating = InstallStage::Creating { manager };
            let opening = InstallStage::Opening { manager };
            let starting = InstallStage::Starting { manager, service };
            let there = e + 0x1_0000_0000 == 0x8007_0431;
            let runs = e + 0x1_0000_0000 == 0x8007_0420;
            &&& next(InstallStage::Manager, InstallEvent::ManagerOpened(Ok(manager))) == (
                creating,
                InstallAction::Create { manager },
            )
            &&& next(creating, InstallEvent::ServiceCreated(Ok(service))) == (
                starting,
                InstallAction::Start { service },
            )
            &&& there ==> next(creating, InstallEvent::ServiceCreated(Err(e))) == (
                opening,
                InstallAction::Open { manager },
            )
            &&& !there ==> next(creating, InstallEvent::ServiceCreated(Err(e))).1 == (
            InstallAction::Finish {
                close_service: None,
                close_manager: Some(manager),
                result: Err(InstallFailure::CreateService(e)),
            })
            &&& next(opening, InstallEvent::ServiceOpened(Ok(service))) == (
                starting,
                InstallAction::Start { service },
            )
            &&& next(starting, InstallEvent::ServiceStarted(Err(e))).1 == (InstallAction::Finish {
                close_service: Some(service),
                close_manager: Some(manager),
                result: if runs {
                    Ok(())
                } else {
                    Err(InstallFailure::StartService(e))
                },
            })
        }),
{
}

} // verus!
