//! Registry keys that the file monitor's filter needs, written step by step.
//!
//! [`Provisioning`] says which key to create or which value to set next; whoever does so reports
//! the status, and for a new key its handle, back to it.
use vstd::prelude::*;
use crate::file_types;
use crate::status::STATUS_UNSUCCESSFUL;
use crate::utf16;

verus! {

pub const REG_SZ: u32 = 1;

pub const REG_DWORD: u32 = 4;

/// What was asked for last, and the handles of the keys that are open.
#[derive(Clone, Copy, Debug)]
pub enum RegistryStep {
    Base,
    Instances { base: u64 },
    DefaultInstance { base: u64, instances: u64 },
    Subkey { base: u64, instances: u64 },
    Altitude { base: u64, instances: u64, subkey: u64 },
    Flags { base: u64, instances: u64, subkey: u64 },
    Finished,
}

/// What to do next.
pub enum RegistryAction {
    /// Create the key `name`, below the key `root` if one is given.
    CreateKey { root: Option<u64>, name: Vec<u16> },
    /// Set the value `name` of `key`.
    SetValue { key: u64, name: Vec<u16>, kind: u32, data: Vec<u8> },
    /// Close these keys in order and return the result.
    Finish { close: Vec<u64>, result: Result<(), i32> },
}

/// Mathematical model of a [`RegistryAction`].
pub ghost enum Request {
    CreateKey { root: Option<u64>, name: Seq<u16> },
    SetValue { key: u64, name: Seq<u16>, kind: u32, data: Seq<u8> },
    Finish { close: Seq<u64>, result: Result<(), i32> },
}

impl View for RegistryAction {
    type V = Request;

    open spec fn view(&self) -> Request {
        match self {
            RegistryAction::CreateKey { root, name } => Request::CreateKey {
                root: *root,
                name: name@,
            },
            RegistryAction::SetValue { key, name, kind, data } => Request::SetValue {
                key: *key,
                name: name@,
                kind: *kind,
                data: data@,
            },
            RegistryAction::Finish { close, result } => Request::Finish {
                close: close@,
                result: *result,
            },
        }
    }
}

/// A text as the registry stores it, with a zero at its end.
pub open spec fn sz(text: Seq<char>) -> Seq<u8> {
    file_types::unit_bytes(utf16::encoded(text).push(0))
}

/// What follows once the last request ended in `status`, with `handle` the key that it created.
pub open spec fn next(step: RegistryStep, status: i32, handle: u64) -> (RegistryStep, Request) {
    let fail = |close: Seq<u64>|
        (RegistryStep::Finished, Request::Finish { close, result: Err(status) });
    match step {
        RegistryStep::Base => if status < 0 {
            fail(seq![])
        } else {
            (
                RegistryStep::Instances { base: handle },
                Request::CreateKey { root: Some(handle), name: utf16::encoded("Instances"@) },
            )
        },
        RegistryStep::Instances { base } => if status < 0 {
            fail(seq![base])
        } else {
            (
                RegistryStep::DefaultInstance { base, instances: handle },
                Request::SetValue {
                    key: handle,
                    name: utf16::encoded("DefaultInstance"@),
                    kind: REG_SZ,
                    data: sz("FastDivertInstance"@),
                },
            )
        },
        RegistryStep::DefaultInstance { base, instances } => if status < 0 {
            fail(seq![instances, base])
        } else {
            (
                RegistryStep::Subkey { base, instances },
                Request::CreateKey {
                    root: Some(instances),
                    name: utf16::encoded("FastDivertInstance"@),
                },
            )
        },
        RegistryStep::Subkey { base, instances } => if status < 0 {
            fail(seq![instances, base])
        } else {
            (
                RegistryStep::Altitude { base, instances, subkey: handle },
                Request::SetValue {
                    key: handle,
                    name: utf16::encoded("Altitude"@),
                    kind: REG_SZ,
                    data: sz("385000"@),
                },
            )
        },
        RegistryStep::Altitude { base, instances, subkey } => if status < 0 {
            fail(seq![subkey, instances, base])
        } else {
            (
                RegistryStep::Flags { base, instances, subkey },
                Request::SetValue {
                    key: subkey,
                    name: utf16::encoded("Flags"@),
                    kind: REG_DWORD,
                    data: seq![0u8, 0u8, 0u8, 0u8],
                },
            )
        },
        RegistryStep::Flags { base, instances, subkey } => (
            RegistryStep::Finished,
            Request::Finish { close: seq![subkey, instances, base], result: Ok(()) },
        ),
        RegistryStep::Finished => (
            RegistryStep::Finished,
            Request::Finish { close: seq![], result: Ok(()) },
        ),
    }
}

/// Handles of the keys that are open while a request is under way, in the order in which they
/// were opened.
pub open spec fn open_keys(step: RegistryStep) -> Seq<u64> {
    match step {
        RegistryStep::Base | RegistryStep::Finished => seq![],
        RegistryStep::Instances { base } => seq![base],
        RegistryStep::DefaultInstance { base, instances } => seq![base, instances],
        RegistryStep::Subkey { base, instances } => seq![base, instances],
        RegistryStep::Altitude { base, instances, subkey } => seq![base, instances, subkey],
        RegistryStep::Flags { base, instances, subkey } => seq![base, instances, subkey],
    }
}

/// Whether a key is being created.
pub open spec fn creates(step: RegistryStep) -> bool {
    step is Base || step is Instances || step is Subkey
}

/// Keys stay open until the end, and at the end each key that was opened is closed exactly once,
/// the last one first.
pub proof fn law_every_key_is_closed_once(step: RegistryStep, status: i32, handle: u64)
    ensures
        ({
            let (after, request) = next(step, status, handle);
            let opened = if creates(step) && status >= 0 {
                open_keys(step).push(handle)
            } else {
                open_keys(step)
            };
            match request {
                Request::Finish { close, .. } => {
                    &&& after is Finished
                    &&& close.len() == opened.len()
                    &&& forall|i: int|
                        0 <= i < close.len() ==> #[trigger] close[i] == opened[opened.len() - 1 - i]
                },
                _ => open_keys(after) == opened,
            }
        }),
{
    let (after, request) = next(step, status, handle);
    let opened = if creates(step) && status >= 0 {
        open_keys(step).push(handle)
    } else {
        open_keys(step)
    };
    if !(request is Finish) {
        assert(open_keys(after) =~= opened);
    }
}

/// The creation of the registry keys, under way.
pub struct Provisioning {
    pub step: RegistryStep,
}

impl Provisioning {
    /// Starts with the key of the service, whose path ends in a zero.
    pub fn begin(registry_path: &[u16]) -> (r: (Provisioning, RegistryAction))
        ensures
            registry_path@.len() == 0 ==> r.0.step is Finished && r.1@ == (Request::Finish {
                close: seq![],
                result: Err(STATUS_UNSUCCESSFUL),
            }),
            registry_path@.len() > 0 ==> r.0.step is Base && r.1@ == (Request::CreateKey {
                root: None,
                name: registry_path@.drop_last(),
            }),
    {
        let n: usize = registry_path.len();
        if n == 0 {
            let close: Vec<u64> = Vec::new();
            assert(close@ =~= seq![]);
            return (
                Provisioning { step: RegistryStep::Finished },
                RegistryAction::Finish { close, result: Err(STATUS_UNSUCCESSFUL) },
            );
        }
        let name = vstd::slice::slice_to_vec(vstd::slice::slice_subrange(registry_path, 0, n - 1));
        assert(name@ =~= registry_path@.drop_last());
        (
            Provisioning { step: RegistryStep::Base },
            RegistryAction::CreateKey { root: None, name },
        )
    }

    /// Takes note of how the last request ended, and says what is next.
    pub fn step(&mut self, status: i32, handle: u64) -> (a: RegistryAction)
        ensures
            (final(self).step, a@) == next(old(self).step, status, handle),
    {
        match self.step {
            RegistryStep::Base => {
                if status < 0 {
                    return self.finish0(Err(status));
                }
                self.step = RegistryStep::Instances { base: handle };
                RegistryAction::CreateKey { root: Some(handle), name: utf16::encode("Instances") }
            },
            RegistryStep::Instances { base } => {
                if status < 0 {
                    return self.finish1(base, Err(status));
                }
                self.step = RegistryStep::DefaultInstance { base, instances: handle };
                RegistryAction::SetValue {
                    key: handle,
                    name: utf16::encode("DefaultInstance"),
                    kind: REG_SZ,
                    data: sz_bytes("FastDivertInstance"),
                }
            },
            RegistryStep::DefaultInstance { base, instances } => {
                if status < 0 {
                    return self.finish2(instances, base, Err(status));
                }
                self.step = RegistryStep::Subkey { base, instances };
                RegistryAction::CreateKey {
                    root: Some(instances),
                    name: utf16::encode("FastDivertInstance"),
                }
            },
            RegistryStep::Subkey { base, instances } => {
                if status < 0 {
                    return self.finish2(instances, base, Err(status));
                }
                self.step = RegistryStep::Altitude { base, instances, subkey: handle };
                RegistryAction::SetValue {
                    key: handle,
                    name: utf16::encode("Altitude"),
                    kind: REG_SZ,
                    data: sz_bytes("385000"),
                }
            },
            RegistryStep::Altitude { base, instances, subkey } => {
                if status < 0 {
                    return self.finish3(subkey, instances, base, Err(status));
                }
                self.step = RegistryStep::Flags { base, instances, subkey };
                let mut data: Vec<u8> = Vec::new();
                crate::bytes::push_u32_le(&mut data, 0);
                proof {
                    reveal(crate::bytes::u32_le);
                }
                assert(data@ =~= seq![0u8, 0u8, 0u8, 0u8]);
                RegistryAction::SetValue {
                    key: subkey,
                    name: utf16::encode("Flags"),
                    kind: REG_DWORD,
                    data,
                }
            },
            RegistryStep::Flags { base, instances, subkey } => {
                self.finish3(subkey, instances, base, Ok(()))
            },
            RegistryStep::Finished => self.finish0(Ok(())),
        }
    }

    fn finish0(&mut self, result: Result<(), i32>) -> (a: RegistryAction)
        ensures
            final(self).step is Finished,
            a@ == (Request::Finish { close: seq![], result }),
    {
        self.step = RegistryStep::Finished;
        let close: Vec<u64> = Vec::new();
        assert(close@ =~= seq![]);
        RegistryAction::Finish { close, result }
    }

    fn finish1(&mut self, a: u64, result: Result<(), i32>) -> (r: RegistryAction)
        ensures
            final(self).step is Finished,
            r@ == (Request::Finish { close: seq![a], result }),
    {
        self.step = RegistryStep::Finished;
        let mut close: Vec<u64> = Vec::new();
        close.push(a);
        assert(close@ =~= seq![a]);
        RegistryAction::Finish { close, result }
    }

    fn finish2(&mut self, a: u64, b: u64, result: Result<(), i32>) -> (r: RegistryAction)
        ensures
            final(self).step is Finished,
            r@ == (Request::Finish { close: seq![a, b], result }),
    {
        self.step = RegistryStep::Finished;
        let mut close: Vec<u64> = Vec::new();
        close.push(a);
        close.push(b);
        assert(close@ =~= seq![a, b]);
        RegistryAction::Finish { close, result }
    }

    fn finish3(&mut self, a: u64, b: u64, c: u64, result: Result<(), i32>) -> (r: RegistryAction)
        ensures
            final(self).step is Finished,
            r@ == (Request::Finish { close: seq![a, b, c], result }),
    {
        self.step = RegistryStep::Finished;
        let mut close: Vec<u64> = Vec::new();
        close.push(a);
        close.push(b);
        close.push(c);
        assert(close@ =~= seq![a, b, c]);
        RegistryAction::Finish { close, result }
    }
}

/// A text as the registry stores it.
fn sz_bytes(text: &str) -> (out: Vec<u8>)
    ensures
        out@ == sz(text@),
{
    let mut units: Vec<u16> = utf16::encode(text);
    units.push(0);
    let mut out: Vec<u8> = Vec::new();
    file_types::push_units(&mut out, &units);
    assert(out@ =~= sz(text@));
    out
}

/// The instance that is named as the default one is the one whose key is created.
pub proof fn law_default_instance_is_made(
    base: u64,
    instances: u64,
    status: i32,
    handle: u64,
    name: Seq<u16>,
    data: Seq<u8>,
    key: u64,
    kind: u32,
    root: Option<u64>,
)
    requires
        status >= 0,
        next(RegistryStep::Instances { base }, status, instances).1 matches Request::SetValue {
            key: k,
            kind: t,
            data: d,
            ..
        } && k == key && t == kind && d == data,
        next(RegistryStep::DefaultInstance { base, instances }, status, handle).1
            matches Request::CreateKey { root: r, name: n } && r == root && n == name,
    ensures
        data == file_types::unit_bytes(name.push(0)),
        key == instances,
        kind == 1,
        root == Some(instances),
{
}

/// The altitude and the flags are those of the instance: six digits as a text with a zero behind
/// it, and a number that is 0.
pub proof fn law_instance_has_altitude_and_flags(
    base: u64,
    instances: u64,
    subkey: u64,
    status: i32,
    handle: u64,
)
    requires
        status >= 0,
    ensures
        next(RegistryStep::Subkey { base, instances }, status, subkey).1 == (Request::SetValue {
            key: subkey,
            name: seq![0x41u16, 0x6C, 0x74, 0x69, 0x74, 0x75, 0x64, 0x65],
            kind: 1,
            data: seq![0x33u8, 0, 0x38, 0, 0x35, 0, 0x30, 0, 0x30, 0, 0x30, 0, 0, 0],
        }),
        next(RegistryStep::Altitude { base, instances, subkey }, status, handle).1 == (
        Request::SetValue {
            key: subkey,
            name: seq![0x46u16, 0x6C, 0x61, 0x67, 0x73],
            kind: 4,
            data: seq![0u8, 0, 0, 0],
        }),
{
    reveal_strlit("Altitude");
    reveal_strlit("385000");
    reveal_strlit("Flags");
    utf16::law_plain_text_keeps_codes("Altitude"@);
    utf16::law_plain_text_keeps_codes("385000"@);
    utf16::law_plain_text_keeps_codes("Flags"@);
    let a = utf16::encoded("Altitude"@);
    let n = utf16::encoded("385000"@);
    let f = utf16::encoded("Flags"@);
    assert("Altitude"@.len() == 8 && "385000"@.len() == 6 && "Flags"@.len() == 5);
    assert(a =~= seq![0x41u16, 0x6C, 0x74, 0x69, 0x74, 0x75, 0x64, 0x65]);
    assert(n =~= seq![0x33u16, 0x38, 0x35, 0x30, 0x30, 0x30]);
    assert(f =~= seq![0x46u16, 0x6C, 0x61, 0x67, 0x73]);
    let u = n.push(0);
    assert(u =~= seq![0x33u16, 0x38, 0x35, 0x30, 0x30, 0x30, 0]);
    assert(file_types::unit_bytes(u) =~= seq![
        0x33u8,
        0,
        0x38,
        0,
        0x35,
        0,
        0x30,
        0,
        0x30,
        0,
        0x30,
        0,
        0,
        0,
    ]);
}

/// What fails ends the creation of the keys with its status, but for the last value, which need not
/// be set. Nothing else ends it.
pub proof fn law_failed_request_ends(step: RegistryStep, status: i32, handle: u64)
    requires
        !(step is Finished),
    ensures
        status < 0 && !(step is Flags) ==> (next(step, status, handle).1 matches Request::Finish {
            result: Err(e),
            ..
        } && e == status),
        status >= 0 && !(step is Flags) ==> !(next(step, status, handle).1 is Finish),
        step is Flags ==> (next(step, status, handle).1 matches Request::Finish {
            result: Ok(_),
            ..
        }),
{
}

} // verus!
