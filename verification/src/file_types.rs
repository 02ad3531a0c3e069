//! Rules, events and decisions of the file monitor.
use vstd::prelude::*;
use crate::bytes;
use crate::text;
use crate::utf16;

verus! {

broadcast use crate::bytes::lemma_u32_le_len;

pub const MAX_FILTER_RULES: usize = 16;

pub const MAX_RULE_PATH_LEN: usize = 260;

pub const FILE_OP_CREATE: u32 = 1;

pub const FILE_OP_WRITE: u32 = 2;

pub const FILE_OP_DELETE: u32 = 4;

pub const FILE_MATCH_EXACT: u32 = 0;

pub const FILE_MATCH_PREFIX: u32 = 1;

pub const FILE_MATCH_SUFFIX: u32 = 2;

pub const FILE_MATCH_GLOB: u32 = 3;

pub const FILE_ACTION_ALLOW: u32 = 1;

pub const FILE_ACTION_DENY: u32 = 2;

pub const FILE_ACTION_REDIRECT: u32 = 3;

/// Which operations on which paths, by which processes, are of interest.
#[derive(Clone, Copy, Debug)]
pub struct FileFilterRule {
    pub operation_mask: u32,
    pub match_type: u32,
    pub path_len: u32,
    pub path: [u16; 260],
    /// Process that the rule is about, or 0 for all.
    pub process_id: u32,
    /// 1 where the rule is about all other processes.
    pub is_exclude_process: u32,
}

/// A rule in which everything is zero.
pub open spec fn is_blank(r: FileFilterRule) -> bool {
    &&& r.operation_mask == 0
    &&& r.match_type == 0
    &&& r.path_len == 0
    &&& r.path@ == Seq::new(260, |i: int| 0u16)
    &&& r.process_id == 0
    &&& r.is_exclude_process == 0
}

impl Default for FileFilterRule {
    fn default() -> (r: Self)
        ensures
            is_blank(r),
    {
        let r = FileFilterRule {
            operation_mask: 0,
            match_type: 0,
            path_len: 0,
            path: [0u16; 260],
            process_id: 0,
            is_exclude_process: 0,
        };
        assert(r.path@ =~= Seq::new(260, |i: int| 0u16));
        r
    }
}

/// Rules of the file monitor, and what it does when no decision comes in time.
#[derive(Clone, Copy, Debug)]
pub struct FileModuleConfig {
    pub timeout_ms: u32,
    pub default_action: u32,
    pub rule_count: u32,
    pub rules: [FileFilterRule; 16],
}

#[derive(Clone, Copy, Debug)]
pub struct FileDecision {
    pub transaction_id: u64,
}

/// A file operation that waits for a decision.
#[derive(Clone, Copy, Debug)]
pub struct FileEvent {
    pub transaction_id: u64,
    pub process_id: u32,
    pub op_code: u32,
    /// Length of the path in UTF-16 code units.
    pub path_len: u32,
    pub decision: u32,
    pub redirect_path_len: u32,
    pub redirect_path: [u16; 260],
}

/// What is to become of a file operation.
#[derive(Debug, PartialEq, Eq)]
pub enum FileCallbackDecision {
    Allow,
    Deny,
    Redirect(String),
}

impl Clone for FileCallbackDecision {
    fn clone(&self) -> (d: Self)
        ensures
            match (self, d) {
                (FileCallbackDecision::Allow, FileCallbackDecision::Allow) => true,
                (FileCallbackDecision::Deny, FileCallbackDecision::Deny) => true,
                (FileCallbackDecision::Redirect(a), FileCallbackDecision::Redirect(b)) => a@ == b@,
                _ => false,
            },
    {
        match self {
            FileCallbackDecision::Allow => FileCallbackDecision::Allow,
            FileCallbackDecision::Deny => FileCallbackDecision::Deny,
            FileCallbackDecision::Redirect(s) => FileCallbackDecision::Redirect(s.clone()),
        }
    }
}

/// Why a rule cannot be added.
#[derive(Debug, Clone, Copy, PartialEq, Eq, Structural)]
pub enum FileConfigError {
    TooManyRules,
    /// The path has this many code units.
    PathTooLong(usize),
}

impl FileConfigError {
    pub open spec fn spec_message(&self) -> Seq<char> {
        match self {
            FileConfigError::TooManyRules => "Maximum rule limit reached (16)"@,
            FileConfigError::PathTooLong(n) => "Resolved NT path length "@ + text::decimal_text(
                *n as nat,
            ) + " exceeds maximum limit of 260 characters"@,
        }
    }

    pub fn message(&self) -> (s: String)
        ensures
            s@ == self.spec_message(),
    {
        match self {
            FileConfigError::TooManyRules => String::from_str("Maximum rule limit reached (16)"),
            FileConfigError::PathTooLong(n) => {
                let mut s = String::from_str("Resolved NT path length ");
                text::push_decimal(&mut s, *n as u64);
                s.append(" exceeds maximum limit of 260 characters");
                s
            },
        }
    }
}

/// `u` followed by zeros up to the length of a rule's path.
pub open spec fn padded_path(u: Seq<u16>) -> Seq<u16> {
    Seq::new(
        260,
        |i: int|
            if i < u.len() {
                u[i]
            } else {
                0
            },
    )
}

/// Copies at most 260 code units, with zeros behind them.
pub fn pad_path(u: &[u16]) -> (path: [u16; 260])
    ensures
        path@ == padded_path(u@),
{
    let mut path: [u16; 260] = [0u16; 260];
    let mut i: usize = 0;
    while i < 260 && i < u.len()
        invariant
            i <= 260,
            i <= u@.len(),
            forall|j: int| 0 <= j < i ==> path[j] == u@[j],
            forall|j: int| i <= j < 260 ==> path[j] == 0,
        decreases 260 - i,
    {
        path[i] = u[i];
        i += 1;
    }
    assert(path@ =~= padded_path(u@));
    path
}

/// What adding a rule with a pattern to a configuration gives.
pub open spec fn rule_added(
    config: FileModuleConfig,
    pattern: Seq<char>,
    operation_mask: u32,
    match_type: u32,
    process_id: u32,
    is_exclude_process: bool,
    r: Result<FileModuleConfig, FileConfigError>,
) -> bool {
    let u = utf16::encoded(pattern);
    let n = config.rule_count as int;
    if config.rule_count >= 16 {
        r == Err::<FileModuleConfig, FileConfigError>(FileConfigError::TooManyRules)
    } else if u.len() > 260 {
        r == Err::<FileModuleConfig, FileConfigError>(
            FileConfigError::PathTooLong(u.len() as usize),
        )
    } else {
        &&& r matches Ok(c)
        &&& c == (FileModuleConfig { rule_count: (n + 1) as u32, rules: c.rules, ..config })
        &&& c.rules@ == config.rules@.update(n, c.rules@[n])
        &&& c.rules@[n] == (FileFilterRule {
            operation_mask,
            match_type,
            path_len: u.len() as u32,
            path: c.rules@[n].path,
            process_id,
            is_exclude_process: if is_exclude_process {
                1
            } else {
                0
            },
        })
        &&& c.rules@[n].path@ == padded_path(u)
    }
}

impl FileModuleConfig {
    /// No rules yet.
    pub fn new(timeout_ms: u32, default_action: u32) -> (c: Self)
        ensures
            c.timeout_ms == timeout_ms,
            c.default_action == default_action,
            c.rule_count == 0,
            forall|i: int| 0 <= i < 16 ==> is_blank(#[trigger] c.rules@[i]),
    {
        let rule = FileFilterRule::default();
        FileModuleConfig { timeout_ms, default_action, rule_count: 0, rules: [rule; 16] }
    }

    /// Adds a rule. A drive letter in front of the pattern is replaced by the device of the drive
    /// (see [`resolve_win32_path_to_nt`]).
    ///
    /// * `path`: the path pattern.
    /// * `device`: what looking up the drive of `path` gave, up to a zero (see
    ///   [`drive_to_look_up`]); none where it has no drive or the lookup failed.
    /// * `operation_mask`: the operations of interest (`FILE_OP_CREATE` and so on).
    /// * `match_type`: how the pattern is compared (`FILE_MATCH_EXACT` and so on).
    /// * `process_id`: the process of interest, or 0 for all.
    /// * `is_exclude_process`: whether that process is the one left out.
    pub fn add_filter(
        self,
        path: &str,
        device: Option<&[u16]>,
        operation_mask: u32,
        match_type: u32,
        process_id: u32,
        is_exclude_process: bool,
    ) -> (r: Result<FileModuleConfig, FileConfigError>)
        ensures
            rule_added(
                self,
                nt_path(
                    path@,
                    match device {
                        Some(d) => Some(d@),
                        None => None,
                    },
                ),
                operation_mask,
                match_type,
                process_id,
                is_exclude_process,
                r,
            ),
    {
        if self.rule_count as usize >= MAX_FILTER_RULES {
            return Err(FileConfigError::TooManyRules);
        }
        let resolved: String = resolve_win32_path_to_nt(path, device);
        let units: Vec<u16> = utf16::encode(resolved.as_str());
        if units.len() > MAX_RULE_PATH_LEN {
            return Err(FileConfigError::PathTooLong(units.len()));
        }
        let mut c: FileModuleConfig = self;
        let i: usize = self.rule_count as usize;
        c.rules[i] = FileFilterRule {
            operation_mask,
            match_type,
            path_len: units.len() as u32,
            path: pad_path(&units),
            process_id,
            is_exclude_process: if is_exclude_process {
                1
            } else {
                0
            },
        };
        c.rule_count = self.rule_count + 1;
        Ok(c)
    }
}

impl Default for FileModuleConfig {
    fn default() -> (c: Self)
        ensures
            c.timeout_ms == 5000,
            c.default_action == FILE_ACTION_ALLOW,
            c.rule_count == 0,
            forall|i: int| 0 <= i < 16 ==> is_blank(#[trigger] c.rules@[i]),
    {
        FileModuleConfig::new(5000, FILE_ACTION_ALLOW)
    }
}

/// Whether a path starts with a drive letter and a colon.
pub open spec fn has_drive(path: Seq<char>) -> bool {
    path.len() >= 2 && path[1] == ':' && text::code(path[0]) < 0x80
}

/// Index of the first zero in `u`, or its length.
pub open spec fn first_zero(u: Seq<u16>) -> int
    decreases u.len(),
{
    if u.len() == 0 || u[0] == 0 {
        0
    } else {
        1 + first_zero(u.drop_first())
    }
}

/// `path` with its drive replaced by the device whose name `device` holds in front of its first
/// zero; `path` itself where it has no drive or the name is no text.
pub open spec fn nt_path(path: Seq<char>, device: Option<Seq<u16>>) -> Seq<char> {
    match device {
        Some(d) if has_drive(path) && utf16::well_paired(d.take(first_zero(d))) => {
            utf16::decoded_lossy(d.take(first_zero(d))) + path.skip(2)
        },
        _ => path,
    }
}

/// What is looked up for a path, if it has a drive: the letter, a colon and a zero.
pub open spec fn looked_up(path: Seq<char>) -> Option<Seq<u16>> {
    if has_drive(path) {
        Some(seq![text::code(path[0]) as u16, 0x3A, 0])
    } else {
        None
    }
}

/// The drive to look up for a path, as a text in UTF-16 that ends in a zero.
pub fn drive_to_look_up(path: &str) -> (r: Option<Vec<u16>>)
    ensures
        match (r, looked_up(path@)) {
            (Some(d), Some(e)) => d@ == e,
            (None, None) => true,
            _ => false,
        },
{
    let chars: Vec<char> = text::chars_of(path);
    if chars.len() >= 2 && chars[1] == ':' && (chars[0] as u32) < 0x80 {
        let c: char = chars[0];
        let mut d: Vec<u16> = Vec::new();
        d.push(c as u32 as u16);
        d.push(0x3A);
        d.push(0);
        assert(d@ =~= seq![text::code(path@[0]) as u16, 0x3A, 0]);
        Some(d)
    } else {
        None
    }
}

fn find_zero(u: &[u16]) -> (end: usize)
    ensures
        end == first_zero(u@),
        end <= u@.len(),
{
    let mut end: usize = 0;
    assert(u@.skip(0) =~= u@);
    while end < u.len() && u[end] != 0
        invariant
            end <= u@.len(),
            first_zero(u@) == end + first_zero(u@.skip(end as int)),
        decreases u@.len() - end,
    {
        assert(u@.skip(end as int).drop_first() =~= u@.skip(end + 1));
        end += 1;
    }
    end
}

/// Replaces the drive letter of a Win32 path by the name of its device.
///
/// `device` is what looking up the drive gave, up to a zero; none where the lookup failed.
pub fn resolve_win32_path_to_nt(path: &str, device: Option<&[u16]>) -> (r: String)
    ensures
        r@ == nt_path(
            path@,
            match device {
                Some(d) => Some(d@),
                None => None,
            },
        ),
{
    let chars: Vec<char> = text::chars_of(path);
    if chars.len() >= 2 && chars[1] == ':' && (chars[0] as u32) < 0x80 {
        if let Some(d) = device {
            let end: usize = find_zero(d);
            let name = vstd::slice::slice_subrange(d, 0, end);
            assert(name@ =~= d@.take(end as int));
            if let Some(nt_drive) = utf16::decode(name) {
                let mut out: String = nt_drive;
                let rest: String = text::text_of(&chars, 2, chars.len());
                out.append(rest.as_str());
                assert(rest@ =~= path@.skip(2));
                return out;
            }
        }
    }
    String::from_str(path)
}

/// The bytes of code units, each least significant byte first.
pub open spec fn unit_bytes(u: Seq<u16>) -> Seq<u8> {
    Seq::new(
        2 * u.len(),
        |i: int|
            if i % 2 == 0 {
                (u[i / 2] % 0x100) as u8
            } else {
                (u[i / 2] / 0x100) as u8
            },
    )
}

/// The `n` code units at `at` of some bytes.
pub open spec fn units_at(s: Seq<u8>, at: int, n: nat) -> Seq<u16> {
    Seq::new(n, |i: int| bytes::le16(s, at + 2 * i))
}

/// The text of a path whose bytes stand in a ring.
pub open spec fn path_text(path: Seq<u8>) -> Seq<char> {
    utf16::decoded_lossy(units_at(path, 0, path.len() / 2))
}

/// Size of an event in a ring.
pub const FILE_EVENT_SIZE: usize = 552;

/// The bytes of an event. Four zeros fill it up to a multiple of eight.
#[verifier::opaque]
pub open spec fn event_bytes(e: FileEvent) -> Seq<u8> {
    bytes::u64_le(e.transaction_id) + bytes::u32_le(e.process_id) + bytes::u32_le(e.op_code)
        + bytes::u32_le(e.path_len) + bytes::u32_le(e.decision) + bytes::u32_le(
        e.redirect_path_len,
    ) + unit_bytes(e.redirect_path@) + seq![0u8, 0u8, 0u8, 0u8]
}

/// `e` is the event whose bytes are `s`.
pub open spec fn is_event(e: FileEvent, s: Seq<u8>) -> bool {
    &&& e.transaction_id == bytes::le64(s, 0)
    &&& e.process_id == bytes::le32(s, 8)
    &&& e.op_code == bytes::le32(s, 12)
    &&& e.path_len == bytes::le32(s, 16)
    &&& e.decision == bytes::le32(s, 20)
    &&& e.redirect_path_len == bytes::le32(s, 24)
    &&& e.redirect_path@ == units_at(s, 28, 260)
}

pub proof fn lemma_units_round_trip(u: Seq<u16>, s: Seq<u8>, at: int)
    requires
        0 <= at,
        at + 2 * u.len() <= s.len(),
        s.subrange(at, at + 2 * u.len()) == unit_bytes(u),
    ensures
        units_at(s, at, u.len()) == u,
{
    let t = s.subrange(at, at + 2 * u.len());
    assert forall|i: int| 0 <= i < u.len() implies units_at(s, at, u.len())[i] == u[i] by {
        assert(t[2 * i] == s[at + 2 * i]);
        assert(t[2 * i + 1] == s[at + 2 * i + 1]);
        assert((2 * i) / 2 == i && (2 * i + 1) / 2 == i && (2 * i + 1) % 2 == 1);
    }
    assert(units_at(s, at, u.len()) =~= u);
}

/// Reading an event from its bytes gives the event.
pub proof fn law_event_round_trip(e: FileEvent)
    ensures
        event_bytes(e).len() == 552,
        is_event(e, event_bytes(e)),
        forall|f: FileEvent| #[trigger] is_event(f, event_bytes(e)) ==> f == e,
{
    reveal(event_bytes);
    let s = event_bytes(e);
    assert(s.subrange(0, 8) =~= bytes::u64_le(e.transaction_id));
    assert(s.subrange(8, 12) =~= bytes::u32_le(e.process_id));
    assert(s.subrange(12, 16) =~= bytes::u32_le(e.op_code));
    assert(s.subrange(16, 20) =~= bytes::u32_le(e.path_len));
    assert(s.subrange(20, 24) =~= bytes::u32_le(e.decision));
    assert(s.subrange(24, 28) =~= bytes::u32_le(e.redirect_path_len));
    assert(s.subrange(28, 548) =~= unit_bytes(e.redirect_path@));
    bytes::lemma_le64_round_trip(s, 0, e.transaction_id);
    bytes::lemma_le32_round_trip(s, 8, e.process_id);
    bytes::lemma_le32_round_trip(s, 12, e.op_code);
    bytes::lemma_le32_round_trip(s, 16, e.path_len);
    bytes::lemma_le32_round_trip(s, 20, e.decision);
    bytes::lemma_le32_round_trip(s, 24, e.redirect_path_len);
    lemma_units_round_trip(e.redirect_path@, s, 28);
    assert forall|f: FileEvent| #[trigger] is_event(f, s) implies f == e by {
        assert(f.redirect_path =~= e.redirect_path) by {
            assert forall|i: int| 0 <= i < 260 implies f.redirect_path[i]
                == e.redirect_path[i] by {
                assert(f.redirect_path@[i] == e.redirect_path@[i]);
            }
        }
    }
}

/// Appends the bytes of code units.
pub fn push_units(out: &mut Vec<u8>, u: &[u16])
    ensures
        final(out)@ == old(out)@ + unit_bytes(u@),
{
    let mut i: usize = 0;
    assert(old(out)@ + unit_bytes(u@.take(0)) =~= old(out)@);
    while i < u.len()
        invariant
            i <= u@.len(),
            out@ == old(out)@ + unit_bytes(u@.take(i as int)),
        decreases u@.len() - i,
    {
        bytes::push_u16_le(out, u[i]);
        i += 1;
        assert(out@ =~= old(out)@ + unit_bytes(u@.take(i as int)));
    }
    assert(u@.take(i as int) =~= u@);
}

/// The bytes of an event.
pub fn encode_event(e: &FileEvent) -> (out: Vec<u8>)
    ensures
        out@ == event_bytes(*e),
{
    let mut out: Vec<u8> = Vec::new();
    bytes::push_u64_le(&mut out, e.transaction_id);
    bytes::push_u32_le(&mut out, e.process_id);
    bytes::push_u32_le(&mut out, e.op_code);
    bytes::push_u32_le(&mut out, e.path_len);
    bytes::push_u32_le(&mut out, e.decision);
    bytes::push_u32_le(&mut out, e.redirect_path_len);
    push_units(&mut out, &e.redirect_path);
    bytes::push_u32_le(&mut out, 0);
    proof {
        reveal(event_bytes);
        assert(bytes::u32_le(0) =~= seq![0u8, 0u8, 0u8, 0u8]) by {
            reveal(bytes::u32_le);
        }
    }
    assert(out@ =~= event_bytes(*e));
    out
}

/// Reads `n` code units at `at` of some bytes.
pub fn read_units(s: &[u8], at: usize, n: usize) -> (u: Vec<u16>)
    requires
        at + 2 * n <= s@.len(),
    ensures
        u@ == units_at(s@, at as int, n as nat),
{
    let mut u: Vec<u16> = Vec::new();
    let mut i: usize = 0;
    assert(s.len() == s@.len());
    while i < n
        invariant
            i <= n,
            at + 2 * n <= s@.len(),
            s@.len() <= usize::MAX,
            u@ == units_at(s@, at as int, i as nat),
        decreases n - i,
    {
        u.push(bytes::read_le16(s, at + 2 * i));
        i += 1;
        assert(u@ =~= units_at(s@, at as int, i as nat));
    }
    u
}

/// The event whose bytes `s` starts with.
pub fn decode_event(s: &[u8]) -> (e: FileEvent)
    requires
        s@.len() >= 552,
    ensures
        is_event(e, s@),
{
    let units: Vec<u16> = read_units(s, 28, 260);
    let redirect_path: [u16; 260] = pad_path(&units);
    assert(redirect_path@ =~= units_at(s@, 28, 260));
    FileEvent {
        transaction_id: bytes::read_le64(s, 0),
        process_id: bytes::read_le32(s, 8),
        op_code: bytes::read_le32(s, 12),
        path_len: bytes::read_le32(s, 16),
        decision: bytes::read_le32(s, 20),
        redirect_path_len: bytes::read_le32(s, 24),
        redirect_path,
    }
}

/// The first zero of a name that holds none stands behind it.
proof fn lemma_zero_behind(n: Seq<u16>, rest: Seq<u16>)
    requires
        forall|i: int| 0 <= i < n.len() ==> #[trigger] n[i] != 0,
    ensures
        first_zero(n + seq![0u16] + rest) == n.len(),
    decreases n.len(),
{
    let u = n + seq![0u16] + rest;
    if n.len() > 0 {
        assert(u[0] == n[0]);
        lemma_zero_behind(n.drop_first(), rest);
        assert(u.drop_first() =~= n.drop_first() + seq![0u16] + rest);
    }
}

/// On every drive, whatever ASCII character names it: what is looked up is that and a colon, and
/// the path on the drive becomes the name of the device with the rest of the path behind it. What
/// stands behind the zero that ends the name does not count.
pub proof fn law_drive_is_replaced(
    letter: char,
    rest: Seq<char>,
    device: Seq<char>,
    behind: Seq<u16>,
)
    requires
        (letter as u32) < 0x80,
        forall|i: int| 0 <= i < utf16::encoded(device).len() ==> #[trigger] utf16::encoded(
            device,
        )[i] != 0,
    ensures
        looked_up(seq![letter, ':'] + rest) == Some(seq![letter as u16, ':' as u16, 0u16]),
        nt_path(
            seq![letter, ':'] + rest,
            Some(utf16::encoded(device) + seq![0u16] + behind),
        ) == device + rest,
        nt_path(seq![letter, ':'] + rest, None) == seq![letter, ':'] + rest,
{
    let path = seq![letter, ':'] + rest;
    let n = utf16::encoded(device);
    let d = n + seq![0u16] + behind;
    lemma_zero_behind(n, behind);
    assert(d.take(first_zero(d)) =~= n);
    utf16::law_decoding_undoes_encoding(device);
    assert(path.skip(2) =~= rest);
}

/// A path without a colon at its second place has no drive, and no drive has a name beyond ASCII:
/// nothing is looked up, and the path stays as it is.
pub proof fn law_other_paths_stay(path: Seq<char>, device: Option<Seq<u16>>)
    requires
        path.len() < 2 || path[1] != ':' || path[0] as u32 >= 0x80,
    ensures
        looked_up(path) is None,
        nt_path(path, device) == path,
{
}

/// A name that runs to the end of what was looked up counts whole, and one that is no text leaves
/// the path as it is.
pub proof fn law_name_of_device(path: Seq<char>, n: Seq<u16>)
    requires
        forall|i: int| 0 <= i < n.len() ==> #[trigger] n[i] != 0,
        path.len() >= 2,
        path[1] == ':',
        (path[0] as u32) < 0x80,
    ensures
        utf16::well_paired(n) ==> nt_path(path, Some(n)) == utf16::decoded_lossy(n) + path.skip(2),
        !utf16::well_paired(n) ==> nt_path(path, Some(n)) == path,
        !utf16::well_paired(n) ==> nt_path(path, Some(n.push(0))) == path,
{
    lemma_no_zero(n);
    lemma_zero_behind(n, Seq::empty());
    let ended = n + seq![0u16] + Seq::<u16>::empty();
    assert(ended =~= n.push(0));
    assert(n.take(n.len() as int) =~= n);
    assert(n.push(0).take(n.len() as int) =~= n);
}

proof fn lemma_no_zero(n: Seq<u16>)
    requires
        forall|i: int| 0 <= i < n.len() ==> #[trigger] n[i] != 0,
    ensures
        first_zero(n) == n.len(),
    decreases n.len(),
{
    if n.len() > 0 {
        lemma_no_zero(n.drop_first());
    }
}

/// A rule that was added stands behind those that were there, which stay; and it says what it was
/// added with.
pub proof fn law_added_rule_is_last(
    before: FileModuleConfig,
    pattern: Seq<char>,
    operation_mask: u32,
    match_type: u32,
    process_id: u32,
    is_exclude_process: bool,
    r: Result<FileModuleConfig, FileConfigError>,
)
    requires
        rule_added(
            before,
            pattern,
            operation_mask,
            match_type,
            process_id,
            is_exclude_process,
            r,
        ),
    ensures
        r is Ok <==> before.rule_count < 16 && utf16::encoded(pattern).len() <= 260,
        r matches Ok(c) ==> {
            let rule = c.rules@[before.rule_count as int];
            &&& c.rule_count == before.rule_count + 1
            &&& c.timeout_ms == before.timeout_ms
            &&& c.default_action == before.default_action
            &&& forall|i: int| 0 <= i < before.rule_count ==> #[trigger] c.rules@[i] == before.rules@[i]
            &&& rule.path@.take(rule.path_len as int) == utf16::encoded(pattern)
            &&& rule.operation_mask == operation_mask
            &&& rule.match_type == match_type
            &&& rule.process_id == process_id
            &&& (rule.is_exclude_process == 1) == is_exclude_process
        },
{
    match r {
        Ok(c) => {
            let rule = c.rules@[before.rule_count as int];
            let u = utf16::encoded(pattern);
            assert(rule.path@.take(u.len() as int) =~= u);
        },
        Err(_) => {},
    }
}

/// The client reads the path that the driver wrote, whatever text it is.
pub proof fn law_path_reads_back(path: Seq<char>)
    ensures
        path_text(unit_bytes(utf16::encoded(path))) == path,
{
    let u = utf16::encoded(path);
    let s = unit_bytes(u);
    assert(s.subrange(0, 2 * u.len() as int) =~= s);
    lemma_units_round_trip(u, s, 0);
    utf16::law_decoding_undoes_encoding(path);
}

} // verus!
