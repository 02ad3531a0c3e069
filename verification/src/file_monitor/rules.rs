//! Which operations the rules of the file monitor pick out.
use vstd::prelude::*;
use crate::file_monitor::path_match;
use crate::file_types;
use crate::file_types::{
    FileFilterRule, FileModuleConfig, FILE_MATCH_EXACT, FILE_MATCH_GLOB, FILE_MATCH_PREFIX,
    FILE_MATCH_SUFFIX, FILE_OP_CREATE, FILE_OP_DELETE, FILE_OP_WRITE, MAX_FILTER_RULES,
    MAX_RULE_PATH_LEN,
};
use crate::utf16;

verus! {

pub const IRP_MJ_CREATE: u32 = 0x00;

pub const IRP_MJ_WRITE: u32 = 0x04;

pub const IRP_MJ_SET_INFORMATION: u32 = 0x06;

/// The bit in a rule's mask that stands for an operation.
pub open spec fn op_flag(major: u32) -> u32 {
    if major == IRP_MJ_CREATE {
        FILE_OP_CREATE
    } else if major == IRP_MJ_WRITE {
        FILE_OP_WRITE
    } else if major == IRP_MJ_SET_INFORMATION {
        FILE_OP_DELETE
    } else {
        0
    }
}

/// The number that stands for an operation in an event.
pub open spec fn op_code(major: u32) -> u32 {
    if major == IRP_MJ_CREATE {
        1
    } else if major == IRP_MJ_WRITE {
        2
    } else if major == IRP_MJ_SET_INFORMATION {
        3
    } else {
        0
    }
}

/// The path of a rule.
pub open spec fn rule_path(rule: FileFilterRule) -> Seq<u16> {
    rule.path@.take(
        if rule.path_len < 260 {
            rule.path_len as int
        } else {
            260
        },
    )
}

/// Whether a rule is about a process.
pub open spec fn concerns_process(rule: FileFilterRule, process_id: u32) -> bool {
    rule.process_id == 0 || (rule.is_exclude_process == 1) != (process_id == rule.process_id)
}

/// Whether a rule is about a path.
pub open spec fn concerns_path(rule: FileFilterRule, path: Seq<u16>) -> bool {
    let p = rule_path(rule);
    if rule.match_type == FILE_MATCH_EXACT {
        path_match::same_text(path, p)
    } else if rule.match_type == FILE_MATCH_PREFIX {
        p.len() <= path.len() && path_match::same_text(path.take(p.len() as int), p)
    } else if rule.match_type == FILE_MATCH_SUFFIX {
        p.len() <= path.len() && path_match::same_text(path.skip(path.len() - p.len()), p)
    } else if rule.match_type == FILE_MATCH_GLOB {
        path_match::glob(path, p)
    } else {
        false
    }
}

/// Whether a rule picks out an operation.
pub open spec fn picks(rule: FileFilterRule, major: u32, process_id: u32, path: Seq<u16>) -> bool {
    &&& rule.operation_mask & op_flag(major) != 0
    &&& concerns_process(rule, process_id)
    &&& concerns_path(rule, path)
}

/// Number of rules that count.
pub open spec fn active_rules(config: FileModuleConfig) -> int {
    if config.rule_count < 16 {
        config.rule_count as int
    } else {
        16
    }
}

/// Whether some rule picks out an operation.
pub open spec fn picked(
    config: FileModuleConfig,
    major: u32,
    process_id: u32,
    path: Seq<u16>,
) -> bool {
    exists|i: int|
        0 <= i < active_rules(config) && picks(#[trigger] config.rules@[i], major, process_id, path)
}

pub fn get_op_flag(major: u32) -> (f: u32)
    ensures
        f == op_flag(major),
{
    if major == IRP_MJ_CREATE {
        FILE_OP_CREATE
    } else if major == IRP_MJ_WRITE {
        FILE_OP_WRITE
    } else if major == IRP_MJ_SET_INFORMATION {
        FILE_OP_DELETE
    } else {
        0
    }
}

pub fn get_op_code(major: u32) -> (c: u32)
    ensures
        c == op_code(major),
{
    if major == IRP_MJ_CREATE {
        1
    } else if major == IRP_MJ_WRITE {
        2
    } else if major == IRP_MJ_SET_INFORMATION {
        3
    } else {
        0
    }
}

/// Whether a rule picks out an operation.
pub fn rule_picks(rule: &FileFilterRule, major: u32, process_id: u32, path: &[u16]) -> (b: bool)
    ensures
        b == picks(*rule, major, process_id, path@),
{
    if (rule.operation_mask & get_op_flag(major)) == 0 {
        return false;
    }
    if rule.process_id != 0 {
        let matches_pid: bool = process_id == rule.process_id;
        let is_exclude: bool = rule.is_exclude_process == 1;
        if is_exclude == matches_pid {
            return false;
        }
    }
    let len: usize = if (rule.path_len as usize) < MAX_RULE_PATH_LEN {
        rule.path_len as usize
    } else {
        MAX_RULE_PATH_LEN
    };
    let pattern = vstd::slice::slice_subrange(&rule.path, 0, len);
    assert(pattern@ =~= rule_path(*rule));
    if rule.match_type == FILE_MATCH_EXACT {
        path_match::matches_exact_u16(path, pattern)
    } else if rule.match_type == FILE_MATCH_PREFIX {
        path_match::matches_prefix_u16(path, pattern)
    } else if rule.match_type == FILE_MATCH_SUFFIX {
        path_match::matches_suffix_u16(path, pattern)
    } else if rule.match_type == FILE_MATCH_GLOB {
        path_match::matches_glob_u16(path, pattern)
    } else {
        false
    }
}

/// Index of the first rule that picks out an operation.
pub fn find_rule(config: &FileModuleConfig, major: u32, process_id: u32, path: &[u16]) -> (r:
    Option<usize>)
    ensures
        match r {
            Some(i) => {
                &&& i < active_rules(*config)
                &&& picks(config.rules@[i as int], major, process_id, path@)
                &&& forall|j: int|
                    0 <= j < i ==> !picks(
                        #[trigger] config.rules@[j],
                        major,
                        process_id,
                        path@,
                    )
            },
            None => !picked(*config, major, process_id, path@),
        },
{
    let count: usize = if (config.rule_count as usize) < MAX_FILTER_RULES {
        config.rule_count as usize
    } else {
        MAX_FILTER_RULES
    };
    let mut i: usize = 0;
    while i < count
        invariant
            count == active_rules(*config),
            i <= count <= 16,
            forall|j: int|
                0 <= j < i ==> !picks(#[trigger] config.rules@[j], major, process_id, path@),
        decreases count - i,
    {
        if rule_picks(&config.rules[i], major, process_id, path) {
            return Some(i);
        }
        i += 1;
    }
    None
}

/// The bit that a mask has for an operation: the first one for opening and creating, the second
/// one for writing, the third one for setting information, as deleting does.
pub open spec fn in_mask(mask: u32, major: u32) -> bool {
    ||| major == 0 && mask % 2 == 1
    ||| major == 4 && mask / 2 % 2 == 1
    ||| major == 6 && mask / 4 % 2 == 1
}

/// A rule looks at an operation only where its mask has the operation's bit.
pub proof fn law_mask_names_operations(mask: u32, major: u32)
    ensures
        (mask & op_flag(major) != 0) == in_mask(mask, major),
{
    assert((mask & 1 != 0) == (mask % 2 == 1) && (mask & 2 != 0) == (mask / 2 % 2 == 1) && (mask & 4
        != 0) == (mask / 4 % 2 == 1) && mask & 0 == 0) by (bit_vector);
}

/// A rule with the pattern `s`.
pub open spec fn has_pattern(rule: FileFilterRule, s: Seq<u16>) -> bool {
    rule.path_len == s.len() && s.len() <= 260 && rule.path@.take(s.len() as int) == s
}

/// A rule is about an operation by a process: its mask has the operation's bit, and it is about all
/// processes, about this one, or about all but another one.
pub open spec fn asked_of(rule: FileFilterRule, major: u32, process_id: u32) -> bool {
    &&& in_mask(rule.operation_mask, major)
    &&& rule.process_id == 0 || (rule.is_exclude_process != 1 && rule.process_id == process_id) || (
    rule.is_exclude_process == 1 && rule.process_id != process_id)
}

proof fn lemma_asked(rule: FileFilterRule, major: u32, process_id: u32, path: Seq<u16>)
    ensures
        picks(rule, major, process_id, path) == (asked_of(rule, major, process_id)
            && concerns_path(rule, path)),
{
    law_mask_names_operations(rule.operation_mask, major);
}

/// An exact rule picks its pattern in any case, and nothing else.
pub proof fn law_exact_rule(
    rule: FileFilterRule,
    s: Seq<u16>,
    major: u32,
    process_id: u32,
    path: Seq<u16>,
)
    requires
        rule.match_type == 0,
        has_pattern(rule, s),
    ensures
        picks(rule, major, process_id, path) == (asked_of(rule, major, process_id)
            && path_match::all_alike(path, s)),
{
    lemma_asked(rule, major, process_id, path);
    path_match::law_case_is_ignored(path, s);
}

/// A prefix rule picks every path that starts with its pattern in any case, whatever follows; and
/// no other path.
pub proof fn law_prefix_rule(
    rule: FileFilterRule,
    s: Seq<u16>,
    major: u32,
    process_id: u32,
    t: Seq<u16>,
    x: Seq<u16>,
    path: Seq<u16>,
)
    requires
        rule.match_type == 1,
        has_pattern(rule, s),
        asked_of(rule, major, process_id),
    ensures
        path_match::all_alike(t, s) ==> picks(rule, major, process_id, t + x),
        picks(rule, major, process_id, path) ==> s.len() <= path.len() && path_match::all_alike(
            path.take(s.len() as int),
            s,
        ),
{
    lemma_asked(rule, major, process_id, t + x);
    lemma_asked(rule, major, process_id, path);
    path_match::law_case_is_ignored(t, s);
    if t.len() == s.len() {
        assert((t + x).take(s.len() as int) =~= t);
    }
    if s.len() <= path.len() {
        path_match::law_case_is_ignored(path.take(s.len() as int), s);
    }
}

/// A suffix rule picks every path that ends in its pattern in any case, whatever stands before;
/// and no other path.
pub proof fn law_suffix_rule(
    rule: FileFilterRule,
    s: Seq<u16>,
    major: u32,
    process_id: u32,
    x: Seq<u16>,
    t: Seq<u16>,
    path: Seq<u16>,
)
    requires
        rule.match_type == 2,
        has_pattern(rule, s),
        asked_of(rule, major, process_id),
    ensures
        path_match::all_alike(t, s) ==> picks(rule, major, process_id, x + t),
        picks(rule, major, process_id, path) ==> s.len() <= path.len() && path_match::all_alike(
            path.skip(path.len() - s.len()),
            s,
        ),
{
    lemma_asked(rule, major, process_id, x + t);
    lemma_asked(rule, major, process_id, path);
    path_match::law_case_is_ignored(t, s);
    if t.len() == s.len() {
        assert((x + t).skip(x.len() as int) =~= t);
    }
    if s.len() <= path.len() {
        path_match::law_case_is_ignored(path.skip(path.len() - s.len()), s);
    }
}

/// A rule with wildcards picks the paths that its pattern matches. Rules of other kinds pick
/// nothing.
pub proof fn law_other_rules(
    rule: FileFilterRule,
    s: Seq<u16>,
    major: u32,
    process_id: u32,
    path: Seq<u16>,
)
    requires
        has_pattern(rule, s),
    ensures
        rule.match_type == 3 ==> picks(rule, major, process_id, path) == (asked_of(
            rule,
            major,
            process_id,
        ) && path_match::glob(path, s)),
        rule.match_type > 3 ==> !picks(rule, major, process_id, path),
{
    lemma_asked(rule, major, process_id, path);
}

/// A rule that is not about an operation or a process picks nothing of it.
pub proof fn law_rule_keeps_to_its_business(
    rule: FileFilterRule,
    major: u32,
    process_id: u32,
    path: Seq<u16>,
)
    ensures
        picks(rule, major, process_id, path) ==> asked_of(rule, major, process_id),
{
    lemma_asked(rule, major, process_id, path);
}

/// Once a rule for all processes that names an operation was added to a configuration, every path
/// that ends in the pattern of a suffix rule, starts with that of a prefix rule, or is that of an
/// exact rule is picked.
pub proof fn law_added_rule_picks(
    before: FileModuleConfig,
    pattern: Seq<char>,
    mask: u32,
    match_type: u32,
    after: FileModuleConfig,
    major: u32,
    process_id: u32,
    x: Seq<u16>,
)
    requires
        file_types::rule_added(before, pattern, mask, match_type, 0, false, Ok(after)),
        in_mask(mask, major),
    ensures
        match_type == 0 ==> picked(after, major, process_id, utf16::encoded(pattern)),
        match_type == 1 ==> picked(after, major, process_id, utf16::encoded(pattern) + x),
        match_type == 2 ==> picked(after, major, process_id, x + utf16::encoded(pattern)),
{
    let s = utf16::encoded(pattern);
    let n = before.rule_count as int;
    let rule = after.rules@[n];
    file_types::law_added_rule_is_last(before, pattern, mask, match_type, 0, false, Ok(after));
    assert(has_pattern(rule, s));
    assert(path_match::all_alike(s, s));
    if match_type == 0 {
        law_exact_rule(rule, s, major, process_id, s);
        assert(picks(after.rules@[n], major, process_id, s));
    } else if match_type == 1 {
        law_prefix_rule(rule, s, major, process_id, s, x, s);
        assert(picks(after.rules@[n], major, process_id, s + x));
    } else if match_type == 2 {
        law_suffix_rule(rule, s, major, process_id, x, s, s);
        assert(picks(after.rules@[n], major, process_id, x + s));
    }
}

/// The numbers of the operations in events: 1 for opening and creating, 2 for writing, 3 for
/// setting information, and 0 for all others.
pub proof fn law_operation_numbers(major: u32)
    ensures
        op_code(0) == 1,
        op_code(4) == 2,
        op_code(6) == 3,
        major != 0 && major != 4 && major != 6 ==> op_code(major) == 0 && op_flag(major) == 0,
{
}

} // verus!
