//! How the rules of the file monitor travel from the client to the driver.
use vstd::prelude::*;
use crate::bytes;
use crate::file_types;
use crate::file_types::{FileFilterRule, FileModuleConfig};

verus! {

broadcast use crate::bytes::lemma_u32_le_len;

/// Size of a rule in a request.
pub const FILE_RULE_SIZE: usize = 540;

/// Size of a [`FileModuleConfig`] in a request.
pub const FILE_CONFIG_SIZE: usize = 8652;

/// The bytes of a rule.
#[verifier::opaque]
pub open spec fn rule_bytes(r: FileFilterRule) -> Seq<u8> {
    bytes::u32_le(r.operation_mask) + bytes::u32_le(r.match_type) + bytes::u32_le(r.path_len)
        + file_types::unit_bytes(r.path@) + bytes::u32_le(r.process_id) + bytes::u32_le(
        r.is_exclude_process,
    )
}

/// `r` is the rule whose bytes stand at `at` of `s`.
pub open spec fn is_rule(r: FileFilterRule, s: Seq<u8>, at: int) -> bool {
    &&& r.operation_mask == bytes::le32(s, at)
    &&& r.match_type == bytes::le32(s, at + 4)
    &&& r.path_len == bytes::le32(s, at + 8)
    &&& r.path@ == file_types::units_at(s, at + 12, 260)
    &&& r.process_id == bytes::le32(s, at + 532)
    &&& r.is_exclude_process == bytes::le32(s, at + 536)
}

/// The bytes of rules, one behind the other.
pub open spec fn rules_bytes(rules: Seq<FileFilterRule>) -> Seq<u8>
    decreases rules.len(),
{
    if rules.len() == 0 {
        Seq::empty()
    } else {
        rules_bytes(rules.drop_last()) + rule_bytes(rules.last())
    }
}

/// The bytes of a configuration.
pub open spec fn config_bytes(c: FileModuleConfig) -> Seq<u8> {
    bytes::u32_le(c.timeout_ms) + bytes::u32_le(c.default_action) + bytes::u32_le(c.rule_count)
        + rules_bytes(c.rules@)
}

/// `c` is the configuration whose bytes `s` starts with.
pub open spec fn is_config(c: FileModuleConfig, s: Seq<u8>) -> bool {
    &&& c.timeout_ms == bytes::le32(s, 0)
    &&& c.default_action == bytes::le32(s, 4)
    &&& c.rule_count == bytes::le32(s, 8)
    &&& forall|i: int| 0 <= i < 16 ==> is_rule(#[trigger] c.rules@[i], s, 12 + 540 * i)
}

proof fn lemma_rule_round_trip(r: FileFilterRule, s: Seq<u8>, at: int)
    requires
        0 <= at,
        at + 540 <= s.len(),
        s.subrange(at, at + 540) == rule_bytes(r),
    ensures
        is_rule(r, s, at),
{
    reveal(rule_bytes);
    let t = s.subrange(at, at + 540);
    assert(s.subrange(at, at + 4) =~= t.subrange(0, 4));
    assert(t.subrange(0, 4) =~= bytes::u32_le(r.operation_mask));
    assert(s.subrange(at + 4, at + 8) =~= t.subrange(4, 8));
    assert(t.subrange(4, 8) =~= bytes::u32_le(r.match_type));
    assert(s.subrange(at + 8, at + 12) =~= t.subrange(8, 12));
    assert(t.subrange(8, 12) =~= bytes::u32_le(r.path_len));
    assert(s.subrange(at + 12, at + 532) =~= t.subrange(12, 532));
    assert(t.subrange(12, 532) =~= file_types::unit_bytes(r.path@));
    assert(s.subrange(at + 532, at + 536) =~= t.subrange(532, 536));
    assert(t.subrange(532, 536) =~= bytes::u32_le(r.process_id));
    assert(s.subrange(at + 536, at + 540) =~= t.subrange(536, 540));
    assert(t.subrange(536, 540) =~= bytes::u32_le(r.is_exclude_process));
    bytes::lemma_le32_round_trip(s, at, r.operation_mask);
    bytes::lemma_le32_round_trip(s, at + 4, r.match_type);
    bytes::lemma_le32_round_trip(s, at + 8, r.path_len);
    file_types::lemma_units_round_trip(r.path@, s, at + 12);
    bytes::lemma_le32_round_trip(s, at + 532, r.process_id);
    bytes::lemma_le32_round_trip(s, at + 536, r.is_exclude_process);
}

proof fn lemma_rule_len(r: FileFilterRule)
    ensures
        rule_bytes(r).len() == 540,
{
    reveal(rule_bytes);
}

pub proof fn lemma_rules_bytes(rules: Seq<FileFilterRule>)
    ensures
        rules_bytes(rules).len() == 540 * rules.len(),
        forall|i: int|
            0 <= i < rules.len() ==> rules_bytes(rules).subrange(540 * i, 540 * i + 540)
                == rule_bytes(#[trigger] rules[i]),
    decreases rules.len(),
{
    if rules.len() > 0 {
        let init = rules.drop_last();
        lemma_rules_bytes(init);
        lemma_rule_len(rules.last());
        assert forall|i: int| 0 <= i < rules.len() implies rules_bytes(rules).subrange(
            540 * i,
            540 * i + 540,
        ) == rule_bytes(#[trigger] rules[i]) by {
            if i < init.len() {
                assert(init[i] == rules[i]);
                assert(rules_bytes(rules).subrange(540 * i, 540 * i + 540) =~= rules_bytes(
                    init,
                ).subrange(540 * i, 540 * i + 540));
            } else {
                assert(rules_bytes(rules).subrange(540 * i, 540 * i + 540) =~= rule_bytes(
                    rules.last(),
                ));
            }
        }
    }
}

/// Reading a configuration from its bytes gives the configuration.
pub proof fn law_config_round_trip(c: FileModuleConfig)
    ensures
        config_bytes(c).len() == 8652,
        is_config(c, config_bytes(c)),
        forall|d: FileModuleConfig| #[trigger] is_config(d, config_bytes(c)) ==> d == c,
{
    let s = config_bytes(c);
    let rest = rules_bytes(c.rules@);
    lemma_rules_bytes(c.rules@);
    assert(s.subrange(0, 4) =~= bytes::u32_le(c.timeout_ms));
    assert(s.subrange(4, 8) =~= bytes::u32_le(c.default_action));
    assert(s.subrange(8, 12) =~= bytes::u32_le(c.rule_count));
    bytes::lemma_le32_round_trip(s, 0, c.timeout_ms);
    bytes::lemma_le32_round_trip(s, 4, c.default_action);
    bytes::lemma_le32_round_trip(s, 8, c.rule_count);
    assert forall|i: int| 0 <= i < 16 implies is_rule(#[trigger] c.rules@[i], s, 12 + 540 * i) by {
        assert(s.subrange(12 + 540 * i, 12 + 540 * i + 540) =~= rest.subrange(
            540 * i,
            540 * i + 540,
        ));
        lemma_rule_round_trip(c.rules@[i], s, 12 + 540 * i);
    }
    assert forall|d: FileModuleConfig| #[trigger] is_config(d, s) implies d == c by {
        lemma_config_unique(d, c, s);
    }
}

/// Bytes hold only one configuration.
pub proof fn lemma_config_unique(d: FileModuleConfig, c: FileModuleConfig, s: Seq<u8>)
    requires
        is_config(d, s),
        is_config(c, s),
    ensures
        d == c,
{
    assert forall|i: int| 0 <= i < 16 implies d.rules[i] == c.rules[i] by {
        let x = d.rules@[i];
        let y = c.rules@[i];
        assert(is_rule(x, s, 12 + 540 * i) && is_rule(y, s, 12 + 540 * i));
        assert forall|j: int| 0 <= j < 260 implies x.path[j] == y.path[j] by {
            assert(x.path@[j] == y.path@[j]);
        }
        assert(x.path =~= y.path);
        assert(d.rules[i] == x && c.rules[i] == y);
    }
    assert(d.rules =~= c.rules);
}

fn push_rule(out: &mut Vec<u8>, r: &FileFilterRule)
    ensures
        final(out)@ == old(out)@ + rule_bytes(*r),
{
    bytes::push_u32_le(out, r.operation_mask);
    bytes::push_u32_le(out, r.match_type);
    bytes::push_u32_le(out, r.path_len);
    file_types::push_units(out, &r.path);
    bytes::push_u32_le(out, r.process_id);
    bytes::push_u32_le(out, r.is_exclude_process);
    proof {
        reveal(rule_bytes);
    }
    assert(out@ =~= old(out)@ + rule_bytes(*r));
}

/// The bytes of a configuration.
pub fn encode_config(c: &FileModuleConfig) -> (out: Vec<u8>)
    ensures
        out@ == config_bytes(*c),
        out@.len() == 8652,
{
    let mut out: Vec<u8> = Vec::new();
    bytes::push_u32_le(&mut out, c.timeout_ms);
    bytes::push_u32_le(&mut out, c.default_action);
    bytes::push_u32_le(&mut out, c.rule_count);
    let ghost first = out@;
    let mut i: usize = 0;
    assert(rules_bytes(c.rules@.take(0)) =~= Seq::empty());
    while i < 16
        invariant
            i <= 16,
            out@ =~= first + rules_bytes(c.rules@.take(i as int)),
        decreases 16 - i,
    {
        push_rule(&mut out, &c.rules[i]);
        assert(c.rules@.take(i + 1).drop_last() =~= c.rules@.take(i as int));
        assert(c.rules@.take(i + 1).last() == c.rules[i as int]);
        i += 1;
    }
    proof {
        assert(c.rules@.take(16) =~= c.rules@);
        law_config_round_trip(*c);
    }
    assert(out@ =~= config_bytes(*c));
    out
}

fn read_rule(s: &[u8], at: usize) -> (r: FileFilterRule)
    requires
        at + 540 <= s@.len(),
    ensures
        is_rule(r, s@, at as int),
{
    assert(s.len() == s@.len());
    let units: Vec<u16> = file_types::read_units(s, at + 12, 260);
    let path: [u16; 260] = file_types::pad_path(&units);
    assert(path@ =~= file_types::units_at(s@, at + 12, 260));
    FileFilterRule {
        operation_mask: bytes::read_le32(s, at),
        match_type: bytes::read_le32(s, at + 4),
        path_len: bytes::read_le32(s, at + 8),
        path,
        process_id: bytes::read_le32(s, at + 532),
        is_exclude_process: bytes::read_le32(s, at + 536),
    }
}

/// The configuration whose bytes `s` starts with.
pub fn decode_config(s: &[u8]) -> (c: FileModuleConfig)
    requires
        s@.len() >= 8652,
    ensures
        is_config(c, s@),
{
    let mut c: FileModuleConfig = FileModuleConfig::new(
        bytes::read_le32(s, 0),
        bytes::read_le32(s, 4),
    );
    c.rule_count = bytes::read_le32(s, 8);
    let mut i: usize = 0;
    while i < 16
        invariant
            i <= 16,
            s@.len() >= 8652,
            c.timeout_ms == bytes::le32(s@, 0),
            c.default_action == bytes::le32(s@, 4),
            c.rule_count == bytes::le32(s@, 8),
            forall|j: int| 0 <= j < i ==> is_rule(#[trigger] c.rules@[j], s@, 12 + 540 * j),
        decreases 16 - i,
    {
        let rule: FileFilterRule = read_rule(s, 12 + 540 * i);
        c.rules[i] = rule;
        i += 1;
    }
    c
}

} // verus!
