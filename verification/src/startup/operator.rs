//! The node's part in the staking contract.

use vstd::prelude::*;

verus! {

/// The value of a hexadecimal digit, in either case.
pub open spec fn hex_digit(c: char) -> Option<nat> {
    if '0' <= c <= '9' {
        Some((c as nat - '0' as nat) as nat)
    } else if 'a' <= c <= 'f' {
        Some((c as nat - 'a' as nat + 10) as nat)
    } else if 'A' <= c <= 'F' {
        Some((c as nat - 'A' as nat + 10) as nat)
    } else {
        None
    }
}

/// The text without `0x` or `0X` before it.
pub open spec fn hex_body(text: Seq<char>) -> Seq<char> {
    if text.len() >= 2 && text[0] == '0' && (text[1] == 'x' || text[1] == 'X') {
        text.skip(2)
    } else {
        text
    }
}

/// Whether a text is an address: forty hexadecimal digits, with or without
/// `0x` before them.
pub open spec fn is_address_text(text: Seq<char>) -> bool {
    let body = hex_body(text);
    body.len() == 40 && forall|i: int| 0 <= i < 40 ==> hex_digit(#[trigger] body[i]) is Some
}

/// The twenty bytes that the digits of an address stand for, two digits each.
pub open spec fn address_bytes(text: Seq<char>) -> Seq<u8> {
    let body = hex_body(text);
    Seq::new(20, |i: int| (hex_digit(body[2 * i])->0 * 16 + hex_digit(body[2 * i + 1])->0) as u8)
}

/// `alloy::primitives::Address::from_str`: reads an address of twenty bytes from
/// its hexadecimal digits, upper or lower case, with or without `0x` (or `0X`)
/// before them; any other text is an error.
#[verifier::external_body]
fn parse_address(text: &str) -> (r: Option<Vec<u8>>)
    ensures
        r is Some == is_address_text(text@),
        r is Some ==> r->0@ == address_bytes(text@),
{
    let address = <alloy::primitives::Address as std::str::FromStr>::from_str(text).ok()?;
    Some(address.as_slice().to_vec())
}

/// What is configured of the staking contract.
#[derive(Debug)]
pub struct OperatorSettings {
    pub chain_rpc_url: String,
    pub operator_private_key: String,
    pub contract_node_staking: String,
    pub heartbeat_interval_hours: u64,
    pub operator_strict_mode: bool,
}

/// What the client of the staking contract is made from.
#[derive(Debug)]
pub struct OperatorConfig {
    pub rpc_url: String,
    pub private_key: String,
    pub contract_address: Vec<u8>,
    pub node_did: String,
    pub heartbeat_interval_secs: u64,
    pub strict_mode: bool,
}

/// Makes the client's configuration; `None` where the contract's address is no
/// address.
pub fn build_operator_client(settings: &OperatorSettings, node_did: &str) -> (r: Option<
    OperatorConfig,
>)
    requires
        settings.heartbeat_interval_hours * 3600 <= u64::MAX,
    ensures
        r is Some == is_address_text(settings.contract_node_staking@),
        r matches Some(c) ==> {
            &&& c.rpc_url@ == settings.chain_rpc_url@
            &&& c.private_key@ == settings.operator_private_key@
            &&& c.contract_address@ == address_bytes(settings.contract_node_staking@)
            &&& c.node_did@ == node_did@
            &&& c.heartbeat_interval_secs == settings.heartbeat_interval_hours * 3600
            &&& c.strict_mode == settings.operator_strict_mode
            &&& c.heartbeat_interval_secs == heartbeat_secs(settings.heartbeat_interval_hours)
        },
{
    match parse_address(settings.contract_node_staking.as_str()) {
        None => None,
        Some(contract_address) => Some(
            OperatorConfig {
                rpc_url: settings.chain_rpc_url.clone(),
                private_key: settings.operator_private_key.clone(),
                contract_address,
                node_did: node_did.to_owned(),
                heartbeat_interval_secs: settings.heartbeat_interval_hours * 3600,
                strict_mode: settings.operator_strict_mode,
            },
        ),
    }
}

/// How far the setup with the staking contract has come.
#[derive(Clone, Copy, PartialEq, Eq, Structural, Debug)]
pub enum OperatorStep {
    /// The client could not be made.
    NoClient,
    /// The check of the stake failed.
    CheckFailed,
    /// The check of the stake succeeded.
    Checked,
}

/// What follows.
#[derive(Clone, Copy, PartialEq, Eq, Structural, Debug)]
pub enum OperatorAction {
    /// Send heartbeats.
    Heartbeat,
    /// Go on without.
    GoOn,
    /// End the node.
    Fail,
}

/// Whether the node takes part: a contract and a key are configured.
pub fn operator_enabled(contract_node_staking: &str, operator_private_key: &str) -> (r: bool)
    ensures
        r == (contract_node_staking@.len() > 0 && operator_private_key@.len() > 0),
        r == takes_part(contract_node_staking@, operator_private_key@),
{
    !contract_node_staking.is_empty() && !operator_private_key.is_empty()
}

/// What follows a step of the setup: a failure ends the node in strict mode
/// only.
pub fn operator_action(step: OperatorStep, strict_mode: bool) -> (r: OperatorAction)
    ensures
        r is Heartbeat <==> step is Checked,
        r is Fail <==> !(step is Checked) && strict_mode,
        r is GoOn <==> !(step is Checked) && !strict_mode,
        r == action_after(step, strict_mode),
{
    match step {
        OperatorStep::Checked => OperatorAction::Heartbeat,
        _ => if strict_mode {
            OperatorAction::Fail
        } else {
            OperatorAction::GoOn
        },
    }
}

/// What follows a step of the setup.
pub open spec fn action_after(step: OperatorStep, strict_mode: bool) -> OperatorAction {
    match step {
        OperatorStep::Checked => OperatorAction::Heartbeat,
        _ => if strict_mode {
            OperatorAction::Fail
        } else {
            OperatorAction::GoOn
        },
    }
}

/// Heartbeats are sent exactly once the stake was checked, in either mode. Strict
/// mode makes a difference only after a failure, and then it is what ends the
/// node.
pub proof fn strict_mode_matters_after_a_failure(step: OperatorStep)
    ensures
        step is Checked ==> action_after(step, true) is Heartbeat && action_after(step, false)
            is Heartbeat,
        !(step is Checked) ==> action_after(step, true) is Fail && action_after(step, false)
            is GoOn,
{
}

/// Whether the node takes part in the contract.
pub open spec fn takes_part(contract: Seq<char>, key: Seq<char>) -> bool {
    contract.len() > 0 && key.len() > 0
}

/// A node without a contract, or without a key, takes no part; with both it does.
pub proof fn taking_part_needs_contract_and_key(contract: Seq<char>, key: Seq<char>)
    ensures
        !takes_part(Seq::empty(), key),
        !takes_part(contract, Seq::empty()),
        contract != Seq::<char>::empty() && key != Seq::<char>::empty() ==> takes_part(
            contract,
            key,
        ),
{
    assert(contract.len() == 0 ==> contract =~= Seq::<char>::empty());
    assert(key.len() == 0 ==> key =~= Seq::<char>::empty());
}

/// The time between two heartbeats, in seconds.
pub open spec fn heartbeat_secs(hours: u64) -> int {
    hours * 3600
}

/// An hour has sixty minutes of sixty seconds.
pub proof fn heartbeats_come_after_so_many_hours(hours: u64)
    ensures
        heartbeat_secs(hours) == hours * 60 * 60,
{
}

/// The hexadecimal digits by their code points: the ten digits, and the six letters in
/// either case.
pub proof fn hex_digits_in_numbers(c: char)
    ensures
        ({
            let n = c as int;
            hex_digit(c) == (if 48 <= n <= 57 {
                Some((n - 48) as nat)
            } else if 97 <= n <= 102 {
                Some((n - 87) as nat)
            } else if 65 <= n <= 70 {
                Some((n - 55) as nat)
            } else {
                None
            })
        }),
{
}

/// An address reads the same with `0x` before it, with `0X` and without, and has
/// twenty bytes; the byte at each place has its two digits there.
pub proof fn addresses_have_two_digits_for_a_byte(digits: Seq<char>, i: int)
    requires
        digits.len() == 40,
        forall|k: int| 0 <= k < 40 ==> hex_digit(#[trigger] digits[k]) is Some,
        0 <= i < 20,
    ensures
        is_address_text(digits),
        is_address_text(seq!['0', 'x'] + digits),
        is_address_text(seq!['0', 'X'] + digits),
        address_bytes(seq!['0', 'x'] + digits) == address_bytes(digits),
        address_bytes(seq!['0', 'X'] + digits) == address_bytes(digits),
        address_bytes(digits).len() == 20,
        hex_digit(digits[2 * i]) == Some((address_bytes(digits)[i] / 16) as nat),
        hex_digit(digits[2 * i + 1]) == Some((address_bytes(digits)[i] % 16) as nat),
{
    hex_digits_in_numbers(digits[1]);
    assert(hex_digit(digits[1]) is Some);
    assert((seq!['0', 'x'] + digits).skip(2) =~= digits);
    assert((seq!['0', 'X'] + digits).skip(2) =~= digits);
    assert(hex_body(digits) == digits);
    hex_digits_in_numbers(digits[2 * i]);
    hex_digits_in_numbers(digits[2 * i + 1]);
    assert(hex_digit(digits[2 * i]) is Some);
    assert(hex_digit(digits[2 * i + 1]) is Some);
}

/// Any other text is no address: one without forty characters behind the `0x` that it
/// may begin with, and one with a character among them that is no digit.
pub proof fn other_texts_are_no_addresses(text: Seq<char>, i: int)
    ensures
        text.len() != 40 && text.len() != 42 ==> !is_address_text(text),
        is_address_text(text) && text.len() == 42 ==> text[0] == '0' && (text[1] == 'x' || text[1]
            == 'X'),
        is_address_text(text) && text.len() - 40 <= i < text.len() ==> hex_digit(text[i]) is Some,
{
    if is_address_text(text) {
        let skipped = text.len() - 40;
        if text.len() == 40 {
            assert(hex_body(text) == text);
        }
        if skipped <= i < text.len() {
            assert(hex_body(text)[i - skipped] == text[i]);
        }
    }
}

} // verus!
