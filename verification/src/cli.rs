//! Command-line concerns with verifiable substance: the file-tool
//! subcommands, parsing a record address from its hex form, validation of
//! mutually exclusive service arguments, and the root-privilege check the
//! service manager guards its commands with.

use vstd::prelude::*;
use crate::address::NetworkAddress;

verus! {

/// Subcommands of the file tool: upload the files under a directory, or
/// download one file by name and hex address — or, lacking those, every
/// file recorded by earlier uploads.
#[derive(Debug)]
pub enum FilesCmds {
    Upload { path: String },
    Download { file_name: Option<String>, file_addr: Option<String> },
}

/// Errors of command-line validation.
#[derive(Clone, Copy, PartialEq, Eq, Structural, Debug)]
pub enum ArgsError {
    /// A service may be addressed by peer id or by service name, not both.
    PeerIdAndServiceNameMutuallyExclusive,
}

/// Errors of parsing a record address from its hex form.
#[derive(Clone, Copy, PartialEq, Eq, Structural, Debug)]
pub enum AddrParseError {
    /// The input does not have exactly one hex digit per address nibble.
    WrongLength,
    /// The input holds a character that is no hex digit.
    NotHex,
}

/// Number of hex digits in an address's text form.
pub const ADDR_HEX_LEN: usize = 16;

/// The numeric value of one hex digit, upper or lower case.
pub open spec fn hex_digit_value(c: char) -> Option<int> {
    if '0' <= c && c <= '9' {
        Some((c as int) - ('0' as int))
    } else if 'a' <= c && c <= 'f' {
        Some((c as int) - ('a' as int) + 10)
    } else if 'A' <= c && c <= 'F' {
        Some((c as int) - ('A' as int) + 10)
    } else {
        None
    }
}

/// The value of a big-endian string of hex digits; `None` when any
/// character is no hex digit.
pub open spec fn hex_value(s: Seq<char>) -> Option<int>
    decreases s.len(),
{
    if s.len() == 0 {
        Some(0)
    } else {
        match (hex_value(s.drop_last()), hex_digit_value(s.last())) {
            (Some(v), Some(d)) => Some(v * 16 + d),
            _ => None,
        }
    }
}

/// Sixteen to the given power.
pub open spec fn pow16(n: nat) -> int
    decreases n,
{
    if n == 0 {
        1
    } else {
        16 * pow16((n - 1) as nat)
    }
}

/// Powers of sixteen do not shrink.
proof fn lemma_pow16_le(a: nat, b: nat)
    requires
        a <= b,
    ensures
        pow16(a) <= pow16(b),
        pow16(a) >= 1,
    decreases b,
{
    if a == b {
        if b > 0 {
            lemma_pow16_le((b - 1) as nat, (b - 1) as nat);
        }
    } else {
        lemma_pow16_le(a, (b - 1) as nat);
    }
}

/// A string of hex digits is worth less than sixteen to its length.
proof fn lemma_hex_value_bound(s: Seq<char>)
    ensures
        hex_value(s) matches Some(v) ==> 0 <= v < pow16(s.len()),
    decreases s.len(),
{
    if s.len() > 0 {
        lemma_hex_value_bound(s.drop_last());
    }
}

/// The value of one hex digit character, if it is one.
fn parse_hex_digit(c: char) -> (r: Option<u64>)
    ensures
        hex_digit_value(c) matches Some(v) ==> r == Some(v as u64),
        hex_digit_value(c) is None ==> r is None,
{
    if '0' <= c && c <= '9' {
        Some((c as u64) - ('0' as u64))
    } else if 'a' <= c && c <= 'f' {
        Some((c as u64) - ('a' as u64) + 10)
    } else if 'A' <= c && c <= 'F' {
        Some((c as u64) - ('A' as u64) + 10)
    } else {
        None
    }
}

/// Parses a record address from its hex form: exactly `ADDR_HEX_LEN` hex
/// digits, big-endian.
pub fn parse_address_hex(s: &str) -> (r: Result<NetworkAddress, AddrParseError>)
    ensures
        s@.len() != ADDR_HEX_LEN ==> r == Err::<NetworkAddress, AddrParseError>(
            AddrParseError::WrongLength,
        ),
        s@.len() == ADDR_HEX_LEN && hex_value(s@) is None ==> r == Err::<
            NetworkAddress,
            AddrParseError,
        >(AddrParseError::NotHex),
        s@.len() == ADDR_HEX_LEN ==> (hex_value(s@) matches Some(v) ==> r == Ok::<
            NetworkAddress,
            AddrParseError,
        >(NetworkAddress(v as u64))),
{
    let len = s.unicode_len();
    if len != ADDR_HEX_LEN {
        return Err(AddrParseError::WrongLength);
    }
    let mut acc: u64 = 0;
    let mut i: usize = 0;
    while i < ADDR_HEX_LEN
        invariant
            i <= ADDR_HEX_LEN,
            s@.len() == ADDR_HEX_LEN,
            hex_value(s@.take(i as int)) == Some(acc as int),
        decreases ADDR_HEX_LEN - i,
    {
        let c = s.get_char(i);
        proof {
            assert(s@.take(i + 1).drop_last() =~= s@.take(i as int));
            assert(s@.take(i + 1).last() == s@[i as int]);
            lemma_hex_value_bound(s@.take(i as int));
            lemma_pow16_le((i as nat), 15);
            assert(pow16(15) == 0x1000000000000000) by {
                reveal_with_fuel(pow16, 16);
            }
        }
        match parse_hex_digit(c) {
            Some(d) => {
                acc = acc * 16 + d;
            },
            None => {
                proof {
                    assert(hex_value(s@.take(i + 1)) is None);
                    lemma_hex_value_none_extends(s@, i + 1);
                }
                return Err(AddrParseError::NotHex);
            },
        }
        i += 1;
    }
    proof {
        assert(s@.take(ADDR_HEX_LEN as int) =~= s@);
    }
    Ok(NetworkAddress(acc))
}

/// A prefix with no hex value dooms the whole string.
proof fn lemma_hex_value_none_extends(s: Seq<char>, n: int)
    requires
        0 <= n <= s.len(),
        hex_value(s.take(n)) is None,
    ensures
        hex_value(s) is None,
    decreases s.len() - n,
{
    if n < s.len() {
        assert(s.take(n + 1).drop_last() =~= s.take(n));
        lemma_hex_value_none_extends(s, n + 1);
    } else {
        assert(s.take(n) =~= s);
    }
}

/// A service to act on is named by its peer id or by its service name;
/// supplying both is rejected.
pub fn validate_peer_id_and_service_name_args(
    service_name: Option<String>,
    peer_id: Option<String>,
) -> (r: Result<(), ArgsError>)
    ensures
        service_name is Some && peer_id is Some ==> r == Err::<(), ArgsError>(
            ArgsError::PeerIdAndServiceNameMutuallyExclusive,
        ),
        !(service_name is Some && peer_id is Some) ==> r == Ok::<(), ArgsError>(()),
{
    if service_name.is_some() && peer_id.is_some() {
        return Err(ArgsError::PeerIdAndServiceNameMutuallyExclusive);
    }
    Ok(())
}

/// Relies on users::get_effective_uid: the effective user id of the
/// running process. The result depends on the environment, so nothing is
/// promised of it.
#[verifier::external_body]
fn get_effective_uid() -> u32 {
    users::get_effective_uid()
}

/// Whether the process runs with root privileges; service management
/// commands refuse to run without them.
pub fn is_running_as_root() -> bool {
    get_effective_uid() == 0
}

} // verus!
