//! The decisions of starting a node: its type, whether to fetch blocks from a CDN, the
//! checks on peer addresses, the trusted peers, the development-mode ports and peers, the
//! distribution of the development genesis supply, the private key and its file's
//! permissions, the storage paths, the REST secret and the migration of legacy node data
//! files.
use vstd::prelude::*;
use vstd::string::*;

use crate::heartbeat::{contains_address, NodeType};
use crate::peering::{IpAddress, SocketAddress};

verus! {

/// The port of the first development node's router.
pub const DEFAULT_NODE_PORT: u16 = 4130;

/// The port of the first development node's REST server.
pub const DEFAULT_REST_PORT: u16 = 3030;

/// The port of the first development validator's memory pool.
pub const MEMORY_POOL_PORT: u16 = 5000;

/// The least number of development validators.
pub const MIN_DEV_VALIDATORS: u16 = 4;

/// The node type that the flags select; a client when none is set.
pub fn parse_node_type(validator: bool, prover: bool, bootstrap_client: bool) -> (r: NodeType)
    ensures
        r == if validator {
            NodeType::Validator
        } else if prover {
            NodeType::Prover
        } else if bootstrap_client {
            NodeType::BootstrapClient
        } else {
            NodeType::Client
        },
{
    if validator {
        NodeType::Validator
    } else if prover {
        NodeType::Prover
    } else if bootstrap_client {
        NodeType::BootstrapClient
    } else {
        NodeType::Client
    }
}

/// Where to prefetch blocks from.
#[derive(Clone, Copy, Debug, PartialEq, Eq, Structural)]
pub enum CdnChoice {
    /// Not at all.
    Disabled,
    /// From the URL given on the command line.
    Given,
    /// From the network's default CDN.
    Default,
}

/// Where to prefetch blocks from: nowhere in development mode, when disabled, or for a
/// prover; else from the given URL unless it is empty (then nowhere), or from the default.
pub fn cdn_choice(dev: bool, nocdn: bool, prover: bool, given: Option<&str>) -> (r: CdnChoice)
    ensures
        r == if dev || nocdn || prover {
            CdnChoice::Disabled
        } else {
            match given {
                Some(s) => if s@.len() == 0 {
                    CdnChoice::Disabled
                } else {
                    CdnChoice::Given
                },
                None => CdnChoice::Default,
            }
        },
{
    if dev || nocdn || prover {
        CdnChoice::Disabled
    } else {
        match given {
            Some(s) => if s.is_empty() {
                CdnChoice::Disabled
            } else {
                CdnChoice::Given
            },
            None => CdnChoice::Default,
        }
    }
}

/// Why a peer address text was refused before resolving it.
#[derive(Clone, Copy, Debug, PartialEq, Eq, Structural)]
pub enum AddressTextError {
    /// No `:` separates the host from the port.
    MissingPort,
    /// The text is a URL.
    UrlNotSupported,
}

/// Whether `b` holds `://` at `i`.
pub open spec fn is_url_marker_at(b: Seq<u8>, i: int) -> bool {
    0 <= i && i + 3 <= b.len() && b[i] == 0x3a && b[i + 1] == 0x2f && b[i + 2] == 0x2f
}

/// The checks on a trimmed peer address before it is resolved: it must hold a `:` and no `://`.
pub open spec fn spec_check_peer_address(b: Seq<u8>) -> Result<(), AddressTextError> {
    if !b.contains(0x3a) {
        Err(AddressTextError::MissingPort)
    } else if exists|i: int| #[trigger] is_url_marker_at(b, i) {
        Err(AddressTextError::UrlNotSupported)
    } else {
        Ok(())
    }
}

/// Checks a trimmed peer address before it is resolved.
pub fn check_peer_address(text: &str) -> (r: Result<(), AddressTextError>)
    ensures
        r == spec_check_peer_address(text.spec_bytes()),
{
    let b = text.as_bytes();
    let n = b.len();
    let mut has_colon = false;
    let mut has_url = false;
    let mut i: usize = 0;
    while i < n
        invariant
            i <= n,
            n == b@.len(),
            has_colon == exists|j: int| 0 <= j < i && b@[j] == 0x3a,
            has_url == exists|j: int| 0 <= j < i && #[trigger] is_url_marker_at(b@, j),
        decreases n - i,
    {
        if b[i] == 0x3a {
            assert(b@[i as int] == 0x3a);
            has_colon = true;
            if n - i >= 3 && b[i + 1] == 0x2f && b[i + 2] == 0x2f {
                assert(is_url_marker_at(b@, i as int));
                has_url = true;
            }
        }
        i = i + 1;
    }
    proof {
        assert(has_colon == b@.contains(0x3a)) by {
            if b@.contains(0x3a) {
                let j = choose|j: int| 0 <= j < b@.len() && b@[j] == 0x3a;
                assert(0 <= j < n && b@[j] == 0x3a);
            }
        }
        assert(has_url == exists|j: int| #[trigger] is_url_marker_at(b@, j)) by {
            if exists|j: int| #[trigger] is_url_marker_at(b@, j) {
                let j = choose|j: int| #[trigger] is_url_marker_at(b@, j);
                assert(0 <= j < n && is_url_marker_at(b@, j));
            }
        }
    }
    if !has_colon {
        Err(AddressTextError::MissingPort)
    } else if has_url {
        Err(AddressTextError::UrlNotSupported)
    } else {
        Ok(())
    }
}

/// Why the development settings were refused.
#[derive(Clone, Copy, Debug, PartialEq, Eq, Structural)]
pub enum DevError {
    /// Fewer than four development validators.
    TooFewValidators,
    /// A validator's index is not below the number of validators.
    ValidatorIndexTooHigh,
}

/// The checks on the development settings: at least four validators, and a validator's
/// index below their number.
pub fn check_development(dev: u16, num_validators: u16, is_validator: bool) -> (r: Result<(), DevError>)
    ensures
        r == if num_validators < MIN_DEV_VALIDATORS {
            Err::<(), DevError>(DevError::TooFewValidators)
        } else if is_validator && dev >= num_validators {
            Err(DevError::ValidatorIndexTooHigh)
        } else {
            Ok(())
        },
{
    if num_validators < MIN_DEV_VALIDATORS {
        Err(DevError::TooFewValidators)
    } else if is_validator && dev >= num_validators {
        Err(DevError::ValidatorIndexTooHigh)
    } else {
        Ok(())
    }
}

/// The router port of development node `dev`.
pub fn dev_node_port(dev: u16) -> (r: u16)
    requires
        DEFAULT_NODE_PORT + dev <= u16::MAX,
    ensures
        r == DEFAULT_NODE_PORT + dev,
{
    DEFAULT_NODE_PORT + dev
}

/// The REST port of development node `dev`.
pub fn dev_rest_port(dev: u16) -> (r: u16)
    requires
        DEFAULT_REST_PORT + dev <= u16::MAX,
    ensures
        r == DEFAULT_REST_PORT + dev,
{
    DEFAULT_REST_PORT + dev
}

/// The memory pool ports of the other development validators, which validator `dev`
/// trusts: one per validator index below `num_validators`, except its own.
pub fn dev_trusted_validator_ports(dev: u16, num_validators: u16) -> (r: Vec<u16>)
    requires
        MEMORY_POOL_PORT + num_validators <= u16::MAX + 1,
    ensures
        forall|p: u16| #![trigger r@.contains(p)]
            r@.contains(p) <==> (MEMORY_POOL_PORT <= p < MEMORY_POOL_PORT + num_validators && p
                != MEMORY_POOL_PORT + dev),
        forall|a: int, b: int| 0 <= a < b < r@.len() ==> #[trigger] r@[a] < #[trigger] r@[b],
{
    let mut r: Vec<u16> = Vec::new();
    let mut idx: u16 = 0;
    while idx < num_validators
        invariant
            idx <= num_validators,
            MEMORY_POOL_PORT + num_validators <= u16::MAX + 1,
            forall|p: u16| #![trigger r@.contains(p)]
                r@.contains(p) <==> (MEMORY_POOL_PORT <= p < MEMORY_POOL_PORT + idx && p != MEMORY_POOL_PORT + dev),
            forall|j: int| 0 <= j < r@.len() ==> #[trigger] r@[j] < MEMORY_POOL_PORT + idx,
            forall|a: int, b: int| 0 <= a < b < r@.len() ==> #[trigger] r@[a] < #[trigger] r@[b],
        decreases num_validators - idx,
    {
        let ghost old_r = r@;
        if idx != dev {
            r.push(MEMORY_POOL_PORT + idx);
            proof {
                assert forall|p: u16| #![trigger r@.contains(p)]
                    r@.contains(p) <==> (MEMORY_POOL_PORT <= p < MEMORY_POOL_PORT + idx + 1 && p
                        != MEMORY_POOL_PORT + dev) by {
                    if p == MEMORY_POOL_PORT + idx {
                        assert(r@[r@.len() - 1] == p);
                    } else {
                        if r@.contains(p) {
                            let j = choose|j: int| 0 <= j < r@.len() && r@[j] == p;
                            assert(j < old_r.len());
                            assert(old_r[j] == p);
                        }
                        if old_r.contains(p) {
                            let j = choose|j: int| 0 <= j < old_r.len() && old_r[j] == p;
                            assert(r@[j] == p);
                        }
                    }
                }
            }
        } else {
            proof {
                assert forall|p: u16| #![trigger r@.contains(p)]
                    r@.contains(p) <==> (MEMORY_POOL_PORT <= p < MEMORY_POOL_PORT + idx + 1 && p
                        != MEMORY_POOL_PORT + dev) by {
                    if r@.contains(p) {
                        let j = choose|j: int| 0 <= j < r@.len() && r@[j] == p;
                        assert(r@[j] < MEMORY_POOL_PORT + idx);
                    }
                }
            }
        }
        idx = idx + 1;
    }
    r
}

/// The sum of a sequence of amounts.
pub open spec fn sum(s: Seq<u64>) -> int
    decreases s.len(),
{
    if s.len() == 0 {
        0
    } else {
        sum(s.drop_last()) + s.last()
    }
}

/// The public balances of `n` genesis accounts once the committee holds `total_stake` of
/// the `starting_supply`: the rest split evenly, the remainder to the first account.
pub open spec fn genesis_public_balances_spec(starting_supply: u64, total_stake: u64, n: int) -> Seq<u64> {
    let remaining = if starting_supply > total_stake {
        starting_supply - total_stake
    } else {
        0
    };
    let per = remaining / n;
    let leftover = remaining - per * n;
    Seq::new(n as nat, |i: int| if i == 0 {
        (per + leftover) as u64
    } else {
        per as u64
    })
}

/// The public balances of `n` genesis accounts: the supply left after the committee's
/// stake, split evenly, with the remainder added to the first account.
pub fn genesis_public_balances(starting_supply: u64, total_stake: u64, n: u16) -> (r: Vec<u64>)
    requires
        n >= 1,
    ensures
        r@ == genesis_public_balances_spec(starting_supply, total_stake, n as int),
{
    let remaining = starting_supply.saturating_sub(total_stake);
    let per = remaining / (n as u64);
    assert(per * n <= remaining) by (nonlinear_arith)
        requires
            per == remaining / (n as u64),
            n >= 1,
    ;
    let leftover = remaining - per * (n as u64);
    assert(per + leftover <= remaining) by (nonlinear_arith)
        requires
            leftover == remaining - per * n,
            n >= 1,
            per >= 0,
    ;
    let mut r: Vec<u64> = Vec::new();
    let mut i: u16 = 0;
    while i < n
        invariant
            i <= n,
            n >= 1,
            remaining == if starting_supply > total_stake {
                starting_supply - total_stake
            } else {
                0
            },
            per == remaining / (n as u64),
            leftover == remaining - per * n,
            per + leftover <= remaining,
            r@ == genesis_public_balances_spec(starting_supply, total_stake, n as int).subrange(0, i as int),
        decreases n - i,
    {
        let b = if i == 0 {
            per + leftover
        } else {
            per
        };
        r.push(b);
        i = i + 1;
        assert(r@ =~= genesis_public_balances_spec(starting_supply, total_stake, n as int).subrange(0, i as int));
    }
    assert(r@ =~= genesis_public_balances_spec(starting_supply, total_stake, n as int));
    r
}

/// The sum of `k` copies of `v`, after a first element `f`.
proof fn lemma_sum_first_then_constant(s: Seq<u64>, f: int, v: int)
    requires
        s.len() >= 1,
        s[0] == f,
        forall|i: int| 1 <= i < s.len() ==> s[i] == v,
    ensures
        sum(s) == f + (s.len() - 1) * v,
    decreases s.len(),
{
    let d = s.drop_last();
    if s.len() > 1 {
        assert(d[0] == f);
        assert forall|i: int| 1 <= i < d.len() implies d[i] == v by {
            assert(d[i] == s[i]);
        }
        lemma_sum_first_then_constant(d, f, v);
        assert(s.last() == v);
        assert(sum(s) == sum(d) + v);
        let k = s.len() as int;
        assert((k - 2) * v + v == (k - 1) * v) by (nonlinear_arith);
    } else {
        assert(d.len() == 0);
        assert(sum(d) == 0);
        assert(s.last() == f);
    }
}

/// The committee's stake and the public balances add up to the supply, when the stake
/// does not exceed it.
pub proof fn lemma_genesis_balances_sum(starting_supply: u64, total_stake: u64, n: int)
    requires
        n >= 1,
        total_stake <= starting_supply,
    ensures
        total_stake + sum(genesis_public_balances_spec(starting_supply, total_stake, n)) == starting_supply,
{
    let s = genesis_public_balances_spec(starting_supply, total_stake, n);
    let remaining = starting_supply - total_stake;
    let per = remaining / n;
    let leftover = remaining - per * n;
    assert(per * n <= remaining && 0 <= per && per <= per * n) by (nonlinear_arith)
        requires
            per == remaining / n,
            n >= 1,
            remaining >= 0,
    ;
    assert(s[0] == per + leftover);
    lemma_sum_first_then_constant(s, per + leftover, per);
    assert(per + leftover + (n - 1) * per == remaining) by (nonlinear_arith)
        requires
            leftover == remaining - per * n,
    ;
}

/// Why the development genesis distribution was refused.
#[derive(Clone, Copy, Debug, PartialEq, Eq, Structural)]
pub enum GenesisError {
    /// Fewer committee members than required.
    TooFewMembers,
    /// The stake of a committee member would be below the validator minimum.
    StakeTooLow,
}

/// The stake of each of `n` committee members when half the supply is split evenly among
/// them, and the public balances of the members; refused when the stake is below the minimum.
pub fn even_genesis_distribution(starting_supply: u64, n: u16, min_committee_members: u16, min_validator_stake: u64) -> (r: Result<(u64, Vec<u64>), GenesisError>)
    ensures
        n < min_committee_members || n == 0 ==> r == Err::<(u64, Vec<u64>), GenesisError>(GenesisError::TooFewMembers),
        n >= min_committee_members && n >= 1 ==> match r {
            Ok((stake, balances)) => stake == starting_supply / 2 / (n as u64) && stake >= min_validator_stake
                && balances@ == genesis_public_balances_spec(starting_supply, (stake * n) as u64, n as int),
            Err(e) => e == GenesisError::StakeTooLow && starting_supply / 2 / (n as u64) < min_validator_stake,
        },
{
    if n < min_committee_members || n == 0 {
        return Err(GenesisError::TooFewMembers);
    }
    let stake = starting_supply / 2 / (n as u64);
    if stake < min_validator_stake {
        return Err(GenesisError::StakeTooLow);
    }
    assert(stake * n <= starting_supply) by (nonlinear_arith)
        requires
            stake == starting_supply / 2 / (n as u64),
            n >= 1,
    ;
    let total = stake * (n as u64);
    let balances = genesis_public_balances(starting_supply, total, n);
    Ok((stake, balances))
}

/// The even distribution hands out exactly the supply: the committee's stake and the
/// public balances add up to it.
pub proof fn lemma_even_distribution_conserves_supply(starting_supply: u64, n: u16)
    requires
        n >= 1,
    ensures
        (starting_supply / 2 / (n as u64)) * n + sum(
            genesis_public_balances_spec(starting_supply, ((starting_supply / 2 / (n as u64)) * n) as u64, n as int),
        ) == starting_supply,
{
    let stake = starting_supply / 2 / (n as u64);
    assert(stake * n <= starting_supply) by (nonlinear_arith)
        requires
            stake == starting_supply / 2 / (n as u64),
            n >= 1,
    ;
    lemma_genesis_balances_sum(starting_supply, (stake * n) as u64, n as int);
}

/// Whether a private key file's Unix mode allows only its owner to read it, or to read
/// and write it.
pub fn permissions_allowed(mode: u32) -> (r: bool)
    ensures
        r == ((mode & 0o777) == 0o400 || (mode & 0o777) == 0o600),
{
    let m = mode & 0o777;
    m == 0o400 || m == 0o600
}

/// What to do with legacy node data files: with automatic migration, the indices of the
/// existing ones to move; without it, an error naming the first existing one.
pub fn legacy_files_plan(auto_migrate: bool, exists: &[bool]) -> (r: Result<Vec<usize>, usize>)
    ensures
        auto_migrate ==> (r matches Ok(v) && (forall|i: int| 0 <= i < v@.len() ==> #[trigger] v@[i] < exists@.len())
            && (forall|k: int| 0 <= k < exists@.len() ==> (exists@[k] <==> v@.contains(k as usize)))
            && (forall|a: int, b: int| 0 <= a < b < v@.len() ==> #[trigger] v@[a] < #[trigger] v@[b])),
        !auto_migrate ==> match r {
            Ok(v) => v@.len() == 0 && forall|k: int| 0 <= k < exists@.len() ==> !exists@[k],
            Err(i) => i < exists@.len() && exists@[i as int] && forall|k: int| 0 <= k < i ==> !exists@[k],
        },
{
    let n = exists.len();
    let mut v: Vec<usize> = Vec::new();
    let mut i: usize = 0;
    while i < n
        invariant
            i <= n,
            n == exists@.len(),
            forall|j: int| 0 <= j < v@.len() ==> #[trigger] v@[j] < i,
            forall|k: int| 0 <= k < i ==> (exists@[k] <==> v@.contains(k as usize)),
            forall|a: int, b: int| 0 <= a < b < v@.len() ==> #[trigger] v@[a] < #[trigger] v@[b],
            !auto_migrate ==> v@.len() == 0 && forall|k: int| 0 <= k < i ==> !exists@[k],
        decreases n - i,
    {
        if exists[i] {
            if !auto_migrate {
                return Err(i);
            }
            let ghost old_v = v@;
            v.push(i);
            proof {
                assert forall|k: int| 0 <= k < i + 1 implies (exists@[k] <==> v@.contains(k as usize)) by {
                    if k == i {
                        assert(v@[v@.len() - 1] == i);
                    } else {
                        if v@.contains(k as usize) {
                            let j = choose|j: int| 0 <= j < v@.len() && v@[j] == k as usize;
                            assert(j < old_v.len());
                            assert(old_v[j] == k as usize);
                        }
                        if old_v.contains(k as usize) {
                            let j = choose|j: int| 0 <= j < old_v.len() && old_v[j] == k as usize;
                            assert(v@[j] == k as usize);
                        }
                    }
                }
            }
        } else {
            proof {
                assert(!v@.contains(i)) by {
                    if v@.contains(i) {
                        let j = choose|j: int| 0 <= j < v@.len() && v@[j] == i;
                        assert(v@[j] < i);
                    }
                }
            }
        }
        i = i + 1;
    }
    Ok(v)
}

/// Where the node's private key comes from.
#[derive(Clone, Copy, Debug, PartialEq, Eq, Structural)]
pub enum KeySource {
    /// The development key of node `dev`.
    Development(u16),
    /// The key given on the command line.
    Given,
    /// The key in the given file, once its permissions are checked.
    File,
    /// A fresh random key, for a client.
    Random,
}

/// Why the private key flags were refused.
#[derive(Clone, Copy, Debug, PartialEq, Eq, Structural)]
pub enum KeySourceError {
    /// Neither a key nor a key file was given, and the node is not a client.
    Missing,
    /// Both a key and a key file were given.
    Both,
}

/// Where the private key comes from: in development mode, the node's development key;
/// else the given key or key file (not both); with neither, a random key for a client
/// and an error for any other node.
pub fn private_key_source(dev: Option<u16>, has_key: bool, has_key_file: bool, is_client: bool) -> (r: Result<
    KeySource,
    KeySourceError,
>)
    ensures
        r == match dev {
            Some(d) => Ok(KeySource::Development(d)),
            None => if has_key && has_key_file {
                Err(KeySourceError::Both)
            } else if has_key {
                Ok(KeySource::Given)
            } else if has_key_file {
                Ok(KeySource::File)
            } else if is_client {
                Ok(KeySource::Random)
            } else {
                Err(KeySourceError::Missing)
            },
        },
{
    match dev {
        Some(d) => Ok(KeySource::Development(d)),
        None => if has_key && has_key_file {
            Err(KeySourceError::Both)
        } else if has_key {
            Ok(KeySource::Given)
        } else if has_key_file {
            Ok(KeySource::File)
        } else if is_client {
            Ok(KeySource::Random)
        } else {
            Err(KeySourceError::Missing)
        },
    }
}

/// The most blocking threads of the node's runtime.
pub const MAX_BLOCKING_THREADS: usize = 512;

/// The thread counts of the node's runtime on a machine with `num_cores` cores: twice as
/// many worker threads as cores (the node waits on I/O more than it computes), at most
/// 512 blocking threads, and one thread per core for parallel computation.
pub fn runtime_thread_counts(num_cores: usize) -> (r: (usize, usize, usize))
    requires
        2 * num_cores <= usize::MAX,
    ensures
        r.0 == 2 * num_cores,
        r.1 == MAX_BLOCKING_THREADS,
        r.2 == num_cores,
{
    (2 * num_cores, MAX_BLOCKING_THREADS, num_cores)
}

/// The trusted peers that are not bootstrap peers, in order.
pub open spec fn without_bootstrap(trusted: Seq<SocketAddress>, bootstrap: Seq<SocketAddress>) -> Seq<SocketAddress>
    decreases trusted.len(),
{
    if trusted.len() == 0 {
        Seq::empty()
    } else if bootstrap.contains(trusted.last()) {
        without_bootstrap(trusted.drop_last(), bootstrap)
    } else {
        without_bootstrap(trusted.drop_last(), bootstrap).push(trusted.last())
    }
}

/// The trusted peers without the bootstrap peers, which are connected to separately.
pub fn remove_bootstrap_peers(trusted: &[SocketAddress], bootstrap: &[SocketAddress]) -> (r: Vec<SocketAddress>)
    ensures
        r@ == without_bootstrap(trusted@, bootstrap@),
{
    let mut r: Vec<SocketAddress> = Vec::new();
    let mut i: usize = 0;
    while i < trusted.len()
        invariant
            i <= trusted@.len(),
            r@ == without_bootstrap(trusted@.subrange(0, i as int), bootstrap@),
        decreases trusted@.len() - i,
    {
        proof {
            let s = trusted@.subrange(0, i + 1);
            assert(s.drop_last() =~= trusted@.subrange(0, i as int));
            assert(s.last() == trusted@[i as int]);
        }
        if !contains_address(bootstrap, trusted[i]) {
            r.push(trusted[i]);
        }
        i = i + 1;
    }
    assert(trusted@.subrange(0, trusted@.len() as int) =~= trusted@);
    r
}

/// The address a node listens at: the given one, or port 4130 on all interfaces.
pub fn node_address(given: Option<SocketAddress>) -> (r: SocketAddress)
    ensures
        r == match given {
            Some(a) => a,
            None => SocketAddress { ip: IpAddress::V4(0), port: DEFAULT_NODE_PORT },
        },
{
    match given {
        Some(a) => a,
        None => SocketAddress { ip: IpAddress::V4(0), port: DEFAULT_NODE_PORT },
    }
}

/// The address of the REST server: none when it is disabled; else the given one, or port
/// 3030 on all interfaces.
pub fn rest_address(norest: bool, given: Option<SocketAddress>) -> (r: Option<SocketAddress>)
    ensures
        r == if norest {
            None
        } else {
            Some(
                match given {
                    Some(a) => a,
                    None => SocketAddress { ip: IpAddress::V4(0), port: DEFAULT_REST_PORT },
                },
            )
        },
{
    if norest {
        None
    } else {
        match given {
            Some(a) => Some(a),
            None => Some(SocketAddress { ip: IpAddress::V4(0), port: DEFAULT_REST_PORT }),
        }
    }
}

/// Where the ledger is stored.
#[derive(Clone, Copy, Debug, PartialEq, Eq, Structural)]
pub enum StorageMode {
    /// At the path given on the command line.
    Custom,
    /// In the development directory of node `dev`.
    Development(u16),
    /// In the production directory.
    Production,
}

/// Where the ledger is stored: at the given path, else in development mode the node's
/// development directory, else the production directory.
pub fn storage_mode(has_ledger_path: bool, dev: Option<u16>) -> (r: StorageMode)
    ensures
        r == if has_ledger_path {
            StorageMode::Custom
        } else {
            match dev {
                Some(d) => StorageMode::Development(d),
                None => StorageMode::Production,
            }
        },
{
    if has_ledger_path {
        StorageMode::Custom
    } else {
        match dev {
            Some(d) => StorageMode::Development(d),
            None => StorageMode::Production,
        }
    }
}

/// A custom path given for one of the ledger and the node data, but not for the other.
#[derive(Clone, Copy, Debug, PartialEq, Eq, Structural)]
pub enum StoragePathMismatch {
    /// A node data path without a ledger path.
    NodeDataWithoutLedger,
    /// A ledger path without a node data path.
    LedgerWithoutNodeData,
}

/// The check on the custom storage paths: a path for one of the ledger and the node data
/// without one for the other is refused for a validator, and for any other node reported
/// (`Ok(Some(..))`) while the default path is used.
pub fn check_storage_paths(has_node_data_path: bool, storage: StorageMode, node_type: NodeType) -> (r: Result<
    Option<StoragePathMismatch>,
    StoragePathMismatch,
>)
    ensures
        ({
            let custom = storage == StorageMode::Custom;
            let mismatch = if has_node_data_path && !custom {
                Some(StoragePathMismatch::NodeDataWithoutLedger)
            } else if custom && !has_node_data_path {
                Some(StoragePathMismatch::LedgerWithoutNodeData)
            } else {
                None::<StoragePathMismatch>
            };
            r == match mismatch {
                Some(m) => if node_type == NodeType::Validator {
                    Err(m)
                } else {
                    Ok(Some(m))
                },
                None => Ok(None),
            }
        }),
{
    let custom = match storage {
        StorageMode::Custom => true,
        _ => false,
    };
    let mismatch = if has_node_data_path && !custom {
        Some(StoragePathMismatch::NodeDataWithoutLedger)
    } else if custom && !has_node_data_path {
        Some(StoragePathMismatch::LedgerWithoutNodeData)
    } else {
        None
    };
    match mismatch {
        Some(m) => if node_type == NodeType::Validator {
            Err(m)
        } else {
            Ok(Some(m))
        },
        None => Ok(None),
    }
}

/// The bytes that the standard base64 text `input` decodes to; none when it is not valid
/// standard base64.
pub uninterp spec fn base64_decoded(input: Seq<u8>) -> Option<Seq<u8>>;

/// Decodes standard base64 text: base64's `STANDARD.decode`, whose result is named
/// `base64_decoded`; its error is `None`.
#[verifier::external_body]
fn decode_base64(input: &[u8]) -> (r: Option<Vec<u8>>)
    ensures
        match r {
            Some(b) => base64_decoded(input@) == Some(b@),
            None => base64_decoded(input@) is None,
        },
{
    match base64::Engine::decode(&base64::engine::general_purpose::STANDARD, input) {
        Ok(b) => Some(b),
        Err(_) => None,
    }
}

/// The number of bytes of the REST server's JWT secret.
pub const JWT_SECRET_SIZE: usize = 16;

/// Why a JWT secret was refused.
#[derive(Clone, Copy, Debug, PartialEq, Eq, Structural)]
pub enum JwtSecretError {
    /// The secret is not valid base64.
    InvalidEncoding,
    /// The secret is not 16 bytes long.
    WrongLength,
}

/// Checks a decoded JWT secret: it must have decoded, to 16 bytes.
pub fn check_jwt_secret(decoded: Option<Vec<u8>>) -> (r: Result<Vec<u8>, JwtSecretError>)
    ensures
        match decoded {
            None => r == Err::<Vec<u8>, JwtSecretError>(JwtSecretError::InvalidEncoding),
            Some(b) => if b@.len() != JWT_SECRET_SIZE {
                r == Err::<Vec<u8>, JwtSecretError>(JwtSecretError::WrongLength)
            } else {
                r matches Ok(v) && v@ == b@
            },
        },
{
    match decoded {
        None => Err(JwtSecretError::InvalidEncoding),
        Some(b) => if b.len() != JWT_SECRET_SIZE {
            Err(JwtSecretError::WrongLength)
        } else {
            Ok(b)
        },
    }
}

/// The JWT secret given in standard base64: 16 bytes.
pub fn parse_jwt_secret(text: &str) -> (r: Result<Vec<u8>, JwtSecretError>)
    ensures
        match base64_decoded(text.spec_bytes()) {
            None => r == Err::<Vec<u8>, JwtSecretError>(JwtSecretError::InvalidEncoding),
            Some(b) => if b.len() != JWT_SECRET_SIZE {
                r == Err::<Vec<u8>, JwtSecretError>(JwtSecretError::WrongLength)
            } else {
                r matches Ok(v) && v@ == b
            },
        },
{
    check_jwt_secret(decode_base64(text.as_bytes()))
}

/// The loopback address `127.0.0.1`, as a big-endian `u32`.
pub const LOCALHOST_V4: u32 = 0x7f00_0001;

/// The router address of development node `idx`: port `4130 + idx` on the loopback address.
pub open spec fn spec_dev_router_address(idx: int) -> SocketAddress {
    SocketAddress { ip: IpAddress::V4(LOCALHOST_V4), port: (DEFAULT_NODE_PORT + idx) as u16 }
}

/// The router address of development node `idx`.
pub fn dev_router_address(idx: u16) -> (r: SocketAddress)
    requires
        DEFAULT_NODE_PORT + idx <= u16::MAX,
    ensures
        r == spec_dev_router_address(idx as int),
{
    SocketAddress { ip: IpAddress::V4(LOCALHOST_V4), port: DEFAULT_NODE_PORT + idx }
}

/// The addresses of development node `dev`: its router listens at the given address, or at
/// port `4130 + dev` on all interfaces; its REST server is off with `norest`, else at the
/// given address, or at port `3030 + dev` on all interfaces.
pub fn dev_listen_addresses(dev: u16, node: Option<SocketAddress>, norest: bool, rest: Option<SocketAddress>) -> (r: (
    SocketAddress,
    Option<SocketAddress>,
))
    requires
        DEFAULT_NODE_PORT + dev <= u16::MAX,
    ensures
        r.0 == match node {
            Some(a) => a,
            None => SocketAddress { ip: IpAddress::V4(0), port: (DEFAULT_NODE_PORT + dev) as u16 },
        },
        r.1 == if norest {
            None
        } else {
            Some(
                match rest {
                    Some(a) => a,
                    None => SocketAddress { ip: IpAddress::V4(0), port: (DEFAULT_REST_PORT + dev) as u16 },
                },
            )
        },
{
    let node_address = match node {
        Some(a) => a,
        None => SocketAddress { ip: IpAddress::V4(0), port: dev_node_port(dev) },
    };
    let rest_address = if norest {
        None
    } else {
        match rest {
            Some(a) => Some(a),
            None => Some(SocketAddress { ip: IpAddress::V4(0), port: dev_rest_port(dev) }),
        }
    };
    (node_address, rest_address)
}

/// Whether each development node index is below the largest whose router port fits.
pub open spec fn router_indices_fit(indices: Seq<u16>) -> bool {
    forall|i: int| 0 <= i < indices.len() ==> DEFAULT_NODE_PORT + #[trigger] indices[i] <= u16::MAX
}

/// The trusted peers of a development client or prover: the router addresses of the
/// development validators assigned to it, in order.
pub fn dev_client_trusted_peers(validators: &[u16]) -> (r: Vec<SocketAddress>)
    requires
        router_indices_fit(validators@),
    ensures
        r@ == Seq::new(validators@.len(), |i: int| spec_dev_router_address(validators@[i] as int)),
{
    let mut r: Vec<SocketAddress> = Vec::new();
    let mut i: usize = 0;
    while i < validators.len()
        invariant
            i <= validators@.len(),
            router_indices_fit(validators@),
            r@ == Seq::new(i as nat, |k: int| spec_dev_router_address(validators@[k] as int)),
        decreases validators@.len() - i,
    {
        r.push(dev_router_address(validators[i]));
        i = i + 1;
        assert(r@ =~= Seq::new(i as nat, |k: int| spec_dev_router_address(validators@[k] as int)));
    }
    r
}

/// The clients (by index among the clients) that were assigned validator `dev`, in order.
pub open spec fn clients_of_validator(clients_validators: Seq<Vec<u16>>, dev: u16) -> Seq<int>
    decreases clients_validators.len(),
{
    if clients_validators.len() == 0 {
        Seq::empty()
    } else {
        let rest = clients_of_validator(clients_validators.drop_last(), dev);
        if clients_validators.last()@.contains(dev) {
            rest.push(clients_validators.len() - 1)
        } else {
            rest
        }
    }
}

/// Whether `v` holds `x`.
fn holds_index(v: &Vec<u16>, x: u16) -> (r: bool)
    ensures
        r == v@.contains(x),
{
    let mut i: usize = 0;
    while i < v.len()
        invariant
            i <= v@.len(),
            forall|j: int| 0 <= j < i ==> v@[j] != x,
        decreases v@.len() - i,
    {
        if v[i] == x {
            return true;
        }
        i = i + 1;
    }
    false
}

/// The trusted peers of development validator `dev` when the devnet has clients, whose
/// assigned validators `clients_validators` lists by client: the router address of each
/// client that was assigned this validator, the clients being nodes `num_validators` on.
pub fn dev_validator_trusted_peers(dev: u16, num_validators: u16, clients_validators: &[Vec<u16>]) -> (r: Vec<
    SocketAddress,
>)
    requires
        DEFAULT_NODE_PORT + num_validators + clients_validators@.len() <= u16::MAX + 1,
    ensures
        r@ == clients_of_validator(clients_validators@, dev).map_values(
            |c: int| spec_dev_router_address(num_validators + c),
        ),
{
    let mut r: Vec<SocketAddress> = Vec::new();
    let mut c: usize = 0;
    while c < clients_validators.len()
        invariant
            c <= clients_validators@.len(),
            DEFAULT_NODE_PORT + num_validators + clients_validators@.len() <= u16::MAX + 1,
            r@ == clients_of_validator(clients_validators@.subrange(0, c as int), dev).map_values(
                |k: int| spec_dev_router_address(num_validators + k),
            ),
        decreases clients_validators@.len() - c,
    {
        proof {
            let s = clients_validators@.subrange(0, c + 1);
            assert(s.drop_last() =~= clients_validators@.subrange(0, c as int));
            assert(s.last() == clients_validators@[c as int]);
        }
        let ghost before = clients_of_validator(clients_validators@.subrange(0, c as int), dev);
        if holds_index(&clients_validators[c], dev) {
            r.push(dev_router_address(num_validators + c as u16));
            assert(r@ =~= before.push(c as int).map_values(|k: int| spec_dev_router_address(num_validators + k)));
        }
        c = c + 1;
    }
    assert(clients_validators@.subrange(0, clients_validators@.len() as int) =~= clients_validators@);
    r
}

/// The trusted peers that development mode sets when none were given: for a validator,
/// the clients that were assigned it (none when the number of clients is not known); for
/// a client or prover, the validators assigned to it. `None` when trusted peers were given,
/// which are kept.
pub fn dev_trusted_peers(
    peers_given: bool,
    is_validator: bool,
    dev: u16,
    num_validators: u16,
    own_validators: &[u16],
    clients_validators: Option<&[Vec<u16>]>,
) -> (r: Option<Vec<SocketAddress>>)
    requires
        router_indices_fit(own_validators@),
        clients_validators matches Some(cv) ==> DEFAULT_NODE_PORT + num_validators + cv@.len() <= u16::MAX + 1,
    ensures
        peers_given ==> r is None,
        !peers_given ==> (r matches Some(v) && v@ == if is_validator {
            match clients_validators {
                Some(cv) => clients_of_validator(cv@, dev).map_values(
                    |c: int| spec_dev_router_address(num_validators + c),
                ),
                None => Seq::empty(),
            }
        } else {
            Seq::new(own_validators@.len(), |i: int| spec_dev_router_address(own_validators@[i] as int))
        }),
{
    if peers_given {
        return None;
    }
    if is_validator {
        match clients_validators {
            Some(cv) => Some(dev_validator_trusted_peers(dev, num_validators, cv)),
            None => Some(Vec::new()),
        }
    } else {
        Some(dev_client_trusted_peers(own_validators))
    }
}

/// A bonded balance of the development genesis: a staker's address bonds `amount` to a
/// validator's address. Addresses are held by numbers that stand for them, equal numbers
/// for equal addresses.
#[derive(Clone, Copy, Debug, PartialEq, Eq, Structural)]
pub struct BondedEntry {
    /// The staker's address.
    pub staker: u64,
    /// The validator's address.
    pub validator: u64,
    /// The amount bonded.
    pub amount: u64,
}

/// Why the bonded balances of the development genesis were refused.
#[derive(Clone, Copy, Debug, PartialEq, Eq, Structural)]
pub enum BondedError {
    /// A validator bonds less than the validator minimum to itself.
    ValidatorStakeTooLow,
    /// A delegator bonds less than the delegator minimum.
    DelegatorStakeTooLow,
    /// A validator is not one of the development addresses.
    NotDevelopmentAddress,
    /// The committee does not have the expected number of members.
    MemberCountMismatch,
}

/// The sum of the amounts of bonded balances.
pub open spec fn bonded_sum(e: Seq<BondedEntry>) -> int
    decreases e.len(),
{
    if e.len() == 0 {
        0
    } else {
        bonded_sum(e.drop_last()) + e.last().amount
    }
}

/// The position of the first committee member at or after `i` whose validator is `v`.
pub open spec fn member_position_from(m: Seq<(u64, u64)>, v: u64, i: int) -> Option<int>
    decreases m.len() - i,
{
    if i < 0 || i >= m.len() {
        None
    } else if m[i].0 == v {
        Some(i)
    } else {
        member_position_from(m, v, i + 1)
    }
}

/// The position of validator `v` among the committee members `m`, if it is one.
pub open spec fn member_position(m: Seq<(u64, u64)>, v: u64) -> Option<int> {
    member_position_from(m, v, 0)
}

/// A position found at or after `i` is a position of `v` at or after `i`.
proof fn lemma_member_position_from(m: Seq<(u64, u64)>, v: u64, i: int)
    requires
        0 <= i,
    ensures
        member_position_from(m, v, i) matches Some(j) ==> i <= j < m.len() && m[j].0 == v,
    decreases m.len() - i,
{
    if i < m.len() && m[i].0 != v {
        lemma_member_position_from(m, v, i + 1);
    }
}

/// The committee members after validator `v` gains `amount` of stake: its stake grows,
/// or it joins at the end with that stake.
pub open spec fn add_stake(m: Seq<(u64, u64)>, v: u64, amount: u64) -> Seq<(u64, u64)> {
    match member_position(m, v) {
        Some(i) => m.update(i, (v, (m[i].1 + amount) as u64)),
        None => m.push((v, amount)),
    }
}

/// The committee members that the bonded balances make, in order of first appearance with
/// the sum of the stakes bonded to each; the first entry that bonds too little (the
/// validator minimum for a validator's own stake, the delegator minimum for another
/// staker's) or names a validator outside the development addresses is the error.
pub open spec fn spec_bonded_members(
    e: Seq<BondedEntry>,
    dev_addresses: Seq<u64>,
    min_validator_stake: u64,
    min_delegator_stake: u64,
) -> Result<Seq<(u64, u64)>, BondedError>
    decreases e.len(),
{
    if e.len() == 0 {
        Ok(Seq::empty())
    } else {
        match spec_bonded_members(e.drop_last(), dev_addresses, min_validator_stake, min_delegator_stake) {
            Err(x) => Err(x),
            Ok(m) => {
                let x = e.last();
                if x.staker == x.validator && x.amount < min_validator_stake {
                    Err(BondedError::ValidatorStakeTooLow)
                } else if x.staker != x.validator && x.amount < min_delegator_stake {
                    Err(BondedError::DelegatorStakeTooLow)
                } else if !dev_addresses.contains(x.validator) {
                    Err(BondedError::NotDevelopmentAddress)
                } else {
                    Ok(add_stake(m, x.validator, x.amount))
                }
            },
        }
    }
}

/// The committee members hold distinct validators, each with at most the sum bonded so far.
proof fn lemma_bonded_members_bounded(
    e: Seq<BondedEntry>,
    dev_addresses: Seq<u64>,
    min_validator_stake: u64,
    min_delegator_stake: u64,
)
    requires
        spec_bonded_members(e, dev_addresses, min_validator_stake, min_delegator_stake) is Ok,
        bonded_sum(e) <= u64::MAX,
    ensures
        ({
            let m = spec_bonded_members(e, dev_addresses, min_validator_stake, min_delegator_stake)->Ok_0;
            forall|i: int| 0 <= i < m.len() ==> (#[trigger] m[i]).1 <= bonded_sum(e)
        }),
    decreases e.len(),
{
    if e.len() > 0 {
        let p = e.drop_last();
        lemma_bonded_members_bounded(p, dev_addresses, min_validator_stake, min_delegator_stake);
        let m = spec_bonded_members(p, dev_addresses, min_validator_stake, min_delegator_stake)->Ok_0;
        let x = e.last();
        let n = add_stake(m, x.validator, x.amount);
        lemma_member_position_from(m, x.validator, 0);
        lemma_bonded_sum_nonneg(p);
        assert(bonded_sum(e) == bonded_sum(p) + x.amount);
        assert forall|i: int| 0 <= i < n.len() implies (#[trigger] n[i]).1 <= bonded_sum(e) by {
            match member_position(m, x.validator) {
                Some(j) => {
                    if i != j {
                        assert(n[i] == m[i]);
                    } else {
                        assert(m[j].1 <= bonded_sum(p));
                        assert(n[j].1 == m[j].1 + x.amount);
                    }
                },
                None => {
                    if i < m.len() {
                        assert(n[i] == m[i]);
                    }
                },
            }
        }
    }
}

/// The position of validator `v` among the members, if it is one.
fn find_member(m: &Vec<(u64, u64)>, v: u64) -> (r: Option<usize>)
    ensures
        match r {
            Some(i) => member_position(m@, v) == Some(i as int) && i < m@.len() && m@[i as int].0 == v,
            None => member_position(m@, v) is None,
        },
{
    let mut i: usize = 0;
    while i < m.len()
        invariant
            i <= m@.len(),
            member_position(m@, v) == member_position_from(m@, v, i as int),
        decreases m@.len() - i,
    {
        if m[i].0 == v {
            return Some(i);
        }
        i = i + 1;
    }
    None
}

/// The committee members that the bonded balances make: see `spec_bonded_members`.
pub fn bonded_members(
    entries: &[BondedEntry],
    dev_addresses: &[u64],
    min_validator_stake: u64,
    min_delegator_stake: u64,
) -> (r: Result<Vec<(u64, u64)>, BondedError>)
    requires
        bonded_sum(entries@) <= u64::MAX,
    ensures
        match r {
            Ok(m) => spec_bonded_members(entries@, dev_addresses@, min_validator_stake, min_delegator_stake) == Ok::<
                Seq<(u64, u64)>,
                BondedError,
            >(m@),
            Err(x) => spec_bonded_members(entries@, dev_addresses@, min_validator_stake, min_delegator_stake)
                == Err::<Seq<(u64, u64)>, BondedError>(x),
        },
{
    let mut m: Vec<(u64, u64)> = Vec::new();
    let mut k: usize = 0;
    while k < entries.len()
        invariant
            k <= entries@.len(),
            bonded_sum(entries@) <= u64::MAX,
            spec_bonded_members(entries@.subrange(0, k as int), dev_addresses@, min_validator_stake, min_delegator_stake)
                == Ok::<Seq<(u64, u64)>, BondedError>(m@),
        decreases entries@.len() - k,
    {
        let ghost p = entries@.subrange(0, k + 1);
        proof {
            assert(p.drop_last() =~= entries@.subrange(0, k as int));
            assert(p.last() == entries@[k as int]);
            lemma_bonded_sum_prefix(entries@, k + 1);
            lemma_bonded_sum_prefix(entries@, k as int);
            lemma_bonded_members_bounded(
                entries@.subrange(0, k as int),
                dev_addresses@,
                min_validator_stake,
                min_delegator_stake,
            );
        }
        let x = entries[k];
        let ghost old_m = m@;
        if x.staker == x.validator && x.amount < min_validator_stake {
            proof {
                lemma_bonded_prefix_error(entries@, k + 1, dev_addresses@, min_validator_stake, min_delegator_stake);
            }
            return Err(BondedError::ValidatorStakeTooLow);
        }
        if x.staker != x.validator && x.amount < min_delegator_stake {
            proof {
                lemma_bonded_prefix_error(entries@, k + 1, dev_addresses@, min_validator_stake, min_delegator_stake);
            }
            return Err(BondedError::DelegatorStakeTooLow);
        }
        if !contains_u64(dev_addresses, x.validator) {
            proof {
                lemma_bonded_prefix_error(entries@, k + 1, dev_addresses@, min_validator_stake, min_delegator_stake);
            }
            return Err(BondedError::NotDevelopmentAddress);
        }
        match find_member(&m, x.validator) {
            Some(i) => {
                assert(old_m[i as int].1 <= bonded_sum(entries@.subrange(0, k as int)));
                let stake = m[i].1 + x.amount;
                m.set(i, (x.validator, stake));
                assert(m@ =~= add_stake(old_m, x.validator, x.amount));
            },
            None => {
                m.push((x.validator, x.amount));
                assert(m@ =~= add_stake(old_m, x.validator, x.amount));
            },
        }
        k = k + 1;
    }
    assert(entries@.subrange(0, entries@.len() as int) =~= entries@);
    Ok(m)
}

/// Once a prefix of the bonded balances is refused, so are they all, for the same reason.
proof fn lemma_bonded_prefix_error(
    e: Seq<BondedEntry>,
    k: int,
    dev_addresses: Seq<u64>,
    min_validator_stake: u64,
    min_delegator_stake: u64,
)
    requires
        0 <= k <= e.len(),
        spec_bonded_members(e.subrange(0, k), dev_addresses, min_validator_stake, min_delegator_stake) is Err,
    ensures
        spec_bonded_members(e, dev_addresses, min_validator_stake, min_delegator_stake) == spec_bonded_members(
            e.subrange(0, k),
            dev_addresses,
            min_validator_stake,
            min_delegator_stake,
        ),
    decreases e.len(),
{
    if k == e.len() {
        assert(e.subrange(0, k) =~= e);
    } else {
        let p = e.drop_last();
        assert(e.subrange(0, k) =~= p.subrange(0, k));
        lemma_bonded_prefix_error(p, k, dev_addresses, min_validator_stake, min_delegator_stake);
    }
}

/// A sum of amounts is not negative.
proof fn lemma_bonded_sum_nonneg(e: Seq<BondedEntry>)
    ensures
        bonded_sum(e) >= 0,
    decreases e.len(),
{
    if e.len() > 0 {
        lemma_bonded_sum_nonneg(e.drop_last());
    }
}

/// The sum over a prefix is at most the sum over the whole.
proof fn lemma_bonded_sum_prefix(e: Seq<BondedEntry>, k: int)
    requires
        0 <= k <= e.len(),
    ensures
        bonded_sum(e.subrange(0, k)) <= bonded_sum(e),
        k > 0 ==> bonded_sum(e.subrange(0, k)) == bonded_sum(e.subrange(0, k - 1)) + e[k - 1].amount,
    decreases e.len(),
{
    if k > 0 {
        assert(e.subrange(0, k).drop_last() =~= e.subrange(0, k - 1));
    }
    if e.len() > 0 && k < e.len() {
        let p = e.drop_last();
        assert(e.subrange(0, k) =~= p.subrange(0, k));
        lemma_bonded_sum_prefix(p, k);
    } else if k == e.len() {
        assert(e.subrange(0, k) =~= e);
    }
}

/// Whether `a` holds `x`.
fn contains_u64(a: &[u64], x: u64) -> (r: bool)
    ensures
        r == a@.contains(x),
{
    let mut i: usize = 0;
    while i < a.len()
        invariant
            i <= a@.len(),
            forall|j: int| 0 <= j < i ==> a@[j] != x,
        decreases a@.len() - i,
    {
        if a[i] == x {
            return true;
        }
        i = i + 1;
    }
    false
}

/// The development genesis from bonded balances: the committee members they make (see
/// `spec_bonded_members`), which must number `num_members`, and the public balances of the
/// `num_members` development accounts, which share the supply left after the bonded amounts
/// (the committee's total stake).
pub fn bonded_genesis_distribution(
    entries: &[BondedEntry],
    dev_addresses: &[u64],
    num_members: u16,
    starting_supply: u64,
    min_validator_stake: u64,
    min_delegator_stake: u64,
) -> (r: Result<(Vec<(u64, u64)>, Vec<u64>), BondedError>)
    requires
        bonded_sum(entries@) <= u64::MAX,
        num_members >= 1,
    ensures
        match spec_bonded_members(entries@, dev_addresses@, min_validator_stake, min_delegator_stake) {
            Err(x) => r == Err::<(Vec<(u64, u64)>, Vec<u64>), BondedError>(x),
            Ok(m) => if m.len() != num_members {
                r == Err::<(Vec<(u64, u64)>, Vec<u64>), BondedError>(BondedError::MemberCountMismatch)
            } else {
                r matches Ok((members, balances)) && members@ == m && balances@ == genesis_public_balances_spec(
                    starting_supply,
                    bonded_sum(entries@) as u64,
                    num_members as int,
                )
            },
        },
{
    let members = match bonded_members(entries, dev_addresses, min_validator_stake, min_delegator_stake) {
        Ok(m) => m,
        Err(x) => {
            return Err(x);
        },
    };
    if members.len() != num_members as usize {
        return Err(BondedError::MemberCountMismatch);
    }
    let mut total: u64 = 0;
    let mut k: usize = 0;
    while k < entries.len()
        invariant
            k <= entries@.len(),
            bonded_sum(entries@) <= u64::MAX,
            total == bonded_sum(entries@.subrange(0, k as int)),
        decreases entries@.len() - k,
    {
        proof {
            lemma_bonded_sum_prefix(entries@, k + 1);
        }
        total = total + entries[k].amount;
        k = k + 1;
    }
    assert(entries@.subrange(0, entries@.len() as int) =~= entries@);
    let balances = genesis_public_balances(starting_supply, total, num_members);
    Ok((members, balances))
}

} // verus!
