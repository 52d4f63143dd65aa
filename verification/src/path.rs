use vstd::prelude::*;
use vstd::string::*;

use crate::rfc3339::digit_char;
use crate::rfc3339::digit_str;

verus! {

/// What is being tracked: the server connection itself, a channel on it, a
/// direct (query) conversation with a peer, or the aggregate log view.
#[derive(Clone, Debug, PartialEq, Eq)]
pub enum Kind {
    Server,
    Channel(String),
    Query(String),
    Logs,
}

/// The human-readable key that is hashed to form the storage file name.
pub open spec fn spec_canonical_name(server: Seq<char>, kind: Kind) -> Seq<char> {
    match kind {
        Kind::Server => server + "-metadata"@,
        Kind::Channel(c) => server + "channel"@ + c@ + "-metadata"@,
        Kind::Query(n) => server + "nickname"@ + n@ + "-metadata"@,
        Kind::Logs => "log-metadata"@,
    }
}

/// The decimal digits of `n`, most significant first, no leading zeros.
pub open spec fn spec_decimal(n: int) -> Seq<char>
    decreases n,
{
    if n <= 9 {
        seq![digit_char(n)]
    } else {
        spec_decimal(n / 10) + seq![digit_char(n % 10)]
    }
}

/// The 64-bit content hash of a name, as `seahash` computes it.
pub uninterp spec fn seahash_of(name: Seq<char>) -> u64;

/// The stable on-disk file name for one (server, conversation) pair: the
/// decimal SeaHash of the canonical name, with a `.json` extension. Same
/// inputs give the same name; distinct inputs may collide only if their
/// canonical names collide under the 64-bit hash, an accepted residual risk.
pub open spec fn spec_file_name(server: Seq<char>, kind: Kind) -> Seq<char> {
    spec_decimal(seahash_of(spec_canonical_name(server, kind)) as int) + ".json"@
}

/// Relies on seahash::hash: a pure function of the UTF-8 bytes of the name
/// alone (fixed seeds), so equal names always hash to equal values, in every
/// process and on every machine.
#[verifier::external_body]
fn hash_name(name: &str) -> (r: u64)
    ensures
        r == seahash_of(name@),
{
    seahash::hash(name.as_bytes())
}

pub fn canonical_name(server: &str, kind: &Kind) -> (r: String)
    ensures
        r@ == spec_canonical_name(server@, *kind),
{
    match kind {
        Kind::Server => {
            let mut s = String::from_str(server);
            s.append("-metadata");
            proof {
                assert(s@ =~= spec_canonical_name(server@, *kind));
            }
            s
        },
        Kind::Channel(c) => {
            let mut s = String::from_str(server);
            s.append("channel");
            s.append(c.as_str());
            s.append("-metadata");
            proof {
                assert(s@ =~= spec_canonical_name(server@, *kind));
            }
            s
        },
        Kind::Query(n) => {
            let mut s = String::from_str(server);
            s.append("nickname");
            s.append(n.as_str());
            s.append("-metadata");
            proof {
                assert(s@ =~= spec_canonical_name(server@, *kind));
            }
            s
        },
        Kind::Logs => {
            let s = String::from_str("log-metadata");
            s
        },
    }
}

pub fn u64_decimal(n: u64) -> (r: String)
    ensures
        r@ == spec_decimal(n as int),
    decreases n,
{
    if n <= 9 {
        let s = String::from_str(digit_str(n as u8));
        proof {
            assert(s@ =~= spec_decimal(n as int));
        }
        s
    } else {
        let mut s = u64_decimal(n / 10);
        s.append(digit_str((n % 10) as u8));
        proof {
            assert(s@ =~= spec_decimal(n as int));
        }
        s
    }
}

/// The file name under the storage directory that holds the record for this
/// (server, conversation) pair.
pub fn file_name(server: &str, kind: &Kind) -> (r: String)
    ensures
        r@ == spec_file_name(server@, *kind),
{
    let name = canonical_name(server, kind);
    let hashed: u64 = hash_name(name.as_str());
    let mut s = u64_decimal(hashed);
    s.append(".json");
    s
}

} // verus!
