//! Per-connection state.
use vstd::prelude::*;
use rand::Rng;
use crate::transaction::Transaction;

verus! {

pub open spec fn is_alphanumeric(c: u8) -> bool {
    (48 <= c <= 57) || (65 <= c <= 90) || (97 <= c <= 122)
}

/// `n` random letters and digits.
///
/// Relies on rand's `Alphanumeric` distribution, which draws each byte from
/// `A-Z`, `a-z` and `0-9`, and on `Iterator::take` yielding exactly `n` of them.
#[verifier::external_body]
fn random_alphanumeric(n: usize) -> (r: Vec<u8>)
    ensures
        r@.len() == n,
        forall|i: int| 0 <= i < n ==> is_alphanumeric(#[trigger] r@[i]),
{
    rand::rng().sample_iter(rand::distr::Alphanumeric).take(n).collect()
}

/// Length of a connection's random identifier.
pub const ID_LEN: usize = 16;

/// What the server knows of one client connection.
pub struct Connection {
    /// Random identifier of letters and digits.
    pub id: Vec<u8>,
    /// The port a replica announced with `REPLCONF listening-port`.
    pub slave_port: Option<Vec<u8>>,
    /// Set once the connection finished the replication handshake.
    pub is_slave_established: bool,
    pub transaction: Transaction,
}

impl Connection {
    pub fn new() -> (r: Self)
        ensures
            r.id@.len() == ID_LEN,
            forall|i: int| 0 <= i < r.id@.len() ==> is_alphanumeric(#[trigger] r.id@[i]),
            r.slave_port is None,
            !r.is_slave_established,
            !r.transaction.is_txing,
            r.transaction.tasks@.len() == 0,
    {
        Connection {
            id: random_alphanumeric(ID_LEN),
            slave_port: None,
            is_slave_established: false,
            transaction: Transaction::new(),
        }
    }
}

} // verus!
