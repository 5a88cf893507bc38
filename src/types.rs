use vstd::prelude::*;

verus! {

/// Errors returned by the airdrop's entry points.
#[derive(Debug, Clone, PartialEq, Eq)]
pub enum AirdropError {
    /// A remote call to the ledger service failed; holds its message.
    Unknown(String),
    /// The ledger service rejected a transfer; holds its description.
    TokenCanisterError(String),
    /// The caller is not a controller of the service.
    Unauthorized,
    /// There are no share allocations to distribute.
    EmptyAllocationList,
    /// The ledger reference is unset, or administrative input is invalid.
    ConfigurationError,
    /// The balance cannot cover the aggregate transfer fees.
    InsufficientBalance,
    /// The recorded shares sum to zero, so no rate can be computed.
    ZeroShareSum,
    /// The rate per share rounds down to zero.
    ZeroPayoutRate,
}

/// An account reference, held as the bytes of its principal.
#[derive(Debug)]
pub struct Identity {
    pub bytes: Vec<u8>,
}

impl View for Identity {
    type V = Seq<u8>;

    open spec fn view(&self) -> Seq<u8> {
        self.bytes@
    }
}

/// The bytes of the anonymous principal.
pub open spec fn anonymous_bytes() -> Seq<u8> {
    seq![4u8]
}

/// Relies on candid's `Principal::anonymous` and `Principal::as_slice`: the
/// anonymous principal is the single byte 4.
#[verifier::external_body]
fn anonymous_principal_bytes() -> (r: Vec<u8>)
    ensures
        r@ == anonymous_bytes(),
{
    candid::Principal::anonymous().as_slice().to_vec()
}

impl Identity {
    /// Wraps the bytes of a principal.
    pub fn from_bytes(bytes: Vec<u8>) -> (r: Identity)
        ensures
            r@ == bytes@,
    {
        Identity { bytes }
    }

    /// The anonymous (unset) identity.
    pub fn anonymous() -> (r: Identity)
        ensures
            r@ == anonymous_bytes(),
    {
        Identity { bytes: anonymous_principal_bytes() }
    }

    /// The bytes of this identity.
    pub fn as_bytes(&self) -> (r: &Vec<u8>)
        ensures
            r@ == self@,
    {
        &self.bytes
    }

    /// A copy of this identity.
    pub fn duplicate(&self) -> (r: Identity)
        ensures
            r@ == self@,
    {
        let mut bytes: Vec<u8> = Vec::new();
        let mut i: usize = 0;
        while i < self.bytes.len()
            invariant
                0 <= i <= self.bytes@.len(),
                bytes@ == self.bytes@.subrange(0, i as int),
            decreases self.bytes@.len() - i,
        {
            bytes.push(self.bytes[i]);
            i = i + 1;
            assert(bytes@ =~= self.bytes@.subrange(0, i as int));
        }
        assert(bytes@ =~= self.bytes@);
        Identity { bytes }
    }

    /// Whether two identities are the same account.
    pub fn same_as(&self, other: &Identity) -> (r: bool)
        ensures
            r == (self@ == other@),
    {
        if self.bytes.len() != other.bytes.len() {
            return false;
        }
        let mut i: usize = 0;
        while i < self.bytes.len()
            invariant
                self.bytes@.len() == other.bytes@.len(),
                0 <= i <= self.bytes@.len(),
                forall|j: int| 0 <= j < i ==> self.bytes@[j] == other.bytes@[j],
            decreases self.bytes@.len() - i,
        {
            if self.bytes[i] != other.bytes[i] {
                return false;
            }
            i = i + 1;
        }
        assert(self.bytes@ =~= other.bytes@);
        true
    }

    /// Whether this identity is the anonymous one.
    pub fn is_anonymous(&self) -> (r: bool)
        ensures
            r == (self@ == anonymous_bytes()),
    {
        self.same_as(&Identity::anonymous())
    }
}

} // verus!
