use vstd::prelude::*;

verus! {

/// Largest number of bytes in a principal.
pub const MAX_PRINCIPAL_LEN: usize = 29;

/// The bytes of the reserved anonymous identity.
pub open spec fn anonymous_bytes() -> Seq<u8> {
    seq![4u8]
}

/// An opaque caller identity, held as its significant bytes.
#[derive(Debug)]
pub struct Principal {
    bytes: Vec<u8>,
}

impl View for Principal {
    type V = Seq<u8>;

    closed spec fn view(&self) -> Seq<u8> {
        self.bytes@
    }
}

impl PartialEq for Principal {
    fn eq(&self, o: &Principal) -> (r: bool) {
        bytes_equal(&self.bytes, &o.bytes)
    }
}

impl vstd::std_specs::cmp::PartialEqSpecImpl for Principal {
    open spec fn obeys_eq_spec() -> bool {
        true
    }

    open spec fn eq_spec(&self, o: &Principal) -> bool {
        self@ == o@
    }
}

impl Eq for Principal {
}

impl Clone for Principal {
    fn clone(&self) -> (r: Principal)
        ensures
            r@ == self@,
    {
        Principal { bytes: copy_bytes(&self.bytes) }
    }
}

fn bytes_equal(a: &Vec<u8>, b: &Vec<u8>) -> (r: bool)
    ensures
        r == (a@ == b@),
{
    if a.len() != b.len() {
        return false;
    }
    let mut i: usize = 0;
    while i < a.len()
        invariant
            a@.len() == b@.len(),
            0 <= i <= a@.len(),
            a@.subrange(0, i as int) == b@.subrange(0, i as int),
        decreases a@.len() - i,
    {
        if a[i] != b[i] {
            assert(a@[i as int] != b@[i as int]);
            return false;
        }
        assert(a@.subrange(0, i + 1) == a@.subrange(0, i as int).push(a@[i as int]));
        assert(b@.subrange(0, i + 1) == b@.subrange(0, i as int).push(b@[i as int]));
        i = i + 1;
    }
    assert(a@ == a@.subrange(0, i as int));
    assert(b@ == b@.subrange(0, i as int));
    true
}

fn copy_bytes(a: &Vec<u8>) -> (r: Vec<u8>)
    ensures
        r@ == a@,
{
    let mut r: Vec<u8> = Vec::new();
    let mut i: usize = 0;
    while i < a.len()
        invariant
            0 <= i <= a@.len(),
            r@ == a@.subrange(0, i as int),
        decreases a@.len() - i,
    {
        r.push(a[i]);
        assert(a@.subrange(0, i + 1) == a@.subrange(0, i as int).push(a@[i as int]));
        i = i + 1;
    }
    assert(a@ == a@.subrange(0, i as int));
    r
}

impl Principal {
    /// Builds a principal from its bytes, through candid's constructor.
    pub fn from_slice(bytes: &[u8]) -> (r: Principal)
        requires
            bytes@.len() <= MAX_PRINCIPAL_LEN,
        ensures
            r@ == bytes@,
    {
        Principal { bytes: candid_principal_bytes(bytes) }
    }

    /// The reserved anonymous identity.
    pub fn anonymous() -> (r: Principal)
        ensures
            r@ == anonymous_bytes(),
    {
        Principal { bytes: candid_anonymous_bytes() }
    }

    /// Whether this is the reserved anonymous identity.
    pub fn is_anonymous(&self) -> (r: bool)
        ensures
            r == (self@ == anonymous_bytes()),
    {
        let anonymous = Principal::anonymous();
        *self == anonymous
    }

    /// The significant bytes of the principal.
    pub fn as_slice(&self) -> (r: &[u8])
        ensures
            r@ == self@,
    {
        self.bytes.as_slice()
    }
}

/// Relies on candid's `Principal::from_slice` and `Principal::as_slice`: a
/// principal built from at most 29 bytes hands back exactly those bytes.
#[verifier::external_body]
fn candid_principal_bytes(bytes: &[u8]) -> (r: Vec<u8>)
    requires
        bytes@.len() <= MAX_PRINCIPAL_LEN,
    ensures
        r@ == bytes@,
{
    candid::Principal::from_slice(bytes).as_slice().to_vec()
}

/// Relies on candid's `Principal::anonymous` and `Principal::as_slice`: the
/// anonymous identity is the single byte 4.
#[verifier::external_body]
fn candid_anonymous_bytes() -> (r: Vec<u8>)
    ensures
        r@ == anonymous_bytes(),
{
    candid::Principal::anonymous().as_slice().to_vec()
}

} // verus!
