use vstd::prelude::*;

verus! {

/// The identity of whoever makes a call into the store.
///
/// The hosting layer authenticates callers and hands over each identity as a
/// byte string; the store only ever compares two identities for equality.
#[derive(Clone, Debug)]
pub struct Caller {
    bytes: Vec<u8>,
}

impl View for Caller {
    type V = Seq<u8>;

    closed spec fn view(&self) -> Seq<u8> {
        self.bytes@
    }
}

impl Caller {
    /// An identity made of the given bytes.
    pub fn from_bytes(bytes: Vec<u8>) -> (r: Caller)
        ensures
            r@ == bytes@,
    {
        Caller { bytes }
    }

    /// The bytes that make up this identity.
    pub fn as_bytes(&self) -> (r: &Vec<u8>)
        ensures
            r@ == self@,
    {
        &self.bytes
    }

    /// A copy of this identity.
    pub fn duplicate(&self) -> (r: Caller)
        ensures
            r@ == self@,
    {
        let mut bytes: Vec<u8> = Vec::new();
        let mut i: usize = 0;
        while i < self.bytes.len()
            invariant
                i <= self.bytes@.len(),
                bytes@ == self.bytes@.take(i as int),
            decreases self.bytes@.len() - i,
        {
            bytes.push(self.bytes[i]);
            i += 1;
            proof {
                assert(self.bytes@.take(i as int) =~= self.bytes@.take(i - 1).push(self.bytes@[i - 1]));
            }
        }
        assert(bytes@ =~= self.bytes@);
        Caller { bytes }
    }
}

impl PartialEq for Caller {
    fn eq(&self, other: &Caller) -> (r: bool) {
        if self.bytes.len() != other.bytes.len() {
            assert(self@.len() != other@.len());
            return false;
        }
        let mut i: usize = 0;
        while i < self.bytes.len()
            invariant
                i <= self.bytes@.len(),
                self.bytes@.len() == other.bytes@.len(),
                forall|j: int| 0 <= j < i ==> self.bytes@[j] == other.bytes@[j],
            decreases self.bytes@.len() - i,
        {
            if self.bytes[i] != other.bytes[i] {
                assert(self@[i as int] != other@[i as int]);
                return false;
            }
            i += 1;
        }
        assert(self@ =~= other@);
        true
    }
}

impl vstd::std_specs::cmp::PartialEqSpecImpl for Caller {
    open spec fn obeys_eq_spec() -> bool {
        true
    }

    open spec fn eq_spec(&self, other: &Caller) -> bool {
        self@ == other@
    }
}

} // verus!
