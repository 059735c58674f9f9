use vstd::prelude::*;

verus! {

/// The persisted envelope of a vault: the salt fixed at creation, the nonce of
/// the last encryption, and the encrypted entries.
#[derive(Clone)]
pub struct VaultState {
    pub salt: [u8; 16],
    pub nonce: [u8; 12],
    pub cipher: Vec<u8>,
}

/// What an envelope holds, as byte sequences.
pub struct VaultStateView {
    pub salt: Seq<u8>,
    pub nonce: Seq<u8>,
    pub cipher: Seq<u8>,
}

impl View for VaultState {
    type V = VaultStateView;

    open spec fn view(&self) -> VaultStateView {
        VaultStateView { salt: self.salt@, nonce: self.nonce@, cipher: self.cipher@ }
    }
}

impl VaultState {
    /// The envelope of a new vault: the given salt, a zero nonce and no ciphertext.
    pub fn new(salt: &[u8; 16]) -> (r: VaultState)
        ensures
            r.salt@ == salt@,
            r.nonce@ == Seq::new(12, |i: int| 0u8),
            r.cipher@.len() == 0,
    {
        let nonce = [0u8; 12];
        assert(nonce@ =~= Seq::new(12, |i: int| 0u8));
        VaultState { salt: *salt, nonce, cipher: Vec::new() }
    }
}

} // verus!
