//! The identity of a device: a random device ID and private key, kept as
//! 48 bytes on disk.

use crate::bytes::append_bytes;
use crate::random::fill_random;
use crate::text::{hex_lower, to_hex_lower};
use vstd::prelude::*;

verus! {

pub const DEVICE_ID_SIZE: usize = 16;

pub const DEVICE_KEY_SIZE: usize = 32;

/// The size of a stored identity: the device ID, then the private key.
pub const IDENTITY_FILE_SIZE: usize = 16 + 32;

#[derive(Debug, Clone)]
pub struct DeviceIdentity {
    pub device_id: [u8; DEVICE_ID_SIZE],
    pub private_key: [u8; DEVICE_KEY_SIZE],
}

/// The stored form of an identity.
pub open spec fn identity_bytes(id: Seq<u8>, key: Seq<u8>) -> Seq<u8> {
    id + key
}

/// What reading a stored identity gives: the ID and key, or why not.
pub open spec fn parse_identity_spec(data: Seq<u8>) -> Result<(Seq<u8>, Seq<u8>), &'static str> {
    if data.len() != IDENTITY_FILE_SIZE {
        Err("invalid Tailsfer identity file")
    } else {
        Ok((data.subrange(0, 16), data.subrange(16, 48)))
    }
}

impl DeviceIdentity {
    /// A fresh identity with a random device ID and private key.
    pub fn generate() -> Self {
        let mut device_id = [0u8; DEVICE_ID_SIZE];
        let mut private_key = [0u8; DEVICE_KEY_SIZE];
        fill_random(&mut device_id);
        fill_random(&mut private_key);
        Self { device_id, private_key }
    }

    /// The stored form: the device ID, then the private key.
    pub fn to_bytes(&self) -> (data: Vec<u8>)
        ensures
            data@ == identity_bytes(self.device_id@, self.private_key@),
    {
        let mut data: Vec<u8> = Vec::new();
        append_bytes(&mut data, &self.device_id);
        append_bytes(&mut data, &self.private_key);
        assert(data@ =~= identity_bytes(self.device_id@, self.private_key@));
        data
    }

    /// Reads a stored identity, which must be exactly 48 bytes.
    pub fn from_bytes(data: &[u8]) -> (r: Result<Self, &'static str>)
        ensures
            r matches Ok(ident) ==> parse_identity_spec(data@) == Ok::<
                (Seq<u8>, Seq<u8>),
                &'static str,
            >((ident.device_id@, ident.private_key@)),
            r matches Err(e) ==> parse_identity_spec(data@) == Err::<
                (Seq<u8>, Seq<u8>),
                &'static str,
            >(e),
    {
        if data.len() != IDENTITY_FILE_SIZE {
            return Err("invalid Tailsfer identity file");
        }
        let mut device_id = [0u8; DEVICE_ID_SIZE];
        let mut private_key = [0u8; DEVICE_KEY_SIZE];
        let mut i: usize = 0;
        while i < DEVICE_ID_SIZE
            invariant
                i <= DEVICE_ID_SIZE,
                data@.len() == IDENTITY_FILE_SIZE,
                forall|j: int| 0 <= j < i ==> device_id@[j] == data@[j],
            decreases DEVICE_ID_SIZE - i,
        {
            device_id[i] = data[i];
            i = i + 1;
        }
        let mut i: usize = 0;
        while i < DEVICE_KEY_SIZE
            invariant
                i <= DEVICE_KEY_SIZE,
                data@.len() == IDENTITY_FILE_SIZE,
                forall|j: int| 0 <= j < i ==> private_key@[j] == data@[16 + j],
            decreases DEVICE_KEY_SIZE - i,
        {
            private_key[i] = data[DEVICE_ID_SIZE + i];
            i = i + 1;
        }
        assert(device_id@ =~= data@.subrange(0, 16));
        assert(private_key@ =~= data@.subrange(16, 48));
        Ok(Self { device_id, private_key })
    }

    /// The identity to use, given the stored bytes if there are any: the
    /// stored identity when it exists, a fresh one otherwise. The flag says
    /// whether the identity is fresh and still has to be stored.
    pub fn load_or_create(existing: Option<&[u8]>) -> (r: Result<(Self, bool), &'static str>)
        ensures
            existing matches Some(data) ==> (r matches Ok((ident, fresh)) ==> !fresh
                && parse_identity_spec(data@) == Ok::<(Seq<u8>, Seq<u8>), &'static str>(
                (ident.device_id@, ident.private_key@),
            )),
            existing matches Some(data) ==> (r matches Err(e) ==> parse_identity_spec(data@)
                == Err::<(Seq<u8>, Seq<u8>), &'static str>(e)),
            existing is None ==> (r matches Ok((_, fresh)) && fresh),
    {
        match existing {
            Some(data) => {
                let identity = Self::from_bytes(data)?;
                Ok((identity, false))
            },
            None => Ok((Self::generate(), true)),
        }
    }

    /// The device ID as 32 lower-case hexadecimal digits.
    pub fn device_id_hex(&self) -> (s: String)
        ensures
            s@ == hex_lower(self.device_id@),
    {
        to_hex_lower(&self.device_id)
    }
}

/// Reading the stored form of an identity gives it back.
pub proof fn lemma_identity_roundtrip(id: Seq<u8>, key: Seq<u8>)
    requires
        id.len() == DEVICE_ID_SIZE,
        key.len() == DEVICE_KEY_SIZE,
    ensures
        parse_identity_spec(identity_bytes(id, key)) == Ok::<(Seq<u8>, Seq<u8>), &'static str>(
            (id, key),
        ),
{
    assert(identity_bytes(id, key).subrange(0, 16) =~= id);
    assert(identity_bytes(id, key).subrange(16, 48) =~= key);
}

/// The layout of a stored identity: 48 bytes, the device ID in bytes 0 to
/// 16 and the private key in bytes 16 to 48; reading 48 bytes takes the ID
/// and key from those places, and any other length is refused.
pub proof fn lemma_identity_layout(id: Seq<u8>, key: Seq<u8>, data: Seq<u8>)
    requires
        id.len() == DEVICE_ID_SIZE,
        key.len() == DEVICE_KEY_SIZE,
    ensures
        identity_bytes(id, key).len() == 48,
        forall|i: int| 0 <= i < 16 ==> #[trigger] identity_bytes(id, key)[i] == id[i],
        forall|i: int| 0 <= i < 32 ==> #[trigger] identity_bytes(id, key)[16 + i] == key[i],
        data.len() == 48 ==> (parse_identity_spec(data) matches Ok((d, k)) && d.len() == 16
            && k.len() == 32 && (forall|i: int| 0 <= i < 16 ==> #[trigger] d[i] == data[i]) && (
        forall|i: int| 0 <= i < 32 ==> #[trigger] k[i] == data[16 + i])),
        data.len() != 48 ==> parse_identity_spec(data) is Err,
{
}

} // verus!
