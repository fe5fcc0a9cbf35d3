//! Append-only store of a link's key material. The position of a key in the
//! store is its id: ids are assigned sequentially from 0, id 0 is the
//! well-known all-zero bootstrap key, and no key is ever removed or altered,
//! because chunks already in flight may still reference any old id.
use vstd::prelude::*;

use crate::KEY_LEN;
use crate::RelayError;

verus! {

/// The all-zero key that every store holds under id 0 from the start, so a
/// link is usable before any rotation arrives.
pub open spec fn bootstrap_key() -> Seq<u8> {
    Seq::new(KEY_LEN as nat, |i: int| 0u8)
}

/// One more than the greatest id a store can hold, so every id fits a `u32`.
pub open spec fn max_keys() -> int {
    0x1_0000_0000
}

/// A link's keys, ordered by id. Mutation happens only through `insert` and
/// `install_rotation`, which append.
pub struct KeyStore {
    keys: Vec<Vec<u8>>,
}

impl View for KeyStore {
    type V = Seq<Seq<u8>>;

    closed spec fn view(&self) -> Seq<Seq<u8>> {
        self.keys@.map(|i: int, k: Vec<u8>| k@)
    }
}

impl KeyStore {
    /// The bootstrap key is installed, every key is exactly `KEY_LEN` bytes,
    /// and every id fits a `u32`.
    pub open spec fn wf(&self) -> bool {
        &&& 1 <= self@.len() <= max_keys()
        &&& forall|i: int| 0 <= i < self@.len() ==> (#[trigger] self@[i]).len() == KEY_LEN
    }

    /// Id of the most recently installed key.
    pub open spec fn current_id(&self) -> int {
        self@.len() - 1
    }

    /// A fresh store holding only the bootstrap key under id 0.
    pub fn new() -> (r: KeyStore)
        ensures
            r.wf(),
            r@ == seq![bootstrap_key()],
    {
        let mut bootstrap: Vec<u8> = Vec::new();
        let mut i: usize = 0;
        while i < KEY_LEN
            invariant
                i <= KEY_LEN,
                bootstrap@.len() == i,
                forall|j: int| 0 <= j < i ==> bootstrap@[j] == 0u8,
            decreases KEY_LEN - i,
        {
            bootstrap.push(0u8);
            i = i + 1;
        }
        proof {
            assert(bootstrap@ =~= bootstrap_key());
        }
        let mut keys: Vec<Vec<u8>> = Vec::new();
        keys.push(bootstrap);
        let r = KeyStore { keys };
        proof {
            assert(r@ =~= seq![bootstrap_key()]);
        }
        r
    }

    /// Install `secret` under the next sequential id and make it current.
    pub fn insert(&mut self, secret: Vec<u8>) -> (id: u32)
        requires
            old(self).wf(),
            secret@.len() == KEY_LEN,
            old(self)@.len() < max_keys(),
        ensures
            final(self).wf(),
            final(self)@ == old(self)@.push(secret@),
            id as int == old(self)@.len(),
            final(self).current_id() == id as int,
    {
        let id = self.keys.len();
        self.keys.push(secret);
        proof {
            assert(self@ =~= old(self)@.push(secret@));
        }
        id as u32
    }

    /// Number of keys the store holds; also one more than the current id.
    pub fn key_count(&self) -> (n: usize)
        ensures
            n == self@.len(),
    {
        self.keys.len()
    }

    /// Id of the most recently installed key, used to encrypt new outbound
    /// traffic.
    pub fn current(&self) -> (id: u32)
        requires
            self.wf(),
        ensures
            id as int == self.current_id(),
    {
        (self.keys.len() - 1) as u32
    }

    /// The material installed under `id`, or `KeyNotFound` for an id that was
    /// never installed; the store is never consulted for a default.
    pub fn get(&self, id: u32) -> (r: Result<Vec<u8>, RelayError>)
        ensures
            match r {
                Ok(k) => (id as int) < self@.len() && k@ == self@[id as int],
                Err(e) => (id as int) >= self@.len() && e == RelayError::KeyNotFound,
            },
    {
        if (id as usize) < self.keys.len() {
            let k = self.keys[id as usize].clone();
            proof {
                assert forall|j: int| 0 <= j < k@.len() implies k@[j] == self@[id as int][j] by {
                    assert(cloned::<u8>(self.keys@[id as int]@[j], k@[j]));
                }
                assert(k@ =~= self@[id as int]);
            }
            Ok(k)
        } else {
            Err(RelayError::KeyNotFound)
        }
    }

    /// Install one rotation message: material of exactly `KEY_LEN` bytes
    /// becomes the next key and the new current id is returned; anything else
    /// is rejected as malformed and the store is left unchanged.
    pub fn install_rotation(&mut self, material: Vec<u8>) -> (r: Result<u32, RelayError>)
        requires
            old(self).wf(),
            old(self)@.len() < max_keys(),
        ensures
            final(self).wf(),
            match r {
                Ok(id) => material@.len() == KEY_LEN && final(self)@ == old(self)@.push(material@)
                    && id as int == old(self)@.len() && final(self).current_id() == id as int,
                Err(e) => material@.len() != KEY_LEN && e == RelayError::MalformedKeyMaterial
                    && final(self)@ == old(self)@,
            },
    {
        if material.len() == KEY_LEN {
            Ok(self.insert(material))
        } else {
            Err(RelayError::MalformedKeyMaterial)
        }
    }
}

/// Law: installing a key never loses or alters a key installed before it, and
/// the id it gets is the one past the previously current id. Stated over the
/// store view that `insert`'s contract uses.
pub proof fn lemma_store_append_only(pre: Seq<Seq<u8>>, secret: Seq<u8>)
    ensures
        pre.push(secret).len() == pre.len() + 1,
        pre.push(secret)[pre.len() as int] == secret,
        forall|i: int| 0 <= i < pre.len() ==> pre.push(secret)[i] == pre[i],
{
}

} // verus!
