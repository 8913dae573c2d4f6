//! Epoch keys derived from the shared root key with HKDF-SHA256, and the
//! sliding window of the previous, current and next epoch's keys.
use crate::bytes::{be32, lemma_be32_roundtrip, u32_to_be};
use hkdf::Hkdf;
use sha2::Sha256;
use vstd::prelude::*;

verus! {

/// The HKDF salt: `"mcu_comms_hkdf_salt_v1_padded32b"`.
pub const SALT: [u8; 32] = [
    109, 99, 117, 95, 99, 111, 109, 109, 115, 95, 104, 107, 100, 102, 95, 115, 97, 108, 116, 95, 118,
    49, 95, 112, 97, 100, 100, 101, 100, 51, 50, 98,
];

/// The HKDF info template `"mcu_comms_epoch_\0\0\0\0_1"`; bytes 16..20 receive the epoch.
pub const INFO_TEMPLATE: [u8; 22] = [
    109, 99, 117, 95, 99, 111, 109, 109, 115, 95, 101, 112, 111, 99, 104, 95, 0, 0, 0, 0, 95, 49,
];

/// The 16-byte output of HKDF-SHA256 (RFC 5869) with the given salt, input
/// key material and info.
pub uninterp spec fn hkdf_sha256_okm16(salt: Seq<u8>, ikm: Seq<u8>, info: Seq<u8>) -> Seq<u8>;

/// Calls `hkdf::Hkdf::<sha2::Sha256>::new(Some(salt), ikm)` and then
/// `Hkdf::expand(info, okm)` into a 16-byte `okm`.
///
/// Claimed: the result is the named HKDF-SHA256 output for these three
/// inputs. `expand` fails only for an output longer than 255 hash blocks,
/// which 16 bytes never is.
#[verifier::external_body]
fn hkdf_sha256_expand16(salt: &[u8; 32], ikm: &[u8; 32], info: &[u8; 22]) -> (okm: [u8; 16])
    ensures
        okm@ == hkdf_sha256_okm16(salt@, ikm@, info@),
{
    let hk = Hkdf::<Sha256>::new(Some(salt.as_slice()), ikm.as_slice());
    let mut okm = [0u8; 16];
    match hk.expand(info.as_slice(), &mut okm) {
        Ok(()) => okm,
        Err(_) => okm,
    }
}

/// The HKDF info string of an epoch.
pub open spec fn epoch_info(epoch: u32) -> Seq<u8> {
    INFO_TEMPLATE@.subrange(0, 16) + be32(epoch as int) + INFO_TEMPLATE@.subrange(20, 22)
}

/// Different epochs have different HKDF info strings, which carry the
/// epoch big-endian in bytes 16..20 between the fixed label bytes.
pub proof fn lemma_epoch_info_distinct(e1: u32, e2: u32)
    ensures
        epoch_info(e1).len() == 22,
        epoch_info(e1).subrange(0, 16) == INFO_TEMPLATE@.subrange(0, 16),
        epoch_info(e1)[16] * 0x100_0000 + epoch_info(e1)[17] * 0x1_0000 + epoch_info(e1)[18]
            * 0x100 + epoch_info(e1)[19] == e1,
        e1 != e2 ==> epoch_info(e1) != epoch_info(e2),
{
    lemma_be32_roundtrip(e1 as int);
    lemma_be32_roundtrip(e2 as int);
    let i1 = epoch_info(e1);
    let i2 = epoch_info(e2);
    assert(i1.subrange(0, 16) =~= INFO_TEMPLATE@.subrange(0, 16));
    assert(i1[16] == be32(e1 as int)[0] && i1[17] == be32(e1 as int)[1] && i1[18] == be32(
        e1 as int,
    )[2] && i1[19] == be32(e1 as int)[3]);
    assert(i2[16] == be32(e2 as int)[0] && i2[17] == be32(e2 as int)[1] && i2[18] == be32(
        e2 as int,
    )[2] && i2[19] == be32(e2 as int)[3]);
    if e1 != e2 && i1 == i2 {
        assert(i1[16] == i2[16] && i1[17] == i2[17] && i1[18] == i2[18] && i1[19] == i2[19]);
    }
}

/// The AES key of an epoch, derived from the root key.
pub open spec fn epoch_key(root: Seq<u8>, epoch: u32) -> Seq<u8> {
    hkdf_sha256_okm16(SALT@, root, epoch_info(epoch))
}

/// The epoch before `epoch`, wrapping at zero.
pub open spec fn prev_epoch(epoch: u32) -> u32 {
    if epoch == 0 {
        u32::MAX
    } else {
        (epoch - 1) as u32
    }
}

/// The epoch after `epoch`, wrapping at `u32::MAX`.
pub open spec fn next_epoch(epoch: u32) -> u32 {
    if epoch == u32::MAX {
        0
    } else {
        (epoch + 1) as u32
    }
}

/// Whether `epoch` is one of the three epochs whose keys a window centered on `current` caches.
pub open spec fn in_window(current: u32, epoch: u32) -> bool {
    epoch == prev_epoch(current) || epoch == current || epoch == next_epoch(current)
}

/// What a key manager stands for: its root key and its current epoch.
pub struct KeyManagerView {
    pub root: Seq<u8>,
    pub epoch: u32,
}

/// A sliding window of three consecutive epoch keys (`epoch - 1`, `epoch`,
/// `epoch + 1`), allowing decryption to succeed even if a peer's packet
/// arrives slightly out of sync with our current epoch.
pub(crate) struct KeyWindow {
    pub(crate) prev: [u8; 16],
    pub(crate) curr: [u8; 16],
    pub(crate) next: [u8; 16],
    pub(crate) epoch: u32,
}

impl KeyWindow {
    /// Whether the window holds the keys of `root` around its epoch.
    pub(crate) open spec fn holds_keys_of(&self, root: Seq<u8>) -> bool {
        &&& self.prev@ == epoch_key(root, prev_epoch(self.epoch))
        &&& self.curr@ == epoch_key(root, self.epoch)
        &&& self.next@ == epoch_key(root, next_epoch(self.epoch))
    }

    /// The cached key of `epoch`, if the window holds it.
    pub(crate) fn cached_key(&self, epoch: u32) -> (r: Option<[u8; 16]>)
        ensures
            r is Some <==> in_window(self.epoch, epoch),
            r matches Some(k) ==> (epoch == prev_epoch(self.epoch) ==> k == self.prev) && (epoch
                == self.epoch ==> k == self.curr) && (epoch == next_epoch(self.epoch) ==> k
                == self.next),
    {
        if epoch == self.epoch.wrapping_sub(1) {
            Some(self.prev)
        } else if epoch == self.epoch {
            Some(self.curr)
        } else if epoch == self.epoch.wrapping_add(1) {
            Some(self.next)
        } else {
            None
        }
    }

    /// Returns `true` if `epoch` is older than the window can decode, i.e.
    /// more than one behind the current epoch.
    ///
    /// Only the lower bound is checked; an epoch far in the future is
    /// handled by [`KeyManager::jump_to_epoch`] instead.
    pub(crate) fn is_epoch_outdated(&self, epoch: u32) -> (r: bool)
        ensures
            r == ((epoch as int) < (self.epoch as int) - 1),
    {
        self.epoch > 0 && epoch < self.epoch - 1
    }
}

/// Holds the root key and the window of derived epoch keys.
pub struct KeyManager {
    pub(crate) root_key: [u8; 32],
    pub(crate) window: KeyWindow,
}

impl View for KeyManager {
    type V = KeyManagerView;

    closed spec fn view(&self) -> KeyManagerView {
        KeyManagerView { root: self.root_key@, epoch: self.window.epoch }
    }
}

impl KeyManager {
    /// The window always caches the keys derived from this manager's root key.
    #[verifier::type_invariant]
    closed spec fn window_matches_root(self) -> bool {
        self.window.holds_keys_of(self.root_key@)
    }

    /// The view is made of the root key and the window's epoch.
    pub(crate) proof fn lemma_view(&self)
        ensures
            self@.root == self.root_key@,
            self@.epoch == self.window.epoch,
    {
    }

    pub(crate) fn new(root_key: [u8; 32], epoch: u32) -> (r: Self)
        ensures
            r@ == (KeyManagerView { root: root_key@, epoch }),
    {
        Self { root_key, window: Self::derive_keys(root_key, epoch) }
    }

    /// Moves the window forward to `epoch`; an epoch at or behind the current one is ignored.
    pub(crate) fn jump_to_epoch(&mut self, epoch: u32)
        ensures
            final(self)@ == if epoch <= old(self)@.epoch {
                old(self)@
            } else {
                KeyManagerView { root: old(self)@.root, epoch }
            },
    {
        proof {
            use_type_invariant(&*self);
        }
        if epoch <= self.current_epoch() {
            return ;
        }
        self.window = Self::derive_keys(self.root_key, epoch)
    }

    /// Derives the window of keys around `epoch`.
    fn derive_keys(root_key: [u8; 32], epoch: u32) -> (w: KeyWindow)
        ensures
            w.epoch == epoch,
            w.holds_keys_of(root_key@),
    {
        let epochs: [u32; 3] = [epoch.wrapping_sub(1), epoch, epoch.wrapping_add(1)];
        let mut keys: [[u8; 16]; 3] = [[0u8; 16]; 3];
        let mut i: usize = 0;
        while i < 3
            invariant
                0 <= i <= 3,
                epochs@ == seq![prev_epoch(epoch), epoch, next_epoch(epoch)],
                forall|j: int| 0 <= j < i ==> keys@[j]@ == epoch_key(root_key@, epochs@[j]),
            decreases 3 - i,
        {
            keys[i] = Self::derive_key(&root_key, epochs[i]);
            i = i + 1;
        }
        KeyWindow { prev: keys[0], curr: keys[1], next: keys[2], epoch }
    }

    /// Advances the window by one epoch: the current key becomes the
    /// previous one, the next key the current one, and the key after it is derived.
    pub(crate) fn inc_epoch(&mut self)
        ensures
            final(self)@ == (KeyManagerView {
                root: old(self)@.root,
                epoch: next_epoch(old(self)@.epoch),
            }),
    {
        proof {
            use_type_invariant(&*self);
        }
        let new_epoch = self.window.epoch.wrapping_add(1);
        let next = Self::derive_key(&self.root_key, new_epoch.wrapping_add(1));
        self.window = KeyWindow {
            prev: self.window.curr,
            curr: self.window.next,
            next,
            epoch: new_epoch,
        };
    }

    /// Derives the key of `epoch` from the root key.
    pub(crate) fn derive_key(root_key: &[u8; 32], epoch: u32) -> (key: [u8; 16])
        ensures
            key@ == epoch_key(root_key@, epoch),
    {
        let mut info = INFO_TEMPLATE;
        let e = u32_to_be(epoch);
        info[16] = e[0];
        info[17] = e[1];
        info[18] = e[2];
        info[19] = e[3];
        assert(info@ =~= epoch_info(epoch));
        hkdf_sha256_expand16(&SALT, root_key, &info)
    }

    /// The key of `epoch` if the window caches it.
    pub(crate) fn cached_key(&self, epoch: u32) -> (r: Option<[u8; 16]>)
        ensures
            r is Some <==> in_window(self@.epoch, epoch),
            r matches Some(k) ==> k@ == epoch_key(self@.root, epoch),
    {
        proof {
            use_type_invariant(self);
        }
        self.window.cached_key(epoch)
    }

    /// The key of the current epoch.
    pub(crate) fn current_key(&self) -> (k: [u8; 16])
        ensures
            k@ == epoch_key(self@.root, self@.epoch),
    {
        proof {
            use_type_invariant(self);
        }
        self.window.curr
    }

    /// The current epoch.
    pub(crate) fn current_epoch(&self) -> (e: u32)
        ensures
            e == self@.epoch,
    {
        self.window.epoch
    }

    /// The current epoch.
    pub fn epoch(&self) -> (e: u32)
        ensures
            e == self@.epoch,
    {
        self.current_epoch()
    }
}

} // verus!
