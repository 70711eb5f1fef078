//! A buffer of sealed bytes that is written in pieces and read in pieces.

use std::collections::VecDeque;
use vstd::prelude::*;
use crate::yarn::{seal, tag, tag_byte, unseal, Yarn, YarnView};
use crate::block::BlockView;
use crate::wire::all_valid;

verus! {

/// Why a write is refused.
#[derive(Clone, Copy, Debug, PartialEq, Eq, Structural)]
pub enum ContainerError {
    /// The first four bytes would not be the tag.
    InvalidData,
}

/// Sealed bytes in a queue: written at the back, read from the front.
#[derive(Debug)]
pub struct YarnContainer {
    bytes: VecDeque<u8>,
}

impl View for YarnContainer {
    type V = Seq<u8>;

    closed spec fn view(&self) -> Seq<u8> {
        self.bytes@
    }
}

/// Whether writing `more` behind `held` is refused: the write brings the
/// number of bytes to four or more, and the first four are not the tag.
pub open spec fn refused(held: Seq<u8>, more: Seq<u8>) -> bool {
    &&& held.len() < 4
    &&& held.len() + more.len() >= 4
    &&& (held + more).subrange(0, 4) != tag()
}

impl YarnContainer {
    /// A container that holds the tag and then the given bytes.
    pub fn new(bytes: Vec<u8>) -> (container: YarnContainer)
        ensures
            container@ == tag() + bytes@,
    {
        let mut queue: VecDeque<u8> = VecDeque::new();
        let mut i: usize = 0;
        while i < 4
            invariant
                i <= 4,
                queue@ == tag().subrange(0, i as int),
            decreases 4 - i,
        {
            queue.push_back(tag_byte(i));
            i = i + 1;
        }
        let mut k: usize = 0;
        while k < bytes.len()
            invariant
                k <= bytes.len(),
                queue@ == tag() + bytes@.subrange(0, k as int),
            decreases bytes.len() - k,
        {
            queue.push_back(bytes[k]);
            k = k + 1;
        }
        YarnContainer { bytes: queue }
    }

    /// The number of bytes that are held.
    pub fn len(&self) -> (n: usize)
        ensures
            n == self@.len(),
    {
        self.bytes.len()
    }

    /// The engine that the held bytes seal, as `Yarn::from_bytes` gives it.
    pub fn into_yarn(self) -> (r: Option<Yarn>)
        ensures
            match r {
                Some(yarn) => {
                    &&& yarn.wf()
                    &&& unseal(self@) is Some
                    &&& yarn@ == YarnView::hydrated(unseal(self@)->0)
                },
                None => unseal(self@) is None,
            },
            forall|blocks: Seq<BlockView>|
                all_valid(blocks) && #[trigger] seal(blocks) == Some(self@) ==> r is Some
                    && r->0@ == YarnView::hydrated(blocks),
    {
        let mut bytes: Vec<u8> = Vec::new();
        let mut i: usize = 0;
        while i < self.bytes.len()
            invariant
                i <= self.bytes.len(),
                bytes@ == self@.subrange(0, i as int),
            decreases self.bytes.len() - i,
        {
            bytes.push(self.bytes[i]);
            i = i + 1;
        }
        proof {
            assert(bytes@ =~= self@);
        }
        Yarn::from_bytes(bytes.as_slice())
    }

    /// Moves bytes from the front of the container into `buf`, as many as
    /// `buf` takes and the container holds, and tells how many.
    pub fn read(&mut self, buf: &mut [u8]) -> (n: usize)
        ensures
            n == old(buf)@.len() || n == old(self)@.len(),
            n <= old(buf)@.len(),
            n <= old(self)@.len(),
            final(buf)@ == old(self)@.subrange(0, n as int) + old(buf)@.subrange(
                n as int,
                old(buf)@.len() as int,
            ),
            final(self)@ == old(self)@.subrange(n as int, old(self)@.len() as int),
    {
        let n = if buf.len() < self.bytes.len() {
            buf.len()
        } else {
            self.bytes.len()
        };
        let mut i: usize = 0;
        while i < n
            invariant
                i <= n,
                n <= old(buf)@.len(),
                n <= old(self)@.len(),
                buf@.len() == old(buf)@.len(),
                buf@ == old(self)@.subrange(0, i as int) + old(buf)@.subrange(
                    i as int,
                    old(buf)@.len() as int,
                ),
                self@ == old(self)@.subrange(i as int, old(self)@.len() as int),
            decreases n - i,
        {
            match self.bytes.pop_front() {
                Some(byte) => {
                    buf[i] = byte;
                },
                None => {},
            }
            i = i + 1;
        }
        n
    }

    /// Puts the bytes of `buf` at the back of the container. A write that
    /// brings the number of bytes to four or more is refused as a whole,
    /// and the container left as it is, if the first four bytes would not
    /// be the tag. What follows the tag is not looked at.
    pub fn write(&mut self, buf: &[u8]) -> (r: Result<usize, ContainerError>)
        ensures
            match r {
                Ok(n) => {
                    &&& !refused(old(self)@, buf@)
                    &&& n == buf@.len()
                    &&& final(self)@ == old(self)@ + buf@
                },
                Err(e) => {
                    &&& refused(old(self)@, buf@)
                    &&& e == ContainerError::InvalidData
                    &&& final(self)@ == old(self)@
                },
            },
    {
        let held = self.bytes.len();
        if held < 4 && buf.len() >= 4 - held {
            let mut i: usize = 0;
            while i < 4
                invariant
                    i <= 4,
                    held == self@.len(),
                    self@ == old(self)@,
                    held < 4,
                    held + buf@.len() >= 4,
                    forall|k: int| 0 <= k < i ==> (old(self)@ + buf@)[k] == tag()[k],
                decreases 4 - i,
            {
                let byte = if i < held {
                    self.bytes[i]
                } else {
                    buf[i - held]
                };
                if byte != tag_byte(i) {
                    return Err(ContainerError::InvalidData);
                }
                i = i + 1;
            }
            proof {
                assert((old(self)@ + buf@).subrange(0, 4) =~= tag());
            }
        }
        let mut k: usize = 0;
        while k < buf.len()
            invariant
                k <= buf.len(),
                self@ == old(self)@ + buf@.subrange(0, k as int),
            decreases buf.len() - k,
        {
            self.bytes.push_back(buf[k]);
            k = k + 1;
        }
        Ok(buf.len())
    }
}

} // verus!
