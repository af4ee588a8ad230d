//! The incremental checksum accumulator.

use crate::encoding::{balancing_byte, byte_sum, lemma_byte_sum_push};
use crate::sink::{accept_all, Aml, AmlSink, SinkModel};
use vstd::prelude::*;

verus! {

/// The running sum, modulo 256, of a byte stream.
///
/// The stream may be corrected after the fact: `delete` takes back bytes that
/// an earlier `append` had folded in. At any moment `value` gives the byte
/// that balances the stream.
pub struct Checksum {
    value: u8,
}

/// As a sink, the accumulator folds every byte into its running sum.
impl SinkModel for Checksum {
    type State = u8;

    closed spec fn state(&self) -> u8 {
        self.value
    }

    open spec fn accept(state: u8, byte: u8) -> u8 {
        ((state + byte) % 256) as u8
    }
}

impl AmlSink for Checksum {
    fn byte(&mut self, byte: u8) {
        self.add(byte);
    }
}

impl Default for Checksum {
    /// An accumulator over the empty stream.
    fn default() -> (r: Checksum)
        ensures
            r.state() == 0,
    {
        Checksum { value: 0 }
    }
}

impl Checksum {
    /// Folds `data` into the running sum.
    pub fn append(&mut self, data: &[u8])
        ensures
            final(self).state() == (old(self).state() + byte_sum(data@)) % 256,
    {
        let mut i: usize = 0;
        while i < data.len()
            invariant
                i <= data.len(),
                self.state() == (old(self).state() + byte_sum(data@.take(i as int))) % 256,
            decreases data.len() - i,
        {
            let b: u8 = data[i];
            proof {
                assert(data@.take(i + 1) =~= data@.take(i as int).push(b));
                lemma_byte_sum_push(data@.take(i as int), b);
            }
            self.value = self.value.wrapping_add(b);
            i += 1;
        }
        proof {
            assert(data@.take(i as int) =~= data@);
        }
    }

    /// Takes `data` back out of the running sum: the inverse of `append` on
    /// the same bytes.
    pub fn delete(&mut self, data: &[u8])
        ensures
            final(self).state() == (old(self).state() - byte_sum(data@)) % 256,
    {
        let mut i: usize = 0;
        while i < data.len()
            invariant
                i <= data.len(),
                self.state() == (old(self).state() - byte_sum(data@.take(i as int))) % 256,
            decreases data.len() - i,
        {
            let b: u8 = data[i];
            proof {
                assert(data@.take(i + 1) =~= data@.take(i as int).push(b));
                lemma_byte_sum_push(data@.take(i as int), b);
            }
            self.value = self.value.wrapping_sub(b);
            i += 1;
        }
        proof {
            assert(data@.take(i as int) =~= data@);
        }
    }

    /// Folds in one byte. Where `byte` is the sum modulo 256 of a structure's
    /// bytes, this has the effect of appending those bytes.
    pub fn add(&mut self, byte: u8)
        ensures
            final(self).state() == (old(self).state() + byte) % 256,
    {
        self.value = self.value.wrapping_add(byte);
    }

    /// The running sum modulo 256.
    pub fn raw(&self) -> (r: u8)
        ensures
            r == self.state(),
    {
        self.value
    }

    /// The byte that balances the stream: added to the running sum it gives
    /// zero modulo 256.
    pub fn value(&self) -> (r: u8)
        ensures
            r == balancing_byte(self.state() as int),
            (self.state() + r) % 256 == 0,
    {
        (255 - self.value).wrapping_add(1)
    }
}

/// Delivering `bytes` to an accumulator adds their sum to its running sum,
/// modulo 256.
pub proof fn lemma_checksum_accept_all(state: u8, bytes: Seq<u8>)
    ensures
        accept_all::<Checksum>(state, bytes) == (state + byte_sum(bytes)) % 256,
    decreases bytes.len(),
{
    if bytes.len() > 0 {
        lemma_checksum_accept_all(state, bytes.drop_last());
    }
}

/// Appending and then deleting the same bytes leaves the running sum as it
/// was.
pub proof fn lemma_delete_undoes_append(state: u8, bytes: Seq<u8>)
    ensures
        ((state + byte_sum(bytes)) % 256 - byte_sum(bytes)) % 256 == state,
{
}

/// Adding the sum modulo 256 of some bytes has the effect of appending the
/// bytes.
pub proof fn lemma_add_is_append(state: u8, bytes: Seq<u8>)
    ensures
        (state + byte_sum(bytes) % 256) % 256 == (state + byte_sum(bytes)) % 256,
{
    lemma_mod_step(byte_sum(bytes), state as int);
}

/// Reducing a term modulo 256 before adding to it does not change the sum
/// modulo 256.
pub proof fn lemma_mod_step(a: int, b: int)
    ensures
        (a % 256 + b) % 256 == (a + b) % 256,
{
}

/// A running sum that stands for `fixed + stale`, from which `stale` is
/// deleted and to which `fresh` and then `more` are appended, stands for
/// `fixed + fresh + more`.
pub proof fn lemma_running_sum(fixed: int, stale: int, fresh: int, more: int)
    ensures
        ((((fixed + stale) % 256 - stale) % 256 + fresh) % 256 + more) % 256 == (fixed + fresh
            + more) % 256,
{
    let x0 = fixed + stale;
    let x1 = (x0 % 256 - stale) % 256;
    let x2 = (x1 + fresh) % 256;
    assert(x1 == fixed % 256) by {
        lemma_mod_step(x0, -stale);
    }
    assert(x2 == (fixed + fresh) % 256) by {
        lemma_mod_step(fixed, fresh);
    }
    assert((x2 + more) % 256 == (fixed + fresh + more) % 256) by {
        lemma_mod_step(fixed + fresh, more);
    }
}

/// The sum modulo 256 of the serialized form of `aml`.
pub fn u8sum<T: Aml>(aml: &T) -> (r: u8)
    ensures
        r == byte_sum(aml.aml_bytes()) % 256,
{
    let mut cksum = Checksum::default();
    aml.to_aml_bytes(&mut cksum);
    proof {
        lemma_checksum_accept_all(0, aml.aml_bytes());
    }
    cksum.raw()
}

} // verus!
