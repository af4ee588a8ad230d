//! Byte sinks, and the structures that serialize themselves into one.

use crate::encoding::{le_bytes_u16, le_bytes_u32, le_bytes_u64, u16_to_le, u32_to_le, u64_to_le};
use vstd::prelude::*;

verus! {

/// The mathematical model of a sink: a state, and the effect of one byte on
/// that state.
///
/// A growable buffer keeps every byte; an accumulator folds each byte into a
/// running value; a bounded sink may drop what does not fit.
pub trait SinkModel: Sized {
    /// The mathematical state of the sink.
    type State;

    /// The current state.
    spec fn state(&self) -> Self::State;

    /// The state that follows `state` once `byte` has been delivered.
    spec fn accept(state: Self::State, byte: u8) -> Self::State;
}

/// The state of a sink of type `S` that started in `state` and has since been
/// delivered `bytes`, in order.
pub open spec fn accept_all<S: SinkModel>(state: S::State, bytes: Seq<u8>) -> S::State
    decreases bytes.len(),
{
    if bytes.len() == 0 {
        state
    } else {
        S::accept(accept_all::<S>(state, bytes.drop_last()), bytes.last())
    }
}

/// A destination for serialized bytes.
///
/// Every method delivers its bytes in order, one `accept` step per byte, and
/// has no other effect.
pub trait AmlSink: SinkModel {
    /// Delivers one byte.
    fn byte(&mut self, byte: u8)
        ensures
            final(self).state() == Self::accept(old(self).state(), byte),
    ;

    /// Delivers a 16-bit word, least significant byte first.
    fn word(&mut self, word: u16)
        ensures
            final(self).state() == accept_all::<Self>(old(self).state(), le_bytes_u16(word)),
    {
        let bytes: [u8; 2] = u16_to_le(word);
        self.vec(bytes.as_slice());
    }

    /// Delivers a 32-bit double word, least significant byte first.
    fn dword(&mut self, dword: u32)
        ensures
            final(self).state() == accept_all::<Self>(old(self).state(), le_bytes_u32(dword)),
    {
        let bytes: [u8; 4] = u32_to_le(dword);
        self.vec(bytes.as_slice());
    }

    /// Delivers a 64-bit quad word, least significant byte first.
    fn qword(&mut self, qword: u64)
        ensures
            final(self).state() == accept_all::<Self>(old(self).state(), le_bytes_u64(qword)),
    {
        let bytes: [u8; 8] = u64_to_le(qword);
        self.vec(bytes.as_slice());
    }

    /// Delivers every byte of `v`, first to last.
    fn vec(&mut self, v: &[u8])
        ensures
            final(self).state() == accept_all::<Self>(old(self).state(), v@),
    {
        let mut i: usize = 0;
        while i < v.len()
            invariant
                i <= v.len(),
                self.state() == accept_all::<Self>(old(self).state(), v@.take(i as int)),
            decreases v.len() - i,
        {
            let b: u8 = v[i];
            self.byte(b);
            proof {
                assert(v@.take(i + 1).drop_last() =~= v@.take(i as int));
            }
            i += 1;
        }
        proof {
            assert(v@.take(i as int) =~= v@);
        }
    }
}

/// Delivering `a` and then `b` is delivering their concatenation.
pub proof fn lemma_accept_all_concat<S: SinkModel>(state: S::State, a: Seq<u8>, b: Seq<u8>)
    ensures
        accept_all::<S>(state, a + b) == accept_all::<S>(accept_all::<S>(state, a), b),
    decreases b.len(),
{
    if b.len() == 0 {
        assert(a + b =~= a);
    } else {
        lemma_accept_all_concat::<S>(state, a, b.drop_last());
        assert((a + b).drop_last() =~= a + b.drop_last());
    }
}

/// Delivering one more byte is one more `accept` step.
pub proof fn lemma_accept_all_push<S: SinkModel>(state: S::State, a: Seq<u8>, b: u8)
    ensures
        accept_all::<S>(state, a.push(b)) == S::accept(accept_all::<S>(state, a), b),
{
    assert(a.push(b).drop_last() =~= a);
}

/// A structure that can serialize itself into any sink.
pub trait Aml {
    /// The canonical serialized form.
    spec fn aml_bytes(&self) -> Seq<u8>;

    /// Delivers the serialized form to `sink`, first byte to last.
    fn to_aml_bytes<S: AmlSink>(&self, sink: &mut S)
        ensures
            final(sink).state() == accept_all::<S>(old(sink).state(), self.aml_bytes()),
    ;
}

/// The serialized forms of `items`, one after the other in order.
pub open spec fn aml_concat<T: Aml>(items: Seq<T>) -> Seq<u8>
    decreases items.len(),
{
    if items.len() == 0 {
        Seq::empty()
    } else {
        aml_concat(items.drop_last()) + items.last().aml_bytes()
    }
}

/// One more item at the end adds its serialized form at the end.
pub proof fn lemma_aml_concat_push<T: Aml>(items: Seq<T>, item: T)
    ensures
        aml_concat(items.push(item)) == aml_concat(items) + item.aml_bytes(),
{
    assert(items.push(item).drop_last() =~= items);
}

/// The serialized form of a run of items is the serialized form of its first
/// part followed by that of its second part.
pub proof fn lemma_aml_concat_split<T: Aml>(a: Seq<T>, b: Seq<T>)
    ensures
        aml_concat(a + b) == aml_concat(a) + aml_concat(b),
    decreases b.len(),
{
    if b.len() == 0 {
        assert(a + b =~= a);
        assert(aml_concat(a) + aml_concat(b) =~= aml_concat(a));
    } else {
        lemma_aml_concat_split(a, b.drop_last());
        assert((a + b).drop_last() =~= a + b.drop_last());
        assert(aml_concat(a + b) =~= aml_concat(a) + aml_concat(b));
    }
}

/// Delivers the serialized form of every item to `sink`, in order.
pub fn emit_all<T: Aml, S: AmlSink>(items: &Vec<T>, sink: &mut S)
    ensures
        final(sink).state() == accept_all::<S>(old(sink).state(), aml_concat(items@)),
{
    let mut i: usize = 0;
    while i < items.len()
        invariant
            i <= items.len(),
            sink.state() == accept_all::<S>(old(sink).state(), aml_concat(items@.take(i as int))),
        decreases items.len() - i,
    {
        items[i].to_aml_bytes(sink);
        proof {
            assert(items@.take(i + 1) =~= items@.take(i as int).push(items@[i as int]));
            lemma_aml_concat_push(items@.take(i as int), items@[i as int]);
            lemma_accept_all_concat::<S>(
                old(sink).state(),
                aml_concat(items@.take(i as int)),
                items@[i as int].aml_bytes(),
            );
        }
        i += 1;
    }
    proof {
        assert(items@.take(i as int) =~= items@);
    }
}

/// A growable buffer keeps every byte it is given, at its end.
impl SinkModel for Vec<u8> {
    type State = Seq<u8>;

    open spec fn state(&self) -> Seq<u8> {
        self@
    }

    open spec fn accept(state: Seq<u8>, byte: u8) -> Seq<u8> {
        state.push(byte)
    }
}

impl AmlSink for Vec<u8> {
    fn byte(&mut self, byte: u8) {
        self.push(byte);
    }
}

/// What a growable buffer holds after `bytes` were delivered to it is what it
/// held before, followed by `bytes`.
pub proof fn lemma_buffer_accept_all(before: Seq<u8>, bytes: Seq<u8>)
    ensures
        accept_all::<Vec<u8>>(before, bytes) == before + bytes,
    decreases bytes.len(),
{
    if bytes.len() == 0 {
        assert(before + bytes =~= before);
    } else {
        lemma_buffer_accept_all(before, bytes.drop_last());
        assert((before + bytes.drop_last()).push(bytes.last()) =~= before + bytes);
    }
}

/// Serializing is repeatable. What a structure delivers depends on the
/// structure alone: two empty buffers that each took one serialization of
/// the same structure hold the same bytes, the structure's serialized form.
pub proof fn lemma_serialization_repeats<T: Aml>(t: &T, first: Seq<u8>, second: Seq<u8>)
    requires
        first == accept_all::<Vec<u8>>(Seq::empty(), t.aml_bytes()),
        second == accept_all::<Vec<u8>>(Seq::empty(), t.aml_bytes()),
    ensures
        first == second,
        first == t.aml_bytes(),
{
    lemma_buffer_accept_all(Seq::empty(), t.aml_bytes());
    assert(Seq::<u8>::empty() + t.aml_bytes() =~= t.aml_bytes());
}

} // verus!
