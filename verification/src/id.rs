//! Identifiers derived from what they identify, and a registry that files values under them.

use std::collections::HashMap;
use std::marker::PhantomData;

use highway::{HighwayHash, HighwayHasher, Key};
use vstd::prelude::*;
use vstd::string::*;

use crate::text;

verus! {

/// The key of every identifier and container name.
pub const HASH_KEY: [u64; 4] = [0xdeadbeef, 0xcafebabe, 0x4242, 0x6969];

/// The 64-bit HighwayHash of `data` under `key`.
pub uninterp spec fn highway64_of(key: Seq<u64>, data: Seq<u8>) -> u64;

/// Calls `highway::HighwayHasher`: `new` with the key, one `append` of all the data, `finalize64`.
///
/// Claimed of it: the result is a function of the key and of the bytes alone. How the bytes are
/// cut into several `append` calls does not matter to the hasher, which works on a packet buffer.
#[verifier::external_body]
fn highway64(key: [u64; 4], data: &[u8]) -> (hash: u64)
    ensures
        hash == highway64_of(key@, data@),
{
    let mut hasher = HighwayHasher::new(Key(key));
    HighwayHash::append(&mut hasher, data);
    HighwayHash::finalize64(hasher)
}

/// The hash of `data` under `HASH_KEY`.
pub open spec fn hash_of(data: Seq<u8>) -> u64 {
    highway64_of(HASH_KEY@, data)
}

/// Hashes `data` under `HASH_KEY`.
pub fn hash(data: &[u8]) -> (h: u64)
    ensures
        h == hash_of(data@),
{
    highway64(HASH_KEY, data)
}

/// The `width` low bytes of `n`, least significant first.
pub open spec fn le_bytes(n: nat, width: nat) -> Seq<u8>
    decreases width,
{
    if width == 0 {
        seq![]
    } else {
        seq![(n % 256) as u8] + le_bytes(n / 256, (width - 1) as nat)
    }
}

/// A piece of text as it enters an identifier: its UTF-8 bytes and a closing `0xff`, a byte that
/// occurs in no UTF-8 text.
pub open spec fn text_bytes(text: Seq<char>) -> Seq<u8> {
    vstd::utf8::encode_utf8(text).push(0xff)
}

/// Appends the `width` low bytes of `n`, least significant first.
pub fn push_le(out: &mut Vec<u8>, n: u64, width: usize)
    ensures
        final(out)@ == old(out)@ + le_bytes(n as nat, width as nat),
{
    let mut rest: u64 = n;
    let mut left: usize = width;
    assert(out@ + le_bytes(n as nat, width as nat) == old(out)@ + le_bytes(n as nat, width as nat));
    while left > 0
        invariant
            out@ + le_bytes(rest as nat, left as nat) == old(out)@ + le_bytes(
                n as nat,
                width as nat,
            ),
        decreases left,
    {
        let low: u8 = (rest % 256) as u8;
        let ghost before = out@;
        out.push(low);
        assert(out@ + le_bytes((rest / 256) as nat, (left - 1) as nat) =~= before + le_bytes(
            rest as nat,
            left as nat,
        ));
        rest = rest / 256;
        left = left - 1;
    }
    assert(out@ + le_bytes(rest as nat, 0) =~= out@);
}

/// Appends a slice of bytes.
pub fn push_bytes(out: &mut Vec<u8>, bytes: &[u8])
    ensures
        final(out)@ == old(out)@ + bytes@,
{
    let mut i: usize = 0;
    assert(out@ =~= old(out)@ + bytes@.take(0));
    while i < bytes.len()
        invariant
            i <= bytes.len(),
            out@ == old(out)@ + bytes@.take(i as int),
        decreases bytes.len() - i,
    {
        out.push(bytes[i]);
        assert(bytes@.take(i + 1) =~= bytes@.take(i as int).push(bytes@[i as int]));
        i += 1;
    }
    assert(bytes@.take(bytes@.len() as int) =~= bytes@);
}

/// Appends the UTF-8 bytes of a piece of text, with nothing behind them.
pub fn push_utf8(out: &mut Vec<u8>, s: &str)
    ensures
        final(out)@ == old(out)@ + vstd::utf8::encode_utf8(s@),
{
    push_bytes(out, s.as_bytes());
}

/// Appends a piece of text with its closing byte.
pub fn push_text(out: &mut Vec<u8>, s: &str)
    ensures
        final(out)@ == old(out)@ + text_bytes(s@),
{
    push_utf8(out, s);
    out.push(0xff);
    assert(out@ =~= old(out)@ + text_bytes(s@));
}

/// What can be filed under an identifier: a value with the bytes that identify it.
pub trait Identity: Sized {
    /// The bytes that identify the value.
    spec fn identity(&self) -> Seq<u8>;

    /// Appends the bytes that identify the value.
    fn write_identity(&self, out: &mut Vec<u8>)
        ensures
            final(out)@ == old(out)@ + self.identity(),
    ;
}

/// The identifier of `value`: the hash of its identifying bytes.
pub open spec fn id_of<T: Identity>(value: T) -> u64 {
    hash_of(value.identity())
}

/// An identifier of a value of type `T`.
#[derive(Debug)]
pub struct TypedId<T>(u64, PhantomData<T>);

impl<T> View for TypedId<T> {
    type V = u64;

    closed spec fn view(&self) -> u64 {
        self.0
    }
}

impl<T> Clone for TypedId<T> {
    fn clone(&self) -> (r: Self)
        ensures
            r == *self,
    {
        TypedId(self.0, self.1)
    }
}

impl<T> PartialEq for TypedId<T> {
    fn eq(&self, other: &Self) -> (r: bool) {
        self.0 == other.0
    }
}

impl<T> vstd::std_specs::cmp::PartialEqSpecImpl for TypedId<T> {
    open spec fn obeys_eq_spec() -> bool {
        true
    }

    open spec fn eq_spec(&self, other: &Self) -> bool {
        self@ == other@
    }
}

impl<T> Eq for TypedId<T> {
}

impl<T: Identity> TypedId<T> {
    /// Computes the identifier of a value.
    pub fn from(value: &T) -> (id: Self)
        ensures
            id@ == id_of(*value),
    {
        let mut bytes: Vec<u8> = Vec::new();
        value.write_identity(&mut bytes);
        assert(bytes@ =~= value.identity());
        TypedId(hash(bytes.as_slice()), PhantomData)
    }
}

impl<T> TypedId<T> {
    /// Returns the number behind the identifier.
    pub fn value(&self) -> (v: u64)
        ensures
            v == self@,
    {
        self.0
    }

    /// Writes the identifier as `Id(<number>)`.
    pub fn to_string(&self) -> (s: String)
        ensures
            s@ == id_text(self@),
    {
        let mut s = "Id(".to_owned();
        s.append(text::to_decimal(self.0).as_str());
        s.append(")");
        s
    }
}

/// How the identifier with number `id` is written.
pub open spec fn id_text(id: u64) -> Seq<char> {
    "Id("@ + text::decimal(id as nat) + ")"@
}

/// The contents of a registry once `value` is registered: nothing changes where its identifier is
/// taken already.
pub open spec fn registered<T: Identity>(m: Map<u64, T>, value: T) -> Map<u64, T> {
    if m.contains_key(id_of(value)) {
        m
    } else {
        m.insert(id_of(value), value)
    }
}

/// Whether every value of `m` stands under its own identifier.
pub open spec fn filed_by_id<T: Identity>(m: Map<u64, T>) -> bool {
    forall|id: u64| #[trigger] m.contains_key(id) ==> id_of(m[id]) == id
}

/// A registry of values, each under its identifier.
pub struct Registry<T: Identity> {
    mapping: HashMap<u64, T>,
}

impl<T: Identity> View for Registry<T> {
    type V = Map<u64, T>;

    closed spec fn view(&self) -> Map<u64, T> {
        self.mapping@
    }
}

impl<T: Identity> Registry<T> {
    /// Creates an empty registry.
    pub fn new() -> (r: Self)
        ensures
            r@ == Map::<u64, T>::empty(),
            filed_by_id(r@),
    {
        Registry { mapping: HashMap::new() }
    }

    /// Registers a value and returns its identifier. The value that came first under an
    /// identifier stays.
    pub fn register(&mut self, value: T) -> (id: TypedId<T>)
        ensures
            id@ == id_of(value),
            final(self)@ == registered(old(self)@, value),
            filed_by_id(old(self)@) ==> filed_by_id(final(self)@),
    {
        let id = TypedId::<T>::from(&value);
        if !self.mapping.contains_key(&id.0) {
            self.mapping.insert(id.0, value);
        }
        id
    }

    /// Turns a number into an identifier, where the registry holds a value under it.
    pub fn is_valid(&self, id: u64) -> (r: Option<TypedId<T>>)
        ensures
            match r {
                Some(typed) => self@.contains_key(id) && typed@ == id,
                None => !self@.contains_key(id),
            },
    {
        if self.mapping.contains_key(&id) {
            Some(TypedId(id, PhantomData))
        } else {
            None
        }
    }

    /// Returns the value under an identifier that is known to be in use.
    pub fn get(&self, id: &TypedId<T>) -> (value: &T)
        requires
            self@.contains_key(id@),
        ensures
            *value == self@[id@],
    {
        self.mapping.get(&id.0).unwrap()
    }

    /// Returns the value under an identifier, where there is one.
    pub fn find(&self, id: &TypedId<T>) -> (value: Option<&T>)
        ensures
            match value {
                Some(v) => self@.contains_key(id@) && *v == self@[id@],
                None => !self@.contains_key(id@),
            },
    {
        self.mapping.get(&id.0)
    }

    /// Takes the value under an identifier out of the registry.
    pub fn remove(&mut self, id: &TypedId<T>) -> (value: Option<T>)
        ensures
            final(self)@ == old(self)@.remove(id@),
            match value {
                Some(v) => old(self)@.contains_key(id@) && v == old(self)@[id@],
                None => !old(self)@.contains_key(id@),
            },
            filed_by_id(old(self)@) ==> filed_by_id(final(self)@),
    {
        let value = self.mapping.remove(&id.0);
        assert(old(self)@.contains_key(id@) || old(self)@ =~= old(self)@.remove(id@));
        value
    }

    /// Lists the identifiers in use, each once, in no particular order.
    pub fn ids(&self) -> (r: Vec<TypedId<T>>)
        ensures
            forall|i: int| 0 <= i < r.len() ==> self@.contains_key(#[trigger] r[i]@),
            forall|i: int, j: int|
                0 <= i < j < r.len() ==> (#[trigger] r[i])@ != (#[trigger] r[j])@,
            forall|id: u64| #[trigger]
                self@.contains_key(id) ==> exists|i: int|
                    0 <= i < r.len() && #[trigger] r[i]@ == id,
    {
        let mut r: Vec<TypedId<T>> = Vec::new();
        proof {
            let keys = vstd::std_specs::iter::IteratorSpec::remaining(&self.mapping.keys());
            assert(keys.unref().to_set() == self@.dom());
            assert forall|id: u64| #[trigger] self@.contains_key(id) implies exists|i: int|
                0 <= i < keys.len() && *(#[trigger] keys[i]) == id by {
                assert(keys.unref().to_set().contains(id));
                let i = choose|i: int| 0 <= i < keys.unref().len() && keys.unref()[i] == id;
                assert(*keys[i] == id);
            }
        }
        for key in it: self.mapping.keys()
            invariant
                r.len() == it.index(),
                it.seq().unref().to_set() == self@.dom(),
                forall|i: int|
                    #![trigger r[i]]
                    #![trigger it.seq()[i]]
                    0 <= i < r.len() ==> r[i]@ == *it.seq()[i],
                forall|i: int| 0 <= i < r.len() ==> self@.contains_key((#[trigger] r[i])@),
                forall|id: u64| #[trigger]
                    self@.contains_key(id) ==> exists|i: int|
                        0 <= i < it.seq().len() && *(#[trigger] it.seq()[i]) == id,
        {
            assert(it.seq().unref()[it.index() as int] == *key);
            assert(it.seq().unref().to_set().contains(*key));
            r.push(TypedId(*key, PhantomData));
        }
        r
    }
}

/// A value that has been registered is there under its identifier.
pub proof fn law_registered_is_there<T: Identity>(m: Map<u64, T>, value: T)
    ensures
        registered(m, value).contains_key(id_of(value)),
{
}

/// Registering changes nothing of what is registered already: what came first stays.
pub proof fn law_register_keeps<T: Identity>(m: Map<u64, T>, value: T, id: u64)
    requires
        m.contains_key(id),
    ensures
        registered(m, value).contains_key(id),
        registered(m, value)[id] == m[id],
{
}

/// Registering a value twice is the same as registering it once.
pub proof fn law_register_twice<T: Identity>(m: Map<u64, T>, value: T)
    ensures
        registered(registered(m, value), value) == registered(m, value),
{
}

/// Values with different identifiers may be registered in either order.
pub proof fn law_register_in_any_order<T: Identity>(m: Map<u64, T>, a: T, b: T)
    requires
        id_of(a) != id_of(b),
    ensures
        registered(registered(m, a), b) == registered(registered(m, b), a),
{
    assert(registered(registered(m, a), b) =~= registered(registered(m, b), a));
}

/// Removing a value that was not there before it was registered undoes the registration.
pub proof fn law_remove_undoes_register<T: Identity>(m: Map<u64, T>, value: T)
    requires
        !m.contains_key(id_of(value)),
    ensures
        registered(m, value).remove(id_of(value)) == m,
{
    assert(registered(m, value).remove(id_of(value)) =~= m);
}

/// In a registry, what stands under an identifier is a value with that identifier: registering and
/// removing keep it so.
pub proof fn law_filed_by_id<T: Identity>(m: Map<u64, T>, value: T, id: u64)
    requires
        filed_by_id(m),
    ensures
        filed_by_id(registered(m, value)),
        filed_by_id(m.remove(id)),
{
}

/// How many numbers `width` bytes can tell apart.
pub open spec fn span(width: nat) -> nat
    decreases width,
{
    if width == 0 {
        1
    } else {
        256 * span((width - 1) as nat)
    }
}

/// A number takes as many bytes as it is given.
pub proof fn law_le_bytes_len(n: nat, width: nat)
    ensures
        le_bytes(n, width).len() == width,
    decreases width,
{
    if width > 0 {
        law_le_bytes_len(n / 256, (width - 1) as nat);
    }
}

/// Numbers that fit in `width` bytes are told apart by those bytes.
pub proof fn law_le_bytes_injective(a: nat, b: nat, width: nat)
    requires
        a < span(width),
        b < span(width),
        le_bytes(a, width) == le_bytes(b, width),
    ensures
        a == b,
    decreases width,
{
    if width > 0 {
        let rest = (width - 1) as nat;
        let la = le_bytes(a, width);
        let lb = le_bytes(b, width);
        assert(la[0] == (a % 256) as u8);
        assert(lb[0] == (b % 256) as u8);
        assert(la.skip(1) =~= le_bytes(a / 256, rest));
        assert(lb.skip(1) =~= le_bytes(b / 256, rest));
        law_le_bytes_injective(a / 256, b / 256, rest);
    }
}

/// A sequence of bytes that starts with the bytes of a number tells the number and the rest.
pub proof fn law_le_bytes_delimited(a: nat, b: nat, width: nat, x: Seq<u8>, y: Seq<u8>)
    requires
        a < span(width),
        b < span(width),
        le_bytes(a, width) + x == le_bytes(b, width) + y,
    ensures
        a == b,
        x == y,
{
    law_le_bytes_len(a, width);
    law_le_bytes_len(b, width);
    let whole = le_bytes(a, width) + x;
    assert(le_bytes(a, width) =~= whole.take(width as int));
    assert(le_bytes(b, width) =~= whole.take(width as int));
    assert(x =~= whole.skip(width as int));
    assert(y =~= whole.skip(width as int));
    law_le_bytes_injective(a, b, width);
}

proof fn lemma_no_closing_byte(bytes: Seq<u8>)
    requires
        vstd::utf8::valid_utf8(bytes),
    ensures
        forall|i: int| 0 <= i < bytes.len() ==> #[trigger] bytes[i] != 0xff,
    decreases bytes.len(),
{
    if bytes.len() > 0 {
        let len = vstd::utf8::length_of_first_scalar(bytes);
        let rest = vstd::utf8::pop_first_scalar(bytes);
        lemma_no_closing_byte(rest);
        assert forall|i: int| 0 <= i < bytes.len() implies #[trigger] bytes[i] != 0xff by {
            if i >= len {
                assert(bytes[i] == rest[i - len]);
            }
        }
    }
}

/// The closing byte occurs in no text.
pub proof fn law_no_closing_byte(text: Seq<char>)
    ensures
        forall|i: int|
            0 <= i < vstd::utf8::encode_utf8(text).len() ==> #[trigger] vstd::utf8::encode_utf8(
                text,
            )[i] != 0xff,
{
    vstd::utf8::encode_utf8_valid_utf8(text);
    lemma_no_closing_byte(vstd::utf8::encode_utf8(text));
}

/// A sequence of bytes that starts with a piece of text and its closing byte tells the text and
/// the rest.
pub proof fn law_text_bytes_delimited(a: Seq<char>, b: Seq<char>, x: Seq<u8>, y: Seq<u8>)
    requires
        text_bytes(a) + x == text_bytes(b) + y,
    ensures
        a == b,
        x == y,
{
    let ea = vstd::utf8::encode_utf8(a);
    let eb = vstd::utf8::encode_utf8(b);
    let whole = text_bytes(a) + x;
    law_no_closing_byte(a);
    law_no_closing_byte(b);
    assert(whole[ea.len() as int] == 0xff);
    assert(whole[eb.len() as int] == (text_bytes(b) + y)[eb.len() as int]);
    assert(ea.len() == eb.len()) by {
        if ea.len() < eb.len() {
            assert(whole[ea.len() as int] == eb[ea.len() as int]);
        }
        if eb.len() < ea.len() {
            assert(whole[eb.len() as int] == ea[eb.len() as int]);
        }
    }
    assert(ea =~= whole.take(ea.len() as int));
    assert(eb =~= whole.take(ea.len() as int));
    assert(x =~= whole.skip(ea.len() as int + 1));
    assert(y =~= whole.skip(ea.len() as int + 1));
    vstd::utf8::encode_utf8_decode_utf8(a);
    vstd::utf8::encode_utf8_decode_utf8(b);
}

/// Text that is written piece by piece gives the same bytes as text that is written at once.
pub proof fn law_utf8_of_joined_text(a: Seq<char>, b: Seq<char>)
    ensures
        vstd::utf8::encode_utf8(a + b) == vstd::utf8::encode_utf8(a) + vstd::utf8::encode_utf8(b),
    decreases a.len(),
{
    if a.len() == 0 {
        assert(a + b =~= b);
        assert(vstd::utf8::encode_utf8(a) =~= Seq::empty());
        assert(Seq::<u8>::empty() + vstd::utf8::encode_utf8(b) =~= vstd::utf8::encode_utf8(b));
    } else {
        let rest = a.drop_first();
        law_utf8_of_joined_text(rest, b);
        assert((a + b).drop_first() =~= rest + b);
        assert((a + b)[0] == a[0]);
        let first = vstd::utf8::encode_scalar(a[0] as u32);
        assert(first + (vstd::utf8::encode_utf8(rest) + vstd::utf8::encode_utf8(b)) =~= first
            + vstd::utf8::encode_utf8(rest) + vstd::utf8::encode_utf8(b));
    }
}

/// Byte `i` of a number is what is left of the number in units of `span(i)`, cut to a byte.
pub proof fn law_le_bytes_come_low_first(n: nat, width: nat, i: nat)
    requires
        i < width,
    ensures
        le_bytes(n, width)[i as int] as nat == (n / span(i)) % 256,
    decreases width,
{
    law_le_bytes_len(n / 256, (width - 1) as nat);
    if i == 0 {
        assert(span(0) == 1);
        assert(n / 1 == n);
    } else {
        let rest = (i - 1) as nat;
        law_le_bytes_come_low_first(n / 256, (width - 1) as nat, rest);
        assert(le_bytes(n, width)[i as int] == le_bytes(n / 256, (width - 1) as nat)[rest as int]);
        lemma_span_positive(rest);
        vstd::arithmetic::div_mod::lemma_div_denominator(n as int, 256, span(rest) as int);
        assert(span(i) == 256 * span(rest));
    }
}

proof fn lemma_span_positive(width: nat)
    ensures
        span(width) > 0,
    decreases width,
{
    if width > 0 {
        lemma_span_positive((width - 1) as nat);
    }
}

/// Different identifiers are written differently, each as its number in brackets.
pub proof fn law_id_is_written_with_its_number(a: u64, b: u64)
    ensures
        id_text(a) == id_text(b) <==> a == b,
        id_text(a).len() > 4,
        id_text(a).take(3) == "Id("@,
        id_text(a).last() == ')',
        text::number_of(id_text(a).subrange(3, id_text(a).len() - 1)) == a,
{
    reveal_strlit("Id(");
    reveal_strlit(")");
    text::law_decimal_reads_back(a as nat);
    text::law_decimal_reads_back(b as nat);
    let ta = id_text(a);
    let tb = id_text(b);
    assert(ta.take(3) =~= "Id("@);
    assert(ta.subrange(3, ta.len() - 1) =~= text::decimal(a as nat));
    assert(tb.subrange(3, tb.len() - 1) =~= text::decimal(b as nat));
}

/// Registering fills the place of the value with the value where the place was free, and no other
/// place.
pub proof fn law_register_fills_one_place<T: Identity>(m: Map<u64, T>, value: T, id: u64)
    ensures
        registered(m, value).contains_key(id) <==> m.contains_key(id) || id == id_of(value),
        !m.contains_key(id_of(value)) ==> registered(m, value)[id_of(value)] == value,
{
}

} // verus!
