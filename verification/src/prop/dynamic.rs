//! Type-erased property maps.
//!
//! A [`DynWrap`] hides which member a map stores behind one virtual call per
//! access, converting on the way in and out. Where a map cannot be read or
//! written the access is refused with a value, never a panic: [`ReadOnlyAdaptor`]
//! refuses writes, [`WriteOnlyAdaptor`] refuses reads and [`Refusing`] both.

use std::marker::PhantomData;
use vstd::prelude::*;
use vstd::string::StringExecFns;

use super::convert::{ConvertFrom, FromAny, ToAny};
use super::map::{ReadProp, WriteProp};
use super::value::{PropValue, ValueKind};
use crate::error::PropError;
use crate::ids::{Id, IdTag};
use crate::text::{is_alternate, write_text};

verus! {

/// What an erased map is: the member it stores, which directions it serves,
/// and what its slots hold.
pub struct Erased {
    /// The member stored.
    pub member: ValueKind,
    /// Whether reads are served.
    pub readable: bool,
    /// Whether writes are served.
    pub writable: bool,
    /// What each slot holds, by index.
    pub slots: Map<nat, super::convert::Carried>,
}

impl Erased {
    /// The same map with one slot overwritten.
    pub open spec fn with(self, k: nat, c: super::convert::Carried) -> Erased {
        Erased { slots: self.slots.insert(k, c), ..self }
    }

    /// Whether the library itself converts between the stored member and `v`.
    pub open spec fn reaches(self, v: ValueKind) -> bool {
        !super::convert::double_text(self.member, v)
    }

    /// What reading slot `k` as the member `v` finds.
    pub open spec fn read(self, k: nat, v: ValueKind) -> Option<super::convert::Carried> {
        super::convert::converted(self.member, v, self.slots[k])
    }

    /// What writing a value of the member `v` stores.
    pub open spec fn write(self, v: ValueKind, c: super::convert::Carried) -> Option<
        super::convert::Carried,
    > {
        super::convert::converted(v, self.member, c)
    }
}

/// The object-safe face of a property map.
pub trait DynProp<K: IdTag, V: FromAny>: 'static {
    /// What the map is.
    spec fn erased(&self) -> Erased;

    /// Read, converting into `V`.
    fn dyn_get(&self, k: Id<K>) -> (r: Result<V, PropError>)
        requires
            self.erased().readable ==> self.erased().reaches(V::KIND),
            self.erased().readable ==> self.erased().slots.contains_key(k@),
        ensures
            !self.erased().readable ==> r == Err::<V, _>(PropError::NotReadable),
            self.erased().readable ==> match self.erased().read(k@, V::KIND) {
                Some(c) => r matches Ok(v) && v.carried() == c,
                None => r == Err::<V, _>(
                    super::convert::refusal(self.erased().member, V::KIND),
                ),
            },
    ;

    /// Write, converting from `V`. A failed conversion leaves the slot
    /// untouched.
    fn dyn_put(&mut self, k: Id<K>, v: V) -> (r: Result<(), PropError>)
        requires
            old(self).erased().writable ==> old(self).erased().reaches(V::KIND),
            old(self).erased().writable && old(self).erased().write(V::KIND, v.carried()) is Some
                ==> old(self).erased().slots.contains_key(k@),
        ensures
            !old(self).erased().writable ==> {
                &&& r == Err::<(), _>(PropError::NotWritable)
                &&& final(self).erased() == old(self).erased()
            },
            old(self).erased().writable ==> match old(self).erased().write(V::KIND, v.carried()) {
                Some(c) => {
                    &&& r == Ok::<(), PropError>(())
                    &&& final(self).erased() == old(self).erased().with(k@, c)
                },
                None => {
                    &&& r == Err::<(), _>(
                        super::convert::refusal(V::KIND, old(self).erased().member),
                    )
                    &&& final(self).erased() == old(self).erased()
                },
            },
    ;

    /// The member this map actually stores.
    fn underlying(&self) -> (r: ValueKind)
        ensures
            r == self.erased().member,
    ;
}

/// Holds a value as it is: an erased map moves in and out uncoerced.
pub(crate) struct Held<T> {
    pub(crate) it: T,
}

/// Owning wrapper over a [`DynProp`].
#[verifier::reject_recursive_types(K)]
#[verifier::reject_recursive_types(V)]
pub struct DynWrap<K: IdTag, V: FromAny> {
    pub(crate) inner: Held<Box<dyn DynProp<K, V>>>,
}

impl<K: IdTag, V: FromAny> DynWrap<K, V> {
    /// What the wrapped map is.
    pub open(crate) spec fn erased(&self) -> Erased {
        self.inner.it.erased()
    }

    /// Wrap an erased map.
    pub fn new(inner: Box<dyn DynProp<K, V>>) -> (r: Self)
        ensures
            r.erased() == inner.erased(),
    {
        let held = Held { it: inner };
        DynWrap { inner: held }
    }

    /// Erase a readable and writable map.
    pub fn wrap<P>(map: P) -> (r: Self) where P: WriteProp<K> + 'static, P::Value: FromAny
        ensures
            r.erased() == erasure(P::Value::KIND, true, true, map.slots()),
    {
        DynWrap::new(Box::new(ReadWriteAdaptor::new(map)))
    }

    /// Erase a map that can only be read.
    pub fn wrap_read_only<P>(map: P) -> (r: Self) where P: ReadProp<K> + 'static, P::Value: FromAny
        ensures
            r.erased() == erasure(P::Value::KIND, true, false, map.slots()),
    {
        DynWrap::new(Box::new(ReadOnlyAdaptor::new(map)))
    }

    /// Erase a map presented as write-only.
    pub fn wrap_write_only<P>(map: P) -> (r: Self) where
        P: WriteProp<K> + 'static,
        P::Value: FromAny,

        ensures
            r.erased() == erasure(P::Value::KIND, false, true, map.slots()),
    {
        DynWrap::new(Box::new(WriteOnlyAdaptor::new(map)))
    }

    /// Read.
    #[inline]
    pub fn get(&self, k: Id<K>) -> (r: Result<V, PropError>)
        requires
            self.erased().readable ==> self.erased().reaches(V::KIND),
            self.erased().readable ==> self.erased().slots.contains_key(k@),
        ensures
            !self.erased().readable ==> r == Err::<V, _>(PropError::NotReadable),
            self.erased().readable ==> match self.erased().read(k@, V::KIND) {
                Some(c) => r matches Ok(v) && v.carried() == c,
                None => r == Err::<V, _>(
                    super::convert::refusal(self.erased().member, V::KIND),
                ),
            },
    {
        self.inner.it.dyn_get(k)
    }

    /// Write.
    #[inline]
    pub fn put(&mut self, k: Id<K>, v: V) -> (r: Result<(), PropError>)
        requires
            old(self).erased().writable ==> old(self).erased().reaches(V::KIND),
            old(self).erased().writable && old(self).erased().write(V::KIND, v.carried()) is Some
                ==> old(self).erased().slots.contains_key(k@),
        ensures
            !old(self).erased().writable ==> {
                &&& r == Err::<(), _>(PropError::NotWritable)
                &&& final(self).erased() == old(self).erased()
            },
            old(self).erased().writable ==> match old(self).erased().write(V::KIND, v.carried()) {
                Some(c) => {
                    &&& r == Ok::<(), PropError>(())
                    &&& final(self).erased() == old(self).erased().with(k@, c)
                },
                None => {
                    &&& r == Err::<(), _>(
                        super::convert::refusal(V::KIND, old(self).erased().member),
                    )
                    &&& final(self).erased() == old(self).erased()
                },
            },
    {
        self.inner.it.dyn_put(k, v)
    }

    /// The member this map actually stores.
    #[inline]
    pub fn underlying(&self) -> (r: ValueKind)
        ensures
            r == self.erased().member,
    {
        self.inner.it.underlying()
    }

    /// The text of the diagnostic form.
    pub open spec fn text(&self) -> Seq<char> {
        "DynWrap { key: \""@ + K::NAME@ + "\", underlying: "@ + self.erased().member.variant_name()
            + " }"@
    }

    /// The text of the diagnostic form, a field to a line.
    pub open spec fn spread_text(&self) -> Seq<char> {
        "DynWrap {\n    key: \""@ + K::NAME@ + "\",\n    underlying: "@
            + self.erased().member.variant_name() + ",\n}"@
    }

    /// The diagnostic form, which names the index space and the member stored,
    /// such as `DynWrap { key: "vertex", underlying: Str }`.
    pub fn label(&self) -> (r: String)
        ensures
            r@ == self.text(),
    {
        let mut s = String::from_str("DynWrap { key: \"");
        s.append(K::NAME);
        s.append("\", underlying: ");
        s.append(self.underlying().variant());
        s.append(" }");
        s
    }

    fn spread_label(&self) -> (r: String)
        ensures
            r@ == self.spread_text(),
    {
        let mut s = String::from_str("DynWrap {\n    key: \"");
        s.append(K::NAME);
        s.append("\",\n    underlying: ");
        s.append(self.underlying().variant());
        s.append(",\n}");
        s
    }
}

impl<K: IdTag, V: FromAny> std::fmt::Debug for DynWrap<K, V> {
    /// Writes the [`label`](DynWrap::label), under the `#` flag a field to a
    /// line.
    fn fmt(&self, f: &mut std::fmt::Formatter<'_>) -> (r: std::fmt::Result)
        ensures
            r is Ok ==> crate::text::written(*final(f)) == crate::text::written(*old(f)) + (
            if crate::text::alternate(*old(f)) {
                self.spread_text()
            } else {
                self.text()
            }),
    {
        if is_alternate(f) {
            write_text(f, self.spread_label().as_str())
        } else {
            write_text(f, self.label().as_str())
        }
    }
}

/// A typed map as an erased one.
pub open spec fn erasure<T: FromAny>(
    member: ValueKind,
    readable: bool,
    writable: bool,
    slots: Map<nat, T>,
) -> Erased {
    Erased { member, readable, writable, slots: slots.map_values(|v: T| v.carried()) }
}

/// Reading through a conversion.
fn read_converting<K, V, P>(map: &P, k: Id<K>) -> (r: Result<V, PropError>) where
    K: IdTag,
    V: FromAny,
    P: ReadProp<K>,
    P::Value: FromAny,

    requires
        !super::convert::double_text(P::Value::KIND, V::KIND),
        map.slots().contains_key(k@),
    ensures
        match super::convert::converted(P::Value::KIND, V::KIND, map.slots()[k@].carried()) {
            Some(c) => r matches Ok(v) && v.carried() == c,
            None => r == Err::<V, _>(super::convert::refusal(P::Value::KIND, V::KIND)),
        },
{
    let slot = map.get_ref(k);
    V::convert_from(&*slot)
}

/// Writing through a conversion, which runs before the write.
fn write_converting<K, V, P>(map: &mut P, k: Id<K>, v: V) -> (r: Result<(), PropError>) where
    K: IdTag,
    V: FromAny,
    P: WriteProp<K>,
    P::Value: FromAny,

    requires
        !super::convert::double_text(V::KIND, P::Value::KIND),
        super::convert::converted(V::KIND, P::Value::KIND, v.carried()) is Some ==> old(
            map,
        ).slots().contains_key(k@),
    ensures
        match super::convert::converted(V::KIND, P::Value::KIND, v.carried()) {
            Some(c) => {
                &&& r == Ok::<(), PropError>(())
                &&& exists|stored: P::Value|
                    #![trigger old(map).slots().insert(k@, stored)]
                    stored.carried() == c && final(map).slots() == old(map).slots().insert(
                        k@,
                        stored,
                    )
            },
            None => {
                &&& r == Err::<(), _>(super::convert::refusal(V::KIND, P::Value::KIND))
                &&& final(map).slots() == old(map).slots()
            },
        },
{
    match P::Value::convert_from(&v) {
        Ok(stored) => {
            map.put(k, stored);
            Ok(())
        },
        Err(e) => Err(e),
    }
}

/// Overwriting a typed slot overwrites the erased one.
proof fn lemma_erased_insert<T: FromAny>(
    member: ValueKind,
    readable: bool,
    writable: bool,
    slots: Map<nat, T>,
    k: nat,
    v: T,
)
    ensures
        erasure(member, readable, writable, slots.insert(k, v)) == erasure(
            member,
            readable,
            writable,
            slots,
        ).with(k, v.carried()),
{
    assert(slots.insert(k, v).map_values(|x: T| x.carried()) =~= slots.map_values(
        |x: T| x.carried(),
    ).insert(k, v.carried()));
}

/// Erases a map that is both readable and writable.
#[derive(Clone, Debug)]
pub struct ReadWriteAdaptor<P>(pub(crate) P);

impl<P> ReadWriteAdaptor<P> {
    /// The map within.
    pub open(crate) spec fn within(self) -> P {
        self.0
    }

    /// Wrap a concrete map.
    #[inline]
    pub fn new(map: P) -> (r: Self)
        ensures
            r.within() == map,
    {
        ReadWriteAdaptor(map)
    }

    /// Give the map back, un-erased.
    #[inline]
    pub fn into_inner(self) -> (r: P)
        ensures
            r == self.within(),
    {
        self.0
    }

    /// Borrow the map.
    #[inline]
    pub fn inner(&self) -> (r: &P)
        ensures
            *r == self.within(),
    {
        &self.0
    }
}

/// Erases a map that can only be read.
#[derive(Clone, Debug)]
pub struct ReadOnlyAdaptor<P>(pub(crate) P);

impl<P> ReadOnlyAdaptor<P> {
    /// The map within.
    pub open(crate) spec fn within(self) -> P {
        self.0
    }

    /// Wrap a concrete map.
    #[inline]
    pub fn new(map: P) -> (r: Self)
        ensures
            r.within() == map,
    {
        ReadOnlyAdaptor(map)
    }

    /// Give the map back, un-erased.
    #[inline]
    pub fn into_inner(self) -> (r: P)
        ensures
            r == self.within(),
    {
        self.0
    }

    /// Borrow the map.
    #[inline]
    pub fn inner(&self) -> (r: &P)
        ensures
            *r == self.within(),
    {
        &self.0
    }
}

/// Erases a map presented as write-only: reads are refused although the map
/// could serve them.
#[derive(Clone, Debug)]
pub struct WriteOnlyAdaptor<P>(pub(crate) P);

impl<P> WriteOnlyAdaptor<P> {
    /// The map within.
    pub open(crate) spec fn within(self) -> P {
        self.0
    }

    /// Wrap a concrete map.
    #[inline]
    pub fn new(map: P) -> (r: Self)
        ensures
            r.within() == map,
    {
        WriteOnlyAdaptor(map)
    }

    /// Give the map back, un-erased.
    #[inline]
    pub fn into_inner(self) -> (r: P)
        ensures
            r == self.within(),
    {
        self.0
    }

    /// Borrow the map.
    #[inline]
    pub fn inner(&self) -> (r: &P)
        ensures
            *r == self.within(),
    {
        &self.0
    }
}

impl<K, V, P> DynProp<K, V> for ReadWriteAdaptor<P> where
    K: IdTag,
    V: FromAny,
    P: WriteProp<K> + 'static,
    P::Value: FromAny,
 {
    open spec fn erased(&self) -> Erased {
        erasure(P::Value::KIND, true, true, self.within().slots())
    }

    fn dyn_get(&self, k: Id<K>) -> (r: Result<V, PropError>) {
        read_converting(&self.0, k)
    }

    fn dyn_put(&mut self, k: Id<K>, v: V) -> (r: Result<(), PropError>) {
        let ghost before = self.0.slots();
        let ghost c = v.carried();
        let r = write_converting(&mut self.0, k, v);
        proof {
            if super::convert::converted(V::KIND, P::Value::KIND, c) is Some {
                let stored = choose|stored: P::Value|
                    #![trigger before.insert(k@, stored)]
                    Some(stored.carried()) == super::convert::converted(V::KIND, P::Value::KIND, c)
                        && self.0.slots() == before.insert(k@, stored);
                lemma_erased_insert(P::Value::KIND, true, true, before, k@, stored);
            }
        }
        r
    }

    fn underlying(&self) -> (r: ValueKind) {
        P::Value::KIND
    }
}

impl<K, V, P> DynProp<K, V> for ReadOnlyAdaptor<P> where
    K: IdTag,
    V: FromAny,
    P: ReadProp<K> + 'static,
    P::Value: FromAny,
 {
    open spec fn erased(&self) -> Erased {
        erasure(P::Value::KIND, true, false, self.within().slots())
    }

    fn dyn_get(&self, k: Id<K>) -> (r: Result<V, PropError>) {
        read_converting(&self.0, k)
    }

    fn dyn_put(&mut self, k: Id<K>, v: V) -> (r: Result<(), PropError>) {
        Err(PropError::NotWritable)
    }

    fn underlying(&self) -> (r: ValueKind) {
        P::Value::KIND
    }
}

impl<K, V, P> DynProp<K, V> for WriteOnlyAdaptor<P> where
    K: IdTag,
    V: FromAny,
    P: WriteProp<K> + 'static,
    P::Value: FromAny,
 {
    open spec fn erased(&self) -> Erased {
        erasure(P::Value::KIND, false, true, self.within().slots())
    }

    fn dyn_get(&self, k: Id<K>) -> (r: Result<V, PropError>) {
        Err(PropError::NotReadable)
    }

    fn dyn_put(&mut self, k: Id<K>, v: V) -> (r: Result<(), PropError>) {
        let ghost before = self.0.slots();
        let ghost c = v.carried();
        let r = write_converting(&mut self.0, k, v);
        proof {
            if super::convert::converted(V::KIND, P::Value::KIND, c) is Some {
                let stored = choose|stored: P::Value|
                    #![trigger before.insert(k@, stored)]
                    Some(stored.carried()) == super::convert::converted(V::KIND, P::Value::KIND, c)
                        && self.0.slots() == before.insert(k@, stored);
                lemma_erased_insert(P::Value::KIND, false, true, before, k@, stored);
            }
        }
        r
    }

    fn underlying(&self) -> (r: ValueKind) {
        P::Value::KIND
    }
}

/// A map that refuses both directions, for a caller that must produce a
/// [`DynWrap`] for a member it cannot service.
#[verifier::reject_recursive_types(V)]
pub struct Refusing<V>(PhantomData<V>);

impl<V> Refusing<V> {
    /// The map that refuses.
    pub fn new() -> (r: Self) {
        Refusing(PhantomData)
    }
}

impl<V> Default for Refusing<V> {
    fn default() -> (r: Self) {
        Refusing::new()
    }
}

impl<V> std::fmt::Debug for Refusing<V> {
    /// Writes `Refusing`.
    fn fmt(&self, f: &mut std::fmt::Formatter<'_>) -> (r: std::fmt::Result)
        ensures
            r is Ok ==> crate::text::written(*final(f)) == crate::text::written(*old(f))
                + "Refusing"@,
    {
        write_text(f, "Refusing")
    }
}

impl<K: IdTag, V: FromAny> DynProp<K, V> for Refusing<V> {
    open spec fn erased(&self) -> Erased {
        Erased { member: V::KIND, readable: false, writable: false, slots: Map::empty() }
    }

    fn dyn_get(&self, k: Id<K>) -> (r: Result<V, PropError>) {
        Err(PropError::NotReadable)
    }

    fn dyn_put(&mut self, k: Id<K>, v: V) -> (r: Result<(), PropError>) {
        Err(PropError::NotWritable)
    }

    fn underlying(&self) -> (r: ValueKind) {
        V::KIND
    }
}

/// A read finds what a write stored: the value written, converted to the
/// member stored and back. Every other slot reads as before, and where the
/// members agree the value comes back unchanged.
pub proof fn a_read_finds_the_write<V: FromAny>(map: Erased, k: nat, other: nat, v: V)
    requires
        map.write(V::KIND, v.carried()) is Some,
        other != k,
        !(V::KIND is PyObject),
    ensures
        ({
            let stored = map.write(V::KIND, v.carried())->Some_0;
            let after = map.with(k, stored);
            &&& after.read(k, V::KIND) == super::convert::converted(map.member, V::KIND, stored)
            &&& after.read(other, V::KIND) == map.read(other, V::KIND)
            &&& map.member == V::KIND ==> after.read(k, V::KIND) == Some(v.carried())
        }),
{
    super::convert::converting_to_the_same_member_is_the_identity(v);
}

/// An integer written to a map of another integral member reads back unchanged
/// where that member holds it.
pub proof fn an_integer_survives_a_map(map: Erased, k: nat, v: ValueKind, i: int)
    requires
        v.integral(),
        map.member.integral(),
        super::number::in_range(v, i),
        super::number::in_range(map.member, i),
    ensures
        map.write(v, super::convert::Carried::Int(i)) == Some(super::convert::Carried::Int(i)),
        map.with(k, super::convert::Carried::Int(i)).read(k, v) == Some(
            super::convert::Carried::Int(i),
        ),
{
    super::convert::widening_keeps_the_integer(v, map.member, i);
    super::convert::widening_keeps_the_integer(map.member, v, i);
}

/// An erased map holds at every slot what the typed one does, and serves the
/// directions it was erased for.
pub proof fn erasing_keeps_every_slot<T: FromAny>(
    member: ValueKind,
    readable: bool,
    writable: bool,
    slots: Map<nat, T>,
    k: nat,
)
    ensures
        ({
            let e = erasure(member, readable, writable, slots);
            &&& e.member == member
            &&& e.readable == readable
            &&& e.writable == writable
            &&& e.slots.contains_key(k) <==> slots.contains_key(k)
            &&& slots.contains_key(k) ==> e.slots[k] == slots[k].carried()
        }),
{
}

/// Reading converts what the slot holds from the member stored, writing
/// converts to it, and a write changes the slot it names and nothing else.
pub proof fn an_erased_map_converts_both_ways(
    e: Erased,
    k: nat,
    j: nat,
    v: ValueKind,
    c: super::convert::Carried,
)
    ensures
        e.read(k, v) == super::convert::converted(e.member, v, e.slots[k]),
        e.write(v, c) == super::convert::converted(v, e.member, c),
        e.with(k, c).slots.contains_key(k) && e.with(k, c).slots[k] == c,
        j != k ==> (e.with(k, c).slots.contains_key(j) <==> e.slots.contains_key(j)),
        j != k && e.slots.contains_key(j) ==> e.with(k, c).slots[j] == e.slots[j],
        e.with(k, c).member == e.member,
        e.with(k, c).readable == e.readable,
        e.with(k, c).writable == e.writable,
{
}

/// The diagnostic form of an erased map names the index space and the member
/// stored.
pub proof fn an_erased_map_is_labelled<K: IdTag, V: FromAny>(w: DynWrap<K, V>)
    ensures
        w.text() == "DynWrap { key: \""@ + K::NAME@ + "\", underlying: "@
            + w.erased().member.variant_name() + " }"@,
        w.spread_text() == "DynWrap {\n    key: \""@ + K::NAME@ + "\",\n    underlying: "@
            + w.erased().member.variant_name() + ",\n}"@,
{
}

/// What each way of erasing serves: reading and writing, reading alone, writing
/// alone, or neither.
pub proof fn which_directions_are_served<K: IdTag, V: FromAny, P: WriteProp<K> + 'static>(
    both: ReadWriteAdaptor<P>,
    read: ReadOnlyAdaptor<P>,
    write: WriteOnlyAdaptor<P>,
    none: Refusing<V>,
) where P::Value: FromAny
    ensures
        ({
            let e = <ReadWriteAdaptor<P> as DynProp<K, V>>::erased(&both);
            e.readable && e.writable && e.member == P::Value::KIND
        }),
        ({
            let e = <ReadOnlyAdaptor<P> as DynProp<K, V>>::erased(&read);
            e.readable && !e.writable && e.member == P::Value::KIND
        }),
        ({
            let e = <WriteOnlyAdaptor<P> as DynProp<K, V>>::erased(&write);
            !e.readable && e.writable && e.member == P::Value::KIND
        }),
        ({
            let e = <Refusing<V> as DynProp<K, V>>::erased(&none);
            !e.readable && !e.writable && e.member == V::KIND
        }),
{
}

} // verus!
