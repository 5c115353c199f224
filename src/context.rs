//! Per-request context and the type-keyed extension store.
//!
//! A store holds at most one value of each extension type. The set of
//! extension types is closed: each is a variant of [`Extension`], and the
//! variant's tag is the key under which the store keeps it.
use vstd::prelude::*;
use crate::response::Method;

verus! {

/// Number of extension kinds, and so of slots in a store.
pub const KINDS: usize = 3;

/// Named route parameters extracted by the router, in match order.
pub struct Parameters {
    pub names: Vec<String>,
    pub values: Vec<String>,
}

/// Size of the worker pool that serves blocking file reads.
#[derive(Clone, Copy, PartialEq, Eq, Structural)]
pub struct WorkerThreads {
    pub count: usize,
}

/// Correlation identifier of one request.
#[derive(Clone, Copy, PartialEq, Eq, Structural)]
pub struct RequestId {
    pub id: u64,
}

/// One value held by a store, tagged by its type.
pub enum Extension {
    Parameters(Parameters),
    WorkerThreads(WorkerThreads),
    RequestId(RequestId),
}

impl Extension {
    pub open spec fn tag(self) -> nat {
        match self {
            Extension::Parameters(_) => 0,
            Extension::WorkerThreads(_) => 1,
            Extension::RequestId(_) => 2,
        }
    }
}

/// The value of the first entry named `name`.
pub open spec fn find(names: Seq<String>, values: Seq<String>, name: Seq<char>) -> Option<String>
    decreases names.len(),
{
    if names.len() == 0 || values.len() == 0 {
        None
    } else if names[0]@ == name {
        Some(values[0])
    } else {
        find(names.drop_first(), values.drop_first(), name)
    }
}

impl Parameters {
    pub open spec fn lookup(&self, name: Seq<char>) -> Option<String> {
        find(self.names@, self.values@, name)
    }

    /// Parameters with no entries.
    pub fn new() -> (r: Parameters)
        ensures
            r.names@.len() == 0,
            r.values@.len() == 0,
    {
        Parameters { names: Vec::new(), values: Vec::new() }
    }

    /// Adds an entry after the existing ones.
    pub fn push(&mut self, name: String, value: String)
        ensures
            final(self).names@ == old(self).names@.push(name),
            final(self).values@ == old(self).values@.push(value),
    {
        self.names.push(name);
        self.values.push(value);
    }

    /// The value of the first entry named `name`.
    pub fn get(&self, name: &str) -> (r: Option<&String>)
        ensures
            match r {
                Some(v) => self.lookup(name@) == Some(*v),
                None => self.lookup(name@) is None,
            },
    {
        let wanted = name.to_owned();
        let mut i: usize = 0;
        proof {
            assert(self.names@.skip(0) =~= self.names@);
            assert(self.values@.skip(0) =~= self.values@);
        }
        while i < self.names.len() && i < self.values.len()
            invariant
                wanted@ == name@,
                i <= self.names@.len(),
                i <= self.values@.len(),
                self.lookup(name@) == find(self.names@.skip(i as int), self.values@.skip(i as int), name@),
            decreases self.names.len() - i,
        {
            proof {
                assert(self.names@.skip(i as int).drop_first() =~= self.names@.skip(i + 1));
                assert(self.values@.skip(i as int).drop_first() =~= self.values@.skip(i + 1));
                assert(self.names@.skip(i as int)[0] == self.names@[i as int]);
                assert(self.values@.skip(i as int)[0] == self.values@[i as int]);
            }
            if self.names[i] == wanted {
                return Some(&self.values[i]);
            }
            i = i + 1;
        }
        proof {
            assert(self.names@.skip(i as int).len() == 0 || self.values@.skip(i as int).len() == 0);
        }
        None
    }
}

/// A type whose values a store can hold: it knows its variant of
/// [`Extension`], and how to wrap itself in it and take itself back out.
pub trait Implements: Sized {
    /// The slot of this type in a store.
    spec fn tag() -> nat;

    /// The extension that wraps `v`.
    spec fn to_ext(v: Self) -> Extension;

    /// The value of this type that `e` wraps, if `e` is of this type.
    spec fn from_ext(e: Extension) -> Option<Self>;

    proof fn lemma_ext(v: Self, e: Extension)
        ensures
            Self::tag() < KINDS,
            Self::to_ext(v).tag() == Self::tag(),
            Self::from_ext(Self::to_ext(v)) == Some(v),
            Self::from_ext(e) is Some <==> e.tag() == Self::tag(),
    ;

    fn slot() -> (r: usize)
        ensures
            r == Self::tag(),
    ;

    fn into_object(self) -> (r: Extension)
        ensures
            r == Self::to_ext(self),
    ;

    fn from_object(e: Extension) -> (r: Option<Self>)
        ensures
            r == Self::from_ext(e),
    ;

    fn peek(e: &Extension) -> (r: Option<&Self>)
        ensures
            match r {
                Some(v) => Self::from_ext(*e) == Some(*v),
                None => Self::from_ext(*e) is None,
            },
    ;
}

/// The relation between a key type and the type of the value stored
/// under it.
pub trait Key {
    type Value: Implements;
}

impl Implements for Parameters {
    open spec fn tag() -> nat {
        0
    }

    open spec fn to_ext(v: Self) -> Extension {
        Extension::Parameters(v)
    }

    open spec fn from_ext(e: Extension) -> Option<Self> {
        match e {
            Extension::Parameters(v) => Some(v),
            _ => None,
        }
    }

    proof fn lemma_ext(v: Self, e: Extension) {
    }

    fn slot() -> (r: usize) {
        0
    }

    fn into_object(self) -> (r: Extension) {
        Extension::Parameters(self)
    }

    fn from_object(e: Extension) -> (r: Option<Self>) {
        match e {
            Extension::Parameters(v) => Some(v),
            _ => None,
        }
    }

    fn peek(e: &Extension) -> (r: Option<&Self>) {
        match e {
            Extension::Parameters(v) => Some(v),
            _ => None,
        }
    }
}

impl Implements for WorkerThreads {
    open spec fn tag() -> nat {
        1
    }

    open spec fn to_ext(v: Self) -> Extension {
        Extension::WorkerThreads(v)
    }

    open spec fn from_ext(e: Extension) -> Option<Self> {
        match e {
            Extension::WorkerThreads(v) => Some(v),
            _ => None,
        }
    }

    proof fn lemma_ext(v: Self, e: Extension) {
    }

    fn slot() -> (r: usize) {
        1
    }

    fn into_object(self) -> (r: Extension) {
        Extension::WorkerThreads(self)
    }

    fn from_object(e: Extension) -> (r: Option<Self>) {
        match e {
            Extension::WorkerThreads(v) => Some(v),
            _ => None,
        }
    }

    fn peek(e: &Extension) -> (r: Option<&Self>) {
        match e {
            Extension::WorkerThreads(v) => Some(v),
            _ => None,
        }
    }
}

impl Implements for RequestId {
    open spec fn tag() -> nat {
        2
    }

    open spec fn to_ext(v: Self) -> Extension {
        Extension::RequestId(v)
    }

    open spec fn from_ext(e: Extension) -> Option<Self> {
        match e {
            Extension::RequestId(v) => Some(v),
            _ => None,
        }
    }

    proof fn lemma_ext(v: Self, e: Extension) {
    }

    fn slot() -> (r: usize) {
        2
    }

    fn into_object(self) -> (r: Extension) {
        Extension::RequestId(self)
    }

    fn from_object(e: Extension) -> (r: Option<Self>) {
        match e {
            Extension::RequestId(v) => Some(v),
            _ => None,
        }
    }

    fn peek(e: &Extension) -> (r: Option<&Self>) {
        match e {
            Extension::RequestId(v) => Some(v),
            _ => None,
        }
    }
}

impl Key for Parameters {
    type Value = Parameters;
}

impl Key for WorkerThreads {
    type Value = WorkerThreads;
}

impl Key for RequestId {
    type Value = RequestId;
}

/// What a store with slots `m` holds of type `V`.
pub open spec fn stored<V: Implements>(m: Seq<Option<Extension>>) -> Option<V> {
    match m[V::tag() as int] {
        Some(e) => V::from_ext(e),
        None => None,
    }
}

/// The slots of a store after `e` was put in.
pub open spec fn with_ext(m: Seq<Option<Extension>>, e: Extension) -> Seq<Option<Extension>> {
    m.update(e.tag() as int, Some(e))
}

/// The slots of an empty store.
pub open spec fn no_slots() -> Seq<Option<Extension>> {
    Seq::new(KINDS as nat, |_i: int| None)
}

/// A store keyed by the type of its values, holding at most one value of
/// each type.
pub struct TypeMap {
    data: Vec<Option<Extension>>,
}

impl View for TypeMap {
    type V = Seq<Option<Extension>>;

    closed spec fn view(&self) -> Seq<Option<Extension>> {
        self.data@
    }
}

impl TypeMap {
    /// One slot per extension kind, each holding only its own kind.
    pub open spec fn wf(&self) -> bool {
        &&& self@.len() == KINDS
        &&& forall|k: int| 0 <= k < KINDS ==> (#[trigger] self@[k] matches Some(e) ==> e.tag() == k)
    }

    /// An empty store.
    pub fn new() -> (r: TypeMap)
        ensures
            r.wf(),
            r@ == no_slots(),
    {
        TypeMap::custom()
    }

    /// An empty store.
    pub fn custom() -> (r: TypeMap)
        ensures
            r.wf(),
            r@ == no_slots(),
    {
        let mut data: Vec<Option<Extension>> = Vec::new();
        let mut i: usize = 0;
        while i < KINDS
            invariant
                i <= KINDS,
                data@ == Seq::new(i as nat, |_i: int| None::<Extension>),
            decreases KINDS - i,
        {
            data.push(None);
            i = i + 1;
            assert(data@ =~= Seq::new(i as nat, |_i: int| None::<Extension>));
        }
        TypeMap { data }
    }

    /// Stores `val` under its type; returns the value that was stored under
    /// that type before, if any.
    pub fn insert<K: Key>(&mut self, val: K::Value) -> (r: Option<K::Value>)
        requires
            old(self).wf(),
        ensures
            final(self).wf(),
            final(self)@ == with_ext(old(self)@, K::Value::to_ext(val)),
            r == stored::<K::Value>(old(self)@),
    {
        proof {
            K::Value::lemma_ext(val, K::Value::to_ext(val));
        }
        let k = K::Value::slot();
        let ghost before = self.data@;
        let e = val.into_object();
        let mut slot = Some(e);
        std::mem::swap(&mut slot, &mut self.data[k]);
        proof {
            assert(self.data@ =~= with_ext(before, K::Value::to_ext(val)));
            assert forall|j: int| 0 <= j < KINDS implies (#[trigger] self.data@[j] matches Some(x)
                ==> x.tag() == j) by {
                if j != k {
                    assert(self.data@[j] == before[j]);
                }
            }
        }
        match slot {
            Some(prev) => K::Value::from_object(prev),
            None => None,
        }
    }

    /// The value stored under type `K`, if any.
    pub fn get<K: Key>(&self) -> (r: Option<&K::Value>)
        requires
            self.wf(),
        ensures
            match r {
                Some(v) => stored::<K::Value>(self@) == Some(*v),
                None => stored::<K::Value>(self@) is None,
            },
    {
        proof {
            let v = arbitrary::<K::Value>();
            K::Value::lemma_ext(v, K::Value::to_ext(v));
        }
        let k = K::Value::slot();
        match &self.data[k] {
            Some(e) => K::Value::peek(e),
            None => None,
        }
    }
}

/// Laws of the store. An empty store holds nothing of any type. After
/// `insert` of `v`, `get` of its type gives `v`; a second `insert` of `w`
/// hands back `v`, and `get` then gives `w`. The value held of another type
/// `U` is untouched by an `insert` of `v`.
pub proof fn lemma_store_laws<V: Implements, U: Implements>(m: Seq<Option<Extension>>, v: V, w: V)
    requires
        m.len() == KINDS,
        U::tag() != V::tag(),
    ensures
        stored::<V>(no_slots()) is None,
        stored::<V>(with_ext(m, V::to_ext(v))) == Some(v),
        stored::<V>(with_ext(with_ext(m, V::to_ext(v)), V::to_ext(w))) == Some(w),
        stored::<U>(with_ext(m, V::to_ext(v))) == stored::<U>(m),
{
    V::lemma_ext(v, V::to_ext(v));
    V::lemma_ext(w, V::to_ext(w));
    U::lemma_ext(arbitrary::<U>(), V::to_ext(v));
}

/// Request metadata with the shared and the request-scoped stores.
pub struct Context {
    pub method: Method,
    pub path: String,
    pub shared: TypeMap,
    pub request: TypeMap,
}

impl Context {
    pub open spec fn wf(&self) -> bool {
        self.shared.wf() && self.request.wf()
    }
}

} // verus!
