//! The object types of a PDF file.

use vstd::prelude::*;
use crate::text::same_text;

verus! {

/// The number and generation by which an indirect object is known.
#[derive(Clone, Copy, Debug, PartialEq, Eq, Hash, Structural)]
pub struct ObjectId {
    pub number: u32,
    pub generation: u16,
}

impl ObjectId {
    /// Object `number` in generation 0.
    pub fn new(number: u32) -> (r: ObjectId)
        ensures
            r == (ObjectId { number, generation: 0 }),
    {
        ObjectId { number, generation: 0 }
    }
}

/// A real number, kept as the digits it was written with.
#[derive(Clone, Debug, PartialEq, Eq)]
pub struct Real {
    pub text: Vec<u8>,
}

impl View for Real {
    type V = Seq<u8>;

    open spec fn view(&self) -> Seq<u8> {
        self.text@
    }
}

/// Any PDF object.
#[derive(Debug, PartialEq)]
pub enum Object {
    Null,
    Bool(bool),
    Integer(i64),
    Real(Real),
    Name(String),
    LiteralString(Vec<u8>),
    HexString(Vec<u8>),
    Array(Vec<Object>),
    Dict(Dict),
    Stream(Stream),
    Reference(ObjectId),
}

/// A dictionary: its entries in file order.
#[derive(Debug, PartialEq)]
pub struct Dict {
    pub entries: Vec<(String, Object)>,
}

/// A stream: its dictionary, and its data as stored.
#[derive(Debug, PartialEq)]
pub struct Stream {
    pub dict: Dict,
    pub data: Vec<u8>,
}

/// An object as a mathematical value.
pub enum ObjV {
    Null,
    Bool(bool),
    Integer(i64),
    Real(Seq<u8>),
    Name(Seq<char>),
    LiteralString(Seq<u8>),
    HexString(Seq<u8>),
    Array(Seq<ObjV>),
    Dict(Seq<(Seq<char>, ObjV)>),
    Stream(Seq<(Seq<char>, ObjV)>, Seq<u8>),
    Reference(ObjectId),
}

/// A dictionary as a mathematical value.
pub type DictV = Seq<(Seq<char>, ObjV)>;

/// The value that an object stands for.
pub open spec fn obj_view(o: Object) -> ObjV
    decreases o,
{
    match o {
        Object::Null => ObjV::Null,
        Object::Bool(b) => ObjV::Bool(b),
        Object::Integer(n) => ObjV::Integer(n),
        Object::Real(r) => ObjV::Real(r@),
        Object::Name(s) => ObjV::Name(s@),
        Object::LiteralString(b) => ObjV::LiteralString(b@),
        Object::HexString(b) => ObjV::HexString(b@),
        Object::Array(v) => ObjV::Array(
            Seq::new(
                v@.len(),
                |i: int|
                    if 0 <= i < v@.len() {
                        obj_view(v@[i])
                    } else {
                        ObjV::Null
                    },
            ),
        ),
        Object::Dict(d) => ObjV::Dict(dict_view(d)),
        Object::Stream(s) => ObjV::Stream(dict_view(s.dict), s.data@),
        Object::Reference(id) => ObjV::Reference(id),
    }
}

/// The value that a dictionary stands for.
pub open spec fn dict_view(d: Dict) -> DictV
    decreases d,
{
    Seq::new(
        d.entries@.len(),
        |i: int|
            if 0 <= i < d.entries@.len() {
                (d.entries@[i].0@, obj_view(d.entries@[i].1))
            } else {
                (Seq::empty(), ObjV::Null)
            },
    )
}

impl View for Object {
    type V = ObjV;

    open spec fn view(&self) -> ObjV {
        obj_view(*self)
    }
}

impl View for Dict {
    type V = DictV;

    open spec fn view(&self) -> DictV {
        dict_view(*self)
    }
}

impl View for Stream {
    type V = (DictV, Seq<u8>);

    open spec fn view(&self) -> (DictV, Seq<u8>) {
        (self.dict@, self.data@)
    }
}

/// The values that the objects of a sequence stand for.
pub open spec fn objs_view(s: Seq<Object>) -> Seq<ObjV> {
    s.map_values(|o: Object| o@)
}

/// The first position at or after `from` whose key is `key`, or the length
/// of the dictionary where there is none.
pub open spec fn key_pos(d: DictV, key: Seq<char>, from: int) -> int
    decreases d.len() - from,
{
    if from < 0 || from >= d.len() {
        d.len() as int
    } else if d[from].0 == key {
        from
    } else {
        key_pos(d, key, from + 1)
    }
}

/// The value of the first entry with key `key`.
pub open spec fn dict_get(d: DictV, key: Seq<char>) -> Option<ObjV> {
    let p = key_pos(d, key, 0);
    if p < d.len() {
        Some(d[p].1)
    } else {
        None
    }
}

/// The dictionary in which `key` stands for `value`: the first entry with
/// that key is replaced where it stands, and a new key comes last.
pub open spec fn dict_set(d: DictV, key: Seq<char>, value: ObjV) -> DictV {
    let p = key_pos(d, key, 0);
    if p < d.len() {
        d.update(p, (key, value))
    } else {
        d.push((key, value))
    }
}

/// No key occurs twice.
pub open spec fn distinct_keys(d: DictV) -> bool {
    forall|i: int, j: int| 0 <= i < j < d.len() ==> (#[trigger] d[i]).0 != (#[trigger] d[j]).0
}

/// What [`key_pos`] finds.
pub proof fn lemma_key_pos(d: DictV, key: Seq<char>, from: int)
    requires
        0 <= from <= d.len(),
    ensures
        from <= key_pos(d, key, from) <= d.len(),
        key_pos(d, key, from) < d.len() ==> d[key_pos(d, key, from)].0 == key,
        forall|j: int| from <= j < key_pos(d, key, from) ==> (#[trigger] d[j]).0 != key,
    decreases d.len() - from,
{
    if from < d.len() && d[from].0 != key {
        lemma_key_pos(d, key, from + 1);
    }
}

/// The first position with a key is the only thing that [`key_pos`] can give.
pub proof fn lemma_key_pos_unique(d: DictV, key: Seq<char>, from: int, p: int)
    requires
        0 <= from <= p <= d.len(),
        p < d.len() ==> d[p].0 == key,
        forall|j: int| from <= j < p ==> (#[trigger] d[j]).0 != key,
    ensures
        key_pos(d, key, from) == p,
    decreases p - from,
{
    if from < p {
        lemma_key_pos_unique(d, key, from + 1, p);
    }
}

/// A key that was set is found with the value it was set to.
pub proof fn law_set_get(d: DictV, key: Seq<char>, value: ObjV)
    ensures
        dict_get(dict_set(d, key, value), key) == Some(value),
{
    lemma_key_pos(d, key, 0);
    lemma_key_pos_unique(dict_set(d, key, value), key, 0, key_pos(d, key, 0));
}

/// Setting one key leaves what every other key stands for as it was.
pub proof fn law_set_keeps_others(d: DictV, key: Seq<char>, value: ObjV, other: Seq<char>)
    requires
        other != key,
    ensures
        dict_get(dict_set(d, key, value), other) == dict_get(d, other),
{
    let e = dict_set(d, key, value);
    lemma_key_pos(d, key, 0);
    lemma_key_pos(d, other, 0);
    let p = key_pos(d, other, 0);
    if p < d.len() {
        lemma_key_pos_unique(e, other, 0, p);
    } else {
        lemma_key_pos_unique(e, other, 0, e.len() as int);
    }
}

/// Setting a key never makes a key occur twice.
pub proof fn law_set_keeps_distinct(d: DictV, key: Seq<char>, value: ObjV)
    requires
        distinct_keys(d),
    ensures
        distinct_keys(dict_set(d, key, value)),
{
    lemma_key_pos(d, key, 0);
}

/// An array's value, item by item.
pub broadcast proof fn lemma_array_view(v: Vec<Object>)
    ensures
        #[trigger] obj_view(Object::Array(v)) == ObjV::Array(objs_view(v@)),
{
    assert(obj_view(Object::Array(v))->Array_0 =~= objs_view(v@));
}

impl Clone for Object {
    fn clone(&self) -> (r: Object)
        ensures
            r@ == self@,
        decreases *self,
    {
        match self {
            Object::Null => Object::Null,
            Object::Bool(b) => Object::Bool(*b),
            Object::Integer(n) => Object::Integer(*n),
            Object::Real(x) => Object::Real(Real { text: clone_bytes(&x.text) }),
            Object::Name(s) => Object::Name(s.clone()),
            Object::LiteralString(b) => Object::LiteralString(clone_bytes(b)),
            Object::HexString(b) => Object::HexString(clone_bytes(b)),
            Object::Array(v) => {
                let mut out: Vec<Object> = Vec::new();
                let mut i: usize = 0;
                while i < v.len()
                    invariant
                        i <= v.len(),
                        out@.len() == i,
                        *self == Object::Array(*v),
                        forall|j: int| 0 <= j < i ==> #[trigger] out@[j]@ == v@[j]@,
                    decreases v.len() - i,
                {
                    proof {
                        assert(self->Array_0 == *v);
                        assert(decreases_to!(*self => *v));
                        assert(decreases_to!(*v => v[i as int]));
                    }
                    out.push(v[i].clone());
                    i = i + 1;
                }
                proof {
                    lemma_array_view(out);
                    lemma_array_view(*v);
                    assert(objs_view(out@) =~= objs_view(v@));
                }
                Object::Array(out)
            },
            Object::Dict(d) => Object::Dict(d.clone()),
            Object::Stream(s) => Object::Stream(s.clone()),
            Object::Reference(id) => Object::Reference(*id),
        }
    }
}

impl Clone for Dict {
    fn clone(&self) -> (r: Dict)
        ensures
            r@ == self@,
        decreases *self,
    {
        let mut out: Vec<(String, Object)> = Vec::new();
        let mut i: usize = 0;
        while i < self.entries.len()
            invariant
                i <= self.entries.len(),
                out@.len() == i,
                forall|j: int|
                    0 <= j < i ==> (#[trigger] out@[j]).0@ == self.entries@[j].0@ && out@[j].1@
                        == self.entries@[j].1@,
            decreases self.entries.len() - i,
        {
            let k: String = self.entries[i].0.clone();
            let v: Object = self.entries[i].1.clone();
            out.push((k, v));
            i = i + 1;
        }
        let r: Dict = Dict { entries: out };
        proof {
            assert(r@ =~= self@);
        }
        r
    }
}

impl Clone for Stream {
    fn clone(&self) -> (r: Stream)
        ensures
            r@ == self@,
        decreases *self,
    {
        Stream { dict: self.dict.clone(), data: clone_bytes(&self.data) }
    }
}

/// What an optional reference to an object stands for.
pub open spec fn opt_view(o: Option<&Object>) -> Option<ObjV> {
    match o {
        Some(v) => Some(v@),
        None => None,
    }
}

impl Default for Dict {
    /// The empty dictionary.
    fn default() -> (r: Dict)
        ensures
            r@ == Seq::<(Seq<char>, ObjV)>::empty(),
    {
        Dict::new()
    }
}

impl Dict {
    /// The empty dictionary.
    pub fn new() -> (r: Dict)
        ensures
            r@ == Seq::<(Seq<char>, ObjV)>::empty(),
    {
        let r: Dict = Dict { entries: Vec::new() };
        proof {
            assert(r@ =~= Seq::<(Seq<char>, ObjV)>::empty());
        }
        r
    }

    /// The entries in file order.
    pub fn entries(&self) -> (r: &Vec<(String, Object)>)
        ensures
            *r == self.entries,
    {
        &self.entries
    }

    /// The value of the first entry with key `key`.
    pub fn get(&self, key: &str) -> (r: Option<&Object>)
        ensures
            opt_view(r) == dict_get(self@, key@),
            r matches Some(o) ==> decreases_to!(*self => *o),
    {
        let mut i: usize = 0;
        while i < self.entries.len()
            invariant
                i <= self.entries.len(),
                key_pos(self@, key@, 0) == key_pos(self@, key@, i as int),
            decreases self.entries.len() - i,
        {
            if same_text(self.entries[i].0.as_str(), key) {
                proof {
                    assert(decreases_to!(self.entries => self.entries[i as int]));
                }
                return Some(&self.entries[i].1);
            }
            i = i + 1;
        }
        None
    }

    /// Let `key` stand for `value`: replace the first entry with that key, or
    /// add one at the end.
    pub fn set(&mut self, key: &str, value: Object)
        ensures
            final(self)@ == dict_set(old(self)@, key@, value@),
    {
        let ghost before = self@;
        let mut i: usize = 0;
        while i < self.entries.len()
            invariant
                i <= self.entries.len(),
                self@ == before,
                before == old(self)@,
                key_pos(before, key@, 0) == key_pos(before, key@, i as int),
            decreases self.entries.len() - i,
        {
            if same_text(self.entries[i].0.as_str(), key) {
                proof {
                    assert(before[i as int].0 == key@);
                }
                self.entries[i].1 = value;
                proof {
                    assert(self@ =~= before.update(i as int, (key@, value@)));
                }
                return;
            }
            i = i + 1;
        }
        self.entries.push((key.to_owned(), value));
        proof {
            assert(self@ =~= before.push((key@, value@)));
        }
    }

    /// The dictionary in which `key` stands for `value`.
    pub fn with(self, key: &str, value: Object) -> (r: Dict)
        ensures
            r@ == dict_set(self@, key@, value@),
    {
        let mut d: Dict = self;
        d.set(key, value);
        d
    }
}

impl Stream {
    /// A stream with the given dictionary and data.
    pub fn new(dict: Dict, data: Vec<u8>) -> (r: Stream)
        ensures
            r == (Stream { dict, data }),
    {
        Stream { dict, data }
    }
}

/// A copy of a byte string.
pub(crate) fn clone_bytes(b: &Vec<u8>) -> (r: Vec<u8>)
    ensures
        r@ == b@,
{
    vstd::slice::slice_to_vec(b.as_slice())
}

} // verus!
