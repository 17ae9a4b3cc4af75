//! The cross-reference table: where each object of a file is found.

use std::collections::HashMap;
use vstd::prelude::*;
use crate::error::PdfError;
use crate::objects::{dict_get, Dict, DictV, ObjV, Object, ObjectId};

verus! {

broadcast use vstd::std_specs::hash::group_hash_axioms;

/// Where an object is found.
#[derive(Clone, Copy, Debug, PartialEq, Eq, Structural)]
pub enum XrefEntry {
    /// Nowhere: the number is not in use.
    Free,
    /// At a byte offset of the file.
    InUse { offset: u64, generation: u16 },
    /// In an object stream.
    Compressed { obj_stream_id: u32, index_within_stream: u32 },
}

/// A cross-reference table, by object number, and the trailer dictionary.
pub struct XrefTable {
    pub entries: HashMap<u32, XrefEntry>,
    pub trailer: Dict,
}

/// A cross-reference table as a mathematical value.
pub struct XrefV {
    pub entries: Map<u32, XrefEntry>,
    pub trailer: DictV,
}

impl View for XrefTable {
    type V = XrefV;

    open spec fn view(&self) -> XrefV {
        XrefV { entries: self.entries@, trailer: self.trailer@ }
    }
}

impl XrefV {
    /// The entry of an object number.
    pub open spec fn entry(self, number: u32) -> Option<XrefEntry> {
        if self.entries.contains_key(number) {
            Some(self.entries[number])
        } else {
            None
        }
    }

    /// The byte offset of an object outside object streams.
    pub open spec fn offset(self, id: ObjectId) -> Option<u64> {
        match self.entry(id.number) {
            Some(XrefEntry::InUse { offset, generation }) => if generation == id.generation {
                Some(offset)
            } else {
                None
            },
            _ => None,
        }
    }

    /// The object lies in an object stream.
    pub open spec fn is_compressed(self, number: u32) -> bool {
        self.entry(number) matches Some(XrefEntry::Compressed { .. })
    }

    /// The catalogue's object.
    pub open spec fn root(self) -> Result<ObjectId, Seq<char>> {
        match dict_get(self.trailer, "Root"@) {
            Some(ObjV::Reference(id)) => Ok(id),
            _ => Err("PDF xref: trailer /Root must be an indirect reference"@),
        }
    }

    /// The information dictionary's object.
    pub open spec fn info(self) -> Option<ObjectId> {
        match dict_get(self.trailer, "Info"@) {
            Some(ObjV::Reference(id)) => Some(id),
            _ => None,
        }
    }
}

impl XrefTable {
    /// A table without entries.
    pub fn new(trailer: Dict) -> (r: XrefTable)
        ensures
            r@.entries == Map::<u32, XrefEntry>::empty(),
            r@.trailer == trailer@,
    {
        XrefTable { entries: HashMap::new(), trailer }
    }

    /// The entry of an object number.
    pub fn entry(&self, number: u32) -> (r: Option<XrefEntry>)
        ensures
            r == self@.entry(number),
    {
        match self.entries.get(&number) {
            Some(e) => Some(*e),
            None => None,
        }
    }

    /// The byte offset of an object outside object streams.
    pub fn offset_of(&self, id: ObjectId) -> (r: Option<u64>)
        ensures
            r == self@.offset(id),
    {
        match self.entry(id.number) {
            Some(XrefEntry::InUse { offset, generation }) => if generation == id.generation {
                Some(offset)
            } else {
                None
            },
            _ => None,
        }
    }

    /// The object lies in an object stream.
    pub fn is_compressed(&self, number: u32) -> (r: bool)
        ensures
            r == self@.is_compressed(number),
    {
        match self.entry(number) {
            Some(XrefEntry::Compressed { obj_stream_id, index_within_stream }) => true,
            _ => false,
        }
    }

    /// The catalogue's object.
    pub fn root(&self) -> (r: Result<ObjectId, PdfError>)
        ensures
            match r {
                Ok(id) => self@.root() == Ok::<ObjectId, Seq<char>>(id),
                Err(e) => self@.root() == Err::<ObjectId, Seq<char>>(e@),
            },
    {
        match self.trailer.get("Root") {
            Some(Object::Reference(id)) => Ok(*id),
            _ => Err(PdfError::other("PDF xref: trailer /Root must be an indirect reference")),
        }
    }

    /// The information dictionary's object.
    pub fn info(&self) -> (r: Option<ObjectId>)
        ensures
            r == self@.info(),
    {
        match self.trailer.get("Info") {
            Some(Object::Reference(id)) => Some(*id),
            _ => None,
        }
    }
}

} // verus!
