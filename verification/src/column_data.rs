//! One cell of a spreadsheet row, with the attributes its tag carried.
use vstd::prelude::*;
use crate::keyed::TextMap;

verus! {

/// Attributes of a cell, by name.
pub type AttribMap = TextMap<String>;

/// One cell of a row: its text, the attributes of its tag, and a type tag.
#[derive(Clone)]
pub struct ColumnData {
    pub value: String,
    pub saved_attribs: AttribMap,
    pub type_of_data: String,
}

/// What a cell holds, as mathematical values.
pub struct ColumnDataView {
    pub value: Seq<char>,
    pub saved_attribs: Map<Seq<char>, Seq<char>>,
    pub type_of_data: Seq<char>,
}

impl View for ColumnData {
    type V = ColumnDataView;

    open spec fn view(&self) -> ColumnDataView {
        ColumnDataView {
            value: self.value@,
            saved_attribs: self.saved_attribs.as_map(),
            type_of_data: self.type_of_data@,
        }
    }
}

impl Default for ColumnData {
    /// An empty cell: no text, no attributes, no type tag.
    fn default() -> (c: Self)
        ensures
            c.wf(),
            c.value@ == Seq::<char>::empty(),
            c.saved_attribs.as_map() == Map::<Seq<char>, Seq<char>>::empty(),
            c.type_of_data@ == Seq::<char>::empty(),
    {
        ColumnData { value: String::new(), saved_attribs: AttribMap::new(), type_of_data: String::new() }
    }
}

impl ColumnData {
    /// The attribute map is well formed.
    pub open spec fn wf(&self) -> bool {
        self.saved_attribs.wf()
    }

    /// A cell with text `val` and attributes `val_type`, and an empty type tag.
    pub fn new(val: String, val_type: AttribMap) -> (c: Self)
        requires
            val_type.wf(),
        ensures
            c.wf(),
            c.value@ == val@,
            c.saved_attribs.as_map() == val_type.as_map(),
            c.type_of_data@ == Seq::<char>::empty(),
    {
        ColumnData { value: val, saved_attribs: val_type, type_of_data: String::new() }
    }

    /// How the cell is shown: its text alone.
    pub fn to_text(&self) -> (s: String)
        ensures
            s@ == self.value@,
    {
        self.value.clone()
    }

    /// Records attribute `attrib` with `value`, unless the cell already has
    /// that attribute, in which case nothing changes.
    pub fn add_attrib(&mut self, attrib: String, value: String)
        requires
            old(self).wf(),
        ensures
            final(self).wf(),
            final(self).value == old(self).value,
            final(self).type_of_data == old(self).type_of_data,
            final(self).saved_attribs.as_map() == if old(self).saved_attribs.as_map().contains_key(attrib@) {
                old(self).saved_attribs.as_map()
            } else {
                old(self).saved_attribs.as_map().insert(attrib@, value@)
            },
    {
        let kc = crate::text::chars_of(attrib.as_str());
        match self.saved_attribs.search(kc.as_slice()) {
            Ok(i) => {
                proof { self.saved_attribs.lemma_lookup(i as int); }
            },
            Err(i) => {
                self.saved_attribs.insert_at(i, attrib, value);
            },
        }
    }

    /// A copy of the cell.
    pub fn duplicate(&self) -> (c: Self)
        requires
            self.wf(),
        ensures
            c.wf(),
            c@ == self@,
    {
        ColumnData {
            value: self.value.clone(),
            saved_attribs: self.saved_attribs.duplicate(),
            type_of_data: self.type_of_data.clone(),
        }
    }
}

} // verus!
