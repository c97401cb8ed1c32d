use vstd::prelude::*;

verus! {

/// What a link record holds, as mathematical values: its destination and
/// how many times it was resolved.
pub ghost struct LinkModel {
    pub url: Seq<char>,
    pub count: int,
}

/// One row of the link table.
pub struct Link {
    /// Assigned by the table on creation; never changes afterwards.
    pub id: i32,
    /// The destination, exactly as the client supplied it.
    pub link: String,
    /// How many times the link was resolved.
    pub count: i32,
}

impl Link {
    /// The record without its identifier.
    pub open spec fn model(&self) -> LinkModel {
        LinkModel { url: self.link@, count: self.count as int }
    }

    /// Builds a record from its three fields.
    pub fn new(id: i32, link: String, count: i32) -> (r: Link)
        ensures
            r.id == id,
            r.link@ == link@,
            r.count == count,
    {
        Link { id, link, count }
    }

    /// A field-by-field copy of the record.
    pub fn duplicate(&self) -> (r: Link)
        ensures
            r.id == self.id,
            r.link@ == self.link@,
            r.count == self.count,
    {
        Link { id: self.id, link: self.link.clone(), count: self.count }
    }
}

} // verus!
