//! One tracked file: its content identifier, when it was created and last
//! updated, and free-form metadata.

use vstd::prelude::*;
use crate::content_id::ContentId;

verus! {

/// The update time after a change at `now`: never earlier than the last
/// one, so update times do not decrease even when the clock goes back.
pub open spec fn later(last: i64, now: i64) -> i64 {
    if now > last {
        now
    } else {
        last
    }
}

/// The metadata of an object that was never tagged: JSON `null`.
pub open spec fn null_metadata() -> Seq<char> {
    seq!['n', 'u', 'l', 'l']
}

pub struct ObjectView {
    pub cid: Seq<u8>,
    pub created_at: i64,
    pub updated_at: i64,
    pub metadata: Seq<char>,
}

/// A tracked file. Times are milliseconds since the Unix epoch; metadata is
/// JSON text.
#[derive(Debug)]
pub struct Object {
    pub cid: ContentId,
    pub created_at: i64,
    pub updated_at: i64,
    pub metadata: String,
}

impl View for Object {
    type V = ObjectView;

    open spec fn view(&self) -> ObjectView {
        ObjectView {
            cid: self.cid@,
            created_at: self.created_at,
            updated_at: self.updated_at,
            metadata: self.metadata@,
        }
    }
}

impl Object {
    /// A new object for content `cid`, created at `now`.
    pub fn new(cid: ContentId, now: i64) -> (r: Object)
        ensures
            r@ == (ObjectView { cid: cid@, created_at: now, updated_at: now, metadata: null_metadata() }),
    {
        let metadata = "null".to_owned();
        proof {
            reveal_strlit("null");
        }
        assert(metadata@ =~= null_metadata());
        Object { cid, created_at: now, updated_at: now, metadata }
    }

    /// Points the object at new content, changed at `now`; creation time and
    /// metadata are kept, and the update time does not decrease.
    pub fn update(&mut self, cid: ContentId, now: i64)
        ensures
            final(self)@ == (ObjectView { cid: cid@, updated_at: later(old(self).updated_at, now), ..old(self)@ }),
            final(self).updated_at >= old(self).updated_at,
    {
        self.cid = cid;
        if now > self.updated_at {
            self.updated_at = now;
        }
    }

    pub fn cid(&self) -> (r: &ContentId)
        ensures
            r@ == self.cid@,
    {
        &self.cid
    }

    /// Replaces the metadata, changed at `now`; the update time does not
    /// decrease.
    pub fn set_metdata(&mut self, metadata: String, now: i64)
        ensures
            final(self)@ == (ObjectView { metadata: metadata@, updated_at: later(old(self).updated_at, now), ..old(self)@ }),
            final(self).updated_at >= old(self).updated_at,
    {
        self.metadata = metadata;
        if now > self.updated_at {
            self.updated_at = now;
        }
    }

    pub fn same(&self, other: &Object) -> (r: bool)
        ensures
            r == (self@ == other@),
    {
        self.cid.same(&other.cid) && self.created_at == other.created_at
            && self.updated_at == other.updated_at && self.metadata == other.metadata
    }
}

impl Clone for Object {
    fn clone(&self) -> (r: Object)
        ensures
            r@ == self@,
    {
        Object {
            cid: self.cid.clone(),
            created_at: self.created_at,
            updated_at: self.updated_at,
            metadata: self.metadata.clone(),
        }
    }
}

impl PartialEq for Object {
    fn eq(&self, other: &Object) -> (r: bool) {
        self.same(other)
    }
}

impl vstd::std_specs::cmp::PartialEqSpecImpl for Object {
    open spec fn obeys_eq_spec() -> bool {
        true
    }

    open spec fn eq_spec(&self, other: &Object) -> bool {
        self@ == other@
    }
}

impl Eq for Object {
}

} // verus!
