//! A cursor field together with the stage it belongs to.

use vstd::prelude::*;
use crate::config::FifoTag;
use crate::field::Field;

verus! {

/// The cursor `inner` of stage `tag`.
pub struct WideField<Tag: FifoTag> {
    inner: Field,
    tag: Tag,
}

impl<Tag: FifoTag> Clone for WideField<Tag> {
    fn clone(&self) -> (copy: Self)
        ensures
            copy == *self,
    {
        Self { inner: self.inner, tag: self.tag }
    }
}

impl<Tag: FifoTag> Copy for WideField<Tag> {

}

impl<Tag: FifoTag> WideField<Tag> {
    /// The cursor.
    pub closed spec fn field(self) -> Field {
        self.inner
    }

    /// The stage.
    pub closed spec fn stage_tag(self) -> Tag {
        self.tag
    }

    pub fn from_parts(field: Field, tag: Tag) -> (wide: Self)
        ensures
            wide.field() == field,
            wide.stage_tag() == tag,
    {
        Self { inner: field, tag }
    }

    pub fn get_field(&self) -> (field: Field)
        ensures
            field == self.field(),
    {
        self.inner
    }

    pub fn get_tag(&self) -> (tag: Tag)
        ensures
            tag == self.stage_tag(),
    {
        self.tag
    }
}

} // verus!
