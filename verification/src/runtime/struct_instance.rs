//! Values of structs.

use crate::ast::raw_value::RawValue;
use crate::ast::raw_value::RawView;
use crate::runtime::instance::fields_view;
use crate::runtime::instance::members_view;
use crate::runtime::instance::Instance;
use crate::text::same_text;
use vstd::prelude::*;

verus! {

/// A value of a struct: the struct by its number, and its raw fields by
/// name.
#[derive(Debug)]
pub struct StructInstance {
    pub strukt: usize,
    pub fields: Vec<(String, RawValue)>,
}

/// The raw value of the last field of the given name.
pub open spec fn field_named(fields: Seq<(Seq<char>, RawView)>, name: Seq<char>) -> Option<RawView>
    decreases fields.len(),
{
    if fields.len() == 0 {
        None
    } else if fields.last().0 == name {
        Some(fields.last().1)
    } else {
        field_named(fields.drop_last(), name)
    }
}

/// The raw fields as values.
pub open spec fn fields_as_members(fields: Seq<(Seq<char>, RawView)>) -> Seq<
    (Seq<char>, crate::runtime::instance::InstanceView),
> {
    Seq::new(
        fields.len(),
        |i: int| (fields[i].0, crate::runtime::instance::InstanceView::Raw(fields[i].1)),
    )
}

impl StructInstance {
    pub fn new(strukt: usize, fields: Vec<(String, RawValue)>) -> (r: Self)
        ensures
            r.strukt == strukt,
            r.fields == fields,
    {
        Self { strukt, fields }
    }

    /// The number of the struct.
    pub fn strukt(&self) -> (r: usize)
        ensures
            r == self.strukt,
    {
        self.strukt
    }

    /// The raw value of the field of the given name, if there is one.
    pub fn field(&self, name: &str) -> (r: Option<&RawValue>)
        ensures
            match r {
                Some(value) => field_named(fields_view(self.fields@), name@) == Some(value@),
                None => field_named(fields_view(self.fields@), name@) is None,
            },
    {
        let mut i: usize = self.fields.len();
        assert(fields_view(self.fields@).subrange(0, i as int) == fields_view(self.fields@));
        while i > 0
            invariant
                i <= self.fields.len(),
                field_named(fields_view(self.fields@), name@) == field_named(
                    fields_view(self.fields@).subrange(0, i as int),
                    name@,
                ),
            decreases i,
        {
            i -= 1;
            assert(fields_view(self.fields@).subrange(0, i + 1).drop_last() == fields_view(
                self.fields@,
            ).subrange(0, i as int));
            if same_text(self.fields[i].0.as_str(), name) {
                return Some(&self.fields[i].1);
            }
        }
        None
    }

    /// The fields as values, by name.
    pub fn fields(&self) -> (r: Vec<(String, Instance)>)
        ensures
            members_view(r@) == fields_as_members(fields_view(self.fields@)),
    {
        let mut out: Vec<(String, Instance)> = Vec::new();
        let mut i: usize = 0;
        while i < self.fields.len()
            invariant
                i <= self.fields.len(),
                out@.len() == i,
                forall|k: int|
                    0 <= k < i ==> (#[trigger] out@[k]).0@ == self.fields@[k].0@ && out@[k].1@
                        == crate::runtime::instance::InstanceView::Raw(self.fields@[k].1@),
            decreases self.fields.len() - i,
        {
            out.push((self.fields[i].0.clone(), Instance::Raw(self.fields[i].1.duplicate())));
            i += 1;
        }
        proof {
            crate::runtime::instance::lemma_members_view(out@);
            assert(members_view(out@) =~= fields_as_members(fields_view(self.fields@)));
        }
        out
    }
}

} // verus!
