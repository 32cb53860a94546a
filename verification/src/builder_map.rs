//! Column builders by the names of their columns.

use crate::builder::{builder_store, ColumnBuilder};
use crate::json::JsonValue;
use crate::named_map::NamedMap;
use crate::store::Store;
use crate::types::DataType;
use crate::values::{append_step, append_value_to_builder, optional, stepped, Halt};
use vstd::prelude::*;

verus! {

/// Column builders by the names of their columns.
pub struct BuilderMap {
    builders: NamedMap<ColumnBuilder>,
}

impl BuilderMap {
    /// The cells that each builder has taken.
    pub closed spec fn view(&self) -> Map<Seq<char>, Store> {
        self.builders@.map_values(|b: ColumnBuilder| builder_store(b))
    }

    /// No name has two builders.
    pub closed spec fn wf(&self) -> bool {
        self.builders.wf()
    }

    /// No builders.
    pub fn new() -> (r: BuilderMap)
        ensures
            r.wf(),
            r@ == Map::<Seq<char>, Store>::empty(),
    {
        let r = BuilderMap { builders: NamedMap::new() };
        assert(r@ =~= Map::<Seq<char>, Store>::empty());
        r
    }

    /// Puts a builder in, in place of the one with its name.
    pub fn insert(&mut self, name: String, builder: ColumnBuilder)
        requires
            old(self).wf(),
        ensures
            final(self).wf(),
            final(self)@ == old(self)@.insert(name@, builder_store(builder)),
    {
        let ghost before = self@;
        self.builders.insert(name, builder);
        assert(self@ =~= before.insert(name@, builder_store(builder)));
    }

    /// Takes a builder out.
    pub fn remove(&mut self, name: &str) -> (r: Option<ColumnBuilder>)
        requires
            old(self).wf(),
        ensures
            final(self).wf(),
            match r {
                Some(b) => old(self)@.contains_key(name@) && builder_store(b)
                    == old(self)@[name@] && final(self)@ == old(self)@.remove(name@),
                None => !old(self)@.contains_key(name@) && final(self)@ == old(self)@,
            },
    {
        let ghost before = self@;
        let r = self.builders.remove(name);
        assert(r is Some ==> self@ =~= before.remove(name@));
        r
    }

    /// Appends a value to the builder of a name, where there is one.
    pub fn append(&mut self, name: &str, value: Option<&JsonValue>, data_type: &DataType) -> (r:
        Result<(), Halt>)
        requires
            old(self).wf(),
        ensures
            final(self).wf(),
            if old(self)@.contains_key(name@) {
                &&& stepped(
                    append_step(old(self)@[name@], optional(value), data_type@),
                    r,
                    final(self)@[name@],
                )
                &&& final(self)@ == old(self)@.insert(name@, final(self)@[name@])
            } else {
                r is Ok && final(self)@ == old(self)@
            },
    {
        let ghost before = self@;
        match self.remove(name) {
            Some(builder) => {
                let mut builder = builder;
                let r = append_value_to_builder(&mut builder, value, data_type);
                self.insert(name.to_owned(), builder);
                assert(self@ =~= before.insert(name@, self@[name@]));
                r
            },
            None => Ok(()),
        }
    }
}

} // verus!
