//! The table of variables and functions in scope, an `FxHashMap` keyed by name.
use vstd::prelude::*;
use rustc_hash::FxBuildHasher;
use rustc_hash::FxHashMap;

use crate::types::{Type, TypeV};

verus! {

#[verifier::external_type_specification]
#[verifier::external_body]
pub struct ExFxBuildHasher(FxBuildHasher);

/// What the code generator knows of a name: its type, and for a variable (not a
/// function) its offset below the frame pointer.
#[derive(Debug)]
pub struct Var {
    pub var_type: Type,
    pub stack_offset: Option<u32>,
}

/// Mathematical model of a [`Var`].
pub struct VarV {
    pub var_type: TypeV,
    pub stack_offset: Option<u32>,
}

impl View for Var {
    type V = VarV;

    open spec fn view(&self) -> VarV {
        VarV { var_type: self.var_type@, stack_offset: self.stack_offset }
    }
}

/// The entries of a variable table, by the characters of each name.
pub uninterp spec fn var_table(m: FxHashMap<String, Var>) -> Map<Seq<char>, VarV>;

/// The table with no entries.
pub open spec fn no_vars() -> Map<Seq<char>, VarV> {
    Map::empty()
}

/// `FxHashMap::default`: an empty table.
#[verifier::external_body]
pub(crate) fn var_table_new() -> (r: FxHashMap<String, Var>)
    ensures
        var_table(r) == no_vars(),
{
    FxHashMap::default()
}

/// `HashMap::get` with a `&str` key: the entry of the name `k`, if there is one.
/// (`String` keys are equal and hash alike exactly when their characters are equal.)
#[verifier::external_body]
pub(crate) fn var_table_get<'a>(m: &'a FxHashMap<String, Var>, k: &str) -> (r: Option<&'a Var>)
    ensures
        match r {
            Some(v) => var_table(*m).contains_key(k@) && v@ == var_table(*m)[k@],
            None => !var_table(*m).contains_key(k@),
        },
{
    m.get(k)
}

/// `HashMap::insert`: the entry of the name `k` becomes `v`, the others stay.
#[verifier::external_body]
pub(crate) fn var_table_insert(m: &mut FxHashMap<String, Var>, k: String, v: Var)
    ensures
        var_table(*final(m)) == var_table(*old(m)).insert(k@, v@),
{
    m.insert(k, v);
}

/// `HashMap::remove` with a `&str` key: the entry of the name `k` goes, the others stay.
#[verifier::external_body]
pub(crate) fn var_table_remove(m: &mut FxHashMap<String, Var>, k: &str)
    ensures
        var_table(*final(m)) == var_table(*old(m)).remove(k@),
{
    m.remove(k);
}

} // verus!
