//! The operator registry and its interner: operator descriptors looked up by
//! dense id and by interned surface symbol, plus the built-in operator set.

use std::collections::HashMap;
use vstd::arithmetic::power2::pow2;
use vstd::prelude::*;

use crate::ast::{Name, OpId};
use crate::interner::{interner_strings, spec_intern, spec_resolve, Interner};
use crate::truth_table::TruthTable;

verus! {

broadcast use vstd::seq::group_seq_axioms, vstd::std_specs::hash::group_hash_axioms;

/// An operator descriptor: dense id, arity, surface symbol and semantic truth
/// table.
pub struct OpDesc {
    pub id: OpId,
    pub arity: u16,
    pub symbol: String,
    pub table: TruthTable,
}

/// The model of an operator descriptor.
pub struct OpDescV {
    pub id: OpId,
    pub arity: u16,
    pub symbol: Seq<char>,
    pub table: Seq<bool>,
}

impl View for OpDesc {
    type V = OpDescV;

    open spec fn view(&self) -> OpDescV {
        OpDescV { id: self.id, arity: self.arity, symbol: self.symbol@, table: self.table@ }
    }
}

impl OpDesc {
    /// A copy with the same model.
    pub fn clone_desc(&self) -> (r: OpDesc)
        ensures
            r@ == self@,
    {
        OpDesc {
            id: self.id,
            arity: self.arity,
            symbol: self.symbol.clone(),
            table: self.table.clone_table(),
        }
    }
}

/// The descriptor store: two constant-time lookup paths — by operator id and
/// by interned symbol — over one append-only interner.
pub struct AstMeta {
    op_desc_by_id: HashMap<OpId, OpDesc>,
    op_desc_by_symbol: HashMap<Name, OpDesc>,
    interner: Interner,
}

impl AstMeta {
    /// The descriptors by operator id.
    pub closed spec fn ids(&self) -> Map<OpId, OpDescV> {
        self.op_desc_by_id@.map_values(|d: OpDesc| d@)
    }

    /// The descriptors by interned symbol handle.
    pub closed spec fn syms(&self) -> Map<Name, OpDescV> {
        self.op_desc_by_symbol@.map_values(|d: OpDesc| d@)
    }

    /// The interned strings, in handle order.
    pub closed spec fn strs(&self) -> Seq<Seq<char>> {
        interner_strings(self.interner)
    }

    /// Room for at least one more interned name.
    pub open spec fn can_intern(&self) -> bool {
        self.strs().len() < u32::MAX as nat
    }

    /// An empty registry: no descriptors, no interned names.
    pub fn new() -> (r: Self)
        ensures
            r.ids() == Map::<OpId, OpDescV>::empty(),
            r.syms() == Map::<Name, OpDescV>::empty(),
            r.strs() == Seq::<Seq<char>>::empty(),
    {
        let r = AstMeta {
            op_desc_by_id: HashMap::new(),
            op_desc_by_symbol: HashMap::new(),
            interner: Interner::new(),
        };
        proof {
            assert(r.ids() =~= Map::<OpId, OpDescV>::empty());
            assert(r.syms() =~= Map::<Name, OpDescV>::empty());
        }
        r
    }

    /// Whether another name can still be interned; callers that cannot meet
    /// the preconditions below test this first.
    pub fn has_intern_room(&self) -> (r: bool)
        ensures
            r == self.can_intern(),
    {
        self.interner.len() < u32::MAX as usize
    }

    /// Registers a descriptor under both its id and its interned symbol.
    /// Re-adding an id or symbol replaces the earlier entry; the built-in
    /// setup never does so.
    pub fn add_op_desc(&mut self, desc: OpDesc)
        requires
            old(self).can_intern(),
        ensures
            final(self).ids() == old(self).ids().insert(desc.id, desc@),
            final(self).strs() == spec_intern(old(self).strs(), desc.symbol@).1,
            final(self).syms() == old(self).syms().insert(
                spec_intern(old(self).strs(), desc.symbol@).0 as Name,
                desc@,
            ),
    {
        let ghost dv = desc@;
        let copy = desc.clone_desc();
        let sym = self.interner.get_or_intern(copy.symbol.as_str());
        self.op_desc_by_id.insert(desc.id, desc);
        self.op_desc_by_symbol.insert(sym, copy);
        proof {
            assert(self.ids() =~= old(self).ids().insert(dv.id, dv));
            assert(self.syms() =~= old(self).syms().insert(
                spec_intern(old(self).strs(), dv.symbol).0 as Name,
                dv,
            ));
        }
    }

    /// The descriptor registered under an operator id.
    pub fn get_op_desc_with_id(&self, id: OpId) -> (r: Option<&OpDesc>)
        ensures
            self.ids().contains_key(id) ==> r is Some && r->0@ == self.ids()[id],
            !self.ids().contains_key(id) ==> r is None,
    {
        self.op_desc_by_id.get(&id)
    }

    /// The descriptor registered under an interned symbol handle.
    pub fn get_op_desc_with_symbol(&self, symbol: Name) -> (r: Option<&OpDesc>)
        ensures
            self.syms().contains_key(symbol) ==> r is Some && r->0@ == self.syms()[symbol],
            !self.syms().contains_key(symbol) ==> r is None,
    {
        self.op_desc_by_symbol.get(&symbol)
    }

    /// Interns a string, per [`spec_intern`]: equal strings always receive
    /// equal handles, and a handle never changes once issued.
    pub fn get_or_intern(&mut self, s: &str) -> (r: Name)
        requires
            old(self).can_intern(),
        ensures
            r as int == spec_intern(old(self).strs(), s@).0,
            final(self).strs() == spec_intern(old(self).strs(), s@).1,
            final(self).ids() == old(self).ids(),
            final(self).syms() == old(self).syms(),
    {
        self.interner.get_or_intern(s)
    }

    /// Interns a string if room is left, else returns `None` and changes
    /// nothing.
    pub fn try_get_or_intern(&mut self, s: &str) -> (r: Option<Name>)
        ensures
            old(self).can_intern() ==> r is Some && r->0 as int == spec_intern(
                old(self).strs(),
                s@,
            ).0 && final(self).strs() == spec_intern(old(self).strs(), s@).1,
            !old(self).can_intern() ==> r is None && final(self).strs() == old(self).strs(),
            final(self).ids() == old(self).ids(),
            final(self).syms() == old(self).syms(),
    {
        if self.has_intern_room() {
            Some(self.get_or_intern(s))
        } else {
            None
        }
    }

    /// Resolves a handle to its string, per [`spec_resolve`], or `None` for a
    /// handle never issued.
    pub fn resolve_name(&self, sym: Name) -> (r: Option<String>)
        ensures
            sym < u32::MAX && (sym as int) < self.strs().len() ==> r is Some && r->0@
                == spec_resolve(self.strs(), sym as int)->0,
            (sym as int) >= self.strs().len() ==> r is None,
    {
        self.interner.resolve(sym)
    }
}

/// The fixed ids of the built-in operators.
pub const AND_ID: OpId = 0;

pub const OR_ID: OpId = 1;

pub const NOT_ID: OpId = 2;

pub const IMPLIES_ID: OpId = 3;

pub const EQUIV_ID: OpId = 4;



/// A one-element assignment vector.
fn assignment1(a: bool) -> (r: Vec<bool>)
    ensures
        r@ =~= seq![a],
{
    let mut v: Vec<bool> = Vec::new();
    v.push(a);
    v
}

/// A two-element assignment vector.
fn assignment2(a: bool, b: bool) -> (r: Vec<bool>)
    ensures
        r@ =~= seq![a, b],
{
    let mut v: Vec<bool> = Vec::new();
    v.push(a);
    v.push(b);
    v
}

/// The addressed position of a one-input assignment.
proof fn lemma_spec_index1(a: bool)
    ensures
        crate::truth_table::spec_index(seq![a]) == if a {
            1nat
        } else {
            0nat
        },
{
    assert(seq![a].drop_first() =~= Seq::<bool>::empty());
    assert(crate::truth_table::spec_index(Seq::<bool>::empty()) == 0);
}

/// The addressed position of a two-input assignment.
proof fn lemma_spec_index2(a: bool, b: bool)
    ensures
        crate::truth_table::spec_index(seq![a, b]) == (if a {
            1nat
        } else {
            0nat
        }) + (if b {
            2nat
        } else {
            0nat
        }),
{
    assert(seq![a, b].drop_first() =~= seq![b]);
    lemma_spec_index1(b);
}

/// The truth table of conjunction: true only on (T, T).
pub fn and_table() -> (r: TruthTable)
    ensures
        r@ =~= seq![false, false, false, true],
{
    let mut t = table2();
    t.set(assignment2(true, true).as_slice(), true);
    proof {
        lemma_spec_index2(true, true);
    }
    t
}

/// The truth table of disjunction: false only on (F, F).
pub fn or_table() -> (r: TruthTable)
    ensures
        r@ =~= seq![false, true, true, true],
{
    let mut t = table2();
    t.set(assignment2(false, true).as_slice(), true);
    t.set(assignment2(true, false).as_slice(), true);
    t.set(assignment2(true, true).as_slice(), true);
    proof {
        lemma_spec_index2(false, true);
        lemma_spec_index2(true, false);
        lemma_spec_index2(true, true);
    }
    t
}

/// The truth table of implication: false only on (T, F).
pub fn implies_table() -> (r: TruthTable)
    ensures
        r@ =~= seq![true, false, true, true],
{
    let mut t = table2();
    t.set(assignment2(false, false).as_slice(), true);
    t.set(assignment2(false, true).as_slice(), true);
    t.set(assignment2(true, true).as_slice(), true);
    proof {
        lemma_spec_index2(false, false);
        lemma_spec_index2(false, true);
        lemma_spec_index2(true, true);
    }
    t
}

/// The truth table of equivalence: true on (F, F) and (T, T).
pub fn equiv_table() -> (r: TruthTable)
    ensures
        r@ =~= seq![true, false, false, true],
{
    let mut t = table2();
    t.set(assignment2(false, false).as_slice(), true);
    t.set(assignment2(true, true).as_slice(), true);
    proof {
        lemma_spec_index2(false, false);
        lemma_spec_index2(true, true);
    }
    t
}

/// The truth table of exclusive disjunction; defined for completeness, not
/// registered among the built-ins.
pub fn xor_table() -> (r: TruthTable)
    ensures
        r@ =~= seq![false, true, true, false],
{
    let mut t = table2();
    t.set(assignment2(false, true).as_slice(), true);
    t.set(assignment2(true, false).as_slice(), true);
    proof {
        lemma_spec_index2(false, true);
        lemma_spec_index2(true, false);
    }
    t
}

/// The truth table of negation: true only on (T).
pub fn not_table() -> (r: TruthTable)
    ensures
        r@ =~= seq![false, true],
{
    proof {
        vstd::arithmetic::power2::lemma2_to64();
    }
    let mut t = TruthTable::with_var_count(1);
    t.set(assignment1(true).as_slice(), true);
    proof {
        lemma_spec_index1(true);
        assert(t@ =~= seq![false, true]);
    }
    t
}

/// A fresh two-input all-false table.
fn table2() -> (r: TruthTable)
    ensures
        r@ =~= seq![false, false, false, false],
        r@.len() == pow2(2),
{
    proof {
        vstd::arithmetic::power2::lemma2_to64();
    }
    let t = TruthTable::with_var_count(2);
    proof {
        assert(t@ =~= seq![false, false, false, false]);
    }
    t
}

/// The built-in operator set, in registration order: `and`, `or`, `=>`,
/// `equiv`, `not`, with their fixed ids, arities and truth tables.
pub fn builtin_ops() -> (r: Vec<OpDesc>)
    ensures
        r@.len() == 5,
        r@[0]@.id == AND_ID && r@[0]@.arity == 2 && r@[0]@.symbol == "and"@ && r@[0]@.table
            =~= seq![false, false, false, true],
        r@[1]@.id == OR_ID && r@[1]@.arity == 2 && r@[1]@.symbol == "or"@ && r@[1]@.table
            =~= seq![false, true, true, true],
        r@[2]@.id == IMPLIES_ID && r@[2]@.arity == 2 && r@[2]@.symbol == "=>"@ && r@[2]@.table
            =~= seq![true, false, true, true],
        r@[3]@.id == EQUIV_ID && r@[3]@.arity == 2 && r@[3]@.symbol == "equiv"@ && r@[3]@.table
            =~= seq![true, false, false, true],
        r@[4]@.id == NOT_ID && r@[4]@.arity == 1 && r@[4]@.symbol == "not"@ && r@[4]@.table
            =~= seq![false, true],
{
    let mut ops: Vec<OpDesc> = Vec::new();
    ops.push(OpDesc { id: AND_ID, arity: 2, symbol: make_string("and"), table: and_table() });
    ops.push(OpDesc { id: OR_ID, arity: 2, symbol: make_string("or"), table: or_table() });
    ops.push(
        OpDesc { id: IMPLIES_ID, arity: 2, symbol: make_string("=>"), table: implies_table() },
    );
    ops.push(OpDesc { id: EQUIV_ID, arity: 2, symbol: make_string("equiv"), table: equiv_table() });
    ops.push(OpDesc { id: NOT_ID, arity: 1, symbol: make_string("not"), table: not_table() });
    ops
}

/// An owned copy of a string slice.
fn make_string(s: &str) -> (r: String)
    ensures
        r@ == s@,
{
    s.to_owned()
}

} // verus!
