//! Symbols, their sorts and their sort tables.
use vstd::prelude::*;

verus! {

/// An interned string, held by its number in the interning table.
#[derive(Copy, Clone, PartialEq, Eq, Debug)]
pub struct IString {
    pub id: u32,
}

impl IString {
    /// The hash of an interned string is its interning number.
    pub fn get_hash(&self) -> (r: u32)
        ensures
            r == self.id,
    {
        self.id
    }
}

/// Index of the unknown sort.
pub const SORT_UNKNOWN: i32 = -1;

/// Index of the error ("kind") sort of a connected component.
pub const SORT_ERROR: i32 = 0;

/// A sort: its index in its connected component and the set of sort indices below it.
pub struct Sort {
    pub sort_index: i32,
    /// `leq_sorts[i]` holds when sort `i` is less than or equal to this sort.
    pub leq_sorts: Vec<bool>,
    /// Whether the fast test on sort indices suffices to decide that a sort lies below this one.
    pub fast_geq_sufficient: bool,
    /// Whether this is the one maximal sort of an error free component.
    pub error_free_maximal: bool,
}

/// Whether the sort with index `index` lies below `sort`.
pub open spec fn index_leq_sort(index: int, sort: Sort) -> bool {
    0 <= index < sort.leq_sorts@.len() && sort.leq_sorts@[index]
}

impl Sort {
    /// Another sort value with the same index and the same sorts below it.
    pub fn duplicate(&self) -> (r: Sort)
        ensures
            r.sort_index == self.sort_index,
            r.leq_sorts@ == self.leq_sorts@,
            r.fast_geq_sufficient == self.fast_geq_sufficient,
            r.error_free_maximal == self.error_free_maximal,
    {
        let r = Sort {
            sort_index: self.sort_index,
            leq_sorts: self.leq_sorts.clone(),
            fast_geq_sufficient: self.fast_geq_sufficient,
            error_free_maximal: self.error_free_maximal,
        };
        assert(r.leq_sorts@ =~= self.leq_sorts@);
        r
    }

    /// Whether the sort with index `index` lies below this sort.
    pub fn leq_index(&self, index: i32) -> (r: bool)
        ensures
            r == index_leq_sort(index as int, *self),
    {
        if index < 0 {
            return false;
        }
        let i = index as usize;
        if i < self.leq_sorts.len() {
            self.leq_sorts[i]
        } else {
            false
        }
    }
}

/// One declaration of an operator: the sorts of its arguments followed by its range.
pub type OpDeclaration = Vec<Sort>;

/// The sort information of a symbol: its declarations and the sort diagram that computes the
/// sort of an application from the sorts of the arguments.
pub struct SortTable {
    pub op_declarations: Vec<OpDeclaration>,
    pub sort_diagram: Vec<i32>,
    /// The connected component of the symbol's range, by its index in the signature.
    pub range_component: usize,
}

/// A connected component of sorts; sort 0 is its error sort.
pub struct ConnectedComponent {
    pub sorts: Vec<Sort>,
}

impl SortTable {
    /// One step through the sort diagram: the entry at `position + sort_index`.
    pub fn traverse(&self, position: usize, sort_index: usize) -> (r: i32)
        requires
            position + sort_index < self.sort_diagram@.len(),
        ensures
            r == self.sort_diagram@[position + sort_index],
    {
        let len = self.sort_diagram.len();
        assert(position + sort_index < len);
        self.sort_diagram[position + sort_index]
    }
}

/// Value of an index that is not set.
pub const NONE: i32 = -1;

/// Value of a quantity that has not been computed.
pub const UNDEFINED: i32 = -1;

/// The members that every symbol has.
pub struct SymbolMembers {
    pub name: IString,
    /// Unique number for comparing symbols, also called order.
    pub hash_value: u32,
    /// Slow case: 0, fast case: -1, positive for symbols that only produce one sort.
    pub unique_sort_index: i32,
    /// For fast matching.
    pub match_index: u32,
    pub arity: u32,
    pub memo_flag: bool,
    pub sort_table: SortTable,
    pub index_within_parent_module: i32,
    /// Whether this is a variable symbol.
    pub is_variable: bool,
    /// Whether the symbol has no sort constraints.
    pub sort_constraint_free: bool,
}

/// The hash of a symbol: the name's hash with the arity in the bits from 24 up.
pub open spec fn symbol_hash(name_hash: u32, arity: u32) -> u32 {
    name_hash | (arity << 24u32)
}

impl SymbolMembers {
    /// A symbol with the given name, arity and memo flag; its hash is computed once, here.
    pub fn new(name: IString, arity: u32, memo_flag: bool) -> (r: SymbolMembers)
        ensures
            r.name == name,
            r.arity == arity,
            r.memo_flag == memo_flag,
            r.hash_value == symbol_hash(name.id, arity),
            r.unique_sort_index == UNDEFINED,
            r.match_index == 0,
            r.index_within_parent_module == NONE,
            r.sort_table.op_declarations@.len() == 0,
            r.sort_table.sort_diagram@.len() == 0,
            r.sort_table.range_component == 0,
            !r.is_variable,
            r.sort_constraint_free,
    {
        let mut new_symbol = SymbolMembers {
            name,
            hash_value: 0,
            unique_sort_index: UNDEFINED,
            match_index: 0,
            arity,
            memo_flag,
            sort_table: SortTable { op_declarations: Vec::new(), sort_diagram: Vec::new(), range_component: 0 },
            index_within_parent_module: NONE,
            is_variable: false,
            sort_constraint_free: true,
        };
        new_symbol.hash_value = new_symbol.compute_hash();
        new_symbol
    }

    /// The name's hash OR'ed with the arity shifted to the top byte.
    pub fn compute_hash(&self) -> (r: u32)
        ensures
            r == symbol_hash(self.name.id, self.arity),
    {
        self.name.get_hash() | (self.arity << 24u32)
    }

    /// The semantic hash, used to order symbols.
    pub fn semantic_hash(&self) -> (r: u32)
        ensures
            r == self.hash_value,
    {
        self.hash_value
    }

    /// Records the module that owns this symbol and the symbol's index in it.
    pub fn set_module_information(&mut self, index_within_module: i32)
        ensures
            final(self).index_within_parent_module == index_within_module,
            final(self).hash_value == old(self).hash_value,
            final(self).arity == old(self).arity,
            final(self).is_variable == old(self).is_variable,
            final(self).name == old(self).name,
    {
        self.index_within_parent_module = index_within_module;
    }
}

/// A variable symbol: a symbol with exactly one declaration, of exactly one sort.
pub struct VariableSymbol {
    pub symbol_members: SymbolMembers,
}

impl VariableSymbol {
    /// The sort of the variable: the one sort of its one declaration.
    pub fn sort(&self) -> (r: &Sort)
        requires
            self.symbol_members.sort_table.op_declarations@.len() == 1,
            self.symbol_members.sort_table.op_declarations@[0]@.len() == 1,
        ensures
            *r == self.symbol_members.sort_table.op_declarations@[0]@[0],
    {
        let s = &self.symbol_members.sort_table.op_declarations;
        let v = &s[0];
        &v[0]
    }
}

} // verus!
