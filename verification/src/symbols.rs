use vstd::prelude::*;
use vstd::hash_map::StringHashMap;
use crate::error::AsmError;

verus! {

/// The addresses of the labels of one program, by name. A name has one
/// address: it cannot be defined again.
pub struct SymbolTable {
    map: StringHashMap<usize>,
}

impl View for SymbolTable {
    type V = Map<Seq<char>, usize>;

    closed spec fn view(&self) -> Map<Seq<char>, usize> {
        self.map@
    }
}

impl SymbolTable {
    /// A table without any symbol.
    pub fn new() -> (r: SymbolTable)
        ensures
            r@ == Map::<Seq<char>, usize>::empty(),
    {
        SymbolTable { map: StringHashMap::new() }
    }

    /// Binds `name` to `address`, unless `name` is bound already: then the
    /// table stays as it is and the error says so.
    pub fn define(&mut self, name: &str, address: usize) -> (r: Result<(), AsmError>)
        ensures
            old(self)@.contains_key(name@) ==> r == Err::<(), AsmError>(
                AsmError::DuplicateSymbol,
            ) && final(self)@ == old(self)@,
            !old(self)@.contains_key(name@) ==> r == Ok::<(), AsmError>(()) && final(self)@
                == old(self)@.insert(name@, address),
    {
        if self.map.contains_key(name) {
            return Err(AsmError::DuplicateSymbol);
        }
        self.map.insert(String::from_str(name), address);
        Ok(())
    }

    /// The address that `name` is bound to.
    pub fn get(&self, name: &str) -> (r: Option<usize>)
        ensures
            r == if self@.contains_key(name@) {
                Some(self@[name@])
            } else {
                None
            },
    {
        match self.map.get(name) {
            Some(address) => Some(*address),
            None => None,
        }
    }
}

} // verus!
