//! Display names: C++ symbols demangled without their parameter lists.
use crate::program::Program;
use vstd::prelude::*;

verus! {

broadcast use vstd::std_specs::hash::group_hash_axioms;

/// The name that the C++ demangler makes of a symbol, parameter lists left out, or
/// `None` when the symbol is no mangled C++ name.
pub uninterp spec fn demangled(name: Seq<char>) -> Option<Seq<char>>;

/// Relies on `cpp_demangle::Symbol::new` and `Symbol::demangle` with
/// `DemangleOptions::new().no_params()`: a result that depends on the name alone.
#[verifier::external_body]
fn demangle_without_params(name: &str) -> (r: Option<String>)
    ensures
        match r {
            None => demangled(name@) is None,
            Some(s) => demangled(name@) == Some(s@),
        },
{
    let symbol = cpp_demangle::Symbol::new(name).ok()?;
    symbol.demangle(&cpp_demangle::DemangleOptions::new().no_params()).ok()
}

/// The demangled form of a C++ symbol, without parameter lists.
pub fn demangle_symbol(name: &str) -> (r: Option<String>)
    ensures
        match r {
            None => demangled(name@) is None,
            Some(s) => demangled(name@) == Some(s@),
        },
{
    demangle_without_params(name)
}

/// The name to show for a symbol: demangled when it can be, else as it is.
pub open spec fn display_name_of(name: Seq<char>) -> Seq<char> {
    match demangled(name) {
        Some(d) => d,
        None => name,
    }
}

/// The name to show for a symbol: demangled when it can be, else as it is.
pub fn display_name(name: &str) -> (r: String)
    ensures
        r@ == display_name_of(name@),
{
    match demangle_without_params(name) {
        Some(d) => d,
        None => String::from_str(name),
    }
}

impl Program {
    /// The display name of the symbol at `address`, if there is one.
    pub fn symbol_display_name(&self, address: u64) -> (r: Option<String>)
        ensures
            match r {
                None => !self.symbol_map@.contains_key(address),
                Some(s) => self.symbol_map@.contains_key(address) && s@ == display_name_of(self.symbol_map@[address]@),
            },
    {
        match self.symbol_map.get(&address) {
            None => None,
            Some(name) => Some(display_name(name.as_str())),
        }
    }
}

} // verus!
