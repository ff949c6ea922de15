//! A small embedded record store: person records kept in a comma-delimited
//! text file with auto-incrementing identifiers, field escaping and
//! whole-file rewrite on mutation.
//!
//! The modules are layered: `texto` holds verified text utilities (trim,
//! split, decimal conversion), `codec` the field escaping pair, `registro`
//! the person record and its validation, `formato` the line and file format,
//! and `armazenamento` the repository state and its operations over file
//! contents. All file input and output stays with the host; the library
//! works on plain strings and proves what each operation does to them.

use vstd::prelude::*;
use vstd::string::StringExecFns;

pub mod armazenamento;
pub mod codec;
pub mod formato;
pub mod registro;
pub mod texto;

verus! {

/// Builds the greeting `Opa, <name>!`.
pub fn meu_ola(name: String) -> (r: String)
    ensures
        r@ == "Opa, "@ + name@ + "!"@,
{
    let mut r = String::from_str("Opa, ");
    r.append(name.as_str());
    r.append("!");
    r
}

} // verus!
