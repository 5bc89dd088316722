//! The methods the built-in types start with.
use vstd::prelude::*;
use crate::semantic::type_system::{FuncSignature, HulkType, str_eq, nullary};

verus! {

/// The methods every built-in type starts with: `toString` on `Object`,
/// `Number` and `Boolean`; `size` and `toString` on `String`; none on others.
pub(crate) fn builtin_methods_for(tname: &str) -> (m: Vec<(String, FuncSignature)>)
    ensures
        if tname@ == "Object"@ || tname@ == "Number"@ || tname@ == "Boolean"@ {
            &&& m@.len() == 1
            &&& m@[0].0@ == "toString"@ && m@[0].1.params@.len() == 0 && m@[0].1.return_type is StringT
        } else if tname@ == "String"@ {
            &&& m@.len() == 2
            &&& m@[0].0@ == "size"@ && m@[0].1.params@.len() == 0 && m@[0].1.return_type is Number
            &&& m@[1].0@ == "toString"@ && m@[1].1.params@.len() == 0 && m@[1].1.return_type is StringT
        } else {
            m@.len() == 0
        },
{
    let mut m: Vec<(String, FuncSignature)> = Vec::new();
    if str_eq(tname, "Object") || str_eq(tname, "Number") || str_eq(tname, "Boolean") {
        m.push(("toString".to_owned(), nullary(HulkType::StringT)));
    } else if str_eq(tname, "String") {
        m.push(("size".to_owned(), nullary(HulkType::Number)));
        m.push(("toString".to_owned(), nullary(HulkType::StringT)));
    }
    m
}

} // verus!
