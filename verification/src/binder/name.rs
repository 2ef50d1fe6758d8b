//! Names of tables: folded to lower case, and split into schema and table.
use crate::binder::error::{parts, BindError, BindErrorView};
use crate::parser::ast::ObjectName;
use vstd::prelude::*;

verus! {

/// The schema of a table that is named without one.
pub const DEFAULT_SCHEMA_NAME: &'static str = "kipsql";

/// The lower-case form of a text, as the standard library's
/// `str::to_lowercase` gives it.
pub uninterp spec fn lowercase(s: Seq<char>) -> Seq<char>;

/// `str::to_lowercase` of the standard library: the text with each
/// character replaced by its lower-case form.
#[verifier::external_body]
pub(crate) fn to_lowercase(s: &str) -> (r: String)
    ensures
        r@ == lowercase(s@),
{
    s.to_lowercase()
}

/// The name with each part in lower case.
pub fn lower_case_name(name: &ObjectName) -> (r: ObjectName)
    ensures
        parts(r.0@) == parts(name.0@).map_values(|p: Seq<char>| lowercase(p)),
{
    let mut out: Vec<String> = Vec::new();
    let mut i: usize = 0;
    while i < name.0.len()
        invariant
            i <= name.0@.len(),
            out@.len() == i,
            forall|j: int| 0 <= j < i ==> out@[j]@ == lowercase(name.0@[j]@),
        decreases name.0@.len() - i,
    {
        out.push(to_lowercase(name.0[i].as_str()));
        i += 1;
    }
    let r = ObjectName(out);
    assert(parts(r.0@) =~= parts(name.0@).map_values(|p: Seq<char>| lowercase(p)));
    r
}

/// Schema and table of a name of one or two parts; a name of one part is
/// in the default schema. Any other name is refused.
pub fn split_name(name: &ObjectName) -> (r: Result<(&str, &str), BindError>)
    ensures
        name.0@.len() == 1 ==> (r matches Ok((schema, table)) && schema@ == DEFAULT_SCHEMA_NAME@
            && table@ == name.0@[0]@),
        name.0@.len() == 2 ==> (r matches Ok((schema, table)) && schema@ == name.0@[0]@ && table@
            == name.0@[1]@),
        name.0@.len() != 1 && name.0@.len() != 2 ==> (r matches Err(e) && e@
            == BindErrorView::InvalidTableName(parts(name.0@))),
{
    if name.0.len() == 1 {
        Ok((DEFAULT_SCHEMA_NAME, name.0[0].as_str()))
    } else if name.0.len() == 2 {
        Ok((name.0[0].as_str(), name.0[1].as_str()))
    } else {
        let mut copy: Vec<String> = Vec::new();
        let mut i: usize = 0;
        while i < name.0.len()
            invariant
                i <= name.0@.len(),
                copy@.len() == i,
                forall|j: int| 0 <= j < i ==> copy@[j]@ == name.0@[j]@,
            decreases name.0@.len() - i,
        {
            copy.push(name.0[i].clone());
            i += 1;
        }
        assert(parts(copy@) =~= parts(name.0@));
        Err(BindError::InvalidTableName(copy))
    }
}

} // verus!
