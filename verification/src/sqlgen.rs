//! Construction of the batched DELETE statement. Identifiers are interpolated
//! into the SQL text and must already have passed identifier-safety
//! validation; the cutoff and the batch size are left as bind parameters.
use vstd::prelude::*;
use vstd::string::StringExecFns;

use crate::ident::valid_ident;

verus! {

/// The exact text of the delete statement for one table: rows whose timestamp
/// column is strictly below the bound cutoff `$1` are selected in timestamp
/// order, bounded by `$2` when `bounded` is set, and deleted.
pub open spec fn stmt_spec(table: Seq<char>, col: Seq<char>, bounded: bool) -> Seq<char> {
    "DELETE FROM \""@ + table + "\" WHERE ctid IN (SELECT ctid FROM \""@ + table
        + "\" WHERE \""@ + col + "\" < $1 ORDER BY \""@ + col + if bounded {
        "\" LIMIT $2)"@
    } else {
        "\")"@
    }
}

/// Builds the delete statement for validated identifiers.
///
/// The `requires` clause is the injection-safety gate: only names restricted
/// to `[A-Za-z0-9_]` may be spliced into SQL text.
pub fn build_delete_stmt(table: &str, col: &str, bounded: bool) -> (r: String)
    requires
        table@.len() > 0,
        valid_ident(table@),
        col@.len() > 0,
        valid_ident(col@),
    ensures
        r@ == stmt_spec(table@, col@, bounded),
{
    let mut s = String::new();
    s.append("DELETE FROM \"");
    s.append(table);
    s.append("\" WHERE ctid IN (SELECT ctid FROM \"");
    s.append(table);
    s.append("\" WHERE \"");
    s.append(col);
    s.append("\" < $1 ORDER BY \"");
    s.append(col);
    if bounded {
        s.append("\" LIMIT $2)");
    } else {
        s.append("\")");
    }
    proof {
        assert(s@ =~= stmt_spec(table@, col@, bounded));
    }
    s
}

} // verus!
